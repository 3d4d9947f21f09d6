//! The type labels and the cascade that picks one for a value.

use crate::config::CSVAnalyzer;
use crate::grammar::{is_boolean_text, is_float_text, is_integer_text};
use crate::patterns::{
    matches_each, regex_is_match, DATETIME, DATE_DASHED, DATE_SLASHED, EMAIL, IPV4, IPV6, TIME,
    URL,
};
use crate::text::texts;
use vstd::prelude::*;

verus! {

/// The semantic type of a value or of a column. `Null` is never the label of
/// a value: it marks a column in which no value was found to classify.
#[derive(Clone, Copy, Debug, PartialEq, Eq, Structural)]
pub enum TypeLabel {
    Boolean,
    Integer,
    Float,
    Date,
    DateTime,
    Time,
    Email,
    Url,
    Ip,
    Text,
    Null,
}

/// What each format check says of one value.
#[derive(Clone, Copy, Debug)]
pub struct FormatChecks {
    pub boolean: bool,
    pub integer: bool,
    pub float: bool,
    pub date: bool,
    pub datetime: bool,
    pub time: bool,
    pub email: bool,
    pub url: bool,
    pub ip: bool,
}

/// The outcome of every format check on the text `value`.
pub open spec fn checks_of(value: Seq<char>) -> FormatChecks {
    FormatChecks {
        boolean: is_boolean_text(value),
        integer: is_integer_text(value),
        float: is_float_text(value),
        date: regex_is_match(DATE_DASHED@, value) || regex_is_match(DATE_SLASHED@, value),
        datetime: regex_is_match(DATETIME@, value),
        time: regex_is_match(TIME@, value),
        email: regex_is_match(EMAIL@, value),
        url: regex_is_match(URL@, value),
        ip: regex_is_match(IPV4@, value) || regex_is_match(IPV6@, value),
    }
}

/// The label of the text `value`.
pub open spec fn label_of(value: Seq<char>) -> TypeLabel {
    TypeLabel::cascade(checks_of(value))
}

impl TypeLabel {
    /// The place of a label in the cascade, from 0 for `Boolean` to 9 for
    /// `Text`; `Null`, which is outside the cascade, comes last.
    pub open spec fn rank(self) -> nat {
        match self {
            TypeLabel::Boolean => 0,
            TypeLabel::Integer => 1,
            TypeLabel::Float => 2,
            TypeLabel::Date => 3,
            TypeLabel::DateTime => 4,
            TypeLabel::Time => 5,
            TypeLabel::Email => 6,
            TypeLabel::Url => 7,
            TypeLabel::Ip => 8,
            TypeLabel::Text => 9,
            TypeLabel::Null => 10,
        }
    }

    /// The label at a place of the cascade.
    pub open spec fn at_rank(rank: nat) -> TypeLabel {
        if rank == 0 {
            TypeLabel::Boolean
        } else if rank == 1 {
            TypeLabel::Integer
        } else if rank == 2 {
            TypeLabel::Float
        } else if rank == 3 {
            TypeLabel::Date
        } else if rank == 4 {
            TypeLabel::DateTime
        } else if rank == 5 {
            TypeLabel::Time
        } else if rank == 6 {
            TypeLabel::Email
        } else if rank == 7 {
            TypeLabel::Url
        } else if rank == 8 {
            TypeLabel::Ip
        } else if rank == 9 {
            TypeLabel::Text
        } else {
            TypeLabel::Null
        }
    }

    /// The first label, in the order of the cascade, whose check holds;
    /// `Text` where none does.
    pub open spec fn cascade(checks: FormatChecks) -> TypeLabel {
        if checks.boolean {
            TypeLabel::Boolean
        } else if checks.integer {
            TypeLabel::Integer
        } else if checks.float {
            TypeLabel::Float
        } else if checks.date {
            TypeLabel::Date
        } else if checks.datetime {
            TypeLabel::DateTime
        } else if checks.time {
            TypeLabel::Time
        } else if checks.email {
            TypeLabel::Email
        } else if checks.url {
            TypeLabel::Url
        } else if checks.ip {
            TypeLabel::Ip
        } else {
            TypeLabel::Text
        }
    }

    /// The name under which a label is reported.
    pub open spec fn name_text(self) -> Seq<char> {
        match self {
            TypeLabel::Boolean => "boolean"@,
            TypeLabel::Integer => "integer"@,
            TypeLabel::Float => "float"@,
            TypeLabel::Date => "date"@,
            TypeLabel::DateTime => "datetime"@,
            TypeLabel::Time => "time"@,
            TypeLabel::Email => "email"@,
            TypeLabel::Url => "url"@,
            TypeLabel::Ip => "ip"@,
            TypeLabel::Text => "string"@,
            TypeLabel::Null => "null"@,
        }
    }

    /// The place of this label in the cascade.
    pub fn index(self) -> (rank: usize)
        ensures
            rank == self.rank(),
    {
        match self {
            TypeLabel::Boolean => 0,
            TypeLabel::Integer => 1,
            TypeLabel::Float => 2,
            TypeLabel::Date => 3,
            TypeLabel::DateTime => 4,
            TypeLabel::Time => 5,
            TypeLabel::Email => 6,
            TypeLabel::Url => 7,
            TypeLabel::Ip => 8,
            TypeLabel::Text => 9,
            TypeLabel::Null => 10,
        }
    }

    /// The label at a place of the cascade.
    pub fn from_index(rank: usize) -> (label: TypeLabel)
        ensures
            label == TypeLabel::at_rank(rank as nat),
    {
        match rank {
            0 => TypeLabel::Boolean,
            1 => TypeLabel::Integer,
            2 => TypeLabel::Float,
            3 => TypeLabel::Date,
            4 => TypeLabel::DateTime,
            5 => TypeLabel::Time,
            6 => TypeLabel::Email,
            7 => TypeLabel::Url,
            8 => TypeLabel::Ip,
            9 => TypeLabel::Text,
            _ => TypeLabel::Null,
        }
    }

    /// The name under which this label is reported.
    pub fn name(self) -> (name: &'static str)
        ensures
            name@ == self.name_text(),
    {
        match self {
            TypeLabel::Boolean => "boolean",
            TypeLabel::Integer => "integer",
            TypeLabel::Float => "float",
            TypeLabel::Date => "date",
            TypeLabel::DateTime => "datetime",
            TypeLabel::Time => "time",
            TypeLabel::Email => "email",
            TypeLabel::Url => "url",
            TypeLabel::Ip => "ip",
            TypeLabel::Text => "string",
            TypeLabel::Null => "null",
        }
    }

    /// The label that the cascade gives to a value of which `checks` holds.
    pub fn from_checks(checks: FormatChecks) -> (label: TypeLabel)
        ensures
            label == TypeLabel::cascade(checks),
            label != TypeLabel::Null,
    {
        if checks.boolean {
            TypeLabel::Boolean
        } else if checks.integer {
            TypeLabel::Integer
        } else if checks.float {
            TypeLabel::Float
        } else if checks.date {
            TypeLabel::Date
        } else if checks.datetime {
            TypeLabel::DateTime
        } else if checks.time {
            TypeLabel::Time
        } else if checks.email {
            TypeLabel::Email
        } else if checks.url {
            TypeLabel::Url
        } else if checks.ip {
            TypeLabel::Ip
        } else {
            TypeLabel::Text
        }
    }
}

/// The label of each text.
pub open spec fn labels_of(items: Seq<Seq<char>>) -> Seq<TypeLabel> {
    Seq::new(items.len(), |i: int| label_of(items[i]))
}

/// Whether one of the checks by grammar holds of `value`, so that no
/// pattern is needed to label it.
pub open spec fn settled_by_grammar(value: Seq<char>) -> bool {
    is_boolean_text(value) || is_integer_text(value) || is_float_text(value)
}

/// Whether `found` tells of each of `items` whether `pattern` matches it.
pub open spec fn answers(pattern: Seq<char>, items: Seq<Seq<char>>, found: Seq<bool>) -> bool {
    &&& found.len() == items.len()
    &&& forall|i: int| 0 <= i < items.len() ==> #[trigger] found[i] == regex_is_match(pattern, items[i])
}

/// What every pattern says of each of some texts.
struct PatternAnswers {
    date_dashed: Vec<bool>,
    date_slashed: Vec<bool>,
    datetime: Vec<bool>,
    time: Vec<bool>,
    email: Vec<bool>,
    url: Vec<bool>,
    ipv4: Vec<bool>,
    ipv6: Vec<bool>,
}

/// Whether each of `items` matches `pattern`.
fn ask(pattern: &str, values: &Vec<String>) -> (found: Vec<bool>)
    ensures
        answers(pattern@, texts(values@), found@),
{
    let found = matches_each(pattern, values);
    assert forall|i: int| 0 <= i < values@.len() implies #[trigger] found@[i] == regex_is_match(
        pattern@,
        texts(values@)[i],
    ) by {
        assert(texts(values@)[i] == values@[i]@);
    }
    found
}

impl PatternAnswers {
    /// Whether these are the answers of the patterns for `items`.
    spec fn tells_of(&self, items: Seq<Seq<char>>) -> bool {
        &&& answers(DATE_DASHED@, items, self.date_dashed@)
        &&& answers(DATE_SLASHED@, items, self.date_slashed@)
        &&& answers(DATETIME@, items, self.datetime@)
        &&& answers(TIME@, items, self.time@)
        &&& answers(EMAIL@, items, self.email@)
        &&& answers(URL@, items, self.url@)
        &&& answers(IPV4@, items, self.ipv4@)
        &&& answers(IPV6@, items, self.ipv6@)
    }

    /// Tries every pattern on each of `values`; each pattern is compiled
    /// once.
    fn of(values: &Vec<String>) -> (found: Self)
        ensures
            found.tells_of(texts(values@)),
    {
        PatternAnswers {
            date_dashed: ask(DATE_DASHED, values),
            date_slashed: ask(DATE_SLASHED, values),
            datetime: ask(DATETIME, values),
            time: ask(TIME, values),
            email: ask(EMAIL, values),
            url: ask(URL, values),
            ipv4: ask(IPV4, values),
            ipv6: ask(IPV6, values),
        }
    }

    /// The checks of the text at `at`, which no check by grammar settles.
    fn checks_at(&self, at: usize, Ghost(items): Ghost<Seq<Seq<char>>>) -> (checks: FormatChecks)
        requires
            self.tells_of(items),
            at < items.len(),
            !settled_by_grammar(items[at as int]),
        ensures
            checks == checks_of(items[at as int]),
    {
        FormatChecks {
            boolean: false,
            integer: false,
            float: false,
            date: self.date_dashed[at] || self.date_slashed[at],
            datetime: self.datetime[at],
            time: self.time[at],
            email: self.email[at],
            url: self.url[at],
            ip: self.ipv4[at] || self.ipv6[at],
        }
    }
}

impl CSVAnalyzer {
    /// The label of `value`: the checks are tried in the order of the
    /// cascade, and the first that holds decides.
    pub fn classify(value: &str) -> (label: TypeLabel)
        ensures
            label == label_of(value@),
            label != TypeLabel::Null,
    {
        let mut one: Vec<String> = Vec::new();
        one.push(value.to_owned());
        let labels = Self::classify_all(&one);
        labels[0]
    }

    /// The label that the grammar alone gives to `value`, if it gives one.
    pub fn classify_by_grammar(value: &str) -> (label: Option<TypeLabel>)
        ensures
            label is Some <==> settled_by_grammar(value@),
            label matches Some(found) ==> found == label_of(value@) && found != TypeLabel::Null,
    {
        if Self::is_boolean(value) {
            Some(TypeLabel::Boolean)
        } else if Self::is_integer(value) {
            Some(TypeLabel::Integer)
        } else if Self::is_float(value) {
            Some(TypeLabel::Float)
        } else {
            None
        }
    }

    /// The label of each of `values`. The checks by grammar are made value
    /// by value; the patterns are tried on all values together, each
    /// compiled once, and not at all where the grammar settles every value.
    pub fn classify_all(values: &Vec<String>) -> (labels: Vec<TypeLabel>)
        ensures
            labels@ == labels_of(texts(values@)),
            forall|i: int| 0 <= i < labels@.len() ==> labels@[i] != TypeLabel::Null,
    {
        let ghost items = texts(values@);
        let mut early: Vec<Option<TypeLabel>> = Vec::new();
        let mut open_cases = false;
        let mut i: usize = 0;
        while i < values.len()
            invariant
                i <= values.len(),
                items == texts(values@),
                early@.len() == i,
                !open_cases ==> forall|k: int| 0 <= k < i ==> settled_by_grammar(items[k]),
                forall|k: int|
                    0 <= k < i ==> ((#[trigger] early@[k]) is Some <==> settled_by_grammar(items[k])),
                forall|k: int|
                    0 <= k < i ==> ((#[trigger] early@[k]) matches Some(label) ==> label
                        == label_of(items[k]) && label != TypeLabel::Null),
            decreases values.len() - i,
        {
            let label = Self::classify_by_grammar(values[i].as_str());
            if label.is_none() {
                open_cases = true;
            }
            early.push(label);
            i += 1;
        }
        let patterns = if open_cases {
            Some(PatternAnswers::of(values))
        } else {
            None
        };
        let mut labels: Vec<TypeLabel> = Vec::new();
        let mut i: usize = 0;
        while i < values.len()
            invariant
                i <= values.len(),
                items == texts(values@),
                early@.len() == values.len(),
                labels@.len() == i,
                patterns matches Some(found) ==> found.tells_of(items),
                patterns is None ==> forall|k: int|
                    0 <= k < values.len() ==> settled_by_grammar(items[k]),
                forall|k: int|
                    0 <= k < values.len() ==> ((#[trigger] early@[k]) is Some <==> settled_by_grammar(
                        items[k],
                    )),
                forall|k: int|
                    0 <= k < values.len() ==> ((#[trigger] early@[k]) matches Some(label) ==> label
                        == label_of(items[k]) && label != TypeLabel::Null),
                forall|k: int|
                    0 <= k < i ==> #[trigger] labels@[k] == label_of(items[k]) && labels@[k]
                        != TypeLabel::Null,
            decreases values.len() - i,
        {
            let label = match (early[i], &patterns) {
                (Some(label), _) => label,
                (None, Some(found)) => TypeLabel::from_checks(found.checks_at(i, Ghost(items))),
                (None, None) => TypeLabel::Text,
            };
            labels.push(label);
            i += 1;
        }
        assert(labels@ =~= labels_of(items));
        labels
    }
}

} // verus!
