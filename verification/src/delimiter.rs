//! Picking the field separator of a document from its first line.

use crate::config::CSVAnalyzer;
use vstd::prelude::*;

verus! {

/// The position of the first line feed at or after `from`, or the length of
/// `s` where there is none.
pub open spec fn line_end(s: Seq<char>, from: int) -> int
    decreases s.len() - from,
{
    if 0 <= from < s.len() && s[from] != '\n' {
        line_end(s, from + 1)
    } else {
        from
    }
}

/// The text before the first line feed, or all of `content` where it has
/// none.
pub open spec fn first_line(content: Seq<char>) -> Seq<char> {
    content.take(line_end(content, 0))
}

/// How often `c` occurs in `line`.
pub open spec fn occurrences(line: Seq<char>, c: char) -> nat
    decreases line.len(),
{
    if line.len() == 0 {
        0
    } else {
        occurrences(line.drop_last(), c) + if line.last() == c {
            1nat
        } else {
            0nat
        }
    }
}

/// The separator that a first line calls for: of comma, semicolon, tab and
/// pipe the one that occurs most often, the later of these where two occur
/// equally often, and the comma where none occurs.
pub open spec fn separator_of(line: Seq<char>) -> char {
    let commas = occurrences(line, ',');
    let semicolons = occurrences(line, ';');
    let tabs = occurrences(line, '\t');
    let pipes = occurrences(line, '|');
    if commas == 0 && semicolons == 0 && tabs == 0 && pipes == 0 {
        ','
    } else if pipes >= commas && pipes >= semicolons && pipes >= tabs {
        '|'
    } else if tabs >= commas && tabs >= semicolons {
        '\t'
    } else if semicolons >= commas {
        ';'
    } else {
        ','
    }
}

/// The separator of a document.
pub open spec fn delimiter_of(content: Seq<char>) -> char {
    separator_of(first_line(content))
}

/// The byte that stands for a separator.
pub open spec fn separator_byte(separator: char) -> u8 {
    if separator == ';' {
        59
    } else if separator == '\t' {
        9
    } else if separator == '|' {
        124
    } else {
        44
    }
}

/// A line that runs from `from` without a line feed ends at `to`, where
/// the text ends or a line feed stands.
pub proof fn lemma_line_end_found(s: Seq<char>, from: int, to: int)
    requires
        0 <= from <= to <= s.len(),
        forall|i: int| from <= i < to ==> s[i] != '\n',
        to == s.len() || s[to] == '\n',
    ensures
        line_end(s, from) == to,
    decreases to - from,
{
    if from < to {
        lemma_line_end_found(s, from + 1, to);
    }
}

/// A count never exceeds the length of the line.
pub proof fn lemma_occurrences_bounded(line: Seq<char>, c: char)
    ensures
        occurrences(line, c) <= line.len(),
    decreases line.len(),
{
    if line.len() > 0 {
        lemma_occurrences_bounded(line.drop_last(), c);
    }
}

/// The separator that the counts of the four candidates call for.
pub fn choose_separator(commas: usize, semicolons: usize, tabs: usize, pipes: usize) -> (separator:
    char)
    ensures
        separator == if commas == 0 && semicolons == 0 && tabs == 0 && pipes == 0 {
            ','
        } else if pipes >= commas && pipes >= semicolons && pipes >= tabs {
            '|'
        } else if tabs >= commas && tabs >= semicolons {
            '\t'
        } else if semicolons >= commas {
            ';'
        } else {
            ','
        },
{
    if commas == 0 && semicolons == 0 && tabs == 0 && pipes == 0 {
        ','
    } else if pipes >= commas && pipes >= semicolons && pipes >= tabs {
        '|'
    } else if tabs >= commas && tabs >= semicolons {
        '\t'
    } else if semicolons >= commas {
        ';'
    } else {
        ','
    }
}

/// The byte that stands for `separator` when a document is split.
pub fn byte_of_separator(separator: char) -> (byte: u8)
    ensures
        byte == separator_byte(separator),
{
    if separator == ';' {
        59
    } else if separator == '\t' {
        9
    } else if separator == '|' {
        124
    } else {
        44
    }
}

impl CSVAnalyzer {
    /// The separator of `content`, read off its first line.
    pub fn detect_delimiter(content: &str) -> (delimiter: char)
        ensures
            delimiter == delimiter_of(content@),
    {
        let length = content.unicode_len();
        let mut commas: usize = 0;
        let mut semicolons: usize = 0;
        let mut tabs: usize = 0;
        let mut pipes: usize = 0;
        for c in it: content.chars()
            invariant
                it.seq() == content@,
                length == content@.len(),
                forall|i: int| 0 <= i < it.index() ==> it.seq()[i] != '\n',
                commas == occurrences(it.seq().take(it.index()), ','),
                semicolons == occurrences(it.seq().take(it.index()), ';'),
                tabs == occurrences(it.seq().take(it.index()), '\t'),
                pipes == occurrences(it.seq().take(it.index()), '|'),
        {
            let ghost seen = it.seq().take(it.index());
            if c == '\n' {
                proof {
                    lemma_line_end_found(content@, 0, it.index());
                }
                return choose_separator(commas, semicolons, tabs, pipes);
            }
            proof {
                let next = it.seq().take(it.index() + 1);
                assert(next.drop_last() =~= seen);
                lemma_occurrences_bounded(next, ',');
                lemma_occurrences_bounded(next, ';');
                lemma_occurrences_bounded(next, '\t');
                lemma_occurrences_bounded(next, '|');
            }
            if c == ',' {
                commas += 1;
            } else if c == ';' {
                semicolons += 1;
            } else if c == '\t' {
                tabs += 1;
            } else if c == '|' {
                pipes += 1;
            }
        }
        proof {
            lemma_line_end_found(content@, 0, content@.len() as int);
        }
        choose_separator(commas, semicolons, tabs, pipes)
    }
}

} // verus!
