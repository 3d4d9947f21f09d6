//! The engine and its one setting: how many values of a column are examined.

use vstd::prelude::*;

verus! {

/// The configuration of an analysis: an optional cap on the number of values
/// of each column that classification, range and length statistics look at.
#[derive(Clone, Copy, Debug)]
pub struct AnalyzerConfig {
    sample_size: Option<usize>,
}

/// The inference engine. It holds its configuration and nothing else, so
/// calls on it are independent of each other.
#[derive(Clone, Copy, Debug)]
pub struct CSVAnalyzer {
    config: AnalyzerConfig,
}

/// The number of leading values of a column of `total` values that are
/// examined under the cap `cap`.
pub open spec fn sample_len(cap: Option<usize>, total: nat) -> nat {
    match cap {
        Some(size) => if (size as nat) < total {
            size as nat
        } else {
            total
        },
        None => total,
    }
}

impl AnalyzerConfig {
    /// The configured cap.
    pub closed spec fn cap(&self) -> Option<usize> {
        self.sample_size
    }

    /// A configuration without a cap: every value is examined.
    pub fn new() -> (config: Self)
        ensures
            config.cap() is None,
    {
        AnalyzerConfig { sample_size: None }
    }

    /// Sets or removes the cap.
    pub fn set_sample_size(&mut self, size: Option<usize>)
        ensures
            final(self).cap() == size,
    {
        self.sample_size = size;
    }

    /// The configured cap.
    pub fn sample_size(&self) -> (size: Option<usize>)
        ensures
            size == self.cap(),
    {
        self.sample_size
    }
}

impl Default for AnalyzerConfig {
    fn default() -> (config: Self)
        ensures
            config.cap() is None,
    {
        AnalyzerConfig::new()
    }
}

impl CSVAnalyzer {
    /// The cap that this engine works under.
    pub closed spec fn cap(&self) -> Option<usize> {
        self.config.cap()
    }

    /// An engine with the given configuration, or with the default one.
    pub fn new(config: Option<AnalyzerConfig>) -> (engine: Self)
        ensures
            engine.cap() == match config {
                Some(given) => given.cap(),
                None => None,
            },
    {
        match config {
            Some(given) => CSVAnalyzer { config: given },
            None => CSVAnalyzer { config: AnalyzerConfig::new() },
        }
    }

    /// The configuration of this engine.
    pub fn config(&self) -> (config: AnalyzerConfig)
        ensures
            config.cap() == self.cap(),
    {
        self.config
    }

    /// The number of leading values examined in a column of `total_size`
    /// values.
    pub fn get_sample_size(&self, total_size: usize) -> (size: usize)
        ensures
            size == sample_len(self.cap(), total_size as nat),
    {
        match self.config.sample_size() {
            Some(size) => if size < total_size {
                size
            } else {
                total_size
            },
            None => total_size,
        }
    }
}

} // verus!
