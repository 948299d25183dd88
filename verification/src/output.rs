//! How results are shown.
use vstd::prelude::*;

verus! {

/// The form in which measurements are printed.
#[derive(Clone, Copy, Debug)]
pub enum OutputMode {
    /// Comma-separated values, one line for each measurement.
    Csv,
    /// Text for a human reader.
    Pretty,
}

impl OutputMode {
    /// Whether measurements are printed as comma-separated values.
    pub fn is_csv(self) -> (r: bool)
        ensures
            r == (self is Csv),
    {
        match self {
            OutputMode::Csv => true,
            _ => false,
        }
    }

    /// Whether measurements can be printed as text, which holds of every
    /// mode.
    pub fn is_pretty(self) -> (r: bool)
        ensures
            r,
    {
        match self {
            OutputMode::Pretty => true,
            _ => true,
        }
    }
}

} // verus!
