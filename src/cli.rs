use vstd::prelude::*;

verus! {

/// The options of one run: the pattern, where the words go, and their order.
pub struct Cli {
    /// The pattern to expand.
    pub pattern: String,
    /// The file to write the words to; standard output when absent.
    pub output: Option<String>,
    /// Put the words in a random order.
    pub random: bool,
    /// Put the words in the opposite order.
    pub inverse: bool,
    /// Print the version and stop.
    pub version: bool,
}

/// The order the words are handed out in.
#[derive(Debug, Clone, Copy, PartialEq, Eq)]
pub enum Arrangement {
    /// The order in which they were generated.
    Generated,
    /// A random order.
    Shuffled,
    /// The reverse of the generated order.
    Reversed,
}

impl Cli {
    /// The arrangement the options ask for. A random order takes precedence:
    /// when both `random` and `inverse` are set, the words are shuffled and
    /// not reversed.
    pub fn arrangement(&self) -> (r: Arrangement)
        ensures
            r == (if self.random {
                Arrangement::Shuffled
            } else if self.inverse {
                Arrangement::Reversed
            } else {
                Arrangement::Generated
            }),
    {
        if self.random {
            Arrangement::Shuffled
        } else if self.inverse {
            Arrangement::Reversed
        } else {
            Arrangement::Generated
        }
    }
}

} // verus!
