use vstd::prelude::*;

verus! {

/// The two ways a call on a network can be rejected.
#[derive(Clone, Copy, Debug, PartialEq, Eq, Structural)]
pub enum Error {
    /// A forward pass was given a vector whose length is not the network's
    /// input size.
    InputSizeMismatch,
    /// A training step was given batches of inputs and targets of different
    /// lengths.
    BatchSizeMismatch,
}

impl Error {
    /// The text that describes each error.
    pub open spec fn message_text(self) -> Seq<char> {
        match self {
            Error::InputSizeMismatch => "Wrong input data size !"@,
            Error::BatchSizeMismatch => "Wrong data size"@,
        }
    }

    /// A short human-readable description of the error.
    pub fn message(self) -> (text: &'static str)
        ensures
            text@ == self.message_text(),
    {
        match self {
            Error::InputSizeMismatch => "Wrong input data size !",
            Error::BatchSizeMismatch => "Wrong data size",
        }
    }
}

} // verus!
