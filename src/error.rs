use vstd::prelude::*;

verus! {

/// Failures while bringing up the audio devices.
#[derive(Debug, Clone, Copy, PartialEq, Eq, Structural)]
pub enum Error {
    InputDeviceInitError,
    OutputDeviceInitError,
    UnsupportedSampleFormat,
}

impl Error {
    /// The human-readable text of each failure.
    pub open spec fn message_spec(self) -> Seq<char> {
        match self {
            Error::InputDeviceInitError => "input device init error"@,
            Error::OutputDeviceInitError => "output device init error"@,
            Error::UnsupportedSampleFormat => "unsupported sample format"@,
        }
    }

    /// Describes the failure in words.
    pub fn message(&self) -> (r: String)
        ensures
            r@ == self.message_spec(),
    {
        match self {
            Error::InputDeviceInitError => "input device init error".to_string(),
            Error::OutputDeviceInitError => "output device init error".to_string(),
            Error::UnsupportedSampleFormat => "unsupported sample format".to_string(),
        }
    }
}

} // verus!
