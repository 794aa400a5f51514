use vstd::prelude::*;

verus! {

/// Every way in which a run of the generator can fail.
#[derive(Debug, PartialEq, Eq)]
pub enum DataGenError {
    /// No `file:` argument names a destination.
    MissingOutputFile,
    /// No time argument was given.
    NoTimesSpecified,
    /// A time argument holds a character that is neither a digit nor a separator.
    InvalidCharacter { character: char, param: String },
    /// The hour field of a time argument is above 23.
    HourOutOfRange { param: String },
    /// The minute field of a time argument is above 59.
    MinuteOutOfRange { param: String },
    /// More offsets would be produced than the cap allows.
    TooManyValues { count: u32, max: u32, file_name: String },
    /// The destination could not be created or written.
    FileWriteError { path: String, cause: String },
}

} // verus!
