//! The ways in which a run can fail.

use vstd::prelude::*;

verus! {

/// Why a step failed. A failure of one candidate leaves the other
/// candidates of the image alone, and a failure of one image leaves the
/// other images alone; only a bad configuration stops the whole run.
#[derive(Debug)]
pub enum Failure {
    /// The configuration cannot be used: a preset file that lacks what is
    /// required of it, or options that contradict each other.
    Config,
    /// A candidate names a preset that the catalog does not hold.
    UnknownPreset,
    /// A candidate is malformed, or its preset refers to an argument that
    /// the candidate does not give.
    SpecParse,
    /// The encoder ended with a status other than success; both of its
    /// output streams are kept for the log.
    EncoderProcess { stderr: Vec<u8>, stdout: Vec<u8> },
    /// The input file could not be examined, or its path has no usable name.
    ImageMetadata,
    /// A directory or a file could not be written.
    Io,
}

impl Failure {
    /// A short description of the failure.
    pub fn message(&self) -> (s: String)
        ensures
            s@ == match self {
                Failure::Config => "bad configuration"@,
                Failure::UnknownPreset => "no such preset"@,
                Failure::SpecParse => "malformed candidate"@,
                Failure::EncoderProcess { .. } => "command returned error status"@,
                Failure::ImageMetadata => "cannot examine the input file"@,
                Failure::Io => "cannot write the output"@,
            },
    {
        match self {
            Failure::Config => "bad configuration".to_owned(),
            Failure::UnknownPreset => "no such preset".to_owned(),
            Failure::SpecParse => "malformed candidate".to_owned(),
            Failure::EncoderProcess { .. } => "command returned error status".to_owned(),
            Failure::ImageMetadata => "cannot examine the input file".to_owned(),
            Failure::Io => "cannot write the output".to_owned(),
        }
    }
}

} // verus!
