use vstd::prelude::*;

verus! {

/// Why a stage refused to run or gave up.
#[derive(Clone, Copy, Debug, PartialEq, Eq, Structural)]
pub enum KasmError {
    /// The classifier or the repack filter is not a valid regular expression.
    BadPattern,
    /// The configured pair of unpack and repack structures has no strategy.
    UnsupportedStructure,
    /// The files were fetched, and a fetched ledger cannot be repacked into
    /// one folder per submitter.
    UnsupportedSource,
    /// The working directory of the sheet is already there.
    AlreadyExists,
    /// The working directory of the sheet is not there.
    MissingDirectory,
    /// The working directory holds no grades file.
    MissingGrades,
    /// The working directory holds no filtered roster although the grades
    /// were built from one.
    MissingRoster,
    /// No roster row belongs to the configured group.
    NoMatchingRecords,
    /// An archive entry of the configured group has a path that names no
    /// unit directory or no file.
    MalformedEntry,
    /// No target was given and no segment of the current path names one.
    TargetNotInferred,
    /// No ledger entry belongs to the target.
    NoMatchingGroup,
    /// A roster row that is to be repacked has an id without the platform's
    /// prefix.
    MalformedSubmitterId,
    /// The name of the chosen assignment holds no sheet number.
    SheetNotNumbered,
    /// The platform listed no submission for a group that is to be fetched.
    MissingSubmission,
    /// The platform's reply is no JSON or not of the expected shape.
    UnexpectedReply,
    /// The ledger names no assignment to push grades to.
    MissingAssignment,
    /// A ledger entry names no member to push the grade to.
    MissingMembers,
}

/// What the operator is told of a failure.
pub open spec fn message_of(e: KasmError) -> Seq<char> {
    match e {
        KasmError::BadPattern => "the configured expression is not a valid regular expression"@,
        KasmError::UnsupportedStructure =>
            "this pair of unpack and repack structures is not supported"@,
        KasmError::UnsupportedSource =>
            "repacking groups into individuals is not supported for fetched files"@,
        KasmError::AlreadyExists => "unpack path already exists!"@,
        KasmError::MissingDirectory => "the unpack path is not a directory"@,
        KasmError::MissingGrades => "grades file could not be found"@,
        KasmError::MissingRoster => "filtered csv file could not be found"@,
        KasmError::NoMatchingRecords => "could not find any records matching the group"@,
        KasmError::MalformedEntry => "an archive entry names no unit directory or no file"@,
        KasmError::TargetNotInferred =>
            "you didn't specify the group to be graded and it couldn't be inferred"@,
        KasmError::NoMatchingGroup => "no matching group found!"@,
        KasmError::MalformedSubmitterId => "a submitter id lacks the platform's prefix"@,
        KasmError::SheetNotNumbered => "the assignment's name holds no sheet number"@,
        KasmError::MissingSubmission => "a group to fetch has no submission"@,
        KasmError::UnexpectedReply => "the platform's reply is not of the expected shape"@,
        KasmError::MissingAssignment => "the grades file names no assignment"@,
        KasmError::MissingMembers => "a grades entry names no member"@,
    }
}

impl KasmError {
    /// What to tell the operator.
    pub fn message(&self) -> (text: &'static str)
        ensures
            text@ == message_of(*self),
    {
        match self {
            KasmError::BadPattern => "the configured expression is not a valid regular expression",
            KasmError::UnsupportedStructure =>
                "this pair of unpack and repack structures is not supported",
            KasmError::UnsupportedSource =>
                "repacking groups into individuals is not supported for fetched files",
            KasmError::AlreadyExists => "unpack path already exists!",
            KasmError::MissingDirectory => "the unpack path is not a directory",
            KasmError::MissingGrades => "grades file could not be found",
            KasmError::MissingRoster => "filtered csv file could not be found",
            KasmError::NoMatchingRecords => "could not find any records matching the group",
            KasmError::MalformedEntry => "an archive entry names no unit directory or no file",
            KasmError::TargetNotInferred =>
                "you didn't specify the group to be graded and it couldn't be inferred",
            KasmError::NoMatchingGroup => "no matching group found!",
            KasmError::MalformedSubmitterId => "a submitter id lacks the platform's prefix",
            KasmError::SheetNotNumbered => "the assignment's name holds no sheet number",
            KasmError::MissingSubmission => "a group to fetch has no submission",
            KasmError::UnexpectedReply => "the platform's reply is not of the expected shape",
            KasmError::MissingAssignment => "the grades file names no assignment",
            KasmError::MissingMembers => "a grades entry names no member",
        }
    }
}

/// An outcome with its value as plain values.
pub open spec fn outcome<T: DeepView>(r: Result<T, KasmError>) -> Result<T::V, KasmError> {
    match r {
        Ok(value) => Ok(value.deep_view()),
        Err(e) => Err(e),
    }
}

} // verus!
