use vstd::prelude::*;

verus! {

/// What `unpack` is asked to do.
#[derive(Debug)]
pub struct UnpackFiles {
    pub sheet_id: String,
    /// Path of the archive downloaded from the platform.
    pub moodle_zip: String,
    /// Path of the roster downloaded from the platform.
    pub moodle_csv: String,
}

/// What `repack` is asked to do.
#[derive(Debug)]
pub struct RepackDir {
    pub sheet_id: String,
}

/// What `grade` is asked to do.
#[derive(Debug)]
pub struct GradeCmd {
    /// The grade to give, written as the platform expects it.
    pub grade: String,
    /// The unit to grade; read off the current path where absent.
    pub target: Option<String>,
}

} // verus!
