use vstd::prelude::*;

verus! {

/// The fields a client gives to open a data submission.
pub struct SubmissionCreate {
    pub name: String,
    pub comment: Option<String>,
}

/// A partial update of a submission: `None` leaves a field alone, `Some(v)`
/// replaces it.
pub struct SubmissionUpdate {
    pub name: Option<Option<String>>,
    pub comment: Option<Option<String>>,
}

/// Where a submission's files can be downloaded from.
pub struct DownloadPath {
    pub url: String,
}

} // verus!
