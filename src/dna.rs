use vstd::prelude::*;

verus! {

/// The fields a client gives to record a DNA extraction.
pub struct DNACreate {
    pub name: String,
    pub description: Option<String>,
    pub extraction_method: Option<String>,
}

/// A partial update of a DNA record: `None` leaves a field alone, `Some(v)`
/// replaces it.
pub struct DNAUpdate {
    pub name: Option<Option<String>>,
    pub description: Option<Option<String>>,
    pub extraction_method: Option<Option<String>>,
}

} // verus!
