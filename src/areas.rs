use vstd::prelude::*;

verus! {

/// The fields a client gives to create an area; without a colour one is
/// picked at random.
pub struct AreaCreate {
    pub name: String,
    pub description: Option<String>,
    pub colour: Option<String>,
}

/// A partial update of an area: `None` leaves a field alone, `Some(v)`
/// replaces it.
pub struct AreaUpdate {
    pub name: Option<Option<String>>,
    pub description: Option<Option<String>>,
    pub colour: Option<Option<String>>,
}

} // verus!
