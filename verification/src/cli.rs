use vstd::prelude::*;
use crate::info::InfoType;

verus! {

/// Startup options: the accent color of the info labels (RGB hexadecimal),
/// which fields to show and in what order (all eight, in canonical order,
/// when unset), and whether numeric values are printed as accurate numbers
/// instead of English words.
#[derive(Debug, Clone)]
pub struct Opt {
    pub color: String,
    pub values: Option<Vec<InfoType>>,
    pub nums: bool,
}

} // verus!
