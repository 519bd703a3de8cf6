//! Records of the clinical domain that need no outside value to be stated.

use vstd::prelude::*;

verus! {

/// The identification of a questionnaire: every field may be missing.
#[derive(Clone, Debug)]
pub struct Questionnaire {
    pub id: Option<String>,
    pub url: Option<String>,
    pub name: Option<String>,
    pub title: Option<String>,
}

} // verus!
