use vstd::prelude::*;

verus! {

/// A send request as the outer layer hands it over: who sends, and what.
#[derive(Clone, Debug)]
pub struct Message {
    pub sender_name: String,
    pub message: String,
}

/// A user as the outer layer knows it: by name alone.
#[derive(Clone, Debug)]
pub struct User {
    pub name: String,
}

} // verus!
