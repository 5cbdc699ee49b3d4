//! The session configuration: the values the surrounding process reads from
//! its configuration file and hands in as plain data.

use vstd::prelude::*;

verus! {

/// The API identity and phone number of the one trusted principal.
#[derive(Debug, PartialEq)]
pub struct Conf {
    pub api_id: i32,
    pub api_hash: String,
    pub phone: String,
}

impl Default for Conf {
    /// An empty configuration: zero identity and empty strings.
    fn default() -> (r: Self)
        ensures
            r.api_id == 0,
            r.api_hash@ == Seq::<char>::empty(),
            r.phone@ == Seq::<char>::empty(),
    {
        Conf { api_id: 0, api_hash: String::new(), phone: String::new() }
    }
}

} // verus!
