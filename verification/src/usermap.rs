//! The users registered with a server.
use vstd::prelude::*;
use crate::namemap::NameMap;

verus! {

/// For each user name, the id of the room the user is in, or 0 when the
/// user is in none.
pub type UserMap = NameMap<usize>;

} // verus!
