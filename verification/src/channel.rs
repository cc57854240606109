//! The sending half of a std channel, through which the server hands text
//! and messages to the thread that serves a client. The library only stores
//! and hands out such handles; it never looks inside one.
use vstd::prelude::*;

verus! {

/// Declares `std::sync::mpsc::Sender` so that library types can hold one.
#[verifier::external_type_specification]
#[verifier::external_body]
#[verifier::reject_recursive_types(T)]
pub struct ExSender<T>(std::sync::mpsc::Sender<T>);

} // verus!
