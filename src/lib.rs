use vstd::prelude::*;

pub mod identity;
pub mod mode;
pub mod seen;
pub mod holepunch;
pub mod chat;
pub mod coordinator;

verus! {

} // verus!
