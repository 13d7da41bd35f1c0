use vstd::prelude::*;

pub mod day;
pub mod wire;
pub mod message;
pub mod facility;
pub mod engine;
pub mod dispatch;

verus! {

} // verus!
