#![allow(unused_imports)]
use vstd::prelude::*;
use vstd::string::StringExecFns;

pub mod events;
pub mod names;
pub mod numbers;
pub mod order;
pub mod sidecar;
pub mod text;

verus! {

/// Builds the greeting string around the caller's name.
pub fn greet(name: &str) -> (r: String)
    ensures
        r@ == "Hello, "@ + name@ + "! You've been greeted from Rust!"@,
{
    let mut r = String::new();
    r.append("Hello, ");
    r.append(name);
    r.append("! You've been greeted from Rust!");
    r
}

} // verus!
