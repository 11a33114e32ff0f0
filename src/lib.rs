//! Usage analytics for locally stored model artifacts: a digest index built
//! from manifest files, a scanner that turns server log lines into load
//! counts, and the reconciliation of those counts with the installed models.
use vstd::prelude::*;

pub mod text;
pub mod timestamp;
pub mod manifest;
pub mod usage;
pub mod logscan;
pub mod report;
pub mod deletion;

verus! {

/// A greeting for `name`.
pub fn greet(name: &str) -> (r: String)
    ensures
        r@ == "Hello, "@ + name@ + "! You've been greeted from Rust!"@,
{
    let mut r = String::from_str("Hello, ");
    r.append(name);
    r.append("! You've been greeted from Rust!");
    r
}

} // verus!
