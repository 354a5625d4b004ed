//! An answer source that takes a fixed time to give each line.

use vstd::prelude::*;

verus! {

/// Lines of answers, each of which takes `delay_secs` seconds to arrive.
pub struct DefferedInput<'a> {
    pub input: &'a str,
    pub delay_secs: u64,
}

} // verus!
