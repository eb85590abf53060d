//! Reading sliced print files.
pub mod archive;
pub mod gcode;
pub mod three_mf;

use crate::text::{split_once, split_once_seq, trim, trim_seq};
use vstd::prelude::*;

verus! {

/// A preset name without its machine suffix: the trimmed text before ` @`.
pub open spec fn preset_base_spec(value: Seq<char>) -> Seq<char> {
    match split_once_seq(value, " @"@) {
        Some(parts) => trim_seq(parts.0),
        None => trim_seq(value),
    }
}

/// `Bambu PLA Basic @BBL A1` is the preset `Bambu PLA Basic` for the machine
/// `BBL A1`; this returns the preset part.
pub fn preset_base(value: &str) -> (r: &str)
    ensures
        r@ == preset_base_spec(value@),
{
    match split_once(value, " @") {
        Some((base, _)) => trim(base),
        None => trim(value),
    }
}

} // verus!
