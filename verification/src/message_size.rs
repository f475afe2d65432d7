//! The widths of the built-in wire types.

use crate::message_parsing::{kind_of_name, primitive_kind, width, width_of};
use vstd::prelude::*;

verus! {

/// The number of bytes that a value of the type named `name` takes on the
/// wire, where that number is fixed: 1 for `bool`, `int8` and `uint8`, 2 for
/// the integers of 16 bits, 4 for those of 32 bits, `float32`, `time` and
/// `duration`, 8 for the integers of 64 bits and `float64`.
pub open spec fn fixed_width(name: Seq<char>) -> Option<nat> {
    match kind_of_name(name) {
        Some(kind) => width(kind),
        None => None,
    }
}

/// The number of bytes that a value of the built-in type `data_type` takes
/// on the wire. `None` for `string`, whose length varies, and for every name
/// that is no built-in type.
pub fn size(data_type: &str) -> (bytes: Option<u32>)
    ensures
        match fixed_width(data_type@) {
            Some(w) => bytes == Some(w as u32) && w <= 8,
            None => bytes is None,
        },
{
    match primitive_kind(data_type) {
        Some(kind) => match width_of(kind) {
            Some(w) => Some(w as u32),
            None => None,
        },
        None => None,
    }
}

} // verus!
