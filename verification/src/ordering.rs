//! The order of version strings as the standard library's `Ordering`.

use vstd::prelude::*;
use std::cmp::Ordering;
use crate::version::{compare_versions, version_order, VersionOrder};

verus! {

/// The outcome that an `Ordering` stands for.
pub open spec fn order_of(o: Ordering) -> VersionOrder {
    match o {
        Ordering::Less => VersionOrder::Less,
        Ordering::Equal => VersionOrder::Equal,
        Ordering::Greater => VersionOrder::Greater,
    }
}

/// Compares two version strings: by their numeric components where both are
/// dotted numbers, the shorter one padded with zeros, and by text otherwise.
pub fn compare_python_versions(lhs: &str, rhs: &str) -> (r: Ordering)
    ensures
        order_of(r) == version_order(lhs@, rhs@),
{
    match compare_versions(lhs, rhs) {
        VersionOrder::Less => Ordering::Less,
        VersionOrder::Equal => Ordering::Equal,
        VersionOrder::Greater => Ordering::Greater,
    }
}

} // verus!
