use vstd::prelude::*;

use crate::bayou::timestamp::{now_msec, random_u64};

verus! {

/// A 24-byte identifier for mailboxes, emails, calendar items and sync
/// tokens, held as three big-endian 64-bit words so that the order of
/// the tuple is the order of the bytes.
pub type UniqueIdent = (u64, u64, u64);

/// Strict order on identifiers (the order of their bytes).
pub open spec fn ident_lt(a: UniqueIdent, b: UniqueIdent) -> bool {
    a.0 < b.0 || (a.0 == b.0 && (a.1 < b.1 || (a.1 == b.1 && a.2 < b.2)))
}

/// Compares two identifiers.
pub fn ident_less(a: &UniqueIdent, b: &UniqueIdent) -> (r: bool)
    ensures
        r == ident_lt(*a, *b),
{
    a.0 < b.0 || (a.0 == b.0 && (a.1 < b.1 || (a.1 == b.1 && a.2 < b.2)))
}

/// A fresh identifier: the current time in milliseconds followed by
/// random bits. Nothing is promised of its value.
pub fn gen_ident() -> UniqueIdent {
    let t = now_msec();
    let r1 = random_u64();
    let r2 = random_u64();
    (t, r1, r2)
}

} // verus!
