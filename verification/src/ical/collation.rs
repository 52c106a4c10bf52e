//! Text comparison under a collation.
use vstd::prelude::*;
use vstd::string::StringSliceAdditionalSpecFns;

use crate::dav::caltypes::Collation;

verus! {

/// A byte with ASCII lowercase letters made uppercase.
pub open spec fn ascii_upper(b: u8) -> u8 {
    if 97 <= b <= 122 {
        (b - 32) as u8
    } else {
        b
    }
}

/// The bytes a text compares as under a collation: its UTF-8 bytes, with
/// ASCII letters made uppercase under `i;ascii-casemap`. A collation of
/// another name compares the bytes as they are.
pub open spec fn normalized(c: Collation, s: Seq<u8>) -> Seq<u8> {
    match c {
        Collation::AsciiCaseMap => s.map_values(|b: u8| ascii_upper(b)),
        _ => s,
    }
}

/// The bytes `s` compares as under the collation `c`.
pub fn normalize(c: Collation, s: &str) -> (r: Vec<u8>)
    ensures
        r@ == normalized(c, s.spec_bytes()),
{
    let bytes = s.as_bytes();
    let upper = match c {
        Collation::AsciiCaseMap => true,
        _ => false,
    };
    let mut out: Vec<u8> = Vec::new();
    let mut i: usize = 0;
    while i < bytes.len()
        invariant
            i <= bytes@.len(),
            bytes@ == s.spec_bytes(),
            upper == (c is AsciiCaseMap),
            out@ == normalized(c, bytes@.take(i as int)),
        decreases bytes@.len() - i,
    {
        let b = bytes[i];
        let nb: u8 = if upper && 97 <= b && b <= 122 {
            b - 32
        } else {
            b
        };
        proof {
            assert(bytes@.take(i + 1) == bytes@.take(i as int).push(b));
            assert(normalized(c, bytes@.take(i + 1)) == normalized(c, bytes@.take(i as int)).push(nb));
        }
        out.push(nb);
        i = i + 1;
    }
    proof {
        assert(bytes@.take(bytes@.len() as int) == bytes@);
    }
    out
}

/// Whether `pat` occurs in `s` at some position.
pub open spec fn has_subslice(s: Seq<u8>, pat: Seq<u8>) -> bool {
    exists|i: int| 0 <= i && i + pat.len() <= s.len() && #[trigger] s.subrange(i, i + pat.len()) == pat
}

/// Whether the non-empty `pat` occurs in `s`.
pub fn contains_subslice(s: &[u8], pat: &[u8]) -> (r: bool)
    requires
        pat@.len() > 0,
    ensures
        r == has_subslice(s@, pat@),
{
    let n = pat.len();
    assert(s@.len() == s.len());
    if n > s.len() {
        proof {
            assert forall|i: int| !(0 <= i && i + pat@.len() <= s@.len() && #[trigger] s@.subrange(i, i + pat@.len()) == pat@) by {}
        }
        return false;
    }
    let mut i: usize = 0;
    let last = s.len() - n;
    while i <= last
        invariant
            n == pat@.len(),
            n <= s@.len() <= usize::MAX,
            last == s@.len() - n,
            i <= last + 1,
            forall|k: int| 0 <= k < i ==> #[trigger] s@.subrange(k, k + n) != pat@,
        decreases s@.len() - i,
    {
        let mut j: usize = 0;
        let mut same = true;
        proof {
            assert(s@.subrange(i as int, i as int) == pat@.take(0));
        }
        while j < n
            invariant
                j <= n,
                i + n <= s@.len() <= usize::MAX,
                n == pat@.len(),
                same == (s@.subrange(i as int, i + j) == pat@.take(j as int)),
            decreases n - j,
        {
            if same && s[i + j] != pat[j] {
                proof {
                    assert(s@.subrange(i as int, i + j + 1)[j as int] != pat@.take(j + 1)[j as int]);
                }
                same = false;
            } else if same {
                proof {
                    assert(s@.subrange(i as int, i + j + 1) == s@.subrange(i as int, i + j).push(s@[i + j]));
                    assert(pat@.take(j + 1) == pat@.take(j as int).push(pat@[j as int]));
                }
            } else {
                proof {
                    if s@.subrange(i as int, i + j + 1) == pat@.take(j + 1) {
                        assert(s@.subrange(i as int, i + j + 1).take(j as int) == s@.subrange(i as int, i + j));
                        assert(pat@.take(j + 1).take(j as int) == pat@.take(j as int));
                    }
                }
            }
            j = j + 1;
        }
        if same {
            proof {
                assert(pat@.take(n as int) == pat@);
            }
            return true;
        }
        proof {
            assert(pat@.take(n as int) == pat@);
        }
        i = i + 1;
    }
    proof {
        assert forall|k: int| !(0 <= k && k + pat@.len() <= s@.len() && #[trigger] s@.subrange(k, k + pat@.len()) == pat@) by {
            if 0 <= k && k + pat@.len() <= s@.len() {
                assert(k < i);
            }
        }
    }
    false
}

} // verus!
