//! Derivation paths: their names, and their order by name, then by the
//! full path.

use crate::bytes::{bytes_lt, compare_bytes};
use crate::types::DerivationPath;
use core::cmp::Ordering;
use vstd::prelude::*;

verus! {

pub const SLASH: u8 = 47;

pub const DASH: u8 = 45;

/// The position of the last `/` before `n`, or -1.
pub open spec fn last_slash(p: Seq<u8>, n: int) -> int
    decreases n,
{
    if n <= 0 || n > p.len() {
        -1
    } else if p[n - 1] == SLASH {
        n - 1
    } else {
        last_slash(p, n - 1)
    }
}

/// The position of the first `-` at or after `i`, or -1.
pub open spec fn first_dash(p: Seq<u8>, i: int) -> int
    decreases p.len() - i,
{
    if i < 0 || i >= p.len() {
        -1
    } else if p[i] == DASH {
        i
    } else {
        first_dash(p, i + 1)
    }
}

/// The name of a derivation path: what follows the first `-` of its last
/// component (`/store/hash-name.drv` gives `name.drv`), or the whole path
/// where it has no such shape.
pub open spec fn drv_name(p: Seq<u8>) -> Seq<u8> {
    let s = last_slash(p, p.len() as int);
    if s >= 0 && first_dash(p, s + 1) >= 0 {
        p.subrange(first_dash(p, s + 1) + 1, p.len() as int)
    } else {
        p
    }
}

/// The order of derivation paths: by name, then by the full path.
pub open spec fn drv_lt(a: Seq<u8>, b: Seq<u8>) -> bool {
    bytes_lt(drv_name(a), drv_name(b)) || (drv_name(a) == drv_name(b) && bytes_lt(a, b))
}

impl DerivationPath {
    /// The derivation name of this path (see `drv_name`).
    pub fn get_name(&self) -> (r: &[u8])
        ensures
            r@ == drv_name(self.0@),
    {
        let path = &self.0;
        let n = path.len();
        let mut s = n;
        while s > 0 && path[s - 1] != SLASH
            invariant
                s <= n,
                n == path@.len(),
                last_slash(path@, s as int) == last_slash(path@, n as int),
            decreases s,
        {
            s = s - 1;
        }
        if s == 0 {
            return path.as_slice();
        }
        let mut d = s;
        while d < n && path[d] != DASH
            invariant
                s <= d <= n,
                n == path@.len(),
                first_dash(path@, d as int) == first_dash(path@, s as int),
            decreases n - d,
        {
            d = d + 1;
        }
        if d == n {
            path.as_slice()
        } else {
            let r = &path.as_slice()[d + 1..n];
            r
        }
    }

    /// Whether this path sorts before `other` in derivation order.
    pub fn sorts_before(&self, other: &DerivationPath) -> (r: bool)
        ensures
            r == drv_lt(self.0@, other.0@),
    {
        match compare_bytes(self.get_name(), other.get_name()) {
            Ordering::Less => true,
            Ordering::Greater => false,
            Ordering::Equal => matches!(
                compare_bytes(self.0.as_slice(), other.0.as_slice()),
                Ordering::Less
            ),
        }
    }
}

} // verus!
