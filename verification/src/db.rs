//! The decisions behind safe snapshot access to a possibly-locked
//! database file: which existing temp file to reuse, and when a fresh
//! copy is needed.
//!
//! The file operations themselves (listing a directory, comparing sizes,
//! copying, opening a connection, probing integrity) happen outside the
//! library; what is verified here is which of them must happen.

use vstd::prelude::*;

use crate::text::{chars_of, is_prefix_of, starts_with_chars};

verus! {

/// Picks the snapshot file to refresh in place: the first name in
/// directory order that starts with the configured prefix, if any.
pub fn find_reusable_snapshot(names: &Vec<String>, prefix: &str) -> (r: Option<usize>)
    ensures
        match r {
            Some(i) => i < names@.len() && is_prefix_of(prefix@, names@[i as int]@) && (forall|
                j: int,
            |
                0 <= j < i ==> !is_prefix_of(prefix@, names@[j]@)),
            None => forall|j: int| 0 <= j < names@.len() ==> !is_prefix_of(prefix@, names@[j]@),
        },
{
    let pv = chars_of(prefix);
    let n: usize = names.len();
    let mut i: usize = 0;
    while i < n
        invariant
            i <= n,
            n == names@.len(),
            pv@ == prefix@,
            forall|j: int| 0 <= j < i ==> !is_prefix_of(prefix@, names@[j]@),
        decreases n - i,
    {
        let nv = chars_of(names[i].as_str());
        if starts_with_chars(&nv, &pv) {
            return Some(i);
        }
        i = i + 1;
    }
    None
}

/// A snapshot whose size matches the source must still be probed for
/// integrity before it is trusted; differing sizes settle it.
pub fn needs_integrity_probe(source_len: u64, snapshot_len: u64) -> (r: bool)
    ensures
        r == (source_len == snapshot_len),
{
    source_len == snapshot_len
}

/// Whether the source must be copied over the snapshot: always when the
/// sizes differ, and when the sizes match but the integrity probe
/// failed — a stale snapshot is never trusted.
pub fn must_copy_snapshot(source_len: u64, snapshot_len: u64, probe_ok: bool) -> (r: bool)
    ensures
        r == (source_len != snapshot_len || !probe_ok),
{
    source_len != snapshot_len || !probe_ok
}

} // verus!
