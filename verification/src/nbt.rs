//! A walk over the tag structure of a chunk payload, made before the payload is
//! handed to the parser.
//!
//! A payload is a compound: a run of named values closed by an end tag. A value
//! is a number, a string, an array of numbers, a list of values of one tag, or a
//! compound again. The walk follows that structure from value to value without
//! reading what the values hold. It stops where a value runs past the end of
//! the payload, where lists and compounds are nested more than `MAX_DEPTH` deep,
//! and where a list claims to hold end tags.

use vstd::prelude::*;

verus! {

/// How deep lists and compounds may be nested.
pub const MAX_DEPTH: usize = 512;

pub const TAG_END: u8 = 0;

pub const TAG_BYTE: u8 = 1;

pub const TAG_SHORT: u8 = 2;

pub const TAG_INT: u8 = 3;

pub const TAG_LONG: u8 = 4;

pub const TAG_FLOAT: u8 = 5;

pub const TAG_DOUBLE: u8 = 6;

pub const TAG_BYTE_ARRAY: u8 = 7;

pub const TAG_STRING: u8 = 8;

pub const TAG_LIST: u8 = 9;

pub const TAG_COMPOUND: u8 = 10;

pub const TAG_INT_ARRAY: u8 = 11;

pub const TAG_LONG_ARRAY: u8 = 12;

/// The unsigned number in the two bytes at `pos`, big-endian.
pub open spec fn be16(b: Seq<u8>, pos: int) -> int {
    b[pos] * 256 + b[pos + 1]
}

/// The unsigned number in the four bytes at `pos`, big-endian.
pub open spec fn be32(b: Seq<u8>, pos: int) -> int {
    b[pos] * 16777216 + b[pos + 1] * 65536 + b[pos + 2] * 256 + b[pos + 3]
}

/// The number of bytes that a value of a tag of fixed size takes, 0 for any
/// other tag.
pub open spec fn fixed_size(tag: u8) -> int {
    if tag == TAG_BYTE {
        1
    } else if tag == TAG_SHORT {
        2
    } else if tag == TAG_INT || tag == TAG_FLOAT {
        4
    } else if tag == TAG_LONG || tag == TAG_DOUBLE {
        8
    } else {
        0
    }
}

/// The number of bytes that one entry of an array takes, 0 for a tag that is no
/// array.
pub open spec fn entry_size(tag: u8) -> int {
    if tag == TAG_BYTE_ARRAY {
        1
    } else if tag == TAG_INT_ARRAY {
        4
    } else if tag == TAG_LONG_ARRAY {
        8
    } else {
        0
    }
}

/// The position after the value of tag `tag` that starts at `pos`, where the
/// walk gets past it with `depth` levels of nesting left.
pub open spec fn after_value(b: Seq<u8>, pos: int, tag: u8, depth: nat) -> Option<int>
    decreases depth, b.len() - pos, 0nat,
{
    if pos < 0 || pos > b.len() {
        None
    } else if fixed_size(tag) > 0 {
        if pos + fixed_size(tag) <= b.len() {
            Some(pos + fixed_size(tag))
        } else {
            None
        }
    } else if tag == TAG_STRING {
        if pos + 2 <= b.len() && pos + 2 + be16(b, pos) <= b.len() {
            Some(pos + 2 + be16(b, pos))
        } else {
            None
        }
    } else if entry_size(tag) > 0 {
        if pos + 4 <= b.len() && be32(b, pos) < 0x8000_0000 && pos + 4 + be32(b, pos) * entry_size(
            tag,
        ) <= b.len() {
            Some(pos + 4 + be32(b, pos) * entry_size(tag))
        } else {
            None
        }
    } else if tag == TAG_COMPOUND {
        if depth == 0 {
            None
        } else {
            after_entries(b, pos, (depth - 1) as nat)
        }
    } else if tag == TAG_LIST {
        if depth == 0 || pos + 5 > b.len() || b[pos] > TAG_LONG_ARRAY {
            None
        } else if be32(b, pos + 1) >= 0x8000_0000 {
            // A negative length: the list is taken as empty.
            Some(pos + 5)
        } else if b[pos] == TAG_END && be32(b, pos + 1) > 0 {
            None
        } else {
            after_items(b, pos + 5, b[pos], be32(b, pos + 1) as nat, (depth - 1) as nat)
        }
    } else {
        None
    }
}

/// The position after the end tag of the compound whose entries start at
/// `pos`, where the walk gets that far.
pub open spec fn after_entries(b: Seq<u8>, pos: int, depth: nat) -> Option<int>
    decreases depth, b.len() - pos, 1nat,
{
    if pos < 0 || pos >= b.len() {
        None
    } else if b[pos] == TAG_END {
        Some(pos + 1)
    } else if b[pos] > TAG_LONG_ARRAY || pos + 3 > b.len() || pos + 3 + be16(b, pos + 1)
        > b.len() {
        None
    } else {
        match after_value(b, pos + 3 + be16(b, pos + 1), b[pos], depth) {
            Some(next) => if pos < next <= b.len() {
                after_entries(b, next, depth)
            } else {
                None
            },
            None => None,
        }
    }
}

/// The position after `count` values of tag `tag` that start at `pos`, where
/// the walk gets past all of them.
pub open spec fn after_items(b: Seq<u8>, pos: int, tag: u8, count: nat, depth: nat) -> Option<int>
    decreases depth, b.len() - pos + 1, count,
{
    if pos < 0 || pos > b.len() {
        None
    } else if count == 0 {
        Some(pos)
    } else {
        match after_value(b, pos, tag, depth) {
            Some(next) => if pos <= next <= b.len() {
                after_items(b, next, tag, (count - 1) as nat, depth)
            } else {
                None
            },
            None => None,
        }
    }
}

/// Whether the walk gets through a payload: it starts with the tag of a
/// compound and a name, and the walk gets past the compound's entries.
pub open spec fn walks(b: Seq<u8>) -> bool {
    &&& b.len() >= 3
    &&& b[0] == TAG_COMPOUND
    &&& 3 + be16(b, 1) <= b.len()
    &&& after_entries(b, 3 + be16(b, 1), MAX_DEPTH as nat) is Some
}

/// A walk ends inside the payload, and past where it began unless it walked
/// nothing.
pub proof fn lemma_walk_advances(b: Seq<u8>, pos: int, tag: u8, count: nat, depth: nat)
    ensures
        after_value(b, pos, tag, depth) matches Some(next) ==> pos <= next <= b.len() && (
        tag != TAG_LIST && tag != TAG_END ==> pos < next),
        after_entries(b, pos, depth) matches Some(next) ==> pos < next <= b.len(),
        after_items(b, pos, tag, count, depth) matches Some(next) ==> pos <= next <= b.len(),
    decreases depth, b.len() - pos + 1, count + 2,
{
    if 0 <= pos <= b.len() {
        if tag == TAG_COMPOUND && depth > 0 {
            lemma_walk_advances(b, pos, tag, 0, (depth - 1) as nat);
        }
        if tag == TAG_LIST && depth > 0 && pos + 5 <= b.len() && be32(b, pos + 1) < 0x8000_0000 {
            lemma_walk_advances(b, pos + 5, b[pos], be32(b, pos + 1) as nat, (depth - 1) as nat);
        }
        if pos < b.len() && b[pos] != TAG_END && pos + 3 <= b.len() {
            let at = pos + 3 + be16(b, pos + 1);
            if at <= b.len() {
                match after_value(b, at, b[pos], depth) {
                    Some(next) => {
                        if pos < next <= b.len() {
                            lemma_walk_advances(b, next, tag, 0, depth);
                        }
                    },
                    None => {},
                }
            }
        }
        if count > 0 {
            match after_value(b, pos, tag, depth) {
                Some(next) => {
                    if pos <= next <= b.len() {
                        lemma_walk_advances(b, next, tag, (count - 1) as nat, depth);
                    }
                },
                None => {},
            }
        }
    }
}

fn read16(b: &[u8], pos: usize) -> (v: usize)
    requires
        pos + 2 <= b@.len(),
    ensures
        v == be16(b@, pos as int),
        v < 65536,
{
    b[pos] as usize * 256 + b[pos + 1] as usize
}

fn read32(b: &[u8], pos: usize) -> (v: u64)
    requires
        pos + 4 <= b@.len(),
    ensures
        v == be32(b@, pos as int),
        v < 0x1_0000_0000,
{
    b[pos] as u64 * 16777216 + b[pos + 1] as u64 * 65536 + b[pos + 2] as u64 * 256 + b[pos
        + 3] as u64
}

fn size_of_fixed(tag: u8) -> (n: usize)
    ensures
        n == fixed_size(tag),
{
    if tag == TAG_BYTE {
        1
    } else if tag == TAG_SHORT {
        2
    } else if tag == TAG_INT || tag == TAG_FLOAT {
        4
    } else if tag == TAG_LONG || tag == TAG_DOUBLE {
        8
    } else {
        0
    }
}

fn size_of_entry(tag: u8) -> (n: u64)
    ensures
        n == entry_size(tag),
{
    if tag == TAG_BYTE_ARRAY {
        1
    } else if tag == TAG_INT_ARRAY {
        4
    } else if tag == TAG_LONG_ARRAY {
        8
    } else {
        0
    }
}

/// Walks past the value of tag `tag` that starts at `pos`.
fn skip_value(b: &[u8], pos: usize, tag: u8, depth: usize) -> (next: Option<usize>)
    requires
        pos <= b@.len(),
    ensures
        match next {
            Some(next) => after_value(b@, pos as int, tag, depth as nat) == Some(next as int),
            None => after_value(b@, pos as int, tag, depth as nat) is None,
        },
    decreases depth, b@.len() - pos, 0nat,
{
    let left: usize = b.len() - pos;
    let fixed: usize = size_of_fixed(tag);
    let entry: u64 = size_of_entry(tag);
    if fixed > 0 {
        if left >= fixed {
            Some(pos + fixed)
        } else {
            None
        }
    } else if tag == TAG_STRING {
        if left < 2 {
            return None;
        }
        let n: usize = read16(b, pos);
        if left - 2 >= n {
            Some(pos + 2 + n)
        } else {
            None
        }
    } else if entry > 0 {
        if left < 4 {
            return None;
        }
        let n: u64 = read32(b, pos);
        if n >= 0x8000_0000 {
            return None;
        }
        let bytes: u64 = n * entry;
        if (left - 4) as u64 >= bytes {
            Some(pos + 4 + bytes as usize)
        } else {
            None
        }
    } else if tag == TAG_COMPOUND {
        if depth == 0 {
            None
        } else {
            skip_entries(b, pos, depth - 1)
        }
    } else if tag == TAG_LIST {
        if depth == 0 || left < 5 {
            return None;
        }
        let item: u8 = b[pos];
        if item > TAG_LONG_ARRAY {
            return None;
        }
        let n: u64 = read32(b, pos + 1);
        if n >= 0x8000_0000 {
            return Some(pos + 5);
        }
        if item == TAG_END && n > 0 {
            return None;
        }
        skip_items(b, pos + 5, item, n, depth - 1)
    } else {
        None
    }
}

/// Walks past the entries of a compound, which start at `pos`.
fn skip_entries(b: &[u8], pos: usize, depth: usize) -> (next: Option<usize>)
    requires
        pos <= b@.len(),
    ensures
        match next {
            Some(next) => after_entries(b@, pos as int, depth as nat) == Some(next as int),
            None => after_entries(b@, pos as int, depth as nat) is None,
        },
    decreases depth, b@.len() - pos, 1nat,
{
    let mut at: usize = pos;
    loop
        invariant
            pos <= at <= b@.len(),
            after_entries(b@, pos as int, depth as nat) == after_entries(
                b@,
                at as int,
                depth as nat,
            ),
        decreases b@.len() - at,
    {
        if at >= b.len() {
            return None;
        }
        let tag: u8 = b[at];
        if tag == TAG_END {
            return Some(at + 1);
        }
        if tag > TAG_LONG_ARRAY || b.len() - at < 3 {
            return None;
        }
        let n: usize = read16(b, at + 1);
        if b.len() - at - 3 < n {
            return None;
        }
        match skip_value(b, at + 3 + n, tag, depth) {
            Some(next) => {
                proof {
                    lemma_walk_advances(b@, (at + 3 + n) as int, tag, 0, depth as nat);
                }
                at = next;
            },
            None => {
                return None;
            },
        }
    }
}

/// Walks past `count` values of tag `tag`, which start at `pos`.
fn skip_items(b: &[u8], pos: usize, tag: u8, count: u64, depth: usize) -> (next: Option<usize>)
    requires
        pos <= b@.len(),
    ensures
        match next {
            Some(next) => after_items(b@, pos as int, tag, count as nat, depth as nat) == Some(
                next as int,
            ),
            None => after_items(b@, pos as int, tag, count as nat, depth as nat) is None,
        },
    decreases depth, b@.len() - pos + 1, count,
{
    let mut at: usize = pos;
    let mut left: u64 = count;
    while left > 0
        invariant
            pos <= at <= b@.len(),
            after_items(b@, pos as int, tag, count as nat, depth as nat) == after_items(
                b@,
                at as int,
                tag,
                left as nat,
                depth as nat,
            ),
        decreases left,
    {
        match skip_value(b, at, tag, depth) {
            Some(next) => {
                proof {
                    lemma_walk_advances(b@, at as int, tag, 0, depth as nat);
                }
                at = next;
                left = left - 1;
            },
            None => {
                return None;
            },
        }
    }
    Some(at)
}

/// Whether the walk gets through a payload.
pub fn payload_walks(payload: &[u8]) -> (ok: bool)
    ensures
        ok == walks(payload@),
{
    if payload.len() < 3 || payload[0] != TAG_COMPOUND {
        return false;
    }
    let n: usize = read16(payload, 1);
    if payload.len() - 3 < n {
        return false;
    }
    skip_entries(payload, 3 + n, MAX_DEPTH).is_some()
}

/// Where the entries of a payload's own compound start: behind its tag and its
/// name.
pub open spec fn root_entries(b: Seq<u8>) -> int {
    3 + be16(b, 1)
}

/// The tag of the first entry named `name` among the entries of a compound that
/// start at `pos`, and where its value starts.
pub open spec fn entry_named(b: Seq<u8>, pos: int, name: Seq<u8>) -> Option<(u8, int)>
    decreases b.len() - pos,
{
    if pos < 0 || pos >= b.len() || b[pos] == TAG_END || b[pos] > TAG_LONG_ARRAY || pos + 3
        > b.len() || pos + 3 + be16(b, pos + 1) > b.len() {
        None
    } else if b.subrange(pos + 3, pos + 3 + be16(b, pos + 1)) == name {
        Some((b[pos], pos + 3 + be16(b, pos + 1)))
    } else {
        match after_value(b, pos + 3 + be16(b, pos + 1), b[pos], MAX_DEPTH as nat) {
            Some(next) => if pos < next <= b.len() {
                entry_named(b, next, name)
            } else {
                None
            },
            None => None,
        }
    }
}

/// Where the entries of the compound named `name` start, among the entries
/// that start at `pos`.
pub open spec fn compound_named(b: Seq<u8>, pos: int, name: Seq<u8>) -> Option<int> {
    match entry_named(b, pos, name) {
        Some((tag, at)) => if tag == TAG_COMPOUND {
            Some(at)
        } else {
            None
        },
        None => None,
    }
}

/// Where the entries of item number `i` start, in the list of compounds named
/// `name` among the entries that start at `pos`.
pub open spec fn item_named(b: Seq<u8>, pos: int, name: Seq<u8>, i: int) -> Option<int> {
    match entry_named(b, pos, name) {
        Some((tag, at)) => if tag == TAG_LIST && at + 5 <= b.len() && b[at] == TAG_COMPOUND && 0
            <= i < be32(b, at + 1) < 0x8000_0000 {
            after_items(b, at + 5, TAG_COMPOUND, i as nat, MAX_DEPTH as nat)
        } else {
            None
        },
        None => None,
    }
}

/// The number of entries of the array of 64-bit numbers named `name`, among
/// the entries that start at `pos`.
pub open spec fn longs_named(b: Seq<u8>, pos: int, name: Seq<u8>) -> Option<int> {
    match entry_named(b, pos, name) {
        Some((tag, at)) => if tag == TAG_LONG_ARRAY && at + 4 <= b.len() {
            Some(be32(b, at))
        } else {
            None
        },
        None => None,
    }
}

/// Where the entries of the array of bytes named `name` start, among the
/// entries that start at `pos`, and how many there are.
pub open spec fn bytes_named(b: Seq<u8>, pos: int, name: Seq<u8>) -> Option<(int, int)> {
    match entry_named(b, pos, name) {
        Some((tag, at)) => if tag == TAG_BYTE_ARRAY && at + 4 <= b.len() && be32(b, at)
            < 0x8000_0000 && at + 4 + be32(b, at) <= b.len() {
            Some((at + 4, be32(b, at)))
        } else {
            None
        },
        None => None,
    }
}

/// The byte named `name` among the entries that start at `pos`.
pub open spec fn byte_named(b: Seq<u8>, pos: int, name: Seq<u8>) -> Option<u8> {
    match entry_named(b, pos, name) {
        Some((tag, at)) => if tag == TAG_BYTE && at < b.len() {
            Some(b[at])
        } else {
            None
        },
        None => None,
    }
}

/// Whether the `n` bytes of `b` from `at` on are those of `name`.
fn same_bytes(b: &[u8], at: usize, n: usize, name: &[u8]) -> (same: bool)
    requires
        at + n <= b@.len(),
    ensures
        same == (b@.subrange(at as int, at + n) == name@),
{
    if name.len() != n {
        assert(b@.subrange(at as int, at + n).len() != name@.len());
        return false;
    }
    let total: usize = b.len();
    let mut k: usize = 0;
    while k < n
        invariant
            k <= n,
            n == name@.len(),
            at + n <= b@.len(),
            total == b@.len(),
            forall|j: int| 0 <= j < k ==> b@[at + j] == name@[j],
        decreases n - k,
    {
        if b[at + k] != name[k] {
            assert(b@.subrange(at as int, at + n)[k as int] != name@[k as int]);
            return false;
        }
        k = k + 1;
    }
    assert(b@.subrange(at as int, at + n) =~= name@);
    true
}

/// Finds the first entry named `name` among the entries that start at `pos`.
pub(crate) fn find_entry(b: &[u8], pos: usize, name: &[u8]) -> (found: Option<(u8, usize)>)
    requires
        pos <= b@.len(),
    ensures
        match found {
            Some((tag, at)) => entry_named(b@, pos as int, name@) == Some((tag, at as int)) && at
                <= b@.len(),
            None => entry_named(b@, pos as int, name@) is None,
        },
{
    let mut at: usize = pos;
    loop
        invariant
            pos <= at <= b@.len(),
            entry_named(b@, pos as int, name@) == entry_named(b@, at as int, name@),
        decreases b@.len() - at,
    {
        if at >= b.len() {
            return None;
        }
        let tag: u8 = b[at];
        if tag == TAG_END || tag > TAG_LONG_ARRAY || b.len() - at < 3 {
            return None;
        }
        let n: usize = read16(b, at + 1);
        if b.len() - at - 3 < n {
            return None;
        }
        if same_bytes(b, at + 3, n, name) {
            return Some((tag, at + 3 + n));
        }
        match skip_value(b, at + 3 + n, tag, MAX_DEPTH) {
            Some(next) => {
                proof {
                    lemma_walk_advances(b@, (at + 3 + n) as int, tag, 0, MAX_DEPTH as nat);
                }
                at = next;
            },
            None => {
                return None;
            },
        }
    }
}

/// Finds the compound named `name` among the entries that start at `pos`.
pub(crate) fn find_compound(b: &[u8], pos: usize, name: &[u8]) -> (found: Option<usize>)
    requires
        pos <= b@.len(),
    ensures
        match found {
            Some(at) => compound_named(b@, pos as int, name@) == Some(at as int) && at <= b@.len(),
            None => compound_named(b@, pos as int, name@) is None,
        },
{
    match find_entry(b, pos, name) {
        Some((tag, at)) => if tag == TAG_COMPOUND {
            Some(at)
        } else {
            None
        },
        None => None,
    }
}

/// Finds item number `i` of the list of compounds named `name` among the
/// entries that start at `pos`.
pub(crate) fn find_item(b: &[u8], pos: usize, name: &[u8], i: usize) -> (found: Option<usize>)
    requires
        pos <= b@.len(),
    ensures
        match found {
            Some(at) => item_named(b@, pos as int, name@, i as int) == Some(at as int) && at
                <= b@.len(),
            None => item_named(b@, pos as int, name@, i as int) is None,
        },
{
    match find_entry(b, pos, name) {
        Some((tag, at)) => {
            if tag != TAG_LIST || b.len() - at < 5 || b[at] != TAG_COMPOUND {
                return None;
            }
            let n: u64 = read32(b, at + 1);
            if n >= 0x8000_0000 || i as u64 >= n {
                return None;
            }
            let found = skip_items(b, at + 5, TAG_COMPOUND, i as u64, MAX_DEPTH);
            proof {
                lemma_walk_advances(b@, at + 5, TAG_COMPOUND, i as nat, MAX_DEPTH as nat);
            }
            found
        },
        None => None,
    }
}

/// Finds the array of 64-bit numbers named `name` among the entries that start
/// at `pos`, and gives the number of its entries.
pub(crate) fn find_longs(b: &[u8], pos: usize, name: &[u8]) -> (found: Option<u64>)
    requires
        pos <= b@.len(),
    ensures
        match found {
            Some(n) => longs_named(b@, pos as int, name@) == Some(n as int),
            None => longs_named(b@, pos as int, name@) is None,
        },
{
    match find_entry(b, pos, name) {
        Some((tag, at)) => if tag == TAG_LONG_ARRAY && b.len() - at >= 4 {
            Some(read32(b, at))
        } else {
            None
        },
        None => None,
    }
}

/// Finds the array of bytes named `name` among the entries that start at
/// `pos`, and gives where its entries start and how many there are.
pub(crate) fn find_bytes(b: &[u8], pos: usize, name: &[u8]) -> (found: Option<(usize, usize)>)
    requires
        pos <= b@.len(),
    ensures
        match found {
            Some((start, n)) => bytes_named(b@, pos as int, name@) == Some(
                (start as int, n as int),
            ) && start + n <= b@.len(),
            None => bytes_named(b@, pos as int, name@) is None,
        },
{
    match find_entry(b, pos, name) {
        Some((tag, at)) => {
            if tag != TAG_BYTE_ARRAY || b.len() - at < 4 {
                return None;
            }
            let n: u64 = read32(b, at);
            if n >= 0x8000_0000 || ((b.len() - at - 4) as u64) < n {
                return None;
            }
            Some((at + 4, n as usize))
        },
        None => None,
    }
}

/// Finds the byte named `name` among the entries that start at `pos`.
pub(crate) fn find_byte(b: &[u8], pos: usize, name: &[u8]) -> (found: Option<u8>)
    requires
        pos <= b@.len(),
    ensures
        found == byte_named(b@, pos as int, name@),
{
    match find_entry(b, pos, name) {
        Some((tag, at)) => if tag == TAG_BYTE && at < b.len() {
            Some(b[at])
        } else {
            None
        },
        None => None,
    }
}

/// Where the entries of a payload's own compound start.
pub(crate) fn root_of(b: &[u8]) -> (at: usize)
    requires
        walks(b@),
    ensures
        at == root_entries(b@),
        at <= b@.len(),
{
    3 + read16(b, 1)
}

} // verus!
