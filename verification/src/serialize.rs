//! Deterministic serialization helpers for on-chain storage.
//!
//! Encoding rules:
//! - Integers are little-endian fixed-width.
//! - Bool is 0x00 or 0x01.
//! - Bytes/String are length-prefixed with u32 (little-endian).
//! - Optional is 0x00 for None, 0x01 + payload for Some.
//! - List/Map are length-prefixed, with map entries sorted by raw key bytes.

use vstd::prelude::*;
use vstd::bytes::*;
use vstd::string::StringSliceAdditionalSpecFns;
use vstd::relations::*;
use vstd::seq_lib::*;
use vstd::multiset::*;

verus! {

/// The four-byte little-endian length prefix used by every length-prefixed encoding.
pub open spec fn spec_len_prefix(n: nat) -> Seq<u8> {
    spec_u32_to_le_bytes(n as u32)
}

/// A length-prefixed byte string.
pub open spec fn spec_encode_bytes(value: Seq<u8>) -> Seq<u8> {
    spec_len_prefix(value.len()) + value
}

/// The encoding of an optional payload.
pub open spec fn spec_encode_optional(value: Option<Seq<u8>>) -> Seq<u8> {
    match value {
        Some(payload) => seq![1u8] + payload,
        None => seq![0u8],
    }
}

/// Concatenation of a sequence of already-encoded entries.
pub open spec fn spec_concat(entries: Seq<Seq<u8>>) -> Seq<u8>
    decreases entries.len(),
{
    if entries.len() == 0 {
        Seq::empty()
    } else {
        spec_concat(entries.drop_last()) + entries.last()
    }
}

/// A list: count prefix followed by the entries in order.
pub open spec fn spec_encode_list(entries: Seq<Seq<u8>>) -> Seq<u8> {
    spec_len_prefix(entries.len()) + spec_concat(entries)
}

/// Appends `src` to `out`.
pub fn append_bytes(out: &mut Vec<u8>, src: &[u8])
    ensures
        final(out)@ == old(out)@ + src@,
{
    let mut i: usize = 0;
    while i < src.len()
        invariant
            i <= src.len(),
            out@ == old(out)@ + src@.subrange(0, i as int),
        decreases src.len() - i,
    {
        out.push(src[i]);
        i = i + 1;
        assert(out@ == old(out)@ + src@.subrange(0, i as int));
    }
    assert(src@.subrange(0, src@.len() as int) == src@);
}

/// Little-endian encoding of an unsigned 64-bit integer.
pub fn encode_u64(value: u64) -> (r: Vec<u8>)
    ensures
        r@ == spec_u64_to_le_bytes(value),
        r@.len() == 8,
{
    u64_to_le_bytes(value)
}

/// Little-endian two's-complement encoding of a signed 64-bit integer.
pub fn encode_i64(value: i64) -> (r: Vec<u8>)
    ensures
        r@ == spec_u64_to_le_bytes(value as u64),
        r@.len() == 8,
{
    u64_to_le_bytes(value as u64)
}

/// A single byte: 1 for true, 0 for false.
pub fn encode_bool(value: bool) -> (r: Vec<u8>)
    ensures
        r@ == seq![if value { 1u8 } else { 0u8 }],
{
    let mut out = Vec::new();
    out.push(if value { 1u8 } else { 0u8 });
    out
}

/// A u32 little-endian length prefix followed by the bytes.
pub fn encode_bytes(value: &[u8]) -> (r: Vec<u8>)
    ensures
        r@ == spec_encode_bytes(value@),
{
    let mut out = u32_to_le_bytes(value.len() as u32);
    append_bytes(&mut out, value);
    out
}


/// A string is encoded as its UTF-8 bytes, length-prefixed.
pub fn encode_string(value: &str) -> (r: Vec<u8>)
    ensures
        r@ == spec_encode_bytes(value.spec_bytes()),
{
    encode_bytes(value.as_bytes())
}

/// `None` is the single byte 0; `Some(payload)` is 1 followed by the payload.
pub fn encode_optional(value: Option<&[u8]>) -> (r: Vec<u8>)
    ensures
        r@ == spec_encode_optional(
            match value {
                Some(p) => Some(p@),
                None => None,
            },
        ),
{
    match value {
        Some(payload) => {
            let mut out = Vec::new();
            out.push(1u8);
            append_bytes(&mut out, payload);
            out
        },
        None => {
            let mut out = Vec::new();
            out.push(0u8);
            out
        },
    }
}

/// The views of a slice of byte vectors.
pub open spec fn byte_vecs_view(entries: Seq<Vec<u8>>) -> Seq<Seq<u8>> {
    entries.map_values(|e: Vec<u8>| e@)
}

/// A u32 count prefix followed by the entries, concatenated in order.
pub fn encode_list(entries: &[Vec<u8>]) -> (r: Vec<u8>)
    ensures
        r@ == spec_encode_list(byte_vecs_view(entries@)),
{
    let mut out = u32_to_le_bytes(entries.len() as u32);
    let ghost prefix = out@;
    let mut i: usize = 0;
    while i < entries.len()
        invariant
            i <= entries.len(),
            prefix == spec_len_prefix(entries@.len()),
            out@ == prefix + spec_concat(byte_vecs_view(entries@).subrange(0, i as int)),
        decreases entries.len() - i,
    {
        append_bytes(&mut out, entries[i].as_slice());
        proof {
            let v = byte_vecs_view(entries@);
            assert(v.subrange(0, i + 1).drop_last() == v.subrange(0, i as int));
        }
        i = i + 1;
    }
    proof {
        let v = byte_vecs_view(entries@);
        assert(v.subrange(0, v.len() as int) == v);
    }
    out
}


/// Lexicographic order on raw bytes: a proper prefix sorts first.
pub open spec fn lex_le(a: Seq<u8>, b: Seq<u8>) -> bool
    decreases a.len(),
{
    if a.len() == 0 {
        true
    } else if b.len() == 0 {
        false
    } else if a[0] != b[0] {
        a[0] < b[0]
    } else {
        lex_le(a.drop_first(), b.drop_first())
    }
}

/// A map entry as raw key and value bytes.
pub type EntryView = (Seq<u8>, Seq<u8>);

/// The views of a slice of map entries.
pub open spec fn entries_view(entries: Seq<(Vec<u8>, Vec<u8>)>) -> Seq<EntryView> {
    entries.map_values(|p: (Vec<u8>, Vec<u8>)| (p.0@, p.1@))
}

/// Inserts `e` after every entry whose key sorts at or before its key.
pub open spec fn insert_by_key(s: Seq<EntryView>, e: EntryView) -> Seq<EntryView>
    decreases s.len(),
{
    if s.len() == 0 {
        seq![e]
    } else if lex_le(s.last().0, e.0) {
        s.push(e)
    } else {
        insert_by_key(s.drop_last(), e).push(s.last())
    }
}

/// Stable sort of map entries by raw key bytes.
pub open spec fn sort_by_key(s: Seq<EntryView>) -> Seq<EntryView>
    decreases s.len(),
{
    if s.len() == 0 {
        s
    } else {
        insert_by_key(sort_by_key(s.drop_last()), s.last())
    }
}

/// One map entry: length-prefixed key followed by length-prefixed value.
pub open spec fn spec_encode_entry(p: EntryView) -> Seq<u8> {
    spec_encode_bytes(p.0) + spec_encode_bytes(p.1)
}

/// A map: entry count, then the entries in key order.
pub open spec fn spec_encode_map(entries: Seq<EntryView>) -> Seq<u8> {
    spec_len_prefix(entries.len()) + spec_concat(
        sort_by_key(entries).map_values(|p: EntryView| spec_encode_entry(p)),
    )
}

/// The u32 little-endian prefix for a length.
fn len_prefix(n: usize) -> (r: Vec<u8>)
    ensures
        r@ == spec_len_prefix(n as nat),
{
    u32_to_le_bytes(n as u32)
}

/// Whether `left` sorts at or before `right` in raw-byte lexicographic order.
fn bytes_le(left: &[u8], right: &[u8]) -> (r: bool)
    ensures
        r == lex_le(left@, right@),
{
    let min_len = if left.len() < right.len() { left.len() } else { right.len() };
    let mut i: usize = 0;
    assert(left@.skip(0) == left@ && right@.skip(0) == right@);
    while i < min_len
        invariant
            i <= min_len,
            min_len <= left@.len(),
            min_len <= right@.len(),
            min_len == left@.len() || min_len == right@.len(),
            lex_le(left@, right@) == lex_le(left@.skip(i as int), right@.skip(i as int)),
        decreases min_len - i,
    {
        let l = left[i];
        let r = right[i];
        proof {
            let ls = left@.skip(i as int);
            let rs = right@.skip(i as int);
            assert(ls[0] == l);
            assert(rs[0] == r);
            assert(ls.drop_first() == left@.skip(i + 1));
            assert(rs.drop_first() == right@.skip(i + 1));
        }
        if l != r {
            return l < r;
        }
        i = i + 1;
    }
    if left.len() <= right.len() {
        assert(left@.skip(i as int).len() == 0);
        true
    } else {
        assert(right@.skip(i as int).len() == 0);
        assert(left@.skip(i as int).len() > 0);
        false
    }
}

proof fn lemma_insert_by_key_len(s: Seq<EntryView>, e: EntryView)
    ensures
        insert_by_key(s, e).len() == s.len() + 1,
    decreases s.len(),
{
    if s.len() > 0 && !lex_le(s.last().0, e.0) {
        lemma_insert_by_key_len(s.drop_last(), e);
    }
}

proof fn lemma_sort_by_key_len(s: Seq<EntryView>)
    ensures
        sort_by_key(s).len() == s.len(),
    decreases s.len(),
{
    if s.len() > 0 {
        lemma_sort_by_key_len(s.drop_last());
        lemma_insert_by_key_len(sort_by_key(s.drop_last()), s.last());
    }
}

/// Inserting at the position found by scanning back over larger keys is `insert_by_key`.
proof fn lemma_insert_by_key_at(s: Seq<EntryView>, e: EntryView, p: int)
    requires
        0 <= p <= s.len(),
        p == 0 || lex_le(s[p - 1].0, e.0),
        forall|q: int| p <= q < s.len() ==> !lex_le(#[trigger] s[q].0, e.0),
    ensures
        insert_by_key(s, e) == s.subrange(0, p).push(e) + s.subrange(p, s.len() as int),
    decreases s.len(),
{
    if s.len() == 0 {
        assert(s.subrange(0, p).push(e) + s.subrange(p, s.len() as int) == seq![e]);
    } else if p == s.len() {
        assert(s.subrange(0, p) == s);
        assert(s.subrange(p, s.len() as int) == Seq::<EntryView>::empty());
        assert(s.push(e) + Seq::<EntryView>::empty() == s.push(e));
    } else {
        let t = s.drop_last();
        assert(!lex_le(s[s.len() - 1].0, e.0));
        assert forall|q: int| p <= q < t.len() implies !lex_le(#[trigger] t[q].0, e.0) by {
            assert(t[q] == s[q]);
        }
        lemma_insert_by_key_at(t, e, p);
        assert(t.subrange(0, p) == s.subrange(0, p));
        assert((t.subrange(0, p).push(e) + t.subrange(p, t.len() as int)).push(s.last())
            == s.subrange(0, p).push(e) + s.subrange(p, s.len() as int));
    }
}

/// The positions of `entries` in stable key order.
fn sorted_order(entries: &[(Vec<u8>, Vec<u8>)]) -> (order: Vec<usize>)
    ensures
        order@.len() == entries@.len(),
        forall|k: int| 0 <= k < order@.len() ==> #[trigger] order@[k] < entries@.len(),
        order@.map_values(|j: usize| entries_view(entries@)[j as int]) == sort_by_key(
            entries_view(entries@),
        ),
{
    let ghost ev = entries_view(entries@);
    let mut order: Vec<usize> = Vec::new();
    let mut i: usize = 0;
    while i < entries.len()
        invariant
            i <= entries@.len(),
            ev == entries_view(entries@),
            order@.len() == i,
            forall|k: int| 0 <= k < order@.len() ==> #[trigger] order@[k] < entries@.len(),
            order@.map_values(|j: usize| ev[j as int]) == sort_by_key(ev.subrange(0, i as int)),
        decreases entries.len() - i,
    {
        let ghost s = order@.map_values(|j: usize| ev[j as int]);
        let mut p: usize = order.len();
        while p > 0
            invariant
                p <= order@.len(),
                order@.len() == i,
                i < entries@.len(),
                ev == entries_view(entries@),
                s == order@.map_values(|j: usize| ev[j as int]),
                forall|k: int| 0 <= k < order@.len() ==> #[trigger] order@[k] < entries@.len(),
                forall|q: int| p <= q < s.len() ==> !lex_le(#[trigger] s[q].0, ev[i as int].0),
            ensures
                p <= order@.len(),
                p == 0 || lex_le(s[p - 1].0, ev[i as int].0),
                forall|q: int| p <= q < s.len() ==> !lex_le(#[trigger] s[q].0, ev[i as int].0),
            decreases p,
        {
            proof {
                assert(s[p - 1] == ev[order@[p - 1] as int]);
            }
            if bytes_le(entries[order[p - 1]].0.as_slice(), entries[i].0.as_slice()) {
                break;
            }
            p = p - 1;
        }
        proof {
            assert(p == 0 || lex_le(s[p - 1].0, ev[i as int].0));
            lemma_insert_by_key_at(s, ev[i as int], p as int);
            assert(ev.subrange(0, i + 1).drop_last() == ev.subrange(0, i as int));
            assert(ev.subrange(0, i + 1).last() == ev[i as int]);
        }
        order.insert(p, i);
        proof {
            let t = order@.map_values(|j: usize| ev[j as int]);
            assert(t == s.subrange(0, p as int).push(ev[i as int]) + s.subrange(
                p as int,
                s.len() as int,
            ));
        }
        i = i + 1;
    }
    assert(ev.subrange(0, ev.len() as int) == ev);
    order
}

/// A u32 count prefix, then each entry as a length-prefixed key and value, in key order.
/// Entries are sorted by raw key bytes (stably, so equal keys keep their input order).
pub fn encode_map(entries: &[(Vec<u8>, Vec<u8>)]) -> (r: Vec<u8>)
    ensures
        r@ == spec_encode_map(entries_view(entries@)),
{
    let ghost ev = entries_view(entries@);
    let order = sorted_order(entries);
    let ghost sorted = sort_by_key(ev);
    let ghost encoded = sorted.map_values(|p: EntryView| spec_encode_entry(p));
    let mut out = len_prefix(entries.len());
    let ghost prefix = out@;
    let mut k: usize = 0;
    while k < order.len()
        invariant
            k <= order@.len(),
            ev == entries_view(entries@),
            order@.len() == entries@.len(),
            forall|m: int| 0 <= m < order@.len() ==> #[trigger] order@[m] < entries@.len(),
            order@.map_values(|j: usize| ev[j as int]) == sorted,
            encoded == sorted.map_values(|p: EntryView| spec_encode_entry(p)),
            prefix == spec_len_prefix(entries@.len()),
            out@ == prefix + spec_concat(encoded.subrange(0, k as int)),
        decreases order@.len() - k,
    {
        let j = order[k];
        let key = encode_bytes(entries[j].0.as_slice());
        let value = encode_bytes(entries[j].1.as_slice());
        append_bytes(&mut out, key.as_slice());
        append_bytes(&mut out, value.as_slice());
        proof {
            assert(sorted[k as int] == ev[j as int]);
            assert(encoded[k as int] == spec_encode_entry(ev[j as int]));
            assert(encoded.subrange(0, k + 1).drop_last() == encoded.subrange(0, k as int));
        }
        k = k + 1;
    }
    proof {
        lemma_sort_by_key_len(ev);
        assert(encoded.subrange(0, encoded.len() as int) == encoded);
    }
    out
}


proof fn lemma_lex_refl(a: Seq<u8>)
    ensures
        lex_le(a, a),
    decreases a.len(),
{
    if a.len() > 0 {
        lemma_lex_refl(a.drop_first());
    }
}

proof fn lemma_lex_antisym(a: Seq<u8>, b: Seq<u8>)
    requires
        lex_le(a, b),
        lex_le(b, a),
    ensures
        a == b,
    decreases a.len(),
{
    if a.len() == 0 {
        assert(b.len() == 0);
        assert(a =~= b);
    } else {
        assert(b.len() > 0);
        assert(a[0] == b[0]);
        lemma_lex_antisym(a.drop_first(), b.drop_first());
        assert(a =~= seq![a[0]] + a.drop_first());
        assert(b =~= seq![b[0]] + b.drop_first());
    }
}

proof fn lemma_lex_trans(a: Seq<u8>, b: Seq<u8>, c: Seq<u8>)
    requires
        lex_le(a, b),
        lex_le(b, c),
    ensures
        lex_le(a, c),
    decreases a.len(),
{
    if a.len() > 0 && b.len() > 0 && c.len() > 0 {
        if a[0] == b[0] && b[0] == c[0] {
            lemma_lex_trans(a.drop_first(), b.drop_first(), c.drop_first());
        }
    }
}

proof fn lemma_lex_total(a: Seq<u8>, b: Seq<u8>)
    ensures
        lex_le(a, b) || lex_le(b, a),
    decreases a.len(),
{
    if a.len() > 0 && b.len() > 0 && a[0] == b[0] {
        lemma_lex_total(a.drop_first(), b.drop_first());
    }
}

/// No two entries share a key.
pub open spec fn distinct_keys(s: Seq<EntryView>) -> bool {
    forall|i: int, j: int|
        0 <= i < s.len() && 0 <= j < s.len() && i != j ==> #[trigger] s[i].0 != #[trigger] s[j].0
}

/// Entries in non-decreasing key order.
pub open spec fn sorted_by_key(s: Seq<EntryView>) -> bool {
    forall|i: int, j: int| 0 <= i < j < s.len() ==> lex_le(#[trigger] s[i].0, #[trigger] s[j].0)
}

/// Key order, with the value deciding between equal keys.
spec fn entry_le(x: EntryView, y: EntryView) -> bool {
    if x.0 == y.0 {
        lex_le(x.1, y.1)
    } else {
        lex_le(x.0, y.0)
    }
}

proof fn lemma_entry_le_total_ordering()
    ensures
        total_ordering(|x: EntryView, y: EntryView| entry_le(x, y)),
{
    let r = |x: EntryView, y: EntryView| entry_le(x, y);
    assert forall|x: EntryView| #[trigger] r(x, x) by {
        lemma_lex_refl(x.1);
    }
    assert forall|x: EntryView, y: EntryView| #[trigger] r(x, y) && #[trigger] r(y, x) implies x
        == y by {
        if x.0 == y.0 {
            lemma_lex_antisym(x.1, y.1);
        } else {
            lemma_lex_antisym(x.0, y.0);
        }
    }
    assert forall|x: EntryView, y: EntryView, z: EntryView|
        #[trigger] r(x, y) && #[trigger] r(y, z) implies #[trigger] r(x, z) by {
        if x.0 == y.0 && y.0 == z.0 {
            lemma_lex_trans(x.1, y.1, z.1);
        } else if x.0 == y.0 {
        } else if y.0 == z.0 {
        } else {
            lemma_lex_trans(x.0, y.0, z.0);
            if x.0 == z.0 {
                lemma_lex_antisym(x.0, y.0);
            }
        }
    }
    assert forall|x: EntryView, y: EntryView| #[trigger] r(x, y) || #[trigger] r(y, x) by {
        lemma_lex_total(x.0, y.0);
        lemma_lex_total(x.1, y.1);
    }
}

proof fn lemma_insert_by_key_all(t: Seq<EntryView>, e: EntryView, pred: spec_fn(EntryView) -> bool)
    requires
        pred(e),
        forall|k: int| 0 <= k < t.len() ==> pred(#[trigger] t[k]),
    ensures
        forall|k: int|
            0 <= k < insert_by_key(t, e).len() ==> pred(#[trigger] insert_by_key(t, e)[k]),
    decreases t.len(),
{
    if t.len() == 0 {
        assert(insert_by_key(t, e) == seq![e]);
    } else if lex_le(t.last().0, e.0) {
        let r = t.push(e);
        assert forall|k: int| 0 <= k < r.len() implies pred(#[trigger] r[k]) by {
            if k < t.len() {
                assert(r[k] == t[k]);
            }
        }
    } else {
        let u = t.drop_last();
        assert forall|k: int| 0 <= k < u.len() implies pred(#[trigger] u[k]) by {
            assert(u[k] == t[k]);
        }
        lemma_insert_by_key_all(u, e, pred);
        let v = insert_by_key(u, e);
        let r = v.push(t.last());
        assert forall|k: int| 0 <= k < r.len() implies pred(#[trigger] r[k]) by {
            if k < v.len() {
                assert(r[k] == v[k]);
            } else {
                assert(r[k] == t[t.len() - 1]);
            }
        }
    }
}

proof fn lemma_insert_by_key_sorted(t: Seq<EntryView>, e: EntryView)
    requires
        sorted_by_key(t),
    ensures
        sorted_by_key(insert_by_key(t, e)),
        insert_by_key(t, e).to_multiset() == t.to_multiset().insert(e),
    decreases t.len(),
{
    broadcast use group_to_multiset_ensures;

    if t.len() == 0 {
        assert(seq![e] == Seq::<EntryView>::empty().push(e));
    } else if lex_le(t.last().0, e.0) {
        assert forall|i: int, j: int| 0 <= i < j < t.len() + 1 implies lex_le(
            #[trigger] t.push(e)[i].0,
            #[trigger] t.push(e)[j].0,
        ) by {
            if j == t.len() {
                if i < t.len() - 1 {
                    lemma_lex_trans(t[i].0, t.last().0, e.0);
                }
            }
        }
    } else {
        let u = t.drop_last();
        let last = t.last();
        lemma_insert_by_key_sorted(u, e);
        let v = insert_by_key(u, e);
        lemma_lex_total(last.0, e.0);
        lemma_insert_by_key_all(u, e, |x: EntryView| lex_le(x.0, last.0));
        assert forall|i: int, j: int| 0 <= i < j < v.len() + 1 implies lex_le(
            #[trigger] v.push(last)[i].0,
            #[trigger] v.push(last)[j].0,
        ) by {
            if j == v.len() {
                assert(lex_le(v[i].0, last.0));
            }
        }
        assert(t == u.push(last));
    }
}

proof fn lemma_sort_by_key_sorted(s: Seq<EntryView>)
    ensures
        sorted_by_key(sort_by_key(s)),
        sort_by_key(s).to_multiset() == s.to_multiset(),
    decreases s.len(),
{
    broadcast use group_to_multiset_ensures;

    if s.len() > 0 {
        lemma_sort_by_key_sorted(s.drop_last());
        lemma_insert_by_key_sorted(sort_by_key(s.drop_last()), s.last());
        assert(s == s.drop_last().push(s.last()));
    }
}

proof fn lemma_distinct_keys_preserved(s: Seq<EntryView>, t: Seq<EntryView>)
    requires
        distinct_keys(s),
        s.to_multiset() == t.to_multiset(),
    ensures
        distinct_keys(t),
{
    broadcast use group_to_multiset_ensures;

    assert(s.no_duplicates()) by {
        assert forall|i: int, j: int| 0 <= i < s.len() && 0 <= j < s.len() && i != j implies s[i]
            != s[j] by {
            assert(s[i].0 != s[j].0);
        }
    }
    s.lemma_multiset_has_no_duplicates();
    t.lemma_multiset_has_no_duplicates_conv();
    assert forall|i: int, j: int| 0 <= i < t.len() && 0 <= j < t.len() && i != j implies #[trigger] t[i].0
        != #[trigger] t[j].0 by {
        assert(t[i] != t[j]);
        assert(t.contains(t[i]));
        assert(t.contains(t[j]));
        assert(t.to_multiset().count(t[i]) > 0);
        assert(t.to_multiset().count(t[j]) > 0);
        assert(s.to_multiset().count(t[i]) > 0);
        assert(s.to_multiset().count(t[j]) > 0);
        assert(s.contains(t[i]));
        assert(s.contains(t[j]));
        let a = choose|a: int| 0 <= a < s.len() && s[a] == t[i];
        let b = choose|b: int| 0 <= b < s.len() && s[b] == t[j];
        assert(a != b);
        assert(s[a].0 != s[b].0);
    }
}

proof fn lemma_sorted_distinct_entry_le(x: Seq<EntryView>)
    requires
        sorted_by_key(x),
        distinct_keys(x),
    ensures
        sorted_by(x, |p: EntryView, q: EntryView| entry_le(p, q)),
{
    assert forall|i: int, j: int| 0 <= i < j < x.len() implies entry_le(x[i], x[j]) by {
        assert(lex_le(x[i].0, x[j].0));
        assert(x[i].0 != x[j].0);
    }
}

/// Law: when no key occurs twice, the encoding of a map does not depend on the
/// order in which its entries are given.
pub proof fn lemma_encode_map_order_independent(a: Seq<EntryView>, b: Seq<EntryView>)
    requires
        distinct_keys(a),
        a.to_multiset() == b.to_multiset(),
    ensures
        spec_encode_map(a) == spec_encode_map(b),
{
    broadcast use group_to_multiset_ensures;

    lemma_distinct_keys_preserved(a, b);
    lemma_sort_by_key_sorted(a);
    lemma_sort_by_key_sorted(b);
    let sa = sort_by_key(a);
    let sb = sort_by_key(b);
    lemma_distinct_keys_preserved(a, sa);
    lemma_distinct_keys_preserved(b, sb);
    lemma_sorted_distinct_entry_le(sa);
    lemma_sorted_distinct_entry_le(sb);
    lemma_entry_le_total_ordering();
    lemma_sorted_unique(sa, sb, |p: EntryView, q: EntryView| entry_le(p, q));
    assert(a.len() == a.to_multiset().len());
    assert(b.len() == b.to_multiset().len());
}

/// Law: the entries of an encoded map appear in non-decreasing raw-key order,
/// and they are exactly the given entries.
pub proof fn lemma_encode_map_sorted(a: Seq<EntryView>)
    ensures
        sorted_by_key(sort_by_key(a)),
        sort_by_key(a).to_multiset() == a.to_multiset(),
        spec_encode_map(a) == spec_len_prefix(a.len()) + spec_concat(
            sort_by_key(a).map_values(|p: EntryView| spec_encode_entry(p)),
        ),
{
    lemma_sort_by_key_sorted(a);
}

} // verus!
