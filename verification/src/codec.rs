//! Binary codec for a scope snapshot.
//!
//! The format is the minimal structural encoding of the data model: the
//! allowed list followed by the forbidden list, each a little-endian
//! 64-bit entry count followed by the entries; an entry is a one-byte
//! classification tag, the little-endian 64-bit byte length of the path's
//! UTF-8 encoding, and those bytes. There is no header or version field;
//! the reader rejects malformed input and the caller falls back to an
//! empty snapshot.
//!
//! The specification-level encoder and decoder below work on the abstract
//! value of a snapshot, a pair of sequences of `(path, classification)`
//! pairs; the executable functions are proved to match them exactly, and
//! decoding an encoded snapshot is proved to give the snapshot back.

use vstd::prelude::*;

verus! {

use vstd::bytes::{spec_u64_from_le_bytes, spec_u64_to_le_bytes, u64_from_le_bytes, u64_to_le_bytes,
    lemma_auto_spec_u64_to_from_le_bytes};
use vstd::slice::{slice_index_get, slice_subrange};
use vstd::string::StrSliceExecFns;
use vstd::utf8::{decode_utf8, encode_utf8, encode_utf8_decode_utf8, encode_utf8_valid_utf8,
    valid_utf8};
use crate::model::{ScopeEntry, ScopeError, ScopeSnapshot, TargetType, abs_entries,
    abs_paths_unique, check_unique, lemma_abs_paths_unique};

/// The byte tag an entry's classification is stored as.
pub open spec fn spec_tag_of(t: TargetType) -> u8 {
    match t {
        TargetType::File => 0u8,
        TargetType::Directory => 1u8,
        TargetType::RecursiveDirectory => 2u8,
    }
}

/// The classification a byte tag stands for, if any.
pub open spec fn spec_type_of_tag(tag: u8) -> Option<TargetType> {
    if tag == 0u8 {
        Some(TargetType::File)
    } else if tag == 1u8 {
        Some(TargetType::Directory)
    } else if tag == 2u8 {
        Some(TargetType::RecursiveDirectory)
    } else {
        None
    }
}

/// The encoding of one entry: classification tag, byte length of the
/// path's UTF-8 form, then those bytes.
pub open spec fn spec_encode_entry(e: (Seq<char>, TargetType)) -> Seq<u8> {
    seq![spec_tag_of(e.1)] + spec_u64_to_le_bytes(encode_utf8(e.0).len() as u64) + encode_utf8(e.0)
}

/// The concatenated encodings of a sequence of entries.
pub open spec fn spec_encode_entries(s: Seq<(Seq<char>, TargetType)>) -> Seq<u8>
    decreases s.len(),
{
    if s.len() == 0 {
        Seq::empty()
    } else {
        spec_encode_entry(s[0]) + spec_encode_entries(s.drop_first())
    }
}

/// The encoding of an entry list: its length, then its entries.
pub open spec fn spec_encode_list(s: Seq<(Seq<char>, TargetType)>) -> Seq<u8> {
    spec_u64_to_le_bytes(s.len() as u64) + spec_encode_entries(s)
}

/// The encoding of a whole snapshot: the allowed list, then the
/// forbidden list.
pub open spec fn spec_encode_snapshot(
    a: Seq<(Seq<char>, TargetType)>,
    f: Seq<(Seq<char>, TargetType)>,
) -> Seq<u8> {
    spec_encode_list(a) + spec_encode_list(f)
}

/// Reads a little-endian 64-bit count from the front of the input.
pub open spec fn spec_take_u64(b: Seq<u8>) -> Option<(u64, Seq<u8>)> {
    if b.len() < 8 {
        None
    } else {
        Some((spec_u64_from_le_bytes(b.take(8)), b.skip(8)))
    }
}

/// Reads one entry from the front of the input: a known tag, a length
/// that the remaining input covers, and a valid UTF-8 path.
pub open spec fn spec_take_entry(b: Seq<u8>) -> Option<((Seq<char>, TargetType), Seq<u8>)> {
    if b.len() == 0 {
        None
    } else {
        match spec_type_of_tag(b[0]) {
            None => None,
            Some(t) => match spec_take_u64(b.skip(1)) {
                None => None,
                Some((n, rest)) => if rest.len() < n {
                    None
                } else {
                    if valid_utf8(rest.take(n as int)) {
                        Some(((decode_utf8(rest.take(n as int)), t), rest.skip(n as int)))
                    } else {
                        None
                    }
                },
            },
        }
    }
}

/// Reads exactly `n` entries from the front of the input.
pub open spec fn spec_take_entries(b: Seq<u8>, n: nat) -> Option<
    (Seq<(Seq<char>, TargetType)>, Seq<u8>),
>
    decreases n,
{
    if n == 0 {
        Some((Seq::empty(), b))
    } else {
        match spec_take_entry(b) {
            None => None,
            Some((e, rest)) => match spec_take_entries(rest, (n - 1) as nat) {
                None => None,
                Some((es, rest2)) => Some((seq![e] + es, rest2)),
            },
        }
    }
}

/// Reads an entry list, a count followed by that many entries, from the
/// front of the input.
pub open spec fn spec_take_list(b: Seq<u8>) -> Option<(Seq<(Seq<char>, TargetType)>, Seq<u8>)> {
    match spec_take_u64(b) {
        None => None,
        Some((n, rest)) => spec_take_entries(rest, n as nat),
    }
}

/// Decodes a whole snapshot: two entry lists consuming the entire input,
/// each free of duplicate paths. Anything else is malformed.
pub open spec fn spec_decode_snapshot(b: Seq<u8>) -> Option<
    (Seq<(Seq<char>, TargetType)>, Seq<(Seq<char>, TargetType)>),
> {
    match spec_take_list(b) {
        None => None,
        Some((a, rest)) => match spec_take_list(rest) {
            None => None,
            Some((f, rest2)) => if rest2.len() == 0 && abs_paths_unique(a) && abs_paths_unique(f) {
                Some((a, f))
            } else {
                None
            },
        },
    }
}

/// Machine limits under which an abstract entry list is encodable: the
/// count and each path's UTF-8 byte length fit the 64-bit fields. Any
/// list held in memory satisfies them.
pub open spec fn entries_encodable(s: Seq<(Seq<char>, TargetType)>) -> bool {
    s.len() <= u64::MAX && forall|i: int|
        0 <= i < s.len() ==> encode_utf8(#[trigger] s[i].0).len() <= u64::MAX
}

/// Reading a count from its own encoding gives the count back.
proof fn lemma_take_u64_of_encode(x: u64, rest: Seq<u8>)
    ensures
        spec_take_u64(spec_u64_to_le_bytes(x) + rest) == Some((x, rest)),
{
    lemma_auto_spec_u64_to_from_le_bytes();
    let b = spec_u64_to_le_bytes(x) + rest;
    assert(b.take(8) =~= spec_u64_to_le_bytes(x));
    assert(b.skip(8) =~= rest);
}

/// Reading an entry from its own encoding gives the entry back.
proof fn lemma_take_entry_of_encode(e: (Seq<char>, TargetType), rest: Seq<u8>)
    requires
        encode_utf8(e.0).len() <= u64::MAX,
    ensures
        spec_take_entry(spec_encode_entry(e) + rest) == Some((e, rest)),
{
    broadcast use encode_utf8_decode_utf8, encode_utf8_valid_utf8;

    let pb = encode_utf8(e.0);
    let n = pb.len() as u64;
    let b = spec_encode_entry(e) + rest;
    assert(b[0] == spec_tag_of(e.1));
    assert(spec_type_of_tag(spec_tag_of(e.1)) == Some(e.1));
    assert(b.skip(1) =~= spec_u64_to_le_bytes(n) + (pb + rest));
    lemma_take_u64_of_encode(n, pb + rest);
    assert((pb + rest).take(n as int) =~= pb);
    assert((pb + rest).skip(n as int) =~= rest);
    assert((decode_utf8(pb), e.1) == e);
}

/// Reading `s.len()` entries from their concatenated encodings gives the
/// entries back.
proof fn lemma_take_entries_of_encode(s: Seq<(Seq<char>, TargetType)>, rest: Seq<u8>)
    requires
        entries_encodable(s),
    ensures
        spec_take_entries(spec_encode_entries(s) + rest, s.len()) == Some((s, rest)),
    decreases s.len(),
{
    if s.len() == 0 {
        assert(spec_encode_entries(s) + rest =~= rest);
        assert(s =~= Seq::<(Seq<char>, TargetType)>::empty());
    } else {
        let tail = s.drop_first();
        let b = spec_encode_entries(s) + rest;
        assert(b =~= spec_encode_entry(s[0]) + (spec_encode_entries(tail) + rest));
        lemma_take_entry_of_encode(s[0], spec_encode_entries(tail) + rest);
        assert(entries_encodable(tail)) by {
            assert(forall|i: int| 0 <= i < tail.len() ==> #[trigger] tail[i] == s[i + 1]);
        }
        lemma_take_entries_of_encode(tail, rest);
        assert(seq![s[0]] + tail =~= s);
    }
}

/// Reading a list from its own encoding gives the list back.
proof fn lemma_take_list_of_encode(s: Seq<(Seq<char>, TargetType)>, rest: Seq<u8>)
    requires
        entries_encodable(s),
    ensures
        spec_take_list(spec_encode_list(s) + rest) == Some((s, rest)),
{
    let b = spec_encode_list(s) + rest;
    assert(b =~= spec_u64_to_le_bytes(s.len() as u64) + (spec_encode_entries(s) + rest));
    lemma_take_u64_of_encode(s.len() as u64, spec_encode_entries(s) + rest);
    assert((s.len() as u64) as nat == s.len());
    lemma_take_entries_of_encode(s, rest);
}

/// Round trip: decoding the encoding of any snapshot value whose two
/// lists are free of duplicate paths gives exactly the same value back.
/// With [`encode_snapshot`] and [`decode_snapshot`], whose contracts are
/// stated over the same specification functions, this says that writing
/// a snapshot and reading it again loses nothing and changes nothing.
pub proof fn lemma_round_trip(a: Seq<(Seq<char>, TargetType)>, f: Seq<(Seq<char>, TargetType)>)
    requires
        abs_paths_unique(a),
        abs_paths_unique(f),
        entries_encodable(a),
        entries_encodable(f),
    ensures
        spec_decode_snapshot(spec_encode_snapshot(a, f)) == Some((a, f)),
{
    let b = spec_encode_snapshot(a, f);
    assert(b =~= spec_encode_list(a) + spec_encode_list(f));
    lemma_take_list_of_encode(a, spec_encode_list(f));
    assert(spec_encode_list(f) =~= spec_encode_list(f) + Seq::<u8>::empty());
    lemma_take_list_of_encode(f, Seq::<u8>::empty());
}

/// Round trip stated on a snapshot: decoding what [`encode_snapshot`]
/// produces for a well-formed snapshot recovers that snapshot's entry
/// lists, and so its allowed and forbidden maps.
pub proof fn lemma_snapshot_round_trip(snap: ScopeSnapshot)
    requires
        snap.wf(),
        entries_encodable(abs_entries(snap.allowed@)),
        entries_encodable(abs_entries(snap.forbidden@)),
    ensures
        spec_decode_snapshot(
            spec_encode_snapshot(abs_entries(snap.allowed@), abs_entries(snap.forbidden@)),
        ) == Some((abs_entries(snap.allowed@), abs_entries(snap.forbidden@))),
{
    lemma_abs_paths_unique(snap.allowed@);
    lemma_abs_paths_unique(snap.forbidden@);
    lemma_round_trip(abs_entries(snap.allowed@), abs_entries(snap.forbidden@));
}

/// Appends the encoding of one entry.
fn encode_entry(e: &ScopeEntry, out: &mut Vec<u8>)
    ensures
        final(out)@ == old(out)@ + spec_encode_entry(e.abs()),
{
    let tag: u8 = match e.target_type {
        TargetType::File => 0u8,
        TargetType::Directory => 1u8,
        TargetType::RecursiveDirectory => 2u8,
    };
    out.push(tag);
    let mut path_bytes = e.path.as_str().as_bytes_vec();
    let mut len_bytes = u64_to_le_bytes(path_bytes.len() as u64);
    out.append(&mut len_bytes);
    out.append(&mut path_bytes);
    assert(final(out)@ =~= old(out)@ + spec_encode_entry(e.abs()));
}

/// Appends the encoding of an entry list.
fn encode_list(list: &Vec<ScopeEntry>, out: &mut Vec<u8>)
    ensures
        final(out)@ == old(out)@ + spec_encode_list(abs_entries(list@)),
{
    let mut count_bytes = u64_to_le_bytes(list.len() as u64);
    out.append(&mut count_bytes);
    let ghost mid = out@;
    let mut i: usize = 0;
    while i < list.len()
        invariant
            i <= list@.len(),
            out@ == mid + spec_encode_entries(abs_entries(list@.take(i as int))),
        decreases list@.len() - i,
    {
        let ghost done = abs_entries(list@.take(i as int));
        encode_entry(&list[i], out);
        proof {
            lemma_encode_entries_snoc(done, list@[i as int].abs());
            assert(abs_entries(list@.take(i as int + 1)) =~= done.push(list@[i as int].abs()));
        }
        i = i + 1;
    }
    proof {
        assert(list@.take(list@.len() as int) =~= list@);
        assert(abs_entries(list@).len() == list@.len());
    }
}

/// Appending one entry to a sequence appends its encoding to the bytes.
proof fn lemma_encode_entries_snoc(s: Seq<(Seq<char>, TargetType)>, e: (Seq<char>, TargetType))
    ensures
        spec_encode_entries(s.push(e)) == spec_encode_entries(s) + spec_encode_entry(e),
    decreases s.len(),
{
    if s.len() == 0 {
        assert(s.push(e).drop_first() =~= s);
        assert(spec_encode_entries(s.push(e)) =~= spec_encode_entries(s) + spec_encode_entry(e));
    } else {
        assert(s.push(e).drop_first() =~= s.drop_first().push(e));
        lemma_encode_entries_snoc(s.drop_first(), e);
        assert(spec_encode_entries(s.push(e)) =~= spec_encode_entries(s) + spec_encode_entry(e));
    }
}

/// Encodes a snapshot to the byte form the decoder reads back.
pub fn encode_snapshot(snap: &ScopeSnapshot) -> (r: Vec<u8>)
    ensures
        r@ == spec_encode_snapshot(abs_entries(snap.allowed@), abs_entries(snap.forbidden@)),
{
    let mut out: Vec<u8> = Vec::new();
    encode_list(&snap.allowed, &mut out);
    encode_list(&snap.forbidden, &mut out);
    assert(out@ =~= spec_encode_snapshot(abs_entries(snap.allowed@), abs_entries(snap.forbidden@)));
    out
}

/// Relies on std's `str::from_utf8`: it succeeds on exactly the byte
/// sequences that are valid UTF-8, and the characters of the resulting
/// string are the ones those bytes encode.
#[verifier::external_body]
fn string_from_utf8(v: &[u8]) -> (r: Option<String>)
    ensures
        r is Some <==> valid_utf8(v@),
        r is Some ==> encode_utf8(r.unwrap()@) == v@,
{
    match std::str::from_utf8(v) {
        Ok(s) => Some(s.to_string()),
        Err(_) => None,
    }
}

/// Reads a little-endian 64-bit count at `pos`, matching [`spec_take_u64`].
fn take_u64(b: &[u8], pos: usize) -> (r: Option<(u64, usize)>)
    requires
        pos <= b@.len(),
    ensures
        match r {
            Some(p) => p.1 <= b@.len() && spec_take_u64(b@.skip(pos as int)) == Some(
                (p.0, b@.skip(p.1 as int)),
            ),
            None => spec_take_u64(b@.skip(pos as int)) is None,
        },
{
    if b.len() - pos < 8 {
        return None;
    }
    let word = slice_subrange(b, pos, pos + 8);
    let v = u64_from_le_bytes(word);
    proof {
        assert(b@.skip(pos as int).take(8) =~= b@.subrange(pos as int, pos as int + 8));
        assert(b@.skip(pos as int).skip(8) =~= b@.skip(pos as int + 8));
    }
    Some((v, pos + 8))
}

/// Reads one entry at `pos`, matching [`spec_take_entry`].
fn take_entry(b: &[u8], pos: usize) -> (r: Option<(ScopeEntry, usize)>)
    requires
        pos <= b@.len(),
    ensures
        match r {
            Some(p) => p.1 <= b@.len() && spec_take_entry(b@.skip(pos as int)) == Some(
                (p.0.abs(), b@.skip(p.1 as int)),
            ),
            None => spec_take_entry(b@.skip(pos as int)) is None,
        },
{
    broadcast use encode_utf8_decode_utf8;

    if pos >= b.len() {
        return None;
    }
    let tag = *slice_index_get(b, pos);
    assert(b@.skip(pos as int)[0] == b@[pos as int]);
    let target_type = match tag {
        0u8 => TargetType::File,
        1u8 => TargetType::Directory,
        2u8 => TargetType::RecursiveDirectory,
        _ => {
            return None;
        },
    };
    proof {
        assert(b@.skip(pos as int).skip(1) =~= b@.skip(pos as int + 1));
    }
    let (n, body_pos) = match take_u64(b, pos + 1) {
        Some(p) => p,
        None => {
            return None;
        },
    };
    if ((b.len() - body_pos) as u64) < n {
        return None;
    }
    let path_len: usize = n as usize;
    let path_bytes = slice_subrange(b, body_pos, body_pos + path_len);
    proof {
        assert(b@.skip(body_pos as int).take(n as int) =~= b@.subrange(
            body_pos as int,
            body_pos as int + n,
        ));
        assert(b@.skip(body_pos as int).skip(n as int) =~= b@.skip(body_pos as int + n));
    }
    let path = match string_from_utf8(path_bytes) {
        Some(p) => p,
        None => {
            return None;
        },
    };
    let entry = ScopeEntry { path, target_type };
    Some((entry, body_pos + path_len))
}

/// Prefixes already-read entries onto the result of reading the rest.
pub open spec fn spec_prefix_taken(
    prefix: Seq<(Seq<char>, TargetType)>,
    r: Option<(Seq<(Seq<char>, TargetType)>, Seq<u8>)>,
) -> Option<(Seq<(Seq<char>, TargetType)>, Seq<u8>)> {
    match r {
        None => None,
        Some((es, rest)) => Some((prefix + es, rest)),
    }
}

/// Reads exactly `n` entries at `pos`, matching [`spec_take_entries`].
fn take_entries(b: &[u8], pos: usize, n: u64) -> (r: Option<(Vec<ScopeEntry>, usize)>)
    requires
        pos <= b@.len(),
    ensures
        match r {
            Some(p) => p.1 <= b@.len() && spec_take_entries(b@.skip(pos as int), n as nat) == Some(
                (abs_entries(p.0@), b@.skip(p.1 as int)),
            ),
            None => spec_take_entries(b@.skip(pos as int), n as nat) is None,
        },
{
    let mut acc: Vec<ScopeEntry> = Vec::new();
    let mut cur: usize = pos;
    let mut i: u64 = 0;
    assert(abs_entries(acc@) =~= Seq::<(Seq<char>, TargetType)>::empty());
    while i < n
        invariant
            i <= n,
            cur <= b@.len(),
            spec_take_entries(b@.skip(pos as int), n as nat) == spec_prefix_taken(
                abs_entries(acc@),
                spec_take_entries(b@.skip(cur as int), (n - i) as nat),
            ),
        decreases n - i,
    {
        let ghost done = abs_entries(acc@);
        let ghost before = spec_take_entries(b@.skip(cur as int), (n - i) as nat);
        match take_entry(b, cur) {
            Some((e, next)) => {
                proof {
                    let after = spec_take_entries(b@.skip(next as int), (n - i - 1) as nat);
                    assert(before == spec_prefix_taken(seq![e.abs()], after));
                    if after is Some {
                        let (es, rest) = after.unwrap();
                        assert(done + (seq![e.abs()] + es) =~= done.push(e.abs()) + es);
                    }
                    assert(abs_entries(acc@.push(e)) =~= done.push(e.abs()));
                }
                acc.push(e);
                cur = next;
            },
            None => {
                return None;
            },
        }
        i = i + 1;
    }
    proof {
        assert(abs_entries(acc@) + Seq::<(Seq<char>, TargetType)>::empty() =~= abs_entries(acc@));
    }
    Some((acc, cur))
}

/// Reads an entry list at `pos`, matching [`spec_take_list`].
fn take_list(b: &[u8], pos: usize) -> (r: Option<(Vec<ScopeEntry>, usize)>)
    requires
        pos <= b@.len(),
    ensures
        match r {
            Some(p) => p.1 <= b@.len() && spec_take_list(b@.skip(pos as int)) == Some(
                (abs_entries(p.0@), b@.skip(p.1 as int)),
            ),
            None => spec_take_list(b@.skip(pos as int)) is None,
        },
{
    let (n, body_pos) = match take_u64(b, pos) {
        Some(p) => p,
        None => {
            return None;
        },
    };
    take_entries(b, body_pos, n)
}

/// Decodes a snapshot from its byte form, rejecting malformed input.
///
/// The result is `Ok` exactly when [`spec_decode_snapshot`] accepts the
/// bytes, and then holds the decoded entry lists; otherwise the error is
/// the decode failure of the error taxonomy.
pub fn decode_snapshot(b: &[u8]) -> (r: Result<ScopeSnapshot, ScopeError>)
    ensures
        match r {
            Ok(snap) => snap.wf() && spec_decode_snapshot(b@) == Some(
                (abs_entries(snap.allowed@), abs_entries(snap.forbidden@)),
            ),
            Err(e) => e == ScopeError::DecodeFailure && spec_decode_snapshot(b@) is None,
        },
{
    proof {
        assert(b@.skip(0) =~= b@);
    }
    let (allowed, pos1) = match take_list(b, 0) {
        Some(p) => p,
        None => {
            return Err(ScopeError::DecodeFailure);
        },
    };
    let (forbidden, pos2) = match take_list(b, pos1) {
        Some(p) => p,
        None => {
            return Err(ScopeError::DecodeFailure);
        },
    };
    if pos2 != b.len() {
        assert(b@.skip(pos2 as int).len() != 0);
        return Err(ScopeError::DecodeFailure);
    }
    assert(b@.skip(pos2 as int).len() == 0);
    proof {
        lemma_abs_paths_unique(allowed@);
        lemma_abs_paths_unique(forbidden@);
    }
    if !check_unique(&allowed) {
        return Err(ScopeError::DecodeFailure);
    }
    if !check_unique(&forbidden) {
        return Err(ScopeError::DecodeFailure);
    }
    Ok(ScopeSnapshot { allowed, forbidden })
}

} // verus!
