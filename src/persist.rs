//! The data file of a safe-mode environment.
//!
//! Layout, all integers little-endian: the number of databases (8 bytes);
//! then for each database its name (a 0 byte for the unnamed database, else a
//! 1 byte and the UTF-8 name preceded by its length in 8 bytes), its flags
//! (4 bytes), its number of pairs (8 bytes), and each pair in ascending order
//! as the key and then the value, each preceded by its length in 8 bytes.
use crate::database::Database;
use crate::environment::{name_of_string, EnvironmentImpl, EnvironmentView};
use crate::error::ErrorImpl;
use crate::flags::DatabaseFlags;
use crate::snapshot::{entries_view, PairView, Snapshot, SnapshotView};
use crate::value::{append_bytes, append_length_prefixed, length_prefixed, string_from_utf8};
use vstd::bytes::*;
use vstd::prelude::*;
use vstd::slice::*;
use vstd::utf8::*;

verus! {

broadcast use vstd::utf8::encode_utf8_valid_utf8, vstd::utf8::encode_utf8_decode_utf8;

/// A stored database: its name and its snapshot.
pub type StoredDb = (Option<Seq<char>>, SnapshotView);

/// The databases of an environment, in order, as the file holds them.
pub open spec fn stored(e: EnvironmentView) -> Seq<StoredDb> {
    Seq::new(e.dbs.len(), |i: int| (e.names[i], e.dbs[i]))
}

pub open spec fn enc_name(n: Option<Seq<char>>) -> Seq<u8> {
    match n {
        None => seq![0u8],
        Some(s) => seq![1u8] + length_prefixed(encode_utf8(s)),
    }
}

pub open spec fn enc_pair(p: PairView) -> Seq<u8> {
    length_prefixed(p.0) + length_prefixed(p.1)
}

pub open spec fn enc_pairs(s: Seq<PairView>) -> Seq<u8>
    decreases s.len(),
{
    if s.len() == 0 {
        Seq::empty()
    } else {
        enc_pair(s[0]) + enc_pairs(s.drop_first())
    }
}

pub open spec fn enc_db(d: StoredDb) -> Seq<u8> {
    enc_name(d.0) + spec_u32_to_le_bytes(d.1.flags.bits) + spec_u64_to_le_bytes(d.1.entries.len() as u64)
        + enc_pairs(d.1.entries)
}

pub open spec fn enc_dbs(s: Seq<StoredDb>) -> Seq<u8>
    decreases s.len(),
{
    if s.len() == 0 {
        Seq::empty()
    } else {
        enc_db(s[0]) + enc_dbs(s.drop_first())
    }
}

/// The content of the data file for these databases.
pub open spec fn enc_file(s: Seq<StoredDb>) -> Seq<u8> {
    spec_u64_to_le_bytes(s.len() as u64) + enc_dbs(s)
}

/// Every length the file writes fits in eight bytes.
pub open spec fn bounded(s: Seq<StoredDb>) -> bool {
    &&& s.len() <= u64::MAX
    &&& forall|i: int| 0 <= i < s.len() ==> #[trigger] bounded_db(s[i])
}

pub open spec fn bounded_db(d: StoredDb) -> bool {
    &&& (d.0 matches Some(n) ==> encode_utf8(n).len() <= u64::MAX)
    &&& d.1.entries.len() <= u64::MAX
    &&& forall|j: int| 0 <= j < d.1.entries.len() ==> #[trigger] d.1.entries[j].0.len() <= u64::MAX
        && d.1.entries[j].1.len() <= u64::MAX
}

pub open spec fn dec_u64(d: Seq<u8>) -> Option<(u64, Seq<u8>)> {
    if d.len() >= 8 {
        Some((spec_u64_from_le_bytes(d.subrange(0, 8)), d.subrange(8, d.len() as int)))
    } else {
        None
    }
}

pub open spec fn dec_u32(d: Seq<u8>) -> Option<(u32, Seq<u8>)> {
    if d.len() >= 4 {
        Some((spec_u32_from_le_bytes(d.subrange(0, 4)), d.subrange(4, d.len() as int)))
    } else {
        None
    }
}

pub open spec fn dec_bytes(d: Seq<u8>) -> Option<(Seq<u8>, Seq<u8>)> {
    match dec_u64(d) {
        Some((n, r)) => if n <= r.len() {
            Some((r.subrange(0, n as int), r.subrange(n as int, r.len() as int)))
        } else {
            None
        },
        None => None,
    }
}

pub open spec fn dec_name(d: Seq<u8>) -> Option<(Option<Seq<char>>, Seq<u8>)> {
    if d.len() == 0 {
        None
    } else if d[0] == 0 {
        Some((None, d.drop_first()))
    } else if d[0] == 1 {
        match dec_bytes(d.drop_first()) {
            Some((b, r)) => if valid_utf8(b) {
                Some((Some(decode_utf8(b)), r))
            } else {
                None
            },
            None => None,
        }
    } else {
        None
    }
}

pub open spec fn dec_pairs(d: Seq<u8>, n: nat) -> Option<(Seq<PairView>, Seq<u8>)>
    decreases n,
{
    if n == 0 {
        Some((Seq::empty(), d))
    } else {
        match dec_bytes(d) {
            Some((k, r1)) => match dec_bytes(r1) {
                Some((v, r2)) => match dec_pairs(r2, (n - 1) as nat) {
                    Some((rest, r3)) => Some((seq![(k, v)] + rest, r3)),
                    None => None,
                },
                None => None,
            },
            None => None,
        }
    }
}

pub open spec fn dec_db(d: Seq<u8>) -> Option<(StoredDb, Seq<u8>)> {
    match dec_name(d) {
        Some((name, r1)) => match dec_u32(r1) {
            Some((bits, r2)) => match dec_u64(r2) {
                Some((n, r3)) => match dec_pairs(r3, n as nat) {
                    Some((entries, r4)) => Some(
                        ((name, SnapshotView { flags: DatabaseFlags { bits }, entries }), r4),
                    ),
                    None => None,
                },
                None => None,
            },
            None => None,
        },
        None => None,
    }
}

pub open spec fn dec_dbs(d: Seq<u8>, n: nat) -> Option<(Seq<StoredDb>, Seq<u8>)>
    decreases n,
{
    if n == 0 {
        Some((Seq::empty(), d))
    } else {
        match dec_db(d) {
            Some((db, r1)) => match dec_dbs(r1, (n - 1) as nat) {
                Some((rest, r2)) => Some((seq![db] + rest, r2)),
                None => None,
            },
            None => None,
        }
    }
}

/// What a data file decodes to, if it is well formed.
pub open spec fn dec_file(d: Seq<u8>) -> Option<Seq<StoredDb>> {
    match dec_u64(d) {
        Some((n, r)) => match dec_dbs(r, n as nat) {
            Some((dbs, rest)) => if rest.len() == 0 {
                Some(dbs)
            } else {
                None
            },
            None => None,
        },
        None => None,
    }
}

proof fn lemma_dec_u64(x: u64, rest: Seq<u8>)
    ensures
        dec_u64(spec_u64_to_le_bytes(x) + rest) == Some((x, rest)),
{
    lemma_auto_spec_u64_to_from_le_bytes();
    let d = spec_u64_to_le_bytes(x) + rest;
    assert(d.subrange(0, 8) =~= spec_u64_to_le_bytes(x));
    assert(d.subrange(8, d.len() as int) =~= rest);
}

proof fn lemma_dec_u32(x: u32, rest: Seq<u8>)
    ensures
        dec_u32(spec_u32_to_le_bytes(x) + rest) == Some((x, rest)),
{
    lemma_auto_spec_u32_to_from_le_bytes();
    let d = spec_u32_to_le_bytes(x) + rest;
    assert(d.subrange(0, 4) =~= spec_u32_to_le_bytes(x));
    assert(d.subrange(4, d.len() as int) =~= rest);
}

proof fn lemma_dec_bytes(b: Seq<u8>, rest: Seq<u8>)
    requires
        b.len() <= u64::MAX,
    ensures
        dec_bytes(length_prefixed(b) + rest) == Some((b, rest)),
{
    let n = b.len() as u64;
    assert(length_prefixed(b) + rest =~= spec_u64_to_le_bytes(n) + (b + rest));
    lemma_dec_u64(n, b + rest);
    assert((b + rest).subrange(0, n as int) =~= b);
    assert((b + rest).subrange(n as int, (b + rest).len() as int) =~= rest);
}

proof fn lemma_dec_name(n: Option<Seq<char>>, rest: Seq<u8>)
    requires
        n matches Some(s) ==> encode_utf8(s).len() <= u64::MAX,
    ensures
        dec_name(enc_name(n) + rest) == Some((n, rest)),
{
    let d = enc_name(n) + rest;
    match n {
        None => {
            assert(d.drop_first() =~= rest);
        },
        Some(s) => {
            let b = encode_utf8(s);
            assert(d.drop_first() =~= length_prefixed(b) + rest);
            lemma_dec_bytes(b, rest);
        },
    }
}

proof fn lemma_dec_pairs(s: Seq<PairView>, rest: Seq<u8>)
    requires
        forall|j: int| 0 <= j < s.len() ==> #[trigger] s[j].0.len() <= u64::MAX && s[j].1.len() <= u64::MAX,
    ensures
        dec_pairs(enc_pairs(s) + rest, s.len()) == Some((s, rest)),
    decreases s.len(),
{
    if s.len() > 0 {
        let p = s[0];
        let tail = s.drop_first();
        let r2 = enc_pairs(tail) + rest;
        assert(enc_pairs(s) + rest =~= length_prefixed(p.0) + (length_prefixed(p.1) + r2));
        lemma_dec_bytes(p.0, length_prefixed(p.1) + r2);
        lemma_dec_bytes(p.1, r2);
        lemma_dec_pairs(tail, rest);
        assert(seq![(p.0, p.1)] + tail =~= s);
    }
}

proof fn lemma_dec_db(d: StoredDb, rest: Seq<u8>)
    requires
        bounded_db(d),
    ensures
        dec_db(enc_db(d) + rest) == Some((d, rest)),
{
    let e = d.1.entries;
    let r3 = enc_pairs(e) + rest;
    let r2 = spec_u64_to_le_bytes(e.len() as u64) + r3;
    let r1 = spec_u32_to_le_bytes(d.1.flags.bits) + r2;
    assert(enc_db(d) + rest =~= enc_name(d.0) + r1);
    lemma_dec_name(d.0, r1);
    lemma_dec_u32(d.1.flags.bits, r2);
    lemma_dec_u64(e.len() as u64, r3);
    lemma_dec_pairs(e, rest);
}

proof fn lemma_dec_dbs(s: Seq<StoredDb>, rest: Seq<u8>)
    requires
        forall|i: int| 0 <= i < s.len() ==> #[trigger] bounded_db(s[i]),
    ensures
        dec_dbs(enc_dbs(s) + rest, s.len()) == Some((s, rest)),
    decreases s.len(),
{
    if s.len() > 0 {
        let tail = s.drop_first();
        assert(enc_dbs(s) + rest =~= enc_db(s[0]) + (enc_dbs(tail) + rest));
        assert(bounded_db(s[0]));
        lemma_dec_db(s[0], enc_dbs(tail) + rest);
        assert forall|i: int| 0 <= i < tail.len() implies #[trigger] bounded_db(tail[i]) by {
            assert(tail[i] == s[i + 1]);
        }
        lemma_dec_dbs(tail, rest);
        assert(seq![s[0]] + tail =~= s);
    }
}

/// Reading back a data file gives the databases that were written.
pub proof fn lemma_file_round_trip(s: Seq<StoredDb>)
    requires
        bounded(s),
    ensures
        dec_file(enc_file(s)) == Some(s),
{
    lemma_dec_u64(s.len() as u64, enc_dbs(s));
    lemma_dec_dbs(s, Seq::empty());
    assert(enc_dbs(s) + Seq::<u8>::empty() =~= enc_dbs(s));
}

/// The databases are well formed: each snapshot strictly ascending, no name twice.
pub open spec fn valid_stored(s: Seq<StoredDb>) -> bool {
    &&& forall|i: int| 0 <= i < s.len() ==> #[trigger] s[i].1.wf()
    &&& forall|i: int, j: int| 0 <= i < j < s.len() ==> #[trigger] s[i].0 != #[trigger] s[j].0
}

/// Writing an environment and reading the file back gives its databases again.
pub proof fn lemma_reopen(e: EnvironmentView)
    requires
        e.wf(),
        bounded(stored(e)),
    ensures
        dec_file(enc_file(stored(e))) == Some(stored(e)),
        valid_stored(stored(e)),
{
    lemma_file_round_trip(stored(e));
    let s = stored(e);
    assert forall|i: int, j: int| 0 <= i < j < s.len() implies #[trigger] s[i].0 != #[trigger] s[j].0 by {
        assert(e.names[i] != e.names[j]);
    }
}

proof fn lemma_enc_pairs_push(s: Seq<PairView>, p: PairView)
    ensures
        enc_pairs(s.push(p)) == enc_pairs(s) + enc_pair(p),
    decreases s.len(),
{
    if s.len() == 0 {
        assert(s.push(p).drop_first() =~= Seq::<PairView>::empty());
        assert(s.push(p)[0] == p);
        assert(enc_pairs(Seq::<PairView>::empty()) == Seq::<u8>::empty());
        assert(enc_pairs(s.push(p)) == enc_pair(p) + enc_pairs(Seq::<PairView>::empty()));
        assert(enc_pairs(s.push(p)) =~= enc_pair(p));
        assert(enc_pairs(s) + enc_pair(p) =~= enc_pair(p));
    } else {
        assert(s.push(p).drop_first() =~= s.drop_first().push(p));
        lemma_enc_pairs_push(s.drop_first(), p);
        assert(enc_pairs(s.push(p)) =~= enc_pairs(s) + enc_pair(p));
    }
}

proof fn lemma_enc_dbs_push(s: Seq<StoredDb>, d: StoredDb)
    ensures
        enc_dbs(s.push(d)) == enc_dbs(s) + enc_db(d),
    decreases s.len(),
{
    if s.len() == 0 {
        assert(s.push(d).drop_first() =~= Seq::<StoredDb>::empty());
        assert(s.push(d)[0] == d);
        assert(enc_dbs(Seq::<StoredDb>::empty()) == Seq::<u8>::empty());
        assert(enc_dbs(s.push(d)) == enc_db(d) + enc_dbs(Seq::<StoredDb>::empty()));
        assert(enc_dbs(s.push(d)) =~= enc_db(d));
        assert(enc_dbs(s) + enc_db(d) =~= enc_db(d));
    } else {
        assert(s.push(d).drop_first() =~= s.drop_first().push(d));
        lemma_enc_dbs_push(s.drop_first(), d);
        assert(enc_dbs(s.push(d)) =~= enc_dbs(s) + enc_db(d));
    }
}

fn write_name(out: &mut Vec<u8>, n: Option<&str>)
    ensures
        final(out)@ == old(out)@ + enc_name(crate::environment::name_of_str(n)),
        n matches Some(t) ==> encode_utf8(t@).len() <= u64::MAX,
{
    match n {
        None => {
            out.push(0u8);
            assert(final(out)@ =~= old(out)@ + enc_name(None));
        },
        Some(t) => {
            out.push(1u8);
            let b = t.as_bytes();
            let len = b.len();
            append_length_prefixed(out, b);
            assert(final(out)@ =~= old(out)@ + enc_name(Some(t@)));
        },
    }
}

fn write_snapshot(out: &mut Vec<u8>, s: &Snapshot)
    ensures
        final(out)@ == old(out)@ + spec_u32_to_le_bytes(s@.flags.bits) + spec_u64_to_le_bytes(
            s@.entries.len() as u64,
        ) + enc_pairs(s@.entries),
        s@.entries.len() <= u64::MAX,
        forall|j: int| 0 <= j < s@.entries.len() ==> #[trigger] s@.entries[j].0.len() <= u64::MAX
            && s@.entries[j].1.len() <= u64::MAX,
{
    let flags = u32_to_le_bytes(s.flags().bits);
    append_bytes(out, flags.as_slice());
    let n = s.len();
    let count = u64_to_le_bytes(n as u64);
    append_bytes(out, count.as_slice());
    let ghost start = out@;
    let mut i: usize = 0;
    while i < n
        invariant
            n == s@.entries.len(),
            i <= n,
            out@ == start + enc_pairs(s@.entries.subrange(0, i as int)),
            forall|j: int| 0 <= j < i ==> #[trigger] s@.entries[j].0.len() <= u64::MAX
                && s@.entries[j].1.len() <= u64::MAX,
        decreases n - i,
    {
        let (k, v) = s.pair_at(i);
        let kl = k.len();
        let vl = v.len();
        append_length_prefixed(out, k);
        append_length_prefixed(out, v);
        proof {
            let e = s@.entries;
            assert(e.subrange(0, i + 1) =~= e.subrange(0, i as int).push(e[i as int]));
            lemma_enc_pairs_push(e.subrange(0, i as int), e[i as int]);
            assert(out@ =~= start + enc_pairs(e.subrange(0, i + 1)));
        }
        i = i + 1;
    }
    assert(s@.entries.subrange(0, n as int) =~= s@.entries);
}

/// The content of the data file for an environment.
pub fn to_bytes(env: &EnvironmentImpl) -> (r: Vec<u8>)
    ensures
        r@ == enc_file(stored(env@)),
        bounded(stored(env@)),
{
    let ghost s = stored(env@);
    let n = env.db_count();
    let mut out = u64_to_le_bytes(n as u64);
    let ghost start = out@;
    let mut i: usize = 0;
    while i < n
        invariant
            n == env@.dbs.len(),
            s == stored(env@),
            i <= n,
            out@ == start + enc_dbs(s.subrange(0, i as int)),
            forall|j: int| 0 <= j < i ==> #[trigger] bounded_db(s[j]),
        decreases n - i,
    {
        write_name(&mut out, env.name_at(i));
        write_snapshot(&mut out, env.snapshot_at(i));
        proof {
            assert(s[i as int] == (env@.names[i as int], env@.dbs[i as int]));
            assert(s.subrange(0, i + 1) =~= s.subrange(0, i as int).push(s[i as int]));
            lemma_enc_dbs_push(s.subrange(0, i as int), s[i as int]);
            assert(out@ =~= start + enc_dbs(s.subrange(0, i + 1)));
        }
        i = i + 1;
    }
    assert(s.subrange(0, n as int) =~= s);
    out
}

pub open spec fn tail(d: Seq<u8>, p: int) -> Seq<u8> {
    d.subrange(p, d.len() as int)
}

fn read_u64(data: &[u8], pos: usize) -> (r: Option<(u64, usize)>)
    requires
        pos <= data@.len(),
    ensures
        r matches Some((x, q)) ==> pos <= q <= data@.len() && dec_u64(tail(data@, pos as int)) == Some((x, tail(data@, q as int))),
        r is None ==> dec_u64(tail(data@, pos as int)) is None,
{
    if data.len() - pos < 8 {
        return None;
    }
    let x = u64_from_le_bytes(slice_subrange(data, pos, pos + 8));
    proof {
        let t = tail(data@, pos as int);
        assert(t.subrange(0, 8) =~= data@.subrange(pos as int, pos + 8));
        assert(t.subrange(8, t.len() as int) =~= tail(data@, pos + 8));
    }
    Some((x, pos + 8))
}

fn read_u32(data: &[u8], pos: usize) -> (r: Option<(u32, usize)>)
    requires
        pos <= data@.len(),
    ensures
        r matches Some((x, q)) ==> pos <= q <= data@.len() && dec_u32(tail(data@, pos as int)) == Some((x, tail(data@, q as int))),
        r is None ==> dec_u32(tail(data@, pos as int)) is None,
{
    if data.len() - pos < 4 {
        return None;
    }
    let x = u32_from_le_bytes(slice_subrange(data, pos, pos + 4));
    proof {
        let t = tail(data@, pos as int);
        assert(t.subrange(0, 4) =~= data@.subrange(pos as int, pos + 4));
        assert(t.subrange(4, t.len() as int) =~= tail(data@, pos + 4));
    }
    Some((x, pos + 4))
}

fn read_bytes<'a>(data: &'a [u8], pos: usize) -> (r: Option<(&'a [u8], usize)>)
    requires
        pos <= data@.len(),
    ensures
        r matches Some((b, q)) ==> pos <= q <= data@.len() && dec_bytes(tail(data@, pos as int)) == Some((b@, tail(data@, q as int))),
        r is None ==> dec_bytes(tail(data@, pos as int)) is None,
{
    match read_u64(data, pos) {
        None => None,
        Some((n, p)) => {
            if n > (data.len() - p) as u64 {
                return None;
            }
            let end = p + n as usize;
            let b = slice_subrange(data, p, end);
            proof {
                let t = tail(data@, p as int);
                assert(t.subrange(0, n as int) =~= b@);
                assert(t.subrange(n as int, t.len() as int) =~= tail(data@, end as int));
            }
            Some((b, end))
        },
    }
}

fn read_name(data: &[u8], pos: usize) -> (r: Option<(Option<String>, usize)>)
    requires
        pos <= data@.len(),
    ensures
        r matches Some((n, q)) ==> pos <= q <= data@.len() && dec_name(tail(data@, pos as int)) == Some(
            (name_of_string(n), tail(data@, q as int)),
        ),
        r is None ==> dec_name(tail(data@, pos as int)) is None,
{
    if pos >= data.len() {
        return None;
    }
    let tag = data[pos];
    proof {
        assert(tail(data@, pos as int)[0] == tag);
        assert(tail(data@, pos as int).drop_first() =~= tail(data@, pos + 1));
    }
    if tag == 0 {
        Some((None, pos + 1))
    } else if tag == 1 {
        match read_bytes(data, pos + 1) {
            None => None,
            Some((b, q)) => match string_from_utf8(b) {
                None => None,
                Some(s) => {
                    proof {
                        assert(decode_utf8(encode_utf8(s@)) == s@);
                    }
                    Some((Some(s), q))
                },
            },
        }
    } else {
        None
    }
}

fn read_pairs(data: &[u8], pos: usize, n: u64) -> (r: Option<(Vec<(Vec<u8>, Vec<u8>)>, usize)>)
    requires
        pos <= data@.len(),
    ensures
        r matches Some((v, q)) ==> pos <= q <= data@.len() && dec_pairs(tail(data@, pos as int), n as nat) == Some(
            (entries_view(v@), tail(data@, q as int)),
        ),
        r is None ==> dec_pairs(tail(data@, pos as int), n as nat) is None,
{
    let mut acc: Vec<(Vec<u8>, Vec<u8>)> = Vec::new();
    let mut p = pos;
    let mut i: u64 = 0;
    while i < n
        invariant
            i <= n,
            pos <= p <= data@.len(),
            dec_pairs(tail(data@, pos as int), n as nat) == match dec_pairs(tail(data@, p as int), (n - i) as nat) {
                Some((rest, t)) => Some((entries_view(acc@) + rest, t)),
                None => None,
            },
        decreases n - i,
    {
        let ghost m = (n - i) as nat;
        let (k, p1) = match read_bytes(data, p) {
            None => return None,
            Some(x) => x,
        };
        let (v, p2) = match read_bytes(data, p1) {
            None => return None,
            Some(x) => x,
        };
        let pair = (slice_to_vec(k), slice_to_vec(v));
        let ghost before = acc@;
        acc.push(pair);
        proof {
            crate::snapshot::lemma_view_push(before, pair);
            match dec_pairs(tail(data@, p2 as int), (m - 1) as nat) {
                Some((rest, t)) => {
                    assert(entries_view(before) + (seq![(k@, v@)] + rest) =~= entries_view(acc@) + rest);
                },
                None => {},
            }
        }
        p = p2;
        i = i + 1;
    }
    proof {
        assert(entries_view(acc@) + Seq::<PairView>::empty() =~= entries_view(acc@));
    }
    Some((acc, p))
}

/// A database as read from the file, not yet checked.
pub type RawDb = (Option<String>, DatabaseFlags, Vec<(Vec<u8>, Vec<u8>)>);

pub open spec fn raw_view(r: RawDb) -> StoredDb {
    (name_of_string(r.0), SnapshotView { flags: r.1, entries: entries_view(r.2@) })
}

fn read_db(data: &[u8], pos: usize) -> (r: Option<(RawDb, usize)>)
    requires
        pos <= data@.len(),
    ensures
        r matches Some((d, q)) ==> pos <= q <= data@.len() && dec_db(tail(data@, pos as int)) == Some(
            (raw_view(d), tail(data@, q as int)),
        ),
        r is None ==> dec_db(tail(data@, pos as int)) is None,
{
    let (name, p1) = match read_name(data, pos) {
        None => return None,
        Some(x) => x,
    };
    let (bits, p2) = match read_u32(data, p1) {
        None => return None,
        Some(x) => x,
    };
    let (n, p3) = match read_u64(data, p2) {
        None => return None,
        Some(x) => x,
    };
    let (entries, p4) = match read_pairs(data, p3, n) {
        None => return None,
        Some(x) => x,
    };
    Some(((name, DatabaseFlags { bits }, entries), p4))
}

fn read_dbs(data: &[u8], pos: usize, n: u64) -> (r: Option<(Vec<RawDb>, usize)>)
    requires
        pos <= data@.len(),
    ensures
        r matches Some((v, q)) ==> pos <= q <= data@.len() && dec_dbs(tail(data@, pos as int), n as nat) == Some(
            (v@.map_values(|d: RawDb| raw_view(d)), tail(data@, q as int)),
        ),
        r is None ==> dec_dbs(tail(data@, pos as int), n as nat) is None,
{
    let mut acc: Vec<RawDb> = Vec::new();
    let mut p = pos;
    let mut i: u64 = 0;
    while i < n
        invariant
            i <= n,
            pos <= p <= data@.len(),
            dec_dbs(tail(data@, pos as int), n as nat) == match dec_dbs(tail(data@, p as int), (n - i) as nat) {
                Some((rest, t)) => Some((acc@.map_values(|d: RawDb| raw_view(d)) + rest, t)),
                None => None,
            },
        decreases n - i,
    {
        let ghost m = (n - i) as nat;
        let (d, p1) = match read_db(data, p) {
            None => return None,
            Some(x) => x,
        };
        let ghost before = acc@;
        acc.push(d);
        proof {
            assert(acc@.map_values(|d: RawDb| raw_view(d)) =~= before.map_values(|d: RawDb| raw_view(d)).push(raw_view(d)));
            match dec_dbs(tail(data@, p1 as int), (m - 1) as nat) {
                Some((rest, t)) => {
                    assert(before.map_values(|d: RawDb| raw_view(d)) + (seq![raw_view(d)] + rest)
                        =~= acc@.map_values(|d: RawDb| raw_view(d)) + rest);
                },
                None => {},
            }
        }
        p = p1;
        i = i + 1;
    }
    proof {
        assert(acc@.map_values(|d: RawDb| raw_view(d)) + Seq::<StoredDb>::empty() =~= acc@.map_values(|d: RawDb| raw_view(d)));
    }
    Some((acc, p))
}

/// Reads an environment, with identity `id`, back from the content of its data file.
pub fn from_bytes(data: &[u8], id: u64) -> (r: Result<EnvironmentImpl, ErrorImpl>)
    ensures
        r matches Ok(e) ==> e@.id == id && dec_file(data@) == Some(stored(e@)) && e@.wf() && e@.readers == 0 && !e@.writer,
        r is Err ==> r->Err_0 == ErrorImpl::FileInvalid && !(dec_file(data@) matches Some(s) && valid_stored(s)),
{
    proof {
        assert(tail(data@, 0) =~= data@);
    }
    let (n, p) = match read_u64(data, 0) {
        None => return Err(ErrorImpl::FileInvalid),
        Some(x) => x,
    };
    let (raw, q) = match read_dbs(data, p, n) {
        None => return Err(ErrorImpl::FileInvalid),
        Some(x) => x,
    };
    if q != data.len() {
        return Err(ErrorImpl::FileInvalid);
    }
    let ghost ds = raw@.map_values(|d: RawDb| raw_view(d));
    proof {
        assert(tail(data@, q as int).len() == 0);
        assert(dec_file(data@) == Some(ds));
    }
    let mut dbs: Vec<(Option<String>, Database)> = Vec::new();
    let mut raw = raw;
    let count = raw.len();
    let ghost all = raw@;
    let mut i: usize = 0;
    while raw.len() > 0
        invariant
            ds == all.map_values(|d: RawDb| raw_view(d)),
            dec_file(data@) == Some(ds),
            i + raw@.len() == count,
            count == all.len(),
            raw@ == all.subrange(i as int, count as int),
            dbs@.len() == i,
            forall|j: int| 0 <= j < i ==> (name_of_string(#[trigger] dbs@[j].0), dbs@[j].1@) == ds[j],
        decreases raw@.len(),
    {
        let (name, flags, entries) = raw.remove(0);
        let snapshot = match Snapshot::from_entries(flags, entries) {
            None => {
                proof {
                    assert(!ds[i as int].1.wf());
                }
                return Err(ErrorImpl::FileInvalid);
            },
            Some(s) => s,
        };
        dbs.push((name, Database::new(None, Some(snapshot))));
        i = i + 1;
    }
    let ghost views = dbs@;
    match EnvironmentImpl::from_databases(dbs, id) {
        None => {
            proof {
                if valid_stored(ds) {
                    assert forall|a: int| 0 <= a < views.len() implies #[trigger] views[a].1@.wf() by {
                        assert((name_of_string(views[a].0), views[a].1@) == ds[a]);
                        assert(ds[a].1.wf());
                    }
                    assert forall|a: int, b: int| 0 <= a < b < views.len() implies name_of_string(#[trigger] views[a].0)
                        != name_of_string(#[trigger] views[b].0) by {
                        assert((name_of_string(views[a].0), views[a].1@) == ds[a]);
                        assert((name_of_string(views[b].0), views[b].1@) == ds[b]);
                        assert(ds[a].0 != ds[b].0);
                    }
                }
            }
            Err(ErrorImpl::FileInvalid)
        },
        Some(e) => {
            proof {
                assert(stored(e@) =~= ds);
            }
            Ok(e)
        },
    }
}

} // verus!
