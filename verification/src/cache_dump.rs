//! The cache dump file format.
//!
//! A dump is the 8-byte magic `LZDNSCv1`, a little-endian `u32` entry count,
//! then per entry: key length (`u16`), key bytes, the Unix time it was cached
//! (`u64`), its original TTL (`u32`), message length (`u32`) and the
//! message's wire bytes. Integers are little-endian.

use vstd::prelude::*;
use crate::error::PluginError;
use crate::error::ErrView;
use crate::text::{append_chars, chars_of, dec, dec_chars, string_from_chars};

verus! {

/// Changes after which the cache is dumped again.
pub const DUMP_THRESHOLD: u64 = 1024;

/// Number of changes since the last dump that triggers a new dump.
pub fn dump_threshold() -> (r: u64)
    ensures
        r == DUMP_THRESHOLD,
{
    DUMP_THRESHOLD
}

/// The magic bytes `LZDNSCv1` that begin a dump.
pub open spec fn magic() -> Seq<u8> {
    seq![76u8, 90u8, 68u8, 78u8, 83u8, 67u8, 118u8, 49u8]
}

/// One dumped entry: the cache key's bytes, the Unix time it was cached,
/// its original TTL and the response's wire bytes.
#[derive(Debug)]
pub struct DumpRecord {
    pub key: Vec<u8>,
    pub cached_at_unix: u64,
    pub original_ttl: u32,
    pub message: Vec<u8>,
}

/// A dumped entry as values.
pub struct DumpView {
    pub key: Seq<u8>,
    pub cached_at_unix: u64,
    pub original_ttl: u32,
    pub message: Seq<u8>,
}

impl DumpRecord {
    pub open spec fn view(&self) -> DumpView {
        DumpView {
            key: self.key@,
            cached_at_unix: self.cached_at_unix,
            original_ttl: self.original_ttl,
            message: self.message@,
        }
    }
}

/// The views of a list of records.
pub open spec fn dump_views(v: Seq<DumpRecord>) -> Seq<DumpView> {
    v.map_values(|r: DumpRecord| r.view())
}

pub open spec fn le16(x: u16) -> Seq<u8> {
    seq![x as u8, (x >> 8u16) as u8]
}

pub open spec fn le32(x: u32) -> Seq<u8> {
    seq![x as u8, (x >> 8u32) as u8, (x >> 16u32) as u8, (x >> 24u32) as u8]
}

pub open spec fn le64(x: u64) -> Seq<u8> {
    seq![
        x as u8,
        (x >> 8u64) as u8,
        (x >> 16u64) as u8,
        (x >> 24u64) as u8,
        (x >> 32u64) as u8,
        (x >> 40u64) as u8,
        (x >> 48u64) as u8,
        (x >> 56u64) as u8,
    ]
}

pub open spec fn from_le16(b0: u8, b1: u8) -> u16 {
    (b0 as u16) | ((b1 as u16) << 8u16)
}

pub open spec fn from_le32(b0: u8, b1: u8, b2: u8, b3: u8) -> u32 {
    (b0 as u32) | ((b1 as u32) << 8u32) | ((b2 as u32) << 16u32) | ((b3 as u32) << 24u32)
}

pub open spec fn from_le64(b0: u8, b1: u8, b2: u8, b3: u8, b4: u8, b5: u8, b6: u8, b7: u8) -> u64 {
    (b0 as u64) | ((b1 as u64) << 8u64) | ((b2 as u64) << 16u64) | ((b3 as u64) << 24u64) | ((
    b4 as u64) << 32u64) | ((b5 as u64) << 40u64) | ((b6 as u64) << 48u64) | ((b7 as u64) << 56u64)
}

/// The little-endian `u16` at position `p`.
pub open spec fn u16_at(b: Seq<u8>, p: int) -> u16 {
    from_le16(b[p], b[p + 1])
}

/// The little-endian `u32` at position `p`.
pub open spec fn u32_at(b: Seq<u8>, p: int) -> u32 {
    from_le32(b[p], b[p + 1], b[p + 2], b[p + 3])
}

/// The little-endian `u64` at position `p`.
pub open spec fn u64_at(b: Seq<u8>, p: int) -> u64 {
    from_le64(b[p], b[p + 1], b[p + 2], b[p + 3], b[p + 4], b[p + 5], b[p + 6], b[p + 7])
}

proof fn lemma_le16(x: u16)
    ensures
        from_le16(x as u8, (x >> 8u16) as u8) == x,
{
    assert((((x as u8) as u16) | ((((x >> 8u16) as u8) as u16) << 8u16)) == x) by (bit_vector);
}

proof fn lemma_le32(x: u32)
    ensures
        from_le32(x as u8, (x >> 8u32) as u8, (x >> 16u32) as u8, (x >> 24u32) as u8) == x,
{
    assert((((x as u8) as u32) | ((((x >> 8u32) as u8) as u32) << 8u32) | ((((x >> 16u32) as u8) as u32)
        << 16u32) | ((((x >> 24u32) as u8) as u32) << 24u32)) == x) by (bit_vector);
}

proof fn lemma_le64(x: u64)
    ensures
        from_le64(
            x as u8,
            (x >> 8u64) as u8,
            (x >> 16u64) as u8,
            (x >> 24u64) as u8,
            (x >> 32u64) as u8,
            (x >> 40u64) as u8,
            (x >> 48u64) as u8,
            (x >> 56u64) as u8,
        ) == x,
{
    assert((((x as u8) as u64) | ((((x >> 8u64) as u8) as u64) << 8u64) | ((((x >> 16u64) as u8) as u64)
        << 16u64) | ((((x >> 24u64) as u8) as u64) << 24u64) | ((((x >> 32u64) as u8) as u64) << 32u64)
        | ((((x >> 40u64) as u8) as u64) << 40u64) | ((((x >> 48u64) as u8) as u64) << 48u64) | ((((x
        >> 56u64) as u8) as u64) << 56u64)) == x) by (bit_vector);
}

/// The bytes of one entry.
pub open spec fn record_bytes(r: DumpView) -> Seq<u8> {
    le16(r.key.len() as u16) + r.key + le64(r.cached_at_unix) + le32(r.original_ttl) + le32(
        r.message.len() as u32,
    ) + r.message
}

/// The bytes of a list of entries, one after another.
pub open spec fn records_bytes(rs: Seq<DumpView>) -> Seq<u8>
    decreases rs.len(),
{
    if rs.len() == 0 {
        Seq::empty()
    } else {
        records_bytes(rs.drop_last()) + record_bytes(rs.last())
    }
}

/// The dump of a list of entries (lengths and the count are written in
/// their field's width, as `as` casts them).
pub open spec fn dump_bytes(rs: Seq<DumpView>) -> Seq<u8> {
    magic() + le32(rs.len() as u32) + records_bytes(rs)
}

/// Whether an entry cached at `cached_at` with TTL `ttl` still lives at Unix
/// time `now`.
pub open spec fn alive(now: u64, cached_at: u64, ttl: u32) -> bool {
    let elapsed: int = if now >= cached_at {
        now - cached_at
    } else {
        0
    };
    elapsed < ttl
}

/// The entry that starts at `pos` and the position after it, if the bytes
/// hold a whole entry there.
pub open spec fn entry_at(b: Seq<u8>, pos: int) -> Option<(DumpView, int)> {
    if pos < 0 || pos + 2 > b.len() {
        None
    } else {
        let kl = u16_at(b, pos) as int;
        let p1 = pos + 2;
        if p1 + kl > b.len() || p1 + kl + 12 > b.len() {
            None
        } else {
            let p2 = p1 + kl;
            let p3 = p2 + 12;
            if p3 + 4 > b.len() {
                None
            } else {
                let ml = u32_at(b, p3) as int;
                let p4 = p3 + 4;
                if p4 + ml > b.len() {
                    None
                } else {
                    Some(
                        (
                            DumpView {
                                key: b.subrange(p1, p2),
                                cached_at_unix: u64_at(b, p2),
                                original_ttl: u32_at(b, p2 + 8),
                                message: b.subrange(p4, p4 + ml),
                            },
                            p4 + ml,
                        ),
                    )
                }
            }
        }
    }
}

/// The entries of a dump read from position `pos`, at most `count` of them;
/// reading stops at the first entry that does not fit in the bytes, and
/// entries that are no longer alive at `now` are left out.
pub open spec fn decode_from(b: Seq<u8>, pos: int, count: nat, now: u64) -> Seq<DumpView>
    decreases count,
{
    if count == 0 {
        Seq::empty()
    } else {
        match entry_at(b, pos) {
            None => Seq::empty(),
            Some((r, next)) => {
                let rest = decode_from(b, next, (count - 1) as nat, now);
                if alive(now, r.cached_at_unix, r.original_ttl) {
                    seq![r] + rest
                } else {
                    rest
                }
            },
        }
    }
}

/// `{:?}` of a byte sequence: `[b0, b1, ...]` in decimal.
pub open spec fn debug_bytes(b: Seq<u8>) -> Seq<char> {
    "["@ + debug_items(b) + "]"@
}

/// The items of `{:?}` of a byte sequence, separated by `, `.
pub open spec fn debug_items(b: Seq<u8>) -> Seq<char>
    decreases b.len(),
{
    if b.len() == 0 {
        Seq::empty()
    } else if b.len() == 1 {
        dec(b[0] as nat)
    } else {
        debug_items(b.drop_last()) + ", "@ + dec(b.last() as nat)
    }
}

/// What reading a dump's bytes gives at Unix time `now`: no entries for
/// fewer than 12 bytes, an error when the magic is wrong, else the live
/// entries that fit.
pub open spec fn decode_dump_spec(b: Seq<u8>, now: u64) -> Result<Seq<DumpView>, ErrView> {
    if b.len() < 12 {
        Ok(Seq::empty())
    } else if b.take(8) != magic() {
        Err(
            ErrView::Config(
                "invalid cache dump magic: expected "@ + debug_bytes(magic()) + ", got "@ + debug_bytes(
                    b.take(8),
                ),
            ),
        )
    } else {
        Ok(decode_from(b, 12, u32_at(b, 8) as nat, now))
    }
}

/// The entries of `rs` still alive at `now`, in order.
pub open spec fn alive_records(rs: Seq<DumpView>, now: u64) -> Seq<DumpView> {
    rs.filter(|r: DumpView| alive(now, r.cached_at_unix, r.original_ttl))
}

fn push_le16(out: &mut Vec<u8>, x: u16)
    ensures
        final(out)@ == old(out)@ + le16(x),
{
    out.push(x as u8);
    out.push((x >> 8u16) as u8);
    assert(final(out)@ =~= old(out)@ + le16(x));
}

fn push_le32(out: &mut Vec<u8>, x: u32)
    ensures
        final(out)@ == old(out)@ + le32(x),
{
    out.push(x as u8);
    out.push((x >> 8u32) as u8);
    out.push((x >> 16u32) as u8);
    out.push((x >> 24u32) as u8);
    assert(final(out)@ =~= old(out)@ + le32(x));
}

fn push_le64(out: &mut Vec<u8>, x: u64)
    ensures
        final(out)@ == old(out)@ + le64(x),
{
    out.push(x as u8);
    out.push((x >> 8u64) as u8);
    out.push((x >> 16u64) as u8);
    out.push((x >> 24u64) as u8);
    out.push((x >> 32u64) as u8);
    out.push((x >> 40u64) as u8);
    out.push((x >> 48u64) as u8);
    out.push((x >> 56u64) as u8);
    assert(final(out)@ =~= old(out)@ + le64(x));
}

fn push_bytes(out: &mut Vec<u8>, b: &Vec<u8>)
    ensures
        final(out)@ == old(out)@ + b@,
{
    let mut i: usize = 0;
    while i < b.len()
        invariant
            i <= b@.len(),
            out@ == old(out)@ + b@.take(i as int),
        decreases b.len() - i,
    {
        out.push(b[i]);
        assert(b@.take(i + 1) =~= b@.take(i as int).push(b@[i as int]));
        i = i + 1;
    }
    assert(b@.take(b@.len() as int) =~= b@);
}

/// The bytes of a dump of these entries (see [`dump_bytes`]).
pub fn encode_dump(records: &Vec<DumpRecord>) -> (r: Vec<u8>)
    ensures
        r@ == dump_bytes(dump_views(records@)),
{
    let mut out: Vec<u8> = Vec::new();
    out.push(76u8);
    out.push(90u8);
    out.push(68u8);
    out.push(78u8);
    out.push(83u8);
    out.push(67u8);
    out.push(118u8);
    out.push(49u8);
    assert(out@ =~= magic());
    push_le32(&mut out, records.len() as u32);
    let ghost head = out@;
    let ghost rs = dump_views(records@);
    let mut i: usize = 0;
    assert(rs.take(0) =~= Seq::<DumpView>::empty());
    assert(out@ =~= head + records_bytes(rs.take(0)));
    while i < records.len()
        invariant
            i <= records@.len(),
            rs == dump_views(records@),
            head == magic() + le32(records@.len() as u32),
            out@ == head + records_bytes(rs.take(i as int)),
        decreases records.len() - i,
    {
        let r = &records[i];
        push_le16(&mut out, r.key.len() as u16);
        push_bytes(&mut out, &r.key);
        push_le64(&mut out, r.cached_at_unix);
        push_le32(&mut out, r.original_ttl);
        push_le32(&mut out, r.message.len() as u32);
        push_bytes(&mut out, &r.message);
        proof {
            assert(rs.take(i + 1).drop_last() =~= rs.take(i as int));
            assert(rs.take(i + 1).last() == r.view());
            assert(out@ =~= head + records_bytes(rs.take(i + 1)));
        }
        i = i + 1;
    }
    assert(rs.take(rs.len() as int) =~= rs);
    out
}

fn read_u16(b: &Vec<u8>, p: usize) -> (r: u16)
    requires
        p + 2 <= b.len(),
    ensures
        r == u16_at(b@, p as int),
{
    (b[p] as u16) | ((b[p + 1] as u16) << 8u16)
}

fn read_u32(b: &Vec<u8>, p: usize) -> (r: u32)
    requires
        p + 4 <= b.len(),
    ensures
        r == u32_at(b@, p as int),
{
    (b[p] as u32) | ((b[p + 1] as u32) << 8u32) | ((b[p + 2] as u32) << 16u32) | ((b[p + 3] as u32)
        << 24u32)
}

fn read_u64(b: &Vec<u8>, p: usize) -> (r: u64)
    requires
        p + 8 <= b.len(),
    ensures
        r == u64_at(b@, p as int),
{
    (b[p] as u64) | ((b[p + 1] as u64) << 8u64) | ((b[p + 2] as u64) << 16u64) | ((b[p + 3] as u64)
        << 24u64) | ((b[p + 4] as u64) << 32u64) | ((b[p + 5] as u64) << 40u64) | ((b[p + 6] as u64)
        << 48u64) | ((b[p + 7] as u64) << 56u64)
}

fn copy_range(b: &Vec<u8>, from: usize, to: usize) -> (r: Vec<u8>)
    requires
        from <= to <= b@.len(),
    ensures
        r@ == b@.subrange(from as int, to as int),
{
    let mut r: Vec<u8> = Vec::new();
    let mut i: usize = from;
    while i < to
        invariant
            from <= i <= to,
            to <= b@.len(),
            r@ == b@.subrange(from as int, i as int),
        decreases to - i,
    {
        r.push(b[i]);
        assert(b@.subrange(from as int, i + 1) =~= b@.subrange(from as int, i as int).push(b@[i as int]));
        i = i + 1;
    }
    r
}

fn debug_bytes_text(b: &Vec<u8>) -> (r: Vec<char>)
    ensures
        r@ == debug_bytes(b@),
{
    let mut items: Vec<char> = Vec::new();
    let mut i: usize = 0;
    while i < b.len()
        invariant
            i <= b@.len(),
            items@ == debug_items(b@.take(i as int)),
        decreases b.len() - i,
    {
        if i > 0 {
            let sep = chars_of(", ");
            append_chars(&mut items, &sep);
        }
        let d = dec_chars(b[i] as u64);
        append_chars(&mut items, &d);
        proof {
            assert(b@.take(i + 1).drop_last() =~= b@.take(i as int));
            if i == 0 {
                assert(b@.take(0) =~= Seq::<u8>::empty());
            }
        }
        i = i + 1;
    }
    assert(b@.take(b@.len() as int) =~= b@);
    let mut out = chars_of("[");
    append_chars(&mut out, &items);
    let close = chars_of("]");
    append_chars(&mut out, &close);
    out
}

/// Reads a dump's bytes at Unix time `now` (see [`decode_dump_spec`]).
pub fn decode_dump(b: &Vec<u8>, now: u64) -> (r: Result<Vec<DumpRecord>, PluginError>)
    ensures
        match decode_dump_spec(b@, now) {
            Ok(v) => r matches Ok(x) && dump_views(x@) == v,
            Err(e) => r matches Err(x) && x.view() == e,
        },
{
    if b.len() < 12 {
        let v: Vec<DumpRecord> = Vec::new();
        assert(dump_views(v@) =~= Seq::<DumpView>::empty());
        return Ok(v);
    }
    let head = copy_range(b, 0, 8);
    let is_magic = head[0] == 76u8 && head[1] == 90u8 && head[2] == 68u8 && head[3] == 78u8
        && head[4] == 83u8 && head[5] == 67u8 && head[6] == 118u8 && head[7] == 49u8;
    assert(head@ =~= b@.take(8));
    if !is_magic {
        proof {
            assert(head@ != magic()) by {
                if head@ == magic() {
                    assert(head@[0] == 76u8);
                }
            }
        }
        let mut m = chars_of("invalid cache dump magic: expected ");
        let mut want: Vec<u8> = Vec::new();
        want.push(76u8);
        want.push(90u8);
        want.push(68u8);
        want.push(78u8);
        want.push(83u8);
        want.push(67u8);
        want.push(118u8);
        want.push(49u8);
        assert(want@ =~= magic());
        let w = debug_bytes_text(&want);
        append_chars(&mut m, &w);
        let got = chars_of(", got ");
        append_chars(&mut m, &got);
        let g = debug_bytes_text(&head);
        append_chars(&mut m, &g);
        return Err(PluginError::Config(string_from_chars(&m)));
    }
    assert(head@ =~= magic());
    let count = read_u32(b, 8);
    let ghost total = decode_from(b@, 12, count as nat, now);
    let mut out: Vec<DumpRecord> = Vec::new();
    let mut pos: usize = 12;
    let mut remaining: u32 = count;
    assert(dump_views(out@) =~= Seq::<DumpView>::empty());
    while remaining > 0
        invariant
            12 <= pos <= b@.len(),
            total == decode_from(b@, 12, count as nat, now),
            dump_views(out@) + decode_from(b@, pos as int, remaining as nat, now) == total,
        decreases remaining,
    {
        let ghost here = decode_from(b@, pos as int, remaining as nat, now);
        let ghost prev = dump_views(out@);
        if b.len() - pos < 2 {
            remaining = 0;
            assert(prev + Seq::<DumpView>::empty() =~= prev);
        } else {
            let kl = read_u16(b, pos) as usize;
            let p1 = pos + 2;
            if b.len() - p1 < kl || b.len() - p1 - kl < 12 {
                remaining = 0;
                assert(prev + Seq::<DumpView>::empty() =~= prev);
            } else {
                let p2 = p1 + kl;
                let cached = read_u64(b, p2);
                let ttl = read_u32(b, p2 + 8);
                let p3 = p2 + 12;
                if b.len() - p3 < 4 {
                    remaining = 0;
                    assert(prev + Seq::<DumpView>::empty() =~= prev);
                } else {
                    let ml = read_u32(b, p3) as usize;
                    let p4 = p3 + 4;
                    if b.len() - p4 < ml {
                        remaining = 0;
                        assert(prev + Seq::<DumpView>::empty() =~= prev);
                    } else {
                        let elapsed: u64 = if now >= cached {
                            now - cached
                        } else {
                            0
                        };
                        if elapsed < ttl as u64 {
                            let rec = DumpRecord {
                                key: copy_range(b, p1, p2),
                                cached_at_unix: cached,
                                original_ttl: ttl,
                                message: copy_range(b, p4, p4 + ml),
                            };
                            out.push(rec);
                            proof {
                                assert(dump_views(out@) =~= prev.push(rec.view()));
                                assert(here =~= seq![rec.view()] + decode_from(
                                    b@,
                                    (p4 + ml) as int,
                                    (remaining - 1) as nat,
                                    now,
                                ));
                                assert(dump_views(out@) + decode_from(
                                    b@,
                                    (p4 + ml) as int,
                                    (remaining - 1) as nat,
                                    now,
                                ) =~= prev + here);
                            }
                        }
                        pos = p4 + ml;
                        remaining = remaining - 1;
                    }
                }
            }
        }
    }
    Ok(out)
}

proof fn lemma_records_bytes_front(rs: Seq<DumpView>)
    requires
        rs.len() > 0,
    ensures
        records_bytes(rs) == record_bytes(rs[0]) + records_bytes(rs.drop_first()),
    decreases rs.len(),
{
    if rs.len() == 1 {
        assert(rs.drop_last() =~= Seq::<DumpView>::empty());
        assert(rs.drop_first() =~= Seq::<DumpView>::empty());
        assert(records_bytes(rs.drop_last()) =~= Seq::<u8>::empty());
        assert(records_bytes(rs.drop_first()) =~= Seq::<u8>::empty());
        assert(rs.last() == rs[0]);
        assert(records_bytes(rs) =~= record_bytes(rs[0]));
    } else {
        lemma_records_bytes_front(rs.drop_last());
        assert(rs.drop_last().drop_first() =~= rs.drop_first().drop_last());
        assert(rs.drop_first().last() == rs.last());
        assert(rs.drop_last()[0] == rs[0]);
        assert(records_bytes(rs) =~= record_bytes(rs[0]) + records_bytes(rs.drop_first()));
    }
}

/// Whether every entry's lengths fit the widths the format gives them.
pub open spec fn fits(rs: Seq<DumpView>) -> bool {
    forall|i: int| 0 <= i < rs.len() ==> (#[trigger] rs[i]).key.len() <= u16::MAX && rs[i].message.len()
        <= u32::MAX
}

proof fn lemma_record_fields(p: Seq<u8>, r: DumpView, t: Seq<u8>)
    requires
        r.key.len() <= u16::MAX,
        r.message.len() <= u32::MAX,
    ensures
        entry_at(p + record_bytes(r) + t, p.len() as int) == Some((r, (p.len() + record_bytes(r).len()) as int)),
{
    let rb = record_bytes(r);
    let b = p + rb + t;
    let pos = p.len() as int;
    let kl = r.key.len() as int;
    let ml = r.message.len() as int;
    let k16 = r.key.len() as u16;
    let m32 = r.message.len() as u32;
    assert(rb.len() == 18 + kl + ml);
    assert forall|j: int| 0 <= j < rb.len() implies b[pos + j] == #[trigger] rb[j] by {}
    lemma_le16(k16);
    lemma_le64(r.cached_at_unix);
    lemma_le32(r.original_ttl);
    lemma_le32(m32);
    assert(b[pos] == rb[0] && b[pos + 1] == rb[1]);
    assert(b.subrange(pos + 2, pos + 2 + kl) =~= r.key) by {
        assert forall|j: int| 0 <= j < kl implies b.subrange(pos + 2, pos + 2 + kl)[j] == r.key[j] by {
            assert(b[pos + 2 + j] == rb[2 + j]);
        }
    }
    let q2 = pos + 2 + kl;
    assert(b[q2] == rb[2 + kl] && b[q2 + 1] == rb[3 + kl] && b[q2 + 2] == rb[4 + kl] && b[q2 + 3]
        == rb[5 + kl] && b[q2 + 4] == rb[6 + kl] && b[q2 + 5] == rb[7 + kl] && b[q2 + 6] == rb[8
        + kl] && b[q2 + 7] == rb[9 + kl]);
    assert(b[q2 + 8] == rb[10 + kl] && b[q2 + 9] == rb[11 + kl] && b[q2 + 10] == rb[12 + kl]
        && b[q2 + 11] == rb[13 + kl]);
    assert(b[q2 + 12] == rb[14 + kl] && b[q2 + 13] == rb[15 + kl] && b[q2 + 14] == rb[16 + kl]
        && b[q2 + 15] == rb[17 + kl]);
    let q4 = q2 + 16;
    assert(b.subrange(q4, q4 + ml) =~= r.message) by {
        assert forall|j: int| 0 <= j < ml implies b.subrange(q4, q4 + ml)[j] == r.message[j] by {
            assert(b[q4 + j] == rb[18 + kl + j]);
        }
    }
    assert(u16_at(b, pos) == k16);
    assert(u64_at(b, q2) == r.cached_at_unix);
    assert(u32_at(b, q2 + 8) == r.original_ttl);
    assert(u32_at(b, q2 + 12) == m32);
    let v = DumpView {
        key: b.subrange(pos + 2, q2),
        cached_at_unix: u64_at(b, q2),
        original_ttl: u32_at(b, q2 + 8),
        message: b.subrange(q4, q4 + ml),
    };
    assert(v == r);
}

proof fn lemma_alive_front(rs: Seq<DumpView>, now: u64)
    requires
        rs.len() > 0,
    ensures
        alive_records(rs, now) == if alive(now, rs[0].cached_at_unix, rs[0].original_ttl) {
            seq![rs[0]] + alive_records(rs.drop_first(), now)
        } else {
            alive_records(rs.drop_first(), now)
        },
{
    let r = rs[0];
    let rest = rs.drop_first();
    assert(rs =~= seq![r] + rest);
    rest.lemma_filter_prepend(r, |x: DumpView| alive(now, x.cached_at_unix, x.original_ttl));
    if alive(now, r.cached_at_unix, r.original_ttl) {
        assert(alive_records(rs, now) =~= seq![r] + alive_records(rest, now));
    } else {
        assert(alive_records(rs, now) =~= alive_records(rest, now));
    }
}

proof fn lemma_fits_rest(rs: Seq<DumpView>)
    requires
        rs.len() > 0,
        fits(rs),
    ensures
        fits(rs.drop_first()),
{
    let rest = rs.drop_first();
    assert forall|i: int| 0 <= i < rest.len() implies (#[trigger] rest[i]).key.len() <= u16::MAX
        && rest[i].message.len() <= u32::MAX by {
        assert(rest[i] == rs[i + 1]);
    }
}

#[verifier::rlimit(60)]
proof fn lemma_decode_records(p: Seq<u8>, rs: Seq<DumpView>, now: u64)
    requires
        fits(rs),
    ensures
        decode_from(p + records_bytes(rs), p.len() as int, rs.len(), now) == alive_records(rs, now),
    decreases rs.len(),
{
    if rs.len() == 0 {
        assert(alive_records(rs, now) =~= Seq::<DumpView>::empty());
    } else {
        let r = rs[0];
        let rest = rs.drop_first();
        lemma_records_bytes_front(rs);
        let rb = record_bytes(r);
        let p2 = p + rb;
        let b = p + records_bytes(rs);
        assert(b =~= p + rb + records_bytes(rest));
        assert(b =~= p2 + records_bytes(rest));
        lemma_fits_rest(rs);
        lemma_decode_records(p2, rest, now);
        lemma_record_fields(p, r, records_bytes(rest));
        lemma_alive_front(rs, now);
    }
}

/// Reading back a dump gives the entries that were dumped, in order, less
/// those no longer alive at the time of reading, provided the count and
/// each length fit the width the format gives them.
pub proof fn lemma_dump_roundtrip(rs: Seq<DumpView>, now: u64)
    requires
        rs.len() <= u32::MAX,
        fits(rs),
    ensures
        decode_dump_spec(dump_bytes(rs), now) == Ok::<Seq<DumpView>, ErrView>(alive_records(rs, now)),
{
    let b = dump_bytes(rs);
    let head = magic() + le32(rs.len() as u32);
    assert(b =~= head + records_bytes(rs));
    assert(head.len() == 12);
    assert(b.take(8) =~= magic());
    lemma_le32(rs.len() as u32);
    assert(b[8] == head[8] && b[9] == head[9] && b[10] == head[10] && b[11] == head[11]);
    assert(u32_at(b, 8) == rs.len() as u32);
    lemma_decode_records(head, rs, now);
}

} // verus!
