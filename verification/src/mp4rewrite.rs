//! The order of an MP4 file's top-level boxes, and moving `moov` to the end or to the front.
//!
//! The sample tables inside `moov` hold absolute file offsets into `mdat`. Moving `moov` moves
//! `mdat` too, so every entry of every `stco` and `co64` table is shifted by the distance that
//! `mdat` travels.

use crate::error::{Error, Result};
use vstd::prelude::*;
use vstd::slice::slice_subrange;

verus! {

/// `ftyp`: the file type box.
pub const FTYP: u32 = 0x6674_7970;

/// `moov`: the movie box, which holds the metadata and the sample tables.
pub const MOOV: u32 = 0x6d6f_6f76;

/// `mdat`: the media data box.
pub const MDAT: u32 = 0x6d64_6174;

/// `free`: padding.
pub const FREE: u32 = 0x6672_6565;

/// `trak`: a track.
pub const TRAK: u32 = 0x7472_616b;

/// `mdia`: a track's media.
pub const MDIA: u32 = 0x6d64_6961;

/// `minf`: media information.
pub const MINF: u32 = 0x6d69_6e66;

/// `stbl`: the sample tables.
pub const STBL: u32 = 0x7374_626c;

/// `udta`: user data.
pub const UDTA: u32 = 0x7564_7461;

/// `edts`: edit lists.
pub const EDTS: u32 = 0x6564_7473;

/// `stco`: chunk offsets of 32 bits.
pub const STCO: u32 = 0x7374_636f;

/// `co64`: chunk offsets of 64 bits.
pub const CO64: u32 = 0x636f_3634;

/// The length of the padding box that a fast-start file gets behind its `moov`.
pub const FREE_PAD: u64 = 8;

/// The most bytes that are held in memory at a time while a box is copied.
pub const CHUNK: u64 = 0x10_0000;

// ---------------------------------------------------------------------------
// Big-endian numbers
// ---------------------------------------------------------------------------

/// The 32-bit number that stands in `s` at `i`.
pub open spec fn be32(s: Seq<u8>, i: int) -> nat {
    (s[i] * 0x100_0000 + s[i + 1] * 0x1_0000 + s[i + 2] * 0x100 + s[i + 3]) as nat
}

/// The 64-bit number that stands in `s` at `i`.
pub open spec fn be64(s: Seq<u8>, i: int) -> nat {
    be32(s, i) * 0x1_0000_0000 + be32(s, i + 4)
}

/// `s` with the 32-bit number `v` written at `i`.
pub open spec fn put32(s: Seq<u8>, i: int, v: nat) -> Seq<u8> {
    s.update(i, (v / 0x100_0000) as u8).update(i + 1, (v / 0x1_0000 % 0x100) as u8).update(
        i + 2,
        (v / 0x100 % 0x100) as u8,
    ).update(i + 3, (v % 0x100) as u8)
}

/// `s` with the 64-bit number `v` written at `i`.
pub open spec fn put64(s: Seq<u8>, i: int, v: nat) -> Seq<u8> {
    put32(put32(s, i, v / 0x1_0000_0000), i + 4, v % 0x1_0000_0000)
}

/// The 32-bit number that stands in `s` at `i`.
pub fn read32(s: &[u8], i: usize) -> (r: u32)
    requires
        i + 4 <= s@.len(),
    ensures
        r == be32(s@, i as int),
{
    s[i] as u32 * 0x100_0000 + s[i + 1] as u32 * 0x1_0000 + s[i + 2] as u32 * 0x100 + s[i
        + 3] as u32
}

/// The 64-bit number that stands in `s` at `i`.
pub fn read64(s: &[u8], i: usize) -> (r: u64)
    requires
        i + 8 <= s.len(),
    ensures
        r == be64(s@, i as int),
{
    read32(s, i) as u64 * 0x1_0000_0000 + read32(s, i + 4) as u64
}

/// Writes the 32-bit number `v` into `s` at `i`.
fn write32(s: &mut [u8], i: usize, v: u32)
    requires
        i + 4 <= old(s)@.len(),
    ensures
        final(s)@ == put32(old(s)@, i as int, v as nat),
{
    s[i] = (v / 0x100_0000) as u8;
    s[i + 1] = (v / 0x1_0000 % 0x100) as u8;
    s[i + 2] = (v / 0x100 % 0x100) as u8;
    s[i + 3] = (v % 0x100) as u8;
}

/// Writes the 64-bit number `v` into `s` at `i`.
fn write64(s: &mut [u8], i: usize, v: u64)
    requires
        i + 8 <= old(s).len(),
    ensures
        final(s)@ == put64(old(s)@, i as int, v as nat),
{
    write32(s, i, (v / 0x1_0000_0000) as u32);
    write32(s, i + 4, (v % 0x1_0000_0000) as u32);
}

/// What was written is what is read back.
proof fn lemma_put32(s: Seq<u8>, i: int, v: nat)
    requires
        0 <= i,
        i + 4 <= s.len(),
        v < 0x1_0000_0000,
    ensures
        be32(put32(s, i, v), i) == v,
        put32(s, i, v).len() == s.len(),
        forall|k: int| 0 <= k < s.len() && !(i <= k < i + 4) ==> put32(s, i, v)[k] == s[k],
{
}

/// What was written is what is read back.
proof fn lemma_put64(s: Seq<u8>, i: int, v: nat)
    requires
        0 <= i,
        i + 8 <= s.len(),
        v < 0x1_0000_0000_0000_0000,
    ensures
        be64(put64(s, i, v), i) == v,
        put64(s, i, v).len() == s.len(),
        forall|k: int| 0 <= k < s.len() && !(i <= k < i + 8) ==> put64(s, i, v)[k] == s[k],
{
    lemma_put32(s, i, v / 0x1_0000_0000);
    let t = put32(s, i, v / 0x1_0000_0000);
    lemma_put32(t, i + 4, v % 0x1_0000_0000);
}

/// `v` shifted by `delta`, modulo 2 to the 32.
fn shift32(v: u32, delta: i64) -> (r: u32)
    ensures
        r == (v + delta) % 0x1_0000_0000,
{
    let d: i128 = v as i128 + delta as i128;
    if d >= 0 {
        (d % 0x1_0000_0000) as u32
    } else {
        let back: i128 = (-d) % 0x1_0000_0000;
        if back == 0 {
            0
        } else {
            (0x1_0000_0000 - back) as u32
        }
    }
}

/// `v` shifted by `delta`, modulo 2 to the 64.
fn shift64(v: u64, delta: i64) -> (r: u64)
    ensures
        r == (v + delta) % 0x1_0000_0000_0000_0000,
{
    let d: i128 = v as i128 + delta as i128;
    if d >= 0 {
        (d % 0x1_0000_0000_0000_0000) as u64
    } else {
        let back: i128 = (-d) % 0x1_0000_0000_0000_0000;
        if back == 0 {
            0
        } else {
            (0x1_0000_0000_0000_0000 - back) as u64
        }
    }
}

// ---------------------------------------------------------------------------
// Chunk-offset tables
// ---------------------------------------------------------------------------

/// One chunk offset: where it stands, and how many bytes it takes.
pub struct Entry {
    pub at: int,
    pub width: int,
}

/// What a walk through nested boxes finds: the chunk offsets in order, up to the first table that
/// is too small to hold its own count, and that table's code.
pub struct Tables {
    pub entries: Seq<Entry>,
    pub short: Option<u32>,
}

/// Whether boxes of this kind are descended into.
pub open spec fn is_container(code: nat) -> bool {
    code == MOOV || code == TRAK || code == MDIA || code == MINF || code == STBL || code == UDTA
        || code == EDTS
}

/// The entries of the table whose content is `s[lo..hi]`: as many as it announces and has room
/// for.
pub open spec fn table_entries(s: Seq<u8>, lo: int, hi: int, width: int) -> Seq<Entry>
    recommends
        0 <= lo,
        lo + 8 <= hi <= s.len(),
        width == 4 || width == 8,
{
    let room = (hi - lo - 8) / width;
    let count = if be32(s, lo + 4) <= room {
        be32(s, lo + 4) as int
    } else {
        room
    };
    Seq::new(count as nat, |k: int| Entry { at: lo + 8 + width * k, width })
}

/// The table whose content is `s[lo..hi]`.
pub open spec fn one_table(s: Seq<u8>, lo: int, hi: int, code: u32) -> Tables {
    if hi - lo < 8 {
        Tables { entries: Seq::empty(), short: Some(code) }
    } else {
        Tables {
            entries: table_entries(
                s,
                lo,
                hi,
                if code == STCO {
                    4
                } else {
                    8
                },
            ),
            short: None,
        }
    }
}

/// The chunk-offset tables in a box with this code and with the content `s[lo..hi]`.
pub open spec fn box_tables(s: Seq<u8>, code: nat, lo: int, hi: int) -> Tables
    decreases hi - lo, 1int,
{
    if code == STCO || code == CO64 {
        one_table(s, lo, hi, code as u32)
    } else if is_container(code) {
        tables(s, lo, hi)
    } else {
        Tables { entries: Seq::empty(), short: None }
    }
}

/// Whether a whole box begins at `lo`, in a row of boxes that ends at `hi`.
pub open spec fn box_at(s: Seq<u8>, lo: int, hi: int) -> bool {
    lo + 8 <= hi && be32(s, lo) >= 8 && lo + be32(s, lo) <= hi
}

/// The chunk-offset tables in the row of boxes `s[lo..hi]`, containers descended into. The row
/// ends at the first box that is shorter than its header or longer than what is left.
pub open spec fn tables(s: Seq<u8>, lo: int, hi: int) -> Tables
    decreases hi - lo, 0int,
{
    if !box_at(s, lo, hi) {
        Tables { entries: Seq::empty(), short: None }
    } else {
        let end = lo + be32(s, lo);
        let here = box_tables(s, be32(s, lo + 4), lo + 8, end);
        if here.short is Some {
            here
        } else {
            let rest = tables(s, end, hi);
            Tables { entries: here.entries + rest.entries, short: rest.short }
        }
    }
}

/// The value of a chunk offset.
pub open spec fn entry_value(s: Seq<u8>, e: Entry) -> nat {
    if e.width == 4 {
        be32(s, e.at)
    } else {
        be64(s, e.at)
    }
}

/// `v` shifted by `delta`, in as many bytes as the offset has.
pub open spec fn shifted_value(v: nat, delta: int, width: int) -> nat {
    if width == 4 {
        ((v + delta) % 0x1_0000_0000) as nat
    } else {
        ((v + delta) % 0x1_0000_0000_0000_0000) as nat
    }
}

/// `s` with one chunk offset shifted.
pub open spec fn shift_entry(s: Seq<u8>, e: Entry, delta: int) -> Seq<u8> {
    let v = shifted_value(entry_value(s, e), delta, e.width);
    if e.width == 4 {
        put32(s, e.at, v)
    } else {
        put64(s, e.at, v)
    }
}

/// `s` with each of the chunk offsets shifted.
pub open spec fn shift_all(s: Seq<u8>, entries: Seq<Entry>, delta: int) -> Seq<u8>
    decreases entries.len(),
{
    if entries.len() == 0 {
        s
    } else {
        shift_entry(shift_all(s, entries.drop_last(), delta), entries.last(), delta)
    }
}

/// Whether every entry lies in `lo..hi`.
pub open spec fn inside(entries: Seq<Entry>, lo: int, hi: int) -> bool {
    forall|k: int|
        0 <= k < entries.len() ==> {
            let e = #[trigger] entries[k];
            (e.width == 4 || e.width == 8) && lo <= e.at && e.at + e.width <= hi
        }
}

/// The sentence for a table that is too small.
pub open spec fn short_text(code: u32) -> Seq<char> {
    if code == STCO {
        "stco too small"@
    } else {
        "co64 too small"@
    }
}

/// How a walk that found `t` ends.
pub open spec fn walk_result(t: Tables, r: Result<()>) -> bool {
    match t.short {
        None => r is Ok,
        Some(code) => r matches Err(Error::Other(m)) && m@ == short_text(code),
    }
}

/// The entries found in a box lie in its content, behind eight bytes.
proof fn lemma_box_tables_inside(s: Seq<u8>, code: nat, lo: int, hi: int)
    requires
        0 <= lo,
        hi <= s.len(),
    ensures
        inside(box_tables(s, code, lo, hi).entries, lo + 8, hi),
    decreases hi - lo, 1int,
{
    if code == STCO || code == CO64 {
        if hi - lo >= 8 {
            lemma_table_inside(
                s,
                lo,
                hi,
                if code == STCO {
                    4
                } else {
                    8
                },
            );
        }
    } else if is_container(code) {
        lemma_tables_inside(s, lo, hi);
    }
}

/// The entries of a walk lie between its bounds, behind the first box's header.
proof fn lemma_tables_inside(s: Seq<u8>, lo: int, hi: int)
    requires
        0 <= lo,
        hi <= s.len(),
    ensures
        inside(tables(s, lo, hi).entries, lo + 8, hi),
    decreases hi - lo, 0int,
{
    if box_at(s, lo, hi) {
        let end = lo + be32(s, lo);
        lemma_box_tables_inside(s, be32(s, lo + 4), lo + 8, end);
        lemma_tables_inside(s, end, hi);
    }
}

/// The entries of a table lie in its content, behind the count.
proof fn lemma_table_inside(s: Seq<u8>, lo: int, hi: int, width: int)
    requires
        0 <= lo,
        lo + 8 <= hi <= s.len(),
        width == 4 || width == 8,
    ensures
        inside(table_entries(s, lo, hi, width), lo + 8, hi),
{
    let es = table_entries(s, lo, hi, width);
    assert forall|k: int| 0 <= k < es.len() implies {
        let e = #[trigger] es[k];
        (e.width == 4 || e.width == 8) && lo + 8 <= e.at && e.at + e.width <= hi
    } by {
        if width == 4 {
            assert(4 * (k + 1) <= hi - lo - 8);
        } else {
            assert(8 * (k + 1) <= hi - lo - 8);
        }
    }
}

/// Shifting entries keeps the length and every byte outside of them.
proof fn lemma_shift_frame(s: Seq<u8>, entries: Seq<Entry>, delta: int, lo: int, hi: int)
    requires
        0 <= lo,
        hi <= s.len(),
        inside(entries, lo, hi),
    ensures
        shift_all(s, entries, delta).len() == s.len(),
        forall|k: int|
            0 <= k < s.len() && !(lo <= k < hi) ==> #[trigger] shift_all(s, entries, delta)[k]
                == s[k],
    decreases entries.len(),
{
    if entries.len() > 0 {
        lemma_shift_frame(s, entries.drop_last(), delta, lo, hi);
        let t = shift_all(s, entries.drop_last(), delta);
        let e = entries.last();
        assert(e == entries[entries.len() - 1]);
        if e.width == 4 {
            lemma_put32(t, e.at, shifted_value(entry_value(t, e), delta, 4));
        } else {
            lemma_put64(t, e.at, shifted_value(entry_value(t, e), delta, 8));
        }
    }
}

/// Shifting the entries of two lists in turn is shifting those of their concatenation.
proof fn lemma_shift_concat(s: Seq<u8>, a: Seq<Entry>, b: Seq<Entry>, delta: int)
    ensures
        shift_all(shift_all(s, a, delta), b, delta) == shift_all(s, a + b, delta),
    decreases b.len(),
{
    if b.len() == 0 {
        assert(a + b =~= a);
    } else {
        assert((a + b).drop_last() =~= a + b.drop_last());
        lemma_shift_concat(s, a, b.drop_last(), delta);
    }
}

/// What is found in a box depends on its content only.
proof fn lemma_box_tables_frame(s: Seq<u8>, t: Seq<u8>, code: nat, lo: int, hi: int)
    requires
        0 <= lo,
        hi <= s.len(),
        s.len() == t.len(),
        forall|k: int| lo <= k < hi ==> s[k] == t[k],
    ensures
        box_tables(s, code, lo, hi) == box_tables(t, code, lo, hi),
    decreases hi - lo, 1int,
{
    if code == STCO || code == CO64 {
        if hi - lo >= 8 {
            assert(be32(s, lo + 4) == be32(t, lo + 4));
            assert(table_entries(s, lo, hi, 4) =~= table_entries(t, lo, hi, 4));
            assert(table_entries(s, lo, hi, 8) =~= table_entries(t, lo, hi, 8));
        }
    } else if is_container(code) {
        lemma_tables_frame(s, t, lo, hi);
    }
}

/// A walk looks at the bytes between its bounds only.
proof fn lemma_tables_frame(s: Seq<u8>, t: Seq<u8>, lo: int, hi: int)
    requires
        0 <= lo,
        hi <= s.len(),
        s.len() == t.len(),
        forall|k: int| lo <= k < hi ==> s[k] == t[k],
    ensures
        tables(s, lo, hi) == tables(t, lo, hi),
    decreases hi - lo, 0int,
{
    if lo + 8 <= hi {
        assert(be32(s, lo) == be32(t, lo));
        assert(be32(s, lo + 4) == be32(t, lo + 4));
        if box_at(s, lo, hi) {
            let end = lo + be32(s, lo);
            lemma_box_tables_frame(s, t, be32(s, lo + 4), lo + 8, end);
            lemma_tables_frame(s, t, end, hi);
        }
    }
}

/// Shifts the entries of the `stco` table whose content is `buf[lo..hi]`.
fn patch_stco_in(buf: &mut [u8], lo: usize, hi: usize, delta: i64) -> (r: Result<()>)
    requires
        lo <= hi <= old(buf).len(),
    ensures
        final(buf)@ == shift_all(
            old(buf)@,
            one_table(old(buf)@, lo as int, hi as int, STCO).entries,
            delta as int,
        ),
        walk_result(one_table(old(buf)@, lo as int, hi as int, STCO), r),
{
    if hi - lo < 8 {
        return Err(Error::Other("stco too small".to_string()));
    }
    let ghost before = buf@;
    let ghost entries = table_entries(before, lo as int, hi as int, 4);
    let count: u32 = read32(buf, lo + 4);
    let mut off: usize = lo + 8;
    let mut done: u32 = 0;
    proof {
        lemma_table_inside(before, lo as int, hi as int, 4);
        assert(entries.take(0) =~= Seq::<Entry>::empty());
    }
    while done < count && hi - off >= 4
        invariant
            lo + 8 <= off <= hi <= buf.len(),
            off == lo + 8 + 4 * done,
            done <= count,
            count == be32(before, lo + 4),
            entries == table_entries(before, lo as int, hi as int, 4),
            inside(entries, lo + 8, hi as int),
            hi <= before.len(),
            done <= entries.len(),
            buf@ == shift_all(before, entries.take(done as int), delta as int),
            buf@.len() == before.len(),
        decreases hi - off,
    {
        proof {
            assert(done < entries.len());
            let next = entries.take(done + 1);
            assert(next.drop_last() =~= entries.take(done as int));
            assert(next.last() == Entry { at: off as int, width: 4 });
            assert(inside(next, lo + 8, hi as int)) by {
                assert forall|k: int| 0 <= k < next.len() implies {
                    let e = #[trigger] next[k];
                    (e.width == 4 || e.width == 8) && lo + 8 <= e.at && e.at + e.width <= hi
                } by {
                    assert(next[k] == entries[k]);
                }
            }
            lemma_shift_frame(before, next, delta as int, lo + 8, hi as int);
        }
        let v: u32 = read32(buf, off);
        write32(buf, off, shift32(v, delta));
        off += 4;
        done += 1;
    }
    assert(entries.take(done as int) =~= entries);
    Ok(())
}

/// Shifts the entries of the `co64` table whose content is `buf[lo..hi]`.
fn patch_co64_in(buf: &mut [u8], lo: usize, hi: usize, delta: i64) -> (r: Result<()>)
    requires
        lo <= hi <= old(buf).len(),
    ensures
        final(buf)@ == shift_all(
            old(buf)@,
            one_table(old(buf)@, lo as int, hi as int, CO64).entries,
            delta as int,
        ),
        walk_result(one_table(old(buf)@, lo as int, hi as int, CO64), r),
{
    if hi - lo < 8 {
        return Err(Error::Other("co64 too small".to_string()));
    }
    let ghost before = buf@;
    let ghost entries = table_entries(before, lo as int, hi as int, 8);
    let count: u32 = read32(buf, lo + 4);
    let mut off: usize = lo + 8;
    let mut done: u32 = 0;
    proof {
        lemma_table_inside(before, lo as int, hi as int, 8);
        assert(entries.take(0) =~= Seq::<Entry>::empty());
    }
    while done < count && hi - off >= 8
        invariant
            lo + 8 <= off <= hi <= buf.len(),
            off == lo + 8 + 8 * done,
            done <= count,
            count == be32(before, lo + 4),
            entries == table_entries(before, lo as int, hi as int, 8),
            inside(entries, lo + 8, hi as int),
            hi <= before.len(),
            done <= entries.len(),
            buf@ == shift_all(before, entries.take(done as int), delta as int),
            buf@.len() == before.len(),
        decreases hi - off,
    {
        proof {
            assert(done < entries.len());
            let next = entries.take(done + 1);
            assert(next.drop_last() =~= entries.take(done as int));
            assert(next.last() == Entry { at: off as int, width: 8 });
            assert(inside(next, lo + 8, hi as int)) by {
                assert forall|k: int| 0 <= k < next.len() implies {
                    let e = #[trigger] next[k];
                    (e.width == 4 || e.width == 8) && lo + 8 <= e.at && e.at + e.width <= hi
                } by {
                    assert(next[k] == entries[k]);
                }
            }
            lemma_shift_frame(before, next, delta as int, lo + 8, hi as int);
        }
        let v: u64 = read64(buf, off);
        write64(buf, off, shift64(v, delta));
        off += 8;
        done += 1;
    }
    assert(entries.take(done as int) =~= entries);
    Ok(())
}

/// Whether boxes of this kind are descended into.
fn container(code: u32) -> (r: bool)
    ensures
        r == is_container(code as nat),
{
    code == MOOV || code == TRAK || code == MDIA || code == MINF || code == STBL || code == UDTA
        || code == EDTS
}

/// Shifts every chunk offset in a box with this code and with the content `buf[lo..hi]`.
fn patch_box(buf: &mut [u8], code: u32, lo: usize, hi: usize, delta: i64) -> (r: Result<()>)
    requires
        lo <= hi <= old(buf).len(),
    ensures
        final(buf)@ == shift_all(
            old(buf)@,
            box_tables(old(buf)@, code as nat, lo as int, hi as int).entries,
            delta as int,
        ),
        walk_result(box_tables(old(buf)@, code as nat, lo as int, hi as int), r),
    decreases hi - lo, 1int,
{
    if code == STCO {
        patch_stco_in(buf, lo, hi, delta)
    } else if code == CO64 {
        patch_co64_in(buf, lo, hi, delta)
    } else if container(code) {
        walk(buf, lo, hi, delta)
    } else {
        Ok(())
    }
}

/// Entries that lie in `lo..mid` and in `mid..hi` lie in `lo..hi`.
proof fn lemma_inside_concat(a: Seq<Entry>, b: Seq<Entry>, lo: int, mid: int, hi: int)
    requires
        inside(a, lo, mid),
        inside(b, mid, hi),
        lo <= mid <= hi,
    ensures
        inside(a + b, lo, hi),
{
    let all = a + b;
    assert forall|k: int| 0 <= k < all.len() implies {
        let e = #[trigger] all[k];
        (e.width == 4 || e.width == 8) && lo <= e.at && e.at + e.width <= hi
    } by {
        if k < a.len() {
            assert(all[k] == a[k]);
        } else {
            assert(all[k] == b[k - a.len()]);
        }
    }
}

/// One step of a walk: the entries of the box at `pos` come behind those found so far.
proof fn lemma_walk_step(s: Seq<u8>, done: Seq<Entry>, lo: int, pos: int, hi: int, delta: int)
    requires
        0 <= lo <= pos,
        hi <= s.len(),
        box_at(s, pos, hi),
        inside(done, lo, pos),
    ensures
        ({
            let mid = shift_all(s, done, delta);
            let end = pos + be32(s, pos);
            let code = be32(s, pos + 4);
            let here = box_tables(s, code, pos + 8, end);
            let row = tables(s, pos, hi);
            let rest = tables(s, end, hi);
            &&& box_tables(mid, code, pos + 8, end) == here
            &&& shift_all(mid, here.entries, delta) == shift_all(s, done + here.entries, delta)
            &&& shift_all(s, done + here.entries, delta).len() == s.len()
            &&& inside(done + here.entries, lo, end)
            &&& here.short is Some ==> row == here
            &&& here.short is None ==> row.short == rest.short && done + row.entries == (done
                + here.entries) + rest.entries
        }),
{
    let mid = shift_all(s, done, delta);
    let end = pos + be32(s, pos);
    let code = be32(s, pos + 4);
    let here = box_tables(s, code, pos + 8, end);
    let rest = tables(s, end, hi);
    lemma_shift_frame(s, done, delta, lo, pos);
    lemma_box_tables_frame(s, mid, code, pos + 8, end);
    lemma_box_tables_inside(s, code, pos + 8, end);
    lemma_shift_concat(s, done, here.entries, delta);
    assert(inside(here.entries, pos, end));
    lemma_inside_concat(done, here.entries, lo, pos, end);
    lemma_shift_frame(s, done + here.entries, delta, lo, end);
    assert(done + (here.entries + rest.entries) =~= (done + here.entries) + rest.entries);
}

/// Shifts every chunk offset in the row of boxes `buf[lo..hi]`.
fn walk(buf: &mut [u8], lo: usize, hi: usize, delta: i64) -> (r: Result<()>)
    requires
        lo <= hi <= old(buf).len(),
    ensures
        final(buf)@ == shift_all(
            old(buf)@,
            tables(old(buf)@, lo as int, hi as int).entries,
            delta as int,
        ),
        walk_result(tables(old(buf)@, lo as int, hi as int), r),
    decreases hi - lo, 0int,
{
    let ghost before = buf@;
    let ghost found = tables(before, lo as int, hi as int);
    let ghost mut done: Seq<Entry> = Seq::empty();
    let mut pos: usize = lo;
    proof {
        assert(done + found.entries =~= found.entries);
    }
    while hi - pos >= 8
        invariant
            lo <= pos <= hi <= buf.len(),
            hi <= before.len(),
            before == old(buf)@,
            found == tables(before, lo as int, hi as int),
            buf@.len() == before.len(),
            found.entries == done + tables(before, pos as int, hi as int).entries,
            found.short == tables(before, pos as int, hi as int).short,
            inside(done, lo as int, pos as int),
            buf@ == shift_all(before, done, delta as int),
        ensures
            !box_at(before, pos as int, hi as int),
        decreases hi - pos,
    {
        proof {
            lemma_shift_frame(before, done, delta as int, lo as int, pos as int);
            assert(be32(buf@, pos as int) == be32(before, pos as int));
            assert(be32(buf@, pos + 4) == be32(before, pos + 4));
        }
        let size: u32 = read32(buf, pos);
        let code: u32 = read32(buf, pos + 4);
        if size < 8 || size as usize > hi - pos {
            break;
        }
        let end: usize = pos + size as usize;
        let ghost here = box_tables(before, code as nat, pos + 8, end as int);
        proof {
            lemma_walk_step(before, done, lo as int, pos as int, hi as int, delta as int);
        }
        let step: Result<()> = patch_box(buf, code, pos + 8, end, delta);
        if step.is_err() {
            return step;
        }
        proof {
            done = done + here.entries;
        }
        pos = end;
    }
    proof {
        assert(found.entries =~= done);
    }
    Ok(())
}

/// Shifts the entries of a 32-bit chunk-offset table, given its content: version and flags, count,
/// entries. A table that has no room for its count is an error and stays as it is.
pub fn patch_stco(content: &mut [u8], delta: i64) -> (r: Result<()>)
    ensures
        final(content)@ == shift_all(
            old(content)@,
            one_table(old(content)@, 0, old(content)@.len() as int, STCO).entries,
            delta as int,
        ),
        walk_result(one_table(old(content)@, 0, old(content)@.len() as int, STCO), r),
{
    let n: usize = content.len();
    patch_stco_in(content, 0, n, delta)
}

/// Shifts the entries of a 64-bit chunk-offset table, given its content: version and flags, count,
/// entries. A table that has no room for its count is an error and stays as it is.
pub fn patch_co64(content: &mut [u8], delta: i64) -> (r: Result<()>)
    ensures
        final(content)@ == shift_all(
            old(content)@,
            one_table(old(content)@, 0, old(content)@.len() as int, CO64).entries,
            delta as int,
        ),
        walk_result(one_table(old(content)@, 0, old(content)@.len() as int, CO64), r),
{
    let n: usize = content.len();
    patch_co64_in(content, 0, n, delta)
}

/// Shifts every entry of every chunk-offset table found in `moov`, a box or a row of boxes. A
/// table that has no room for its count is an error: what stands in front of it has then been
/// shifted, what stands behind it has not.
pub fn patch_chunk_offsets(moov: &mut [u8], delta: i64) -> (r: Result<()>)
    ensures
        final(moov)@ == shift_all(
            old(moov)@,
            tables(old(moov)@, 0, old(moov)@.len() as int).entries,
            delta as int,
        ),
        walk_result(tables(old(moov)@, 0, old(moov)@.len() as int), r),
{
    let n: usize = moov.len();
    walk(moov, 0, n, delta)
}

// ---------------------------------------------------------------------------
// Laws of patching
// ---------------------------------------------------------------------------

/// Whether the byte at `k` belongs to one of the entries.
pub open spec fn covered(entries: Seq<Entry>, k: int) -> bool {
    exists|j: int|
        0 <= j < entries.len() && (#[trigger] entries[j]).at <= k < entries[j].at
            + entries[j].width
}

/// Whether the entries come one behind the other, without overlap.
pub open spec fn in_order(entries: Seq<Entry>) -> bool {
    forall|i: int, j: int|
        0 <= i < j < entries.len() ==> (#[trigger] entries[i]).at + entries[i].width
            <= (#[trigger] entries[j]).at
}

proof fn lemma_box_tables_in_order(s: Seq<u8>, code: nat, lo: int, hi: int)
    requires
        0 <= lo,
        hi <= s.len(),
    ensures
        in_order(box_tables(s, code, lo, hi).entries),
    decreases hi - lo, 1int,
{
    if code == STCO || code == CO64 {
    } else if is_container(code) {
        lemma_tables_in_order(s, lo, hi);
    }
}

proof fn lemma_tables_in_order(s: Seq<u8>, lo: int, hi: int)
    requires
        0 <= lo,
        hi <= s.len(),
    ensures
        in_order(tables(s, lo, hi).entries),
    decreases hi - lo, 0int,
{
    if box_at(s, lo, hi) {
        let end = lo + be32(s, lo);
        let code = be32(s, lo + 4);
        let a = box_tables(s, code, lo + 8, end).entries;
        let b = tables(s, end, hi).entries;
        lemma_box_tables_in_order(s, code, lo + 8, end);
        lemma_tables_in_order(s, end, hi);
        lemma_box_tables_inside(s, code, lo + 8, end);
        lemma_tables_inside(s, end, hi);
        let all = a + b;
        assert forall|i: int, j: int| 0 <= i < j < all.len() implies (#[trigger] all[i]).at
            + all[i].width <= (#[trigger] all[j]).at by {
            if j < a.len() {
                assert(all[i] == a[i] && all[j] == a[j]);
            } else if i >= a.len() {
                assert(all[i] == b[i - a.len()] && all[j] == b[j - a.len()]);
            } else {
                assert(all[i] == a[i] && all[j] == b[j - a.len()]);
            }
        }
    }
}

/// Shifting one entry changes its value and nothing else.
proof fn lemma_shift_entry(s: Seq<u8>, e: Entry, delta: int)
    requires
        e.width == 4 || e.width == 8,
        0 <= e.at,
        e.at + e.width <= s.len(),
    ensures
        shift_entry(s, e, delta).len() == s.len(),
        forall|k: int|
            0 <= k < s.len() && !(e.at <= k < e.at + e.width) ==> #[trigger] shift_entry(
                s,
                e,
                delta,
            )[k] == s[k],
        entry_value(shift_entry(s, e, delta), e) == shifted_value(
            entry_value(s, e),
            delta,
            e.width,
        ),
{
    let v = shifted_value(entry_value(s, e), delta, e.width);
    if e.width == 4 {
        lemma_put32(s, e.at, v);
    } else {
        lemma_put64(s, e.at, v);
    }
}

/// An entry's value depends on its own bytes only.
proof fn lemma_value_frame(s: Seq<u8>, t: Seq<u8>, e: Entry)
    requires
        e.width == 4 || e.width == 8,
        forall|k: int| e.at <= k < e.at + e.width ==> s[k] == t[k],
    ensures
        entry_value(s, e) == entry_value(t, e),
{
}

/// A front part of entries that lie in order and inside does so too.
proof fn lemma_front(entries: Seq<Entry>, lo: int, hi: int)
    requires
        entries.len() > 0,
        inside(entries, lo, hi),
        in_order(entries),
    ensures
        inside(entries.drop_last(), lo, hi),
        in_order(entries.drop_last()),
{
    let init = entries.drop_last();
    assert forall|k: int| 0 <= k < init.len() implies {
        let x = #[trigger] init[k];
        (x.width == 4 || x.width == 8) && lo <= x.at && x.at + x.width <= hi
    } by {
        assert(init[k] == entries[k]);
    }
    assert forall|i: int, j: int| 0 <= i < j < init.len() implies (#[trigger] init[i]).at
        + init[i].width <= (#[trigger] init[j]).at by {
        assert(init[i] == entries[i] && init[j] == entries[j]);
    }
}

/// The bytes of the last entry belong to no other.
proof fn lemma_last_apart(entries: Seq<Entry>, k: int)
    requires
        entries.len() > 0,
        in_order(entries),
        entries.last().at <= k,
    ensures
        !covered(entries.drop_last(), k),
{
    let init = entries.drop_last();
    if covered(init, k) {
        let j = choose|j: int|
            0 <= j < init.len() && (#[trigger] init[j]).at <= k < init[j].at + init[j].width;
        assert(entries[j] == init[j]);
        assert(entries[j].at + entries[j].width <= entries[entries.len() - 1].at);
    }
}

/// A byte of a front part's entry is a byte of an entry.
proof fn lemma_covered_front(entries: Seq<Entry>, k: int)
    requires
        entries.len() > 0,
    ensures
        covered(entries.drop_last(), k) ==> covered(entries, k),
        entries.last().at <= k < entries.last().at + entries.last().width ==> covered(entries, k),
{
    let init = entries.drop_last();
    if covered(init, k) {
        let j = choose|j: int|
            0 <= j < init.len() && (#[trigger] init[j]).at <= k < init[j].at + init[j].width;
        assert(entries[j] == init[j]);
    }
    assert(entries.last() == entries[entries.len() - 1]);
}

/// Shifting entries that do not overlap leaves the bytes outside of them alone.
proof fn lemma_shift_outside(s: Seq<u8>, entries: Seq<Entry>, delta: int, k: int)
    requires
        inside(entries, 0, s.len() as int),
        in_order(entries),
        0 <= k < s.len(),
        !covered(entries, k),
    ensures
        shift_all(s, entries, delta).len() == s.len(),
        shift_all(s, entries, delta)[k] == s[k],
    decreases entries.len(),
{
    if entries.len() > 0 {
        let e = entries.last();
        assert(e == entries[entries.len() - 1]);
        lemma_front(entries, 0, s.len() as int);
        lemma_covered_front(entries, k);
        lemma_shift_outside(s, entries.drop_last(), delta, k);
        lemma_shift_entry(shift_all(s, entries.drop_last(), delta), e, delta);
    }
}

/// Shifting entries that do not overlap shifts each value once.
proof fn lemma_shift_value(s: Seq<u8>, entries: Seq<Entry>, delta: int, j: int)
    requires
        inside(entries, 0, s.len() as int),
        in_order(entries),
        0 <= j < entries.len(),
    ensures
        entry_value(shift_all(s, entries, delta), entries[j]) == shifted_value(
            entry_value(s, entries[j]),
            delta,
            entries[j].width,
        ),
    decreases entries.len(),
{
    let n = entries.len() as int;
    let init = entries.drop_last();
    let e = entries[n - 1];
    let t = shift_all(s, init, delta);
    lemma_front(entries, 0, s.len() as int);
    lemma_shift_frame(s, init, delta, 0, s.len() as int);
    lemma_shift_entry(t, e, delta);
    let out = shift_entry(t, e, delta);
    if j < n - 1 {
        assert(entries[j] == init[j]);
        lemma_shift_value(s, init, delta, j);
        assert(entries[j].at + entries[j].width <= e.at);
        lemma_value_frame(t, out, entries[j]);
    } else {
        assert forall|k: int| e.at <= k < e.at + e.width implies t[k] == s[k] by {
            lemma_last_apart(entries, k);
            lemma_shift_outside(s, init, delta, k);
        }
        lemma_value_frame(s, t, e);
    }
}

/// Patching shifts the value of every chunk offset by the same distance, in as many bytes as it
/// has, and leaves every other byte and the length alone.
pub proof fn law_patch_shifts_offsets_only(moov: Seq<u8>, delta: int)
    ensures
        ({
            let entries = tables(moov, 0, moov.len() as int).entries;
            let out = shift_all(moov, entries, delta);
            &&& out.len() == moov.len()
            &&& forall|k: int|
                0 <= k < moov.len() && !covered(entries, k) ==> #[trigger] out[k] == moov[k]
            &&& forall|j: int|
                0 <= j < entries.len() ==> entry_value(out, #[trigger] entries[j])
                    == shifted_value(entry_value(moov, entries[j]), delta, entries[j].width)
        }),
{
    let n = moov.len() as int;
    let entries = tables(moov, 0, n).entries;
    lemma_tables_inside(moov, 0, n);
    lemma_tables_in_order(moov, 0, n);
    assert(inside(entries, 0, n));
    lemma_shift_frame(moov, entries, delta, 0, n);
    let out = shift_all(moov, entries, delta);
    assert forall|k: int| 0 <= k < n && !covered(entries, k) implies #[trigger] out[k]
        == moov[k] by {
        lemma_shift_outside(moov, entries, delta, k);
    }
    assert forall|j: int| 0 <= j < entries.len() implies entry_value(out, #[trigger] entries[j])
        == shifted_value(entry_value(moov, entries[j]), delta, entries[j].width) by {
        lemma_shift_value(moov, entries, delta, j);
    }
}

proof fn lemma_box_tables_stable(s: Seq<u8>, t: Seq<u8>, code: nat, lo: int, hi: int)
    requires
        0 <= lo,
        hi <= s.len(),
        s.len() == t.len(),
        forall|k: int|
            lo <= k < hi && !covered(box_tables(s, code, lo, hi).entries, k) ==> s[k] == t[k],
    ensures
        box_tables(s, code, lo, hi) == box_tables(t, code, lo, hi),
    decreases hi - lo, 1int,
{
    let es = box_tables(s, code, lo, hi).entries;
    lemma_box_tables_inside(s, code, lo, hi);
    if code == STCO || code == CO64 {
        if hi - lo >= 8 {
            assert forall|k: int| lo <= k < lo + 8 implies s[k] == t[k] by {
                assert(!covered(es, k));
            }
            assert(be32(s, lo + 4) == be32(t, lo + 4));
            assert(table_entries(s, lo, hi, 4) =~= table_entries(t, lo, hi, 4));
            assert(table_entries(s, lo, hi, 8) =~= table_entries(t, lo, hi, 8));
        }
    } else if is_container(code) {
        lemma_tables_stable(s, t, lo, hi);
    }
}

/// Bytes of chunk offsets play no part in finding the chunk offsets.
proof fn lemma_tables_stable(s: Seq<u8>, t: Seq<u8>, lo: int, hi: int)
    requires
        0 <= lo,
        hi <= s.len(),
        s.len() == t.len(),
        forall|k: int|
            lo <= k < hi && !covered(tables(s, lo, hi).entries, k) ==> s[k] == t[k],
    ensures
        tables(s, lo, hi) == tables(t, lo, hi),
    decreases hi - lo, 0int,
{
    let es = tables(s, lo, hi).entries;
    lemma_tables_inside(s, lo, hi);
    if lo + 8 <= hi {
        assert forall|k: int| lo <= k < lo + 8 implies s[k] == t[k] by {
            assert(!covered(es, k));
        }
        assert(be32(s, lo) == be32(t, lo));
        assert(be32(s, lo + 4) == be32(t, lo + 4));
        if box_at(s, lo, hi) {
            let end = lo + be32(s, lo);
            let code = be32(s, lo + 4);
            let here = box_tables(s, code, lo + 8, end);
            let rest = tables(s, end, hi);
            lemma_box_tables_inside(s, code, lo + 8, end);
            lemma_tables_inside(s, end, hi);
            assert forall|k: int| lo + 8 <= k < end && !covered(here.entries, k) implies s[k]
                == t[k] by {
                if covered(es, k) {
                    let j = choose|j: int|
                        0 <= j < es.len() && (#[trigger] es[j]).at <= k < es[j].at + es[j].width;
                    if j < here.entries.len() {
                        assert(es[j] == here.entries[j]);
                    } else {
                        assert(es[j] == rest.entries[j - here.entries.len()]);
                    }
                }
            }
            lemma_box_tables_stable(s, t, code, lo + 8, end);
            if here.short is None {
                assert forall|k: int| end <= k < hi && !covered(rest.entries, k) implies s[k]
                    == t[k] by {
                    if covered(es, k) {
                        let j = choose|j: int|
                            0 <= j < es.len() && (#[trigger] es[j]).at <= k < es[j].at
                                + es[j].width;
                        if j < here.entries.len() {
                            assert(es[j] == here.entries[j]);
                        } else {
                            assert(es[j] == rest.entries[j - here.entries.len()]);
                        }
                    }
                }
                lemma_tables_stable(s, t, end, hi);
            }
        }
    }
}

/// Equal numbers are written with equal bytes.
proof fn lemma_be32_bytes(s: Seq<u8>, t: Seq<u8>, i: int)
    requires
        be32(s, i) == be32(t, i),
    ensures
        s[i] == t[i],
        s[i + 1] == t[i + 1],
        s[i + 2] == t[i + 2],
        s[i + 3] == t[i + 3],
{
}

/// Shifting there and back gives the value again.
proof fn lemma_shift_back(v: nat, delta: int, width: int)
    requires
        width == 4 ==> v < 0x1_0000_0000,
        width == 8 ==> v < 0x1_0000_0000_0000_0000,
        width == 4 || width == 8,
    ensures
        shifted_value(shifted_value(v, delta, width), -delta, width) == v,
{
}

/// An entry's value fits its bytes, and equal values are written with equal bytes.
proof fn lemma_entry_bytes(s: Seq<u8>, t: Seq<u8>, e: Entry)
    requires
        e.width == 4 || e.width == 8,
    ensures
        e.width == 4 ==> entry_value(s, e) < 0x1_0000_0000,
        e.width == 8 ==> entry_value(s, e) < 0x1_0000_0000_0000_0000,
        entry_value(s, e) == entry_value(t, e) ==> forall|k: int|
            e.at <= k < e.at + e.width ==> s[k] == t[k],
{
    assert(be32(s, e.at) < 0x1_0000_0000 && be32(s, e.at + 4) < 0x1_0000_0000);
    assert(be32(t, e.at) < 0x1_0000_0000 && be32(t, e.at + 4) < 0x1_0000_0000);
    if entry_value(s, e) == entry_value(t, e) {
        lemma_be32_bytes(s, t, e.at);
        if e.width == 8 {
            lemma_be32_bytes(s, t, e.at + 4);
        }
    }
}

/// Patching finds the same chunk offsets in its own result, and patching back by the same
/// distance restores every byte.
pub proof fn law_patch_can_be_undone(moov: Seq<u8>, delta: int)
    ensures
        ({
            let n = moov.len() as int;
            let out = shift_all(moov, tables(moov, 0, n).entries, delta);
            &&& tables(out, 0, n) == tables(moov, 0, n)
            &&& shift_all(out, tables(out, 0, n).entries, -delta) == moov
        }),
{
    let n = moov.len() as int;
    let entries = tables(moov, 0, n).entries;
    let out = shift_all(moov, entries, delta);
    law_patch_shifts_offsets_only(moov, delta);
    lemma_tables_stable(moov, out, 0, n);
    law_patch_shifts_offsets_only(out, -delta);
    let back = shift_all(out, entries, -delta);
    lemma_tables_inside(moov, 0, n);
    assert forall|k: int| 0 <= k < n implies back[k] == moov[k] by {
        if covered(entries, k) {
            let j = choose|j: int|
                0 <= j < entries.len() && (#[trigger] entries[j]).at <= k < entries[j].at
                    + entries[j].width;
            let e = entries[j];
            lemma_entry_bytes(moov, back, e);
            lemma_shift_back(entry_value(moov, e), delta, e.width);
        }
    }
    assert(back =~= moov);
}

// ---------------------------------------------------------------------------
// Laws of the tables, by the boxes that they lie in
// ---------------------------------------------------------------------------

/// Whether a whole box begins at `at` and ends at or before `hi`: four bytes for its length, four
/// for its name, and what it holds.
pub open spec fn whole_box(s: Seq<u8>, at: int, hi: int) -> bool {
    0 <= at && 8 <= be32(s, at) && at + be32(s, at) <= hi && hi <= s.len()
}

/// Whether the box at `at` bears a name of four letters.
pub open spec fn bears(s: Seq<u8>, at: int, a: char, b: char, c: char, d: char) -> bool {
    s[at + 4] == a as u8 && s[at + 5] == b as u8 && s[at + 6] == c as u8 && s[at + 7] == d as u8
}

/// Whether `at` is where one of the whole boxes begins that stand one behind the other from `lo`
/// on, up to `hi`.
pub open spec fn stands_in(s: Seq<u8>, lo: int, hi: int, at: int) -> bool
    decreases hi - lo,
{
    whole_box(s, lo, hi) && (at == lo || stands_in(s, lo + be32(s, lo), hi, at))
}

/// Whether the box at `at` is one of those that the box at `parent` holds.
pub open spec fn held_by(s: Seq<u8>, parent: int, at: int) -> bool {
    stands_in(s, parent + 8, parent + be32(s, parent), at)
}

/// Where a table of chunk offsets lies: the boxes on the way to it, and its own.
pub struct TablePath {
    pub trak: int,
    pub mdia: int,
    pub minf: int,
    pub stbl: int,
    pub table: int,
}

/// Whether a movie box has a table of chunk offsets, of 64 bits or of 32, where the path leads:
/// `moov`, `trak`, `mdia`, `minf`, `stbl`, and then `co64` or `stco`.
pub open spec fn leads_to_table(moov: Seq<u8>, p: TablePath, wide: bool) -> bool {
    &&& whole_box(moov, 0, moov.len() as int) && bears(moov, 0, 'm', 'o', 'o', 'v')
    &&& held_by(moov, 0, p.trak) && bears(moov, p.trak, 't', 'r', 'a', 'k')
    &&& held_by(moov, p.trak, p.mdia) && bears(moov, p.mdia, 'm', 'd', 'i', 'a')
    &&& held_by(moov, p.mdia, p.minf) && bears(moov, p.minf, 'm', 'i', 'n', 'f')
    &&& held_by(moov, p.minf, p.stbl) && bears(moov, p.stbl, 's', 't', 'b', 'l')
    &&& held_by(moov, p.stbl, p.table)
    &&& if wide {
        bears(moov, p.table, 'c', 'o', '6', '4')
    } else {
        bears(moov, p.table, 's', 't', 'c', 'o')
    }
}

/// Where the `k`th chunk offset of a table stands: behind the table's header, four bytes of version
/// and flags, and four bytes of the count.
pub open spec fn offset_place(table: int, wide: bool, k: int) -> int {
    if wide {
        table + 16 + 8 * k
    } else {
        table + 16 + 4 * k
    }
}

/// Whether a table announces a `k`th chunk offset, and has room for it.
pub open spec fn has_offset(moov: Seq<u8>, table: int, wide: bool, k: int) -> bool {
    0 <= k < be32(moov, table + 12) && offset_place(table, wide, k + 1) <= table + be32(moov, table)
}

/// The value of a chunk offset at a place.
pub open spec fn offset_at(moov: Seq<u8>, wide: bool, at: int) -> nat {
    if wide {
        be64(moov, at)
    } else {
        be32(moov, at)
    }
}

/// The movie box with its chunk offsets shifted.
pub open spec fn patched(moov: Seq<u8>, delta: int) -> Seq<u8> {
    shift_all(moov, tables(moov, 0, moov.len() as int).entries, delta)
}

proof fn lemma_bears(s: Seq<u8>, at: int)
    ensures
        bears(s, at, 'm', 'o', 'o', 'v') ==> be32(s, at + 4) == MOOV,
        bears(s, at, 't', 'r', 'a', 'k') ==> be32(s, at + 4) == TRAK,
        bears(s, at, 'm', 'd', 'i', 'a') ==> be32(s, at + 4) == MDIA,
        bears(s, at, 'm', 'i', 'n', 'f') ==> be32(s, at + 4) == MINF,
        bears(s, at, 's', 't', 'b', 'l') ==> be32(s, at + 4) == STBL,
        bears(s, at, 's', 't', 'c', 'o') ==> be32(s, at + 4) == STCO,
        bears(s, at, 'c', 'o', '6', '4') ==> be32(s, at + 4) == CO64,
{
    assert('m' as u8 == 0x6d && 'o' as u8 == 0x6f && 'v' as u8 == 0x76 && 't' as u8 == 0x74);
    assert('r' as u8 == 0x72 && 'a' as u8 == 0x61 && 'k' as u8 == 0x6b && 'd' as u8 == 0x64);
    assert('i' as u8 == 0x69 && 'n' as u8 == 0x6e && 'f' as u8 == 0x66 && 's' as u8 == 0x73);
    assert('b' as u8 == 0x62 && 'l' as u8 == 0x6c && 'c' as u8 == 0x63 && '6' as u8 == 0x36);
    assert('4' as u8 == 0x34);
}

/// What a walk finds in one box of a row is among what it finds in the row.
proof fn lemma_row_holds(s: Seq<u8>, lo: int, hi: int, at: int)
    requires
        stands_in(s, lo, hi, at),
        tables(s, lo, hi).short is None,
    ensures
        lo <= at,
        whole_box(s, at, hi),
        box_tables(s, be32(s, at + 4), at + 8, at + be32(s, at)).short is None,
        forall|j: int|
            0 <= j < box_tables(s, be32(s, at + 4), at + 8, at + be32(s, at)).entries.len()
                ==> tables(s, lo, hi).entries.contains(
                #[trigger] box_tables(s, be32(s, at + 4), at + 8, at + be32(s, at)).entries[j],
            ),
    decreases hi - lo,
{
    let end = lo + be32(s, lo);
    assert(box_at(s, lo, hi));
    let here = box_tables(s, be32(s, lo + 4), lo + 8, end);
    let rest = tables(s, end, hi);
    let all = tables(s, lo, hi);
    assert(here.short is None);
    assert(all.entries == here.entries + rest.entries);
    if at == lo {
        assert forall|j: int| 0 <= j < here.entries.len() implies all.entries.contains(
            #[trigger] here.entries[j],
        ) by {
            assert(all.entries[j] == here.entries[j]);
        }
    } else {
        lemma_row_holds(s, end, hi, at);
        let found = box_tables(s, be32(s, at + 4), at + 8, at + be32(s, at));
        assert forall|j: int| 0 <= j < found.entries.len() implies all.entries.contains(
            #[trigger] found.entries[j],
        ) by {
            assert(rest.entries.contains(found.entries[j]));
            let i = choose|i: int| 0 <= i < rest.entries.len() && rest.entries[i]
                == found.entries[j];
            assert(all.entries[here.entries.len() + i] == found.entries[j]);
        }
    }
}

/// What a walk finds further down is among what it finds.
proof fn lemma_contains_all(a: Seq<Entry>, b: Seq<Entry>, c: Seq<Entry>)
    requires
        forall|j: int| 0 <= j < a.len() ==> b.contains(#[trigger] a[j]),
        forall|j: int| 0 <= j < b.len() ==> c.contains(#[trigger] b[j]),
    ensures
        forall|j: int| 0 <= j < a.len() ==> c.contains(#[trigger] a[j]),
{
    assert forall|j: int| 0 <= j < a.len() implies c.contains(#[trigger] a[j]) by {
        assert(b.contains(a[j]));
        let i = choose|i: int| 0 <= i < b.len() && b[i] == a[j];
        assert(c.contains(b[i]));
    }
}

/// Every chunk offset that a table has where a path leads is among those that are found.
proof fn lemma_path_is_walked(moov: Seq<u8>, p: TablePath, wide: bool, k: int) -> (j: int)
    requires
        leads_to_table(moov, p, wide),
        tables(moov, 0, moov.len() as int).short is None,
        has_offset(moov, p.table, wide, k),
    ensures
        ({
            let entries = tables(moov, 0, moov.len() as int).entries;
            0 <= j < entries.len() && entries[j] == (Entry {
                at: offset_place(p.table, wide, k),
                width: if wide {
                    8
                } else {
                    4
                },
            })
        }),
{
    let n = moov.len() as int;
    lemma_bears(moov, 0);
    lemma_bears(moov, p.trak);
    lemma_bears(moov, p.mdia);
    lemma_bears(moov, p.minf);
    lemma_bears(moov, p.stbl);
    lemma_bears(moov, p.table);
    let all = tables(moov, 0, n).entries;
    assert(stands_in(moov, 0, n, 0));
    lemma_row_holds(moov, 0, n, 0);
    let a = tables(moov, 8, be32(moov, 0) as int).entries;
    lemma_row_holds(moov, 8, be32(moov, 0) as int, p.trak);
    let b = tables(moov, p.trak + 8, p.trak + be32(moov, p.trak)).entries;
    lemma_row_holds(moov, p.trak + 8, p.trak + be32(moov, p.trak), p.mdia);
    let c = tables(moov, p.mdia + 8, p.mdia + be32(moov, p.mdia)).entries;
    lemma_row_holds(moov, p.mdia + 8, p.mdia + be32(moov, p.mdia), p.minf);
    let d = tables(moov, p.minf + 8, p.minf + be32(moov, p.minf)).entries;
    lemma_row_holds(moov, p.minf + 8, p.minf + be32(moov, p.minf), p.stbl);
    let e = tables(moov, p.stbl + 8, p.stbl + be32(moov, p.stbl)).entries;
    lemma_row_holds(moov, p.stbl + 8, p.stbl + be32(moov, p.stbl), p.table);
    let lo = p.table + 8;
    let hi = p.table + be32(moov, p.table);
    let code = be32(moov, p.table + 4);
    let own = box_tables(moov, code, lo, hi).entries;
    lemma_contains_all(own, e, d);
    lemma_contains_all(own, d, c);
    lemma_contains_all(own, c, b);
    lemma_contains_all(own, b, a);
    lemma_contains_all(own, a, all);
    let width: int = if wide {
        8
    } else {
        4
    };
    let room = (hi - lo - 8) / width;
    assert(k < room) by (nonlinear_arith)
        requires
            room == (hi - lo - 8) / width,
            width * (k + 1) <= hi - lo - 8,
            width == 8 || width == 4,
    ;
    assert(own[k] == (Entry { at: lo + 8 + width * k, width }));
    assert(all.contains(own[k]));
    choose|j: int| 0 <= j < all.len() && all[j] == own[k]
}

/// Wherever a movie box has a table of chunk offsets, of 32 or of 64 bits, each entry that the
/// table announces and has room for is shifted by the distance, in as many bits as it has.
pub proof fn law_every_chunk_offset_is_shifted(
    moov: Seq<u8>,
    delta: int,
    p: TablePath,
    wide: bool,
    k: int,
)
    requires
        leads_to_table(moov, p, wide),
        has_offset(moov, p.table, wide, k),
        tables(moov, 0, moov.len() as int).short is None,
    ensures
        ({
            let at = offset_place(p.table, wide, k);
            let bits: int = if wide {
                0x1_0000_0000_0000_0000
            } else {
                0x1_0000_0000
            };
            offset_at(patched(moov, delta), wide, at) == (offset_at(moov, wide, at) + delta) % bits
        }),
{
    let j = lemma_path_is_walked(moov, p, wide, k);
    law_patch_shifts_offsets_only(moov, delta);
}

/// Whether the byte at `k` belongs to what a box named `stco` or `co64` holds behind its count.
pub open spec fn in_a_table(s: Seq<u8>, k: int) -> bool {
    exists|at: int| #[trigger]
        whole_box(s, at, s.len() as int) && (bears(s, at, 's', 't', 'c', 'o') || bears(
            s,
            at,
            'c',
            'o',
            '6',
            '4',
        )) && at + 16 <= k < at + be32(s, at)
}

proof fn lemma_bears_back(s: Seq<u8>, at: int)
    ensures
        be32(s, at + 4) == STCO ==> bears(s, at, 's', 't', 'c', 'o'),
        be32(s, at + 4) == CO64 ==> bears(s, at, 'c', 'o', '6', '4'),
{
    lemma_bears(s, at);
    let stco = seq![0u8, 0, 0, 0, 0x73u8, 0x74, 0x63, 0x6f];
    let co64 = seq![0u8, 0, 0, 0, 0x63u8, 0x6f, 0x36, 0x34];
    assert(be32(stco, 4) == STCO);
    assert(be32(co64, 4) == CO64);
    if be32(s, at + 4) == STCO {
        lemma_four_bytes(s, at + 4, stco, 4);
    }
    if be32(s, at + 4) == CO64 {
        lemma_four_bytes(s, at + 4, co64, 4);
    }
    assert('s' as u8 == 0x73 && 't' as u8 == 0x74 && 'c' as u8 == 0x63 && 'o' as u8 == 0x6f);
    assert('6' as u8 == 0x36 && '4' as u8 == 0x34);
}

proof fn lemma_four_bytes(s: Seq<u8>, i: int, t: Seq<u8>, j: int)
    requires
        be32(s, i) == be32(t, j),
    ensures
        s[i] == t[j],
        s[i + 1] == t[j + 1],
        s[i + 2] == t[j + 2],
        s[i + 3] == t[j + 3],
{
}

proof fn lemma_box_finds_tables(s: Seq<u8>, at: int, j: int)
    requires
        whole_box(s, at, s.len() as int),
        0 <= j < box_tables(s, be32(s, at + 4), at + 8, at + be32(s, at)).entries.len(),
    ensures
        ({
            let e = box_tables(s, be32(s, at + 4), at + 8, at + be32(s, at)).entries[j];
            forall|k: int| e.at <= k < e.at + e.width ==> #[trigger] in_a_table(s, k)
        }),
    decreases be32(s, at), 1int,
{
    let code = be32(s, at + 4);
    let end = at + be32(s, at);
    let found = box_tables(s, code, at + 8, end);
    let e = found.entries[j];
    if code == STCO || code == CO64 {
        lemma_bears_back(s, at);
        if end - at - 8 >= 8 {
            lemma_table_inside(
                s,
                at + 8,
                end,
                if code == STCO {
                    4
                } else {
                    8
                },
            );
            assert forall|k: int| e.at <= k < e.at + e.width implies #[trigger] in_a_table(s, k) by {
                assert(inside(found.entries, at + 16, end));
                assert(found.entries[j] == e);
                assert(whole_box(s, at, s.len() as int));
            }
        }
    } else if is_container(code) {
        lemma_row_finds_tables(s, at + 8, end, j);
    }
}

proof fn lemma_row_finds_tables(s: Seq<u8>, lo: int, hi: int, j: int)
    requires
        0 <= lo,
        hi <= s.len(),
        0 <= j < tables(s, lo, hi).entries.len(),
    ensures
        forall|k: int|
            tables(s, lo, hi).entries[j].at <= k < tables(s, lo, hi).entries[j].at + tables(
                s,
                lo,
                hi,
            ).entries[j].width ==> #[trigger] in_a_table(s, k),
    decreases hi - lo, 2int,
{
    if box_at(s, lo, hi) {
        let end = lo + be32(s, lo);
        let here = box_tables(s, be32(s, lo + 4), lo + 8, end);
        let all = tables(s, lo, hi);
        if j < here.entries.len() {
            assert(all.entries[j] == here.entries[j]);
            assert(whole_box(s, lo, s.len() as int));
            lemma_box_finds_tables(s, lo, j);
        } else {
            let rest = tables(s, end, hi);
            assert(all.entries[j] == rest.entries[j - here.entries.len()]);
            lemma_row_finds_tables(s, end, hi, j - here.entries.len());
        }
    }
}

/// Nothing but chunk offsets is changed in a movie box: every byte that changes belongs to what a
/// box named `stco` or `co64` holds, behind its version, flags and count.
pub proof fn law_only_tables_are_changed(moov: Seq<u8>, delta: int)
    ensures
        patched(moov, delta).len() == moov.len(),
        forall|k: int|
            0 <= k < moov.len() && #[trigger] patched(moov, delta)[k] != moov[k] ==> in_a_table(
                moov,
                k,
            ),
{
    let entries = tables(moov, 0, moov.len() as int).entries;
    law_patch_shifts_offsets_only(moov, delta);
    assert forall|k: int|
        0 <= k < moov.len() && #[trigger] patched(moov, delta)[k] != moov[k] implies in_a_table(
        moov,
        k,
    ) by {
        assert(covered(entries, k));
        let j = choose|j: int|
            0 <= j < entries.len() && (#[trigger] entries[j]).at <= k < entries[j].at
                + entries[j].width;
        lemma_row_finds_tables(moov, 0, moov.len() as int, j);
    }
}

// ---------------------------------------------------------------------------
// Top-level boxes
// ---------------------------------------------------------------------------

/// A top-level box: what it is, where it starts, and how long it is with its header.
#[derive(Clone, Copy, Debug, PartialEq, Eq)]
pub struct TopBox {
    pub code: u32,
    pub start: u64,
    pub len: u64,
}

/// A top-level box, in mathematical integers.
pub struct BoxAt {
    pub code: nat,
    pub start: int,
    pub len: int,
}

impl View for TopBox {
    type V = BoxAt;

    open spec fn view(&self) -> BoxAt {
        BoxAt { code: self.code as nat, start: self.start as int, len: self.len as int }
    }
}

/// The top-level boxes of a file, in order.
pub struct Layout {
    pub boxes: Vec<TopBox>,
}

impl View for Layout {
    type V = Seq<BoxAt>;

    open spec fn view(&self) -> Seq<BoxAt> {
        self.boxes@.map_values(|b: TopBox| b@)
    }
}

/// What stands at a position of a file.
pub enum Step {
    /// No further box.
    Over,
    /// A box header that the file ends in.
    Cut,
    /// A box of this kind and length.
    Found { code: nat, len: int },
}

/// The first bytes at `pos`: those of a box header in its longest form, as far as there are any.
pub open spec fn head_at(s: Seq<u8>, pos: int) -> Seq<u8> {
    s.subrange(
        pos,
        if pos + 16 <= s.len() {
            pos + 16
        } else {
            s.len() as int
        },
    )
}

/// What stands at `pos` in a file of `file_len` bytes, given its first bytes there. A length of 1
/// says that the length follows in 64 bits, a length of 0 that the box reaches to the end of the
/// file. A box that is shorter than its header or longer than the file ends the row.
pub open spec fn step_at(head: Seq<u8>, pos: int, file_len: int) -> Step {
    if pos + 8 > file_len {
        Step::Over
    } else if be32(head, 0) == 1 && pos + 16 > file_len {
        Step::Cut
    } else {
        let len = if be32(head, 0) == 1 {
            be64(head, 8) as int
        } else if be32(head, 0) == 0 {
            file_len - pos
        } else {
            be32(head, 0) as int
        };
        if len < 8 || pos + len > file_len {
            Step::Over
        } else {
            Step::Found { code: be32(head, 4), len }
        }
    }
}

/// The row of boxes that begins at `pos`, or none where the file ends in a box header.
pub open spec fn boxes_from(s: Seq<u8>, pos: int) -> Option<Seq<BoxAt>>
    decreases s.len() - pos,
{
    if pos < 0 {
        None
    } else {
        match step_at(head_at(s, pos), pos, s.len() as int) {
            Step::Over => Some(Seq::empty()),
            Step::Cut => None,
            Step::Found { code, len } => if len < 8 {
                None
            } else {
                match boxes_from(s, pos + len) {
                    Some(rest) => Some(seq![BoxAt { code, start: pos, len }] + rest),
                    None => None,
                }
            },
        }
    }
}

/// The top-level boxes of a file, or none where it ends in a box header.
pub open spec fn boxes_of(s: Seq<u8>) -> Option<Seq<BoxAt>> {
    boxes_from(s, 0)
}

/// Whether the boxes stand one behind the other from `at` on, each at least as long as the
/// shortest header, and end at or before `end`.
pub open spec fn in_a_row(bs: Seq<BoxAt>, at: int, end: int) -> bool
    decreases bs.len(),
{
    if bs.len() == 0 {
        at <= end
    } else {
        bs[0].start == at && bs[0].len >= 8 && in_a_row(bs.drop_first(), at + bs[0].len, end)
    }
}

/// Whether an error says that the file ended too early.
pub open spec fn is_cut_short(e: Error) -> bool {
    e matches Error::Io(m) && m@ == "failed to fill whole buffer"@
}

/// The box at `pos` of a file of `file_len` bytes, given the bytes there: sixteen, or as many as
/// the file has left. An error where the file ends inside the header.
pub fn next_box(head: &[u8], pos: u64, file_len: u64) -> (r: Result<Option<TopBox>>)
    requires
        pos <= file_len,
        head@.len() == (if file_len - pos < 16 {
            file_len - pos
        } else {
            16
        }),
    ensures
        match step_at(head@, pos as int, file_len as int) {
            Step::Over => r matches Ok(None),
            Step::Cut => r matches Err(e) && is_cut_short(e),
            Step::Found { code, len } => r matches Ok(Some(b)) && b@ == (BoxAt {
                code,
                start: pos as int,
                len,
            }),
        },
{
    if file_len - pos < 8 {
        return Ok(None);
    }
    let size: u32 = read32(head, 0);
    let code: u32 = read32(head, 4);
    let len: u64 = if size == 1 {
        if file_len - pos < 16 {
            return Err(Error::Io("failed to fill whole buffer".to_string()));
        }
        read64(head, 8)
    } else if size == 0 {
        file_len - pos
    } else {
        size as u64
    };
    if len < 8 || len > file_len - pos {
        return Ok(None);
    }
    Ok(Some(TopBox { code, start: pos, len }))
}

proof fn lemma_boxes_in_a_row(s: Seq<u8>, pos: int)
    requires
        0 <= pos <= s.len(),
    ensures
        boxes_from(s, pos) matches Some(bs) ==> in_a_row(bs, pos, s.len() as int),
    decreases s.len() - pos,
{
    match step_at(head_at(s, pos), pos, s.len() as int) {
        Step::Found { code, len } => {
            lemma_boxes_in_a_row(s, pos + len);
            if let Some(rest) = boxes_from(s, pos + len) {
                let bs = seq![BoxAt { code, start: pos, len }] + rest;
                assert(bs.drop_first() =~= rest);
            }
        },
        _ => {},
    }
}

/// The top-level boxes of the file with these bytes. An error where it ends inside a box header.
pub fn scan_layout(data: &[u8]) -> (r: Result<Layout>)
    ensures
        match boxes_of(data@) {
            Some(bs) => r matches Ok(l) && l@ == bs && in_a_row(bs, 0, data@.len() as int),
            None => r matches Err(e) && is_cut_short(e),
        },
{
    let file_len: usize = data.len();
    let mut boxes: Vec<TopBox> = Vec::new();
    let mut pos: usize = 0;
    let ghost mut done: Seq<BoxAt> = Seq::empty();
    proof {
        lemma_boxes_in_a_row(data@, 0);
        if let Some(bs) = boxes_of(data@) {
            assert(done + bs =~= bs);
        }
    }
    loop
        invariant
            pos <= file_len == data@.len(),
            file_len == data.len(),
            done == boxes@.map_values(|b: TopBox| b@),
            boxes_of(data@) == (match boxes_from(data@, pos as int) {
                Some(rest) => Some(done + rest),
                None => None,
            }),
            boxes_of(data@) matches Some(bs) ==> in_a_row(bs, 0, data@.len() as int),
        decreases file_len - pos,
    {
        let head_end: usize = if file_len - pos < 16 {
            file_len
        } else {
            pos + 16
        };
        let head = slice_subrange(data, pos, head_end);
        match next_box(head, pos as u64, file_len as u64) {
            Err(e) => {
                return Err(e);
            },
            Ok(None) => {
                assert(done + Seq::<BoxAt>::empty() =~= done);
                return Ok(Layout { boxes });
            },
            Ok(Some(b)) => {
                let ghost before = boxes@;
                boxes.push(b);
                proof {
                    assert(boxes@.map_values(|b: TopBox| b@) =~= done.push(b@));
                    if let Some(rest) = boxes_from(data@, pos + b.len) {
                        assert(done + (seq![b@] + rest) =~= done.push(b@) + rest);
                    }
                    done = done.push(b@);
                }
                pos = pos + b.len as usize;
            },
        }
    }
}

// ---------------------------------------------------------------------------
// Fast start
// ---------------------------------------------------------------------------

/// The first index from `i` on of a box of this kind.
pub open spec fn first_from(bs: Seq<BoxAt>, code: nat, i: int) -> Option<int>
    decreases bs.len() - i,
{
    if i < 0 || i >= bs.len() {
        None
    } else if bs[i].code == code {
        Some(i)
    } else {
        first_from(bs, code, i + 1)
    }
}

/// The first index of a box of this kind.
pub open spec fn first_of(bs: Seq<BoxAt>, code: nat) -> Option<int> {
    first_from(bs, code, 0)
}

/// Whether both `moov` and `mdat` are there, and the first `moov` stands in front.
pub open spec fn movie_first(bs: Seq<BoxAt>) -> bool {
    match (first_of(bs, MOOV as nat), first_of(bs, MDAT as nat)) {
        (Some(m), Some(d)) => m < d,
        _ => false,
    }
}

/// What the first index of a box of this kind, from `i` on, says of the boxes.
pub proof fn lemma_first_from(bs: Seq<BoxAt>, code: nat, i: int)
    requires
        0 <= i,
    ensures
        match first_from(bs, code, i) {
            Some(k) => i <= k < bs.len() && bs[k].code == code && forall|j: int|
                i <= j < k ==> (#[trigger] bs[j]).code != code,
            None => forall|j: int| i <= j < bs.len() ==> (#[trigger] bs[j]).code != code,
        },
    decreases bs.len() - i,
{
    if i < bs.len() && bs[i].code != code {
        lemma_first_from(bs, code, i + 1);
    }
}

/// The index that `k` must be, if it is the first with this code.
proof fn lemma_first_is(bs: Seq<BoxAt>, code: nat, k: int)
    requires
        0 <= k < bs.len(),
        bs[k].code == code,
        forall|j: int| 0 <= j < k ==> (#[trigger] bs[j]).code != code,
    ensures
        first_of(bs, code) == Some(k),
{
    lemma_first_from(bs, code, 0);
}

impl Layout {
    /// The first index of a box of this kind.
    pub fn index_of(&self, code: u32) -> (r: Option<usize>)
        ensures
            r matches Some(i) ==> i < self@.len() && first_of(self@, code as nat) == Some(
                i as int,
            ),
            r is None ==> first_of(self@, code as nat) is None,
    {
        let mut i: usize = 0;
        while i < self.boxes.len()
            invariant
                i <= self.boxes@.len(),
                first_of(self@, code as nat) == first_from(self@, code as nat, i as int),
            decreases self.boxes@.len() - i,
        {
            assert(self@[i as int] == self.boxes@[i as int]@);
            if self.boxes[i].code == code {
                return Some(i);
            }
            i += 1;
        }
        None
    }

    /// Whether both `moov` and `mdat` are there, and the first `moov` stands in front.
    pub fn movie_first(&self) -> (r: bool)
        ensures
            r == movie_first(self@),
    {
        match (self.index_of(MOOV), self.index_of(MDAT)) {
            (Some(m), Some(d)) => m < d,
            _ => false,
        }
    }
}

/// Whether the file's `moov` comes before its `mdat`, so that growing metadata would push the
/// media data along. `false` where either is missing.
pub fn moov_precedes_mdat(data: &[u8]) -> (r: Result<bool>)
    ensures
        match boxes_of(data@) {
            Some(bs) => r matches Ok(b) && b == movie_first(bs),
            None => r matches Err(e) && is_cut_short(e),
        },
{
    match scan_layout(data) {
        Ok(layout) => Ok(layout.movie_first()),
        Err(e) => Err(e),
    }
}

/// Whether the file is laid out for streaming: its `moov` comes before its `mdat`.
pub fn is_fast_start(data: &[u8]) -> (r: Result<bool>)
    ensures
        match boxes_of(data@) {
            Some(bs) => r matches Ok(b) && b == movie_first(bs),
            None => r matches Err(e) && is_cut_short(e),
        },
{
    moov_precedes_mdat(data)
}

// ---------------------------------------------------------------------------
// Moving the movie box
// ---------------------------------------------------------------------------

/// One part of the rewritten file.
#[derive(Clone, Copy, Debug)]
pub enum Piece {
    /// A box of the old file, byte for byte.
    Copied(TopBox),
    /// The movie box with its chunk offsets shifted.
    Movie,
    /// A `free` box of `FREE_PAD` bytes.
    Padding,
}

/// One part of the rewritten file, in mathematical integers.
pub enum PieceAt {
    Copied(BoxAt),
    Movie,
    Padding,
}

impl View for Piece {
    type V = PieceAt;

    open spec fn view(&self) -> PieceAt {
        match self {
            Piece::Copied(b) => PieceAt::Copied(b@),
            Piece::Movie => PieceAt::Movie,
            Piece::Padding => PieceAt::Padding,
        }
    }
}

/// How to rewrite a file: the movie box, the distance that its chunk offsets are shifted by, the
/// parts of the new file in order, and how many bytes are copied from the old one.
pub struct Plan {
    pub moov: TopBox,
    pub delta: i64,
    pub pieces: Vec<Piece>,
    pub total: u64,
}

/// How to rewrite a file, in mathematical integers.
pub struct PlanAt {
    pub moov: BoxAt,
    pub delta: int,
    pub pieces: Seq<PieceAt>,
    pub total: int,
}

impl View for Plan {
    type V = PlanAt;

    open spec fn view(&self) -> PlanAt {
        PlanAt {
            moov: self.moov@,
            delta: self.delta as int,
            pieces: self.pieces@.map_values(|p: Piece| p@),
            total: self.total as int,
        }
    }
}

/// The first `n` boxes, without those at `m` and `f`.
pub open spec fn kept(bs: Seq<BoxAt>, n: int, m: int, f: Option<int>) -> Seq<BoxAt>
    decreases n,
{
    if n <= 0 {
        Seq::empty()
    } else if n - 1 == m || f == Some(n - 1) {
        kept(bs, n - 1, m, f)
    } else {
        kept(bs, n - 1, m, f).push(bs[n - 1])
    }
}

/// The sum of the boxes' lengths.
pub open spec fn total_len(bs: Seq<BoxAt>) -> int
    decreases bs.len(),
{
    if bs.len() == 0 {
        0
    } else {
        total_len(bs.drop_last()) + bs.last().len
    }
}

/// The boxes as parts to copy.
pub open spec fn copied(bs: Seq<BoxAt>) -> Seq<PieceAt> {
    bs.map_values(|b: BoxAt| PieceAt::Copied(b))
}

/// The plan that puts `moov` last: every other box in order, then `moov`. None where `moov` or
/// `mdat` is missing or `moov` already comes later.
pub open spec fn plan_last(bs: Seq<BoxAt>) -> Option<PlanAt> {
    match (first_of(bs, MOOV as nat), first_of(bs, MDAT as nat)) {
        (Some(m), Some(d)) => if m > d {
            None
        } else {
            let rest = kept(bs, bs.len() as int, m, None);
            Some(
                PlanAt {
                    moov: bs[m],
                    delta: -bs[m].len,
                    pieces: copied(rest).push(PieceAt::Movie),
                    total: total_len(rest),
                },
            )
        },
        _ => None,
    }
}

/// The distance that the first `mdat` travels when `ftyp`, `moov` and the padding go in front of
/// all other boxes.
pub open spec fn travel_first(bs: Seq<BoxAt>, m: int, d: int, f: Option<int>) -> int {
    let front = match f {
        Some(i) => bs[i].len,
        None => 0,
    };
    front + bs[m].len + FREE_PAD + total_len(kept(bs, d, m, f)) - bs[d].start
}

/// The plan that puts `moov` first: `ftyp` where there is one, `moov`, the padding, then every
/// other box in order. None where `moov` or `mdat` is missing.
pub open spec fn plan_first(bs: Seq<BoxAt>) -> Option<PlanAt> {
    match (first_of(bs, MOOV as nat), first_of(bs, MDAT as nat)) {
        (Some(m), Some(d)) => {
            let f = first_of(bs, FTYP as nat);
            let front = match f {
                Some(i) => seq![PieceAt::Copied(bs[i])],
                None => Seq::empty(),
            };
            Some(
                PlanAt {
                    moov: bs[m],
                    delta: travel_first(bs, m, d, f),
                    pieces: front + seq![PieceAt::Movie, PieceAt::Padding] + copied(
                        kept(bs, bs.len() as int, m, f),
                    ),
                    total: total_len(kept(bs, bs.len() as int, m, None)),
                },
            )
        },
        _ => None,
    }
}

proof fn lemma_row_bounds(bs: Seq<BoxAt>, at: int, end: int, i: int)
    requires
        in_a_row(bs, at, end),
        0 <= i < bs.len(),
    ensures
        at <= bs[i].start,
        bs[i].len >= 8,
        bs[i].start + bs[i].len <= end,
        i + 1 < bs.len() ==> bs[i + 1].start == bs[i].start + bs[i].len,
        i == 0 ==> bs[i].start == at,
    decreases bs.len(),
{
    let rest = bs.drop_first();
    assert(in_a_row(rest, at + bs[0].len, end));
    if i > 0 {
        lemma_row_bounds(rest, at + bs[0].len, end, i - 1);
        assert(rest[i - 1] == bs[i]);
        if i + 1 < bs.len() {
            assert(rest[i] == bs[i + 1]);
        }
    } else if bs.len() > 1 {
        lemma_row_bounds(rest, at + bs[0].len, end, 0);
        assert(rest[0] == bs[1]);
    }
}

proof fn lemma_kept_push(bs: Seq<BoxAt>, n: int, m: int, f: Option<int>)
    requires
        0 <= n < bs.len(),
    ensures
        n == m || f == Some(n) ==> kept(bs, n + 1, m, f) == kept(bs, n, m, f),
        n != m && f != Some(n) ==> kept(bs, n + 1, m, f) == kept(bs, n, m, f).push(bs[n])
            && total_len(kept(bs, n + 1, m, f)) == total_len(kept(bs, n, m, f)) + bs[n].len,
{
    if n != m && f != Some(n) {
        assert(kept(bs, n + 1, m, f).drop_last() =~= kept(bs, n, m, f));
    }
}

/// The boxes kept among the first `n` are no longer than these.
proof fn lemma_kept_total(bs: Seq<BoxAt>, n: int, m: int, f: Option<int>, end: int)
    requires
        in_a_row(bs, 0, end),
        0 <= n <= bs.len(),
    ensures
        0 <= total_len(kept(bs, n, m, f)),
        n < bs.len() ==> total_len(kept(bs, n, m, f)) <= bs[n].start,
        total_len(kept(bs, n, m, f)) <= end,
        n < bs.len() && 0 <= m < n ==> total_len(kept(bs, n, m, f)) <= bs[n].start - bs[m].len,
    decreases n,
{
    if n > 0 {
        lemma_kept_total(bs, n - 1, m, f, end);
        lemma_row_bounds(bs, 0, end, n - 1);
        lemma_kept_push(bs, n - 1, m, f);
    } else if bs.len() > 0 {
        lemma_row_bounds(bs, 0, end, 0);
    } else {
        assert(0 <= end);
    }
}

/// Pushes the boxes without those at `m` and `f` as parts to copy; returns their total length.
fn push_copied(
    layout: &Layout,
    m: usize,
    f: Option<usize>,
    pieces: &mut Vec<Piece>,
    Ghost(end): Ghost<int>,
) -> (total: u64)
    requires
        in_a_row(layout@, 0, end),
        end <= u64::MAX,
    ensures
        final(pieces)@.map_values(|p: Piece| p@) == old(pieces)@.map_values(|p: Piece| p@) + copied(
            kept(layout@, layout@.len() as int, m as int, as_index(f)),
        ),
        total == total_len(kept(layout@, layout@.len() as int, m as int, as_index(f))),
{
    let ghost bs = layout@;
    let ghost fi = as_index(f);
    let ghost before = pieces@.map_values(|p: Piece| p@);
    let mut total: u64 = 0;
    let mut i: usize = 0;
    assert(before + copied(kept(bs, 0, m as int, fi)) =~= before);
    while i < layout.boxes.len()
        invariant
            i <= layout.boxes@.len() == bs.len(),
            bs == layout@,
            in_a_row(bs, 0, end),
            end <= u64::MAX,
            fi == as_index(f),
            pieces@.map_values(|p: Piece| p@) == before + copied(kept(bs, i as int, m as int, fi)),
            total == total_len(kept(bs, i as int, m as int, fi)),
        decreases layout.boxes@.len() - i,
    {
        let b = layout.boxes[i];
        proof {
            assert(bs[i as int] == b@);
            lemma_kept_push(bs, i as int, m as int, fi);
            lemma_kept_total(bs, i + 1, m as int, fi, end);
        }
        let skip = i == m || (match f {
            Some(k) => k == i,
            None => false,
        });
        if !skip {
            let ghost prior = pieces@;
            pieces.push(Piece::Copied(b));
            total = total + b.len;
            proof {
                assert(pieces@.map_values(|p: Piece| p@) =~= prior.map_values(|p: Piece| p@).push(
                    PieceAt::Copied(b@),
                ));
                assert(copied(kept(bs, i + 1, m as int, fi)) =~= copied(
                    kept(bs, i as int, m as int, fi),
                ).push(PieceAt::Copied(b@)));
                assert(pieces@.map_values(|p: Piece| p@) =~= before + copied(
                    kept(bs, i + 1, m as int, fi),
                ));
            }
        }
        i += 1;
    }
    total
}

/// An optional index as a mathematical integer.
pub open spec fn as_index(f: Option<usize>) -> Option<int> {
    match f {
        Some(i) => Some(i as int),
        None => None,
    }
}

/// The plan that puts `moov` last, for a file with this layout.
pub fn plan_moov_last(layout: &Layout, file_len: u64) -> (r: Option<Plan>)
    requires
        in_a_row(layout@, 0, file_len as int),
        file_len <= i64::MAX,
    ensures
        r matches Some(p) ==> plan_last(layout@) == Some(p@),
        r is None ==> plan_last(layout@) is None,
{
    let m: usize = match layout.index_of(MOOV) {
        Some(m) => m,
        None => return None,
    };
    let d: usize = match layout.index_of(MDAT) {
        Some(d) => d,
        None => return None,
    };
    if m > d {
        return None;
    }
    let ghost bs = layout@;
    let moov = layout.boxes[m];
    proof {
        assert(bs[m as int] == moov@);
        lemma_row_bounds(bs, 0, file_len as int, m as int);
    }
    let mut pieces: Vec<Piece> = Vec::new();
    let ghost none = pieces@.map_values(|p: Piece| p@);
    let total: u64 = push_copied(layout, m, None, &mut pieces, Ghost(file_len as int));
    let ghost rest = copied(kept(bs, bs.len() as int, m as int, None));
    let ghost prior = pieces@;
    pieces.push(Piece::Movie);
    proof {
        assert(none + rest =~= rest);
        assert(pieces@.map_values(|p: Piece| p@) =~= prior.map_values(|p: Piece| p@).push(
            PieceAt::Movie,
        ));
    }
    Some(Plan { moov, delta: -(moov.len as i64), pieces, total })
}

/// The length of the boxes among the first `d` that are neither at `m` nor at `f`.
fn len_before(
    layout: &Layout,
    d: usize,
    m: usize,
    f: Option<usize>,
    Ghost(end): Ghost<int>,
) -> (total: u64)
    requires
        in_a_row(layout@, 0, end),
        end <= u64::MAX,
        d <= layout@.len(),
    ensures
        total == total_len(kept(layout@, d as int, m as int, as_index(f))),
{
    let ghost bs = layout@;
    let mut total: u64 = 0;
    let mut i: usize = 0;
    while i < d
        invariant
            i <= d <= layout.boxes@.len() == bs.len(),
            bs == layout@,
            in_a_row(bs, 0, end),
            end <= u64::MAX,
            total == total_len(kept(bs, i as int, m as int, as_index(f))),
        decreases d - i,
    {
        proof {
            assert(bs[i as int] == layout.boxes@[i as int]@);
            lemma_kept_push(bs, i as int, m as int, as_index(f));
            lemma_kept_total(bs, i + 1, m as int, as_index(f), end);
        }
        let skip = i == m || (match f {
            Some(k) => k == i,
            None => false,
        });
        if !skip {
            total = total + layout.boxes[i].len;
        }
        i += 1;
    }
    total
}

/// The plan that puts `moov` first, for a file with this layout.
pub fn plan_moov_first(layout: &Layout, file_len: u64) -> (r: Option<Plan>)
    requires
        in_a_row(layout@, 0, file_len as int),
        file_len + FREE_PAD <= i64::MAX,
    ensures
        r matches Some(p) ==> plan_first(layout@) == Some(p@),
        r is None ==> plan_first(layout@) is None,
{
    let m: usize = match layout.index_of(MOOV) {
        Some(m) => m,
        None => return None,
    };
    let d: usize = match layout.index_of(MDAT) {
        Some(d) => d,
        None => return None,
    };
    let f: Option<usize> = layout.index_of(FTYP);
    let ghost end = file_len as int;
    let ghost bs = layout@;
    let ghost fi = as_index(f);
    let moov = layout.boxes[m];
    let mdat = layout.boxes[d];
    proof {
        assert(bs[m as int] == moov@);
        assert(bs[d as int] == mdat@);
        assert(fi == first_of(bs, FTYP as nat));
        lemma_row_bounds(bs, 0, end, m as int);
        lemma_row_bounds(bs, 0, end, d as int);
        lemma_first_from(bs, MOOV as nat, 0);
        lemma_first_from(bs, MDAT as nat, 0);
        lemma_first_from(bs, FTYP as nat, 0);
    }
    let mut pieces: Vec<Piece> = Vec::new();
    let mut new_start: u64 = 0;
    let ghost front: Seq<PieceAt> = match fi {
        Some(i) => seq![PieceAt::Copied(bs[i])],
        None => Seq::empty(),
    };
    if let Some(i) = f {
        let b = layout.boxes[i];
        proof {
            assert(bs[i as int] == b@);
            lemma_row_bounds(bs, 0, end, i as int);
        }
        new_start = b.len;
        pieces.push(Piece::Copied(b));
    }
    assert(pieces@.map_values(|p: Piece| p@) =~= front);
    pieces.push(Piece::Movie);
    pieces.push(Piece::Padding);
    let ghost lead = front + seq![PieceAt::Movie, PieceAt::Padding];
    assert(pieces@.map_values(|p: Piece| p@) =~= lead);
    proof {
        lemma_travel_bound(bs, m as int, d as int, fi, end);
        lemma_kept_total(bs, d as int, m as int, fi, end);
    }
    let before: u64 = len_before(layout, d, m, f, Ghost(end));
    new_start = new_start + moov.len + FREE_PAD + before;
    let delta: i64 = new_start as i64 - mdat.start as i64;
    push_copied(layout, m, f, &mut pieces, Ghost(end));
    let total: u64 = len_before(layout, layout.boxes.len(), m, None, Ghost(end));
    Some(Plan { moov, delta, pieces, total })
}

/// `ftyp`, `moov` and the boxes in front of `mdat` fit the file together.
proof fn lemma_travel_bound(bs: Seq<BoxAt>, m: int, d: int, f: Option<int>, end: int)
    requires
        in_a_row(bs, 0, end),
        0 <= m < bs.len(),
        0 <= d < bs.len(),
        m != d,
        f matches Some(i) ==> 0 <= i < bs.len() && i != m && i != d,
    ensures
        ({
            let front = match f {
                Some(i) => bs[i].len,
                None => 0,
            };
            front + bs[m].len + total_len(kept(bs, d, m, f)) <= end - bs[d].len
        }),
{
    lemma_kept_room(bs, d, m, f, end);
    lemma_row_bounds(bs, 0, end, d);
    lemma_row_bounds(bs, 0, end, m);
    if m > d {
        lemma_row_order(bs, 0, end, d, m);
    }
    if let Some(i) = f {
        lemma_row_bounds(bs, 0, end, i);
        if i > d {
            lemma_row_order(bs, 0, end, d, i);
        }
        if i > m {
            lemma_row_order(bs, 0, end, m, i);
        } else {
            lemma_row_order(bs, 0, end, i, m);
        }
    }
}

/// Of two boxes in a row, the later one starts where or after the earlier one ends.
proof fn lemma_row_order(bs: Seq<BoxAt>, at: int, end: int, i: int, j: int)
    requires
        in_a_row(bs, at, end),
        0 <= i < j < bs.len(),
    ensures
        bs[i].start + bs[i].len <= bs[j].start,
    decreases j - i,
{
    lemma_row_bounds(bs, at, end, j - 1);
    if i < j - 1 {
        lemma_row_order(bs, at, end, i, j - 1);
    }
}

/// The boxes kept among the first `n`, with those taken out of them, fill the space up to the
/// next box.
proof fn lemma_kept_room(bs: Seq<BoxAt>, n: int, m: int, f: Option<int>, end: int)
    requires
        in_a_row(bs, 0, end),
        0 <= n < bs.len(),
        0 <= m < bs.len(),
        f matches Some(i) ==> 0 <= i < bs.len() && i != m,
    ensures
        total_len(kept(bs, n, m, f)) + (if m < n {
            bs[m].len
        } else {
            0
        }) + (match f {
            Some(i) => if i < n {
                bs[i].len
            } else {
                0
            },
            None => 0,
        }) == bs[n].start,
    decreases n,
{
    lemma_row_bounds(bs, 0, end, n);
    if n > 0 {
        lemma_kept_room(bs, n - 1, m, f, end);
        lemma_row_bounds(bs, 0, end, n - 1);
        lemma_kept_push(bs, n - 1, m, f);
    }
}

/// The bytes of a box.
pub open spec fn bytes_of(data: Seq<u8>, b: BoxAt) -> Seq<u8> {
    data.subrange(b.start, b.start + b.len)
}

/// A `free` box of `total_len` bytes: a header and zeros.
pub open spec fn free_box(total_len: int) -> Seq<u8> {
    put32(put32(Seq::new(total_len as nat, |i: int| 0u8), 0, (total_len % 0x1_0000_0000) as nat), 4,
        FREE as nat)
}

/// The bytes of one part of the rewritten file; `movie` is the shifted movie box.
pub open spec fn piece_bytes(data: Seq<u8>, movie: Seq<u8>, p: PieceAt) -> Seq<u8> {
    match p {
        PieceAt::Copied(b) => bytes_of(data, b),
        PieceAt::Movie => movie,
        PieceAt::Padding => free_box(FREE_PAD as int),
    }
}

/// The parts of the rewritten file.
pub open spec fn parts_of(data: Seq<u8>, movie: Seq<u8>, pieces: Seq<PieceAt>) -> Seq<Seq<u8>> {
    pieces.map_values(|p: PieceAt| piece_bytes(data, movie, p))
}

/// The parts one behind the other.
pub open spec fn flat(parts: Seq<Seq<u8>>) -> Seq<u8>
    decreases parts.len(),
{
    if parts.len() == 0 {
        Seq::empty()
    } else {
        parts[0] + flat(parts.drop_first())
    }
}

/// What a walk through the plan's movie box finds.
pub open spec fn movie_tables(data: Seq<u8>, plan: PlanAt) -> Tables {
    tables(bytes_of(data, plan.moov), 0, plan.moov.len)
}

/// The plan's movie box with its chunk offsets shifted.
pub open spec fn movie_of(data: Seq<u8>, plan: PlanAt) -> Seq<u8> {
    shift_all(bytes_of(data, plan.moov), movie_tables(data, plan).entries, plan.delta)
}

/// The file that a plan makes.
pub open spec fn rewritten(data: Seq<u8>, plan: PlanAt) -> Seq<u8> {
    flat(parts_of(data, movie_of(data, plan), plan.pieces))
}

/// Whether every box that a plan speaks of lies inside the file.
pub open spec fn plan_fits(plan: PlanAt, file_len: int) -> bool {
    &&& 0 <= plan.moov.start && 8 <= plan.moov.len && plan.moov.start + plan.moov.len <= file_len
    &&& forall|i: int|
        0 <= i < plan.pieces.len() ==> ((#[trigger] plan.pieces[i]) matches PieceAt::Copied(b)
            ==> 0 <= b.start && 8 <= b.len && b.start + b.len <= file_len)
}

/// How rewriting by a plan, or by none, ends.
pub open spec fn rewrite_result(
    data: Seq<u8>,
    plan: Option<PlanAt>,
    old_dst: Seq<u8>,
    dst: Seq<u8>,
    r: Result<bool>,
) -> bool {
    match plan {
        None => r matches Ok(b) && !b && dst == old_dst,
        Some(p) => match movie_tables(data, p).short {
            None => r matches Ok(b) && b && dst == rewritten(data, p),
            Some(code) => r matches Err(Error::Other(m)) && m@ == short_text(code) && dst
                == old_dst,
        },
    }
}

/// Appends a `free` box of exactly `total_len` bytes, header and zeros.
pub fn write_free_box(dst: &mut Vec<u8>, total_len: u64)
    requires
        8 <= total_len <= usize::MAX,
    ensures
        final(dst)@ == old(dst)@ + free_box(total_len as int),
{
    let mut b: Vec<u8> = Vec::new();
    let mut i: u64 = 0;
    while i < total_len
        invariant
            i <= total_len,
            b@ =~= Seq::new(i as nat, |i: int| 0u8),
        decreases total_len - i,
    {
        b.push(0);
        i += 1;
    }
    write32(b.as_mut_slice(), 0, (total_len % 0x1_0000_0000) as u32);
    write32(b.as_mut_slice(), 4, FREE);
    dst.append(&mut b);
}

/// Appends `data[start..start + len]`.
fn push_bytes(dst: &mut Vec<u8>, data: &[u8], start: u64, len: u64)
    requires
        start + len <= data.len(),
    ensures
        final(dst)@ == old(dst)@ + data@.subrange(start as int, start + len),
{
    let part = slice_subrange(data, start as usize, (start + len) as usize);
    let ghost before = dst@;
    dst.extend_from_slice(part);
    assert(dst@ =~= before + part@);
}

/// The file that a plan makes, put into `dst`. An error, and `dst` as it was, where the movie box
/// holds a chunk-offset table without room for its count.
pub fn rewrite(data: &[u8], plan: &Plan, dst: &mut Vec<u8>) -> (r: Result<bool>)
    requires
        plan_fits(plan@, data@.len() as int),
    ensures
        rewrite_result(data@, Some(plan@), old(dst)@, final(dst)@, r),
{
    let ghost p = plan@;
    let ghost n = data.len();
    let mut movie: Vec<u8> = Vec::new();
    push_bytes(&mut movie, data, plan.moov.start, plan.moov.len);
    proof {
        assert(movie@ =~= bytes_of(data@, p.moov));
    }
    match patch_chunk_offsets(movie.as_mut_slice(), plan.delta) {
        Err(e) => {
            return Err(e);
        },
        Ok(_) => {},
    }
    assert(movie@ == movie_of(data@, p));
    let ghost parts = parts_of(data@, movie@, p.pieces);
    let mut out: Vec<u8> = Vec::new();
    let mut i: usize = 0;
    proof {
        assert(parts.skip(0) =~= parts);
        assert(out@ + flat(parts) =~= flat(parts));
    }
    while i < plan.pieces.len()
        invariant
            i <= plan.pieces@.len() == p.pieces.len() == parts.len(),
            p == plan@,
            n == data.len(),
            plan_fits(p, data@.len() as int),
            parts == parts_of(data@, movie@, p.pieces),
            out@ + flat(parts.skip(i as int)) == flat(parts),
        decreases plan.pieces@.len() - i,
    {
        let ghost prior = out@;
        proof {
            assert(p.pieces[i as int] == plan.pieces@[i as int]@);
            assert(parts.skip(i as int)[0] == parts[i as int]);
            assert(parts.skip(i as int).drop_first() =~= parts.skip(i + 1));
            assert(flat(parts.skip(i as int)) == parts[i as int] + flat(parts.skip(i + 1)));
        }
        match plan.pieces[i] {
            Piece::Copied(b) => {
                push_bytes(&mut out, data, b.start, b.len);
            },
            Piece::Movie => {
                push_bytes(&mut out, movie.as_slice(), 0, movie.len() as u64);
                assert(movie@.subrange(0, movie@.len() as int) =~= movie@);
            },
            Piece::Padding => {
                write_free_box(&mut out, FREE_PAD);
            },
        }
        assert(out@ == prior + parts[i as int]);
        assert(prior + (parts[i as int] + flat(parts.skip(i + 1))) =~= out@ + flat(
            parts.skip(i + 1),
        ));
        i += 1;
    }
    proof {
        assert(parts.skip(i as int).len() == 0);
        assert(out@ + flat(parts.skip(i as int)) =~= out@);
    }
    *dst = out;
    Ok(true)
}

/// A plan speaks of boxes of the layout only.
proof fn lemma_plan_fits(bs: Seq<BoxAt>, end: int)
    requires
        in_a_row(bs, 0, end),
    ensures
        plan_last(bs) matches Some(p) ==> plan_fits(p, end),
        plan_first(bs) matches Some(p) ==> plan_fits(p, end),
{
    lemma_first_from(bs, MOOV as nat, 0);
    lemma_first_from(bs, FTYP as nat, 0);
    if let Some(m) = first_of(bs, MOOV as nat) {
        lemma_row_bounds(bs, 0, end, m);
    }
    if let Some(f) = first_of(bs, FTYP as nat) {
        lemma_row_bounds(bs, 0, end, f);
    }
    if let Some(p) = plan_last(bs) {
        let m = first_of(bs, MOOV as nat).unwrap();
        let rest = kept(bs, bs.len() as int, m, None);
        lemma_kept_fits(bs, bs.len() as int, m, None, end);
        assert forall|i: int| 0 <= i < p.pieces.len() implies ((#[trigger] p.pieces[i]) matches
            PieceAt::Copied(b) ==> 0 <= b.start && 8 <= b.len && b.start + b.len <= end) by {
            if i < rest.len() {
                assert(p.pieces[i] == PieceAt::Copied(rest[i]));
            }
        }
    }
    if let Some(p) = plan_first(bs) {
        let m = first_of(bs, MOOV as nat).unwrap();
        let f = first_of(bs, FTYP as nat);
        let rest = kept(bs, bs.len() as int, m, f);
        let lead = p.pieces.len() - rest.len();
        lemma_kept_fits(bs, bs.len() as int, m, f, end);
        assert forall|i: int| 0 <= i < p.pieces.len() implies ((#[trigger] p.pieces[i]) matches
            PieceAt::Copied(b) ==> 0 <= b.start && 8 <= b.len && b.start + b.len <= end) by {
            if i >= lead {
                assert(p.pieces[i] == PieceAt::Copied(rest[i - lead]));
            }
        }
    }
}

proof fn lemma_kept_fits(bs: Seq<BoxAt>, n: int, m: int, f: Option<int>, end: int)
    requires
        in_a_row(bs, 0, end),
        0 <= n <= bs.len(),
    ensures
        forall|i: int|
            0 <= i < kept(bs, n, m, f).len() ==> {
                let b = #[trigger] kept(bs, n, m, f)[i];
                0 <= b.start && 8 <= b.len && b.start + b.len <= end
            },
    decreases n,
{
    if n > 0 {
        lemma_kept_fits(bs, n - 1, m, f, end);
        lemma_row_bounds(bs, 0, end, n - 1);
        lemma_kept_push(bs, n - 1, m, f);
    }
}

/// Rewrites the file `src` into `dst` with `moov` behind every other box and its chunk offsets
/// shifted for the new place of `mdat`. `Ok(false)`, and `dst` as it was, where there is nothing
/// to do: `moov` or `mdat` is missing, or `moov` already comes later.
pub fn normalize_moov_last(src: &[u8], dst: &mut Vec<u8>) -> (r: Result<bool>)
    requires
        src@.len() <= isize::MAX,
    ensures
        match boxes_of(src@) {
            None => r matches Err(e) && is_cut_short(e) && final(dst)@ == old(dst)@,
            Some(bs) => rewrite_result(src@, plan_last(bs), old(dst)@, final(dst)@, r),
        },
{
    match scan_layout(src) {
        Err(e) => Err(e),
        Ok(layout) => {
            proof {
                lemma_plan_fits(layout@, src@.len() as int);
            }
            match plan_moov_last(&layout, src.len() as u64) {
                None => Ok(false),
                Some(plan) => rewrite(src, &plan, dst),
            }
        },
    }
}

/// Rewrites the file `src` into `dst` with `moov` in front, for streaming: `ftyp`, `moov`, a small
/// padding box, then every other box in order, and the chunk offsets shifted for the new place of
/// `mdat`. `Ok(false)`, and `dst` as it was, where `moov` or `mdat` is missing.
pub fn normalize_moov_first(src: &[u8], dst: &mut Vec<u8>) -> (r: Result<bool>)
    requires
        src@.len() + FREE_PAD <= isize::MAX,
    ensures
        match boxes_of(src@) {
            None => r matches Err(e) && is_cut_short(e) && final(dst)@ == old(dst)@,
            Some(bs) => rewrite_result(src@, plan_first(bs), old(dst)@, final(dst)@, r),
        },
{
    match scan_layout(src) {
        Err(e) => Err(e),
        Ok(layout) => {
            proof {
                lemma_plan_fits(layout@, src@.len() as int);
            }
            match plan_moov_first(&layout, src.len() as u64) {
                None => Ok(false),
                Some(plan) => rewrite(src, &plan, dst),
            }
        },
    }
}

/// How many bytes are copied next, with `remaining` bytes to go.
pub open spec fn chunk_len(remaining: int) -> int {
    if remaining < CHUNK {
        remaining
    } else {
        CHUNK as int
    }
}

/// How many bytes to copy next, with `remaining` bytes to go.
pub fn next_chunk(remaining: u64) -> (r: u64)
    ensures
        r == chunk_len(remaining as int),
{
    if remaining < CHUNK {
        remaining
    } else {
        CHUNK
    }
}

/// How many bytes are done after each chunk, where `len` bytes are copied and `base` were done
/// before.
pub open spec fn chunk_marks(base: int, len: int) -> Seq<int>
    decreases len,
{
    if len <= 0 {
        Seq::empty()
    } else {
        let n = chunk_len(len);
        seq![base + n] + chunk_marks(base + n, len - n)
    }
}

/// How many bytes are done after each chunk of the parts that are copied, where `base` were done
/// before.
pub open spec fn piece_marks(pieces: Seq<PieceAt>, base: int) -> Seq<int>
    decreases pieces.len(),
{
    if pieces.len() == 0 {
        Seq::empty()
    } else {
        match pieces[0] {
            PieceAt::Copied(b) => chunk_marks(base, b.len) + piece_marks(
                pieces.drop_first(),
                base + b.len,
            ),
            _ => piece_marks(pieces.drop_first(), base),
        }
    }
}

/// How many bytes the parts that are copied have.
pub open spec fn copied_len(pieces: Seq<PieceAt>) -> int
    decreases pieces.len(),
{
    if pieces.len() == 0 {
        0
    } else {
        (match pieces[0] {
            PieceAt::Copied(b) => b.len,
            _ => 0,
        }) + copied_len(pieces.drop_first())
    }
}

/// Chunks never reach beyond what is copied.
pub proof fn lemma_chunk_marks(base: int, len: int)
    ensures
        forall|i: int|
            0 <= i < chunk_marks(base, len).len() ==> base < #[trigger] chunk_marks(base, len)[i]
                <= base + len,
    decreases len,
{
    if len > 0 {
        let n = chunk_len(len);
        lemma_chunk_marks(base + n, len - n);
        let marks = chunk_marks(base, len);
        assert forall|i: int| 0 <= i < marks.len() implies base < #[trigger] marks[i] <= base
            + len by {
            if i > 0 {
                assert(marks[i] == chunk_marks(base + n, len - n)[i - 1]);
            }
        }
    }
}

proof fn lemma_piece_marks(pieces: Seq<PieceAt>, base: int)
    requires
        forall|i: int|
            0 <= i < pieces.len() ==> ((#[trigger] pieces[i]) matches PieceAt::Copied(b) ==> 0
                <= b.len),
    ensures
        0 <= copied_len(pieces),
        forall|i: int|
            0 <= i < piece_marks(pieces, base).len() ==> base <= #[trigger] piece_marks(
                pieces,
                base,
            )[i] <= base + copied_len(pieces),
    decreases pieces.len(),
{
    if pieces.len() > 0 {
        let rest = pieces.drop_first();
        assert forall|i: int| 0 <= i < rest.len() implies ((#[trigger] rest[i])
            matches PieceAt::Copied(b) ==> 0 <= b.len) by {
            assert(rest[i] == pieces[i + 1]);
        }
        match pieces[0] {
            PieceAt::Copied(b) => {
                lemma_chunk_marks(base, b.len);
                lemma_piece_marks(rest, base + b.len);
                let front = chunk_marks(base, b.len);
                let back = piece_marks(rest, base + b.len);
                let marks = piece_marks(pieces, base);
                assert(marks == front + back);
                assert forall|i: int| 0 <= i < marks.len() implies base <= #[trigger] marks[i]
                    <= base + copied_len(pieces) by {
                    if i < front.len() {
                        assert(marks[i] == front[i]);
                    } else {
                        assert(marks[i] == back[i - front.len()]);
                    }
                }
            },
            _ => {
                lemma_piece_marks(rest, base);
                assert(piece_marks(pieces, base) == piece_marks(rest, base));
                assert(copied_len(pieces) == copied_len(rest));
            },
        }
    }
}

proof fn lemma_copied_len_concat(a: Seq<PieceAt>, b: Seq<PieceAt>)
    ensures
        copied_len(a + b) == copied_len(a) + copied_len(b),
    decreases a.len(),
{
    if a.len() == 0 {
        assert(a + b =~= b);
    } else {
        assert((a + b).drop_first() =~= a.drop_first() + b);
        lemma_copied_len_concat(a.drop_first(), b);
    }
}

proof fn lemma_copied_len_one(p: PieceAt)
    ensures
        copied_len(seq![p]) == (match p {
            PieceAt::Copied(b) => b.len,
            _ => 0,
        }),
{
    assert(seq![p].drop_first() =~= Seq::<PieceAt>::empty());
    assert(copied_len(Seq::<PieceAt>::empty()) == 0);
}

proof fn lemma_copied_boxes_len(bs: Seq<BoxAt>)
    ensures
        copied_len(copied(bs)) == total_len(bs),
    decreases bs.len(),
{
    if bs.len() > 0 {
        let init = bs.drop_last();
        lemma_copied_boxes_len(init);
        assert(copied(bs) =~= copied(init) + seq![PieceAt::Copied(bs.last())]);
        lemma_copied_len_concat(copied(init), seq![PieceAt::Copied(bs.last())]);
        lemma_copied_len_one(PieceAt::Copied(bs.last()));
    }
}

/// Leaving one more box out makes what is kept shorter by that box.
proof fn lemma_kept_without(bs: Seq<BoxAt>, n: int, m: int, i: int)
    requires
        0 <= n <= bs.len(),
        0 <= i,
        i != m,
    ensures
        total_len(kept(bs, n, m, None)) == total_len(kept(bs, n, m, Some(i))) + (if i < n {
            bs[i].len
        } else {
            0
        }),
    decreases n,
{
    if n > 0 {
        lemma_kept_without(bs, n - 1, m, i);
        lemma_kept_push(bs, n - 1, m, None);
        lemma_kept_push(bs, n - 1, m, Some(i));
    }
}

/// While a file is rewritten, no more bytes are done than there are in all, and in the end as many
/// are copied as there are in all.
pub proof fn law_progress_stays_within(data: Seq<u8>, bs: Seq<BoxAt>, plan: PlanAt)
    requires
        boxes_of(data) == Some(bs),
        plan_last(bs) == Some(plan) || plan_first(bs) == Some(plan),
    ensures
        copied_len(plan.pieces) == plan.total,
        forall|i: int|
            0 <= i < piece_marks(plan.pieces, 0).len() ==> 0 <= #[trigger] piece_marks(
                plan.pieces,
                0,
            )[i] <= plan.total,
{
    let n = bs.len() as int;
    let end = data.len() as int;
    let m = first_of(bs, MOOV as nat).unwrap();
    lemma_first_from(bs, MOOV as nat, 0);
    lemma_boxes_in_a_row(data, 0);
    lemma_plan_fits(bs, end);
    if plan_last(bs) == Some(plan) {
        let rest = kept(bs, n, m, None);
        lemma_copied_boxes_len(rest);
        assert(plan.pieces =~= copied(rest) + seq![PieceAt::Movie]);
        lemma_copied_len_concat(copied(rest), seq![PieceAt::Movie]);
        lemma_copied_len_one(PieceAt::Movie);
    } else {
        let f = first_of(bs, FTYP as nat);
        lemma_first_from(bs, FTYP as nat, 0);
        let rest = kept(bs, n, m, f);
        let front: Seq<PieceAt> = match f {
            Some(i) => seq![PieceAt::Copied(bs[i])],
            None => Seq::empty(),
        };
        let middle = seq![PieceAt::Movie, PieceAt::Padding];
        lemma_copied_boxes_len(rest);
        lemma_copied_len_concat(front + middle, copied(rest));
        lemma_copied_len_concat(front, middle);
        assert(middle =~= seq![PieceAt::Movie] + seq![PieceAt::Padding]);
        lemma_copied_len_concat(seq![PieceAt::Movie], seq![PieceAt::Padding]);
        lemma_copied_len_one(PieceAt::Movie);
        lemma_copied_len_one(PieceAt::Padding);
        if let Some(i) = f {
            lemma_copied_len_one(PieceAt::Copied(bs[i]));
            lemma_kept_without(bs, n, m, i);
        } else {
            assert(copied_len(front) == 0);
        }
    }
    lemma_piece_marks(plan.pieces, 0);
}

// ---------------------------------------------------------------------------
// Laws of moving the movie box
// ---------------------------------------------------------------------------

/// Whether a box gives its own length in its header, and is long enough for that header.
pub open spec fn sized(b: Seq<u8>) -> bool {
    b.len() >= 8 && (be32(b, 0) == b.len() || (be32(b, 0) == 1 && b.len() >= 16 && be64(b, 8)
        == b.len()))
}

/// The row that parts make from `at` on.
pub open spec fn row_of(parts: Seq<Seq<u8>>, at: int) -> Seq<BoxAt>
    decreases parts.len(),
{
    if parts.len() == 0 {
        Seq::empty()
    } else {
        seq![BoxAt { code: be32(parts[0], 4), start: at, len: parts[0].len() as int }] + row_of(
            parts.drop_first(),
            at + parts[0].len(),
        )
    }
}

proof fn lemma_row_index(parts: Seq<Seq<u8>>, at: int, k: int)
    requires
        0 <= k < parts.len(),
    ensures
        row_of(parts, at).len() == parts.len(),
        row_of(parts, at)[k].code == be32(parts[k], 4),
        row_of(parts, at)[k].len == parts[k].len(),
    decreases parts.len(),
{
    let rest = parts.drop_first();
    if rest.len() > 0 {
        lemma_row_index(rest, at + parts[0].len(), if k > 0 { k - 1 } else { 0 });
        if k > 0 {
            assert(rest[k - 1] == parts[k]);
            assert(row_of(parts, at)[k] == row_of(rest, at + parts[0].len())[k - 1]);
        }
    } else {
        assert(row_of(rest, at + parts[0].len()).len() == 0);
    }
}

/// The row that is read from sized parts and whatever follows them.
proof fn lemma_read_row(pre: Seq<u8>, parts: Seq<Seq<u8>>, tail: Seq<u8>)
    requires
        forall|k: int| 0 <= k < parts.len() ==> sized(#[trigger] parts[k]),
    ensures
        ({
            let s = pre + flat(parts) + tail;
            boxes_from(s, pre.len() as int) == (match boxes_from(s, (pre + flat(parts)).len() as int) {
                Some(r) => Some(row_of(parts, pre.len() as int) + r),
                None => None,
            })
        }),
    decreases parts.len(),
{
    let s = pre + flat(parts) + tail;
    if parts.len() == 0 {
        assert(pre + flat(parts) =~= pre);
        if let Some(r) = boxes_from(s, pre.len() as int) {
            assert(row_of(parts, pre.len() as int) + r =~= r);
        }
    } else {
        let b = parts[0];
        let rest = parts.drop_first();
        let pos = pre.len() as int;
        assert forall|k: int| 0 <= k < rest.len() implies sized(#[trigger] rest[k]) by {
            assert(rest[k] == parts[k + 1]);
        }
        lemma_read_row(pre + b, rest, tail);
        assert((pre + b) + flat(rest) =~= pre + flat(parts));
        assert(s =~= (pre + b) + flat(rest) + tail);
        assert(sized(b));
        assert forall|k: int| 0 <= k < b.len() implies s[pos + k] == b[k] by {}
        let head = head_at(s, pos);
        assert(be32(head, 0) == be32(b, 0));
        assert(be32(head, 4) == be32(b, 4));
        if be32(b, 0) == 1 {
            assert(be64(head, 8) == be64(b, 8));
        }
        let first = BoxAt { code: be32(b, 4), start: pos, len: b.len() as int };
        assert(step_at(head, pos, s.len() as int) == Step::Found {
            code: be32(b, 4),
            len: b.len() as int,
        });
        if let Some(r) = boxes_from(s, (pre + flat(parts)).len() as int) {
            assert(seq![first] + (row_of(rest, pos + b.len()) + r) =~= row_of(parts, pos) + r);
        }
    }
}

/// What the header of each scanned box says.
proof fn lemma_box_head(s: Seq<u8>, pos: int, bs: Seq<BoxAt>, i: int)
    requires
        0 <= pos <= s.len(),
        boxes_from(s, pos) == Some(bs),
        0 <= i < bs.len(),
    ensures
        step_at(head_at(s, bs[i].start), bs[i].start, s.len() as int) == (Step::Found {
            code: bs[i].code,
            len: bs[i].len,
        }),
        be32(s, bs[i].start) == 0 ==> i == bs.len() - 1 && bs[i].start + bs[i].len == s.len(),
    decreases s.len() - pos,
{
    match step_at(head_at(s, pos), pos, s.len() as int) {
        Step::Found { code, len } => {
            let rest = boxes_from(s, pos + len).unwrap();
            assert(bs == seq![BoxAt { code, start: pos, len }] + rest);
            if i == 0 {
                if be32(s, pos) == 0 {
                    assert(be32(head_at(s, pos), 0) == 0);
                    assert(pos + len == s.len());
                    assert(rest =~= Seq::<BoxAt>::empty());
                }
            } else {
                assert(bs[i] == rest[i - 1]);
                lemma_box_head(s, pos + len, rest, i - 1);
            }
        },
        _ => {
            assert(bs.len() == 0);
        },
    }
}

/// Whether every box is at least as long as the header form it uses.
pub open spec fn headers_fit(s: Seq<u8>, bs: Seq<BoxAt>) -> bool {
    forall|i: int|
        0 <= i < bs.len() ==> (be32(s, (#[trigger] bs[i]).start) == 1 ==> bs[i].len >= 16)
}

/// A scanned box that does not leave its length open is sized.
proof fn lemma_box_sized(s: Seq<u8>, bs: Seq<BoxAt>, i: int)
    requires
        boxes_of(s) == Some(bs),
        headers_fit(s, bs),
        0 <= i < bs.len(),
    ensures
        bytes_of(s, bs[i]).len() == bs[i].len,
        be32(bytes_of(s, bs[i]), 4) == bs[i].code,
        be32(s, bs[i].start) != 0 ==> sized(bytes_of(s, bs[i])),
        be32(bytes_of(s, bs[i]), 0) == be32(s, bs[i].start),
{
    lemma_boxes_in_a_row(s, 0);
    lemma_row_bounds(bs, 0, s.len() as int, i);
    lemma_box_head(s, 0, bs, i);
    let b = bytes_of(s, bs[i]);
    let head = head_at(s, bs[i].start);
    assert(be32(head, 0) == be32(s, bs[i].start));
    assert(be32(head, 4) == be32(s, bs[i].start + 4));
    assert(be32(b, 0) == be32(s, bs[i].start));
    assert(be32(b, 4) == be32(s, bs[i].start + 4));
    if be32(b, 0) == 1 {
        assert(be64(head, 8) == be64(s, bs[i].start + 8));
        assert(be64(b, 8) == be64(s, bs[i].start + 8));
    }
}

/// Shifting chunk offsets leaves a sized box sized, and its kind as it was.
proof fn lemma_movie_sized(b: Seq<u8>, delta: int)
    requires
        sized(b),
    ensures
        ({
            let out = shift_all(b, tables(b, 0, b.len() as int).entries, delta);
            sized(out) && out.len() == b.len() && be32(out, 4) == be32(b, 4)
        }),
{
    let n = b.len() as int;
    let entries = tables(b, 0, n).entries;
    lemma_tables_inside(b, 0, n);
    lemma_shift_frame(b, entries, delta, 8, n);
    let out = shift_all(b, entries, delta);
    assert(be32(out, 0) == be32(b, 0));
    assert(be32(out, 4) == be32(b, 4));
    if be32(b, 0) == 1 {
        assert(!box_at(b, 0, n));
        assert(entries.len() == 0);
    }
}

proof fn lemma_flat_concat(a: Seq<Seq<u8>>, b: Seq<Seq<u8>>)
    ensures
        flat(a + b) == flat(a) + flat(b),
    decreases a.len(),
{
    if a.len() == 0 {
        assert(a + b =~= b);
        assert(flat(a) + flat(b) =~= flat(b));
    } else {
        assert((a + b).drop_first() =~= a.drop_first() + b);
        lemma_flat_concat(a.drop_first(), b);
        assert(a[0] + (flat(a.drop_first()) + flat(b)) =~= flat(a) + flat(b));
    }
}

proof fn lemma_flat_one(b: Seq<u8>)
    ensures
        flat(seq![b]) == b,
{
    reveal_with_fuel(flat, 2);
    assert(seq![b].drop_first() =~= Seq::<Seq<u8>>::empty());
    assert(flat(seq![b]) =~= b);
}

/// Two last parts are as good as one.
proof fn lemma_flat_merge(init: Seq<Seq<u8>>, a: Seq<u8>, b: Seq<u8>)
    ensures
        flat(init.push(a).push(b)) == flat(init.push(a + b)),
{
    assert(init.push(a).push(b) =~= (init + seq![a]) + seq![b]);
    assert(init.push(a + b) =~= init + seq![a + b]);
    lemma_flat_concat(init + seq![a], seq![b]);
    lemma_flat_concat(init, seq![a]);
    lemma_flat_concat(init, seq![a + b]);
    lemma_flat_one(a);
    lemma_flat_one(b);
    lemma_flat_one(a + b);
    assert((flat(init) + a) + b =~= flat(init) + (a + b));
}

/// Which boxes are kept: those of the list, in order, each from a known index.
proof fn lemma_kept_origin(bs: Seq<BoxAt>, n: int, m: int, f: Option<int>, k: int)
    requires
        0 <= n <= bs.len(),
        0 <= k < kept(bs, n, m, f).len(),
    ensures
        exists|i: int|
            0 <= i < n && i != m && f != Some(i) && kept(bs, n, m, f)[k] == #[trigger] bs[i] && (k
                < kept(bs, n, m, f).len() - 1 ==> i < n - 1),
    decreases n,
{
    if n > 0 {
        lemma_kept_push(bs, n - 1, m, f);
        if n - 1 == m || f == Some(n - 1) {
            lemma_kept_origin(bs, n - 1, m, f, k);
        } else if k == kept(bs, n, m, f).len() - 1 {
            assert(kept(bs, n, m, f)[k] == bs[n - 1]);
        } else {
            lemma_kept_origin(bs, n - 1, m, f, k);
        }
    }
}

/// Where a kept box stands among the kept ones.
proof fn lemma_kept_place(bs: Seq<BoxAt>, n: int, m: int, f: Option<int>, d: int)
    requires
        0 <= d < n <= bs.len(),
        d != m,
        f != Some(d),
    ensures
        ({
            let at = kept(bs, d, m, f).len();
            &&& at < kept(bs, n, m, f).len()
            &&& kept(bs, n, m, f)[at as int] == bs[d]
            &&& kept(bs, n, m, f).take(at as int) == kept(bs, d, m, f)
        }),
    decreases n,
{
    lemma_kept_push(bs, n - 1, m, f);
    let at = kept(bs, d, m, f).len() as int;
    if n - 1 == d {
        assert(kept(bs, n, m, f).take(at) =~= kept(bs, d, m, f));
    } else {
        lemma_kept_place(bs, n - 1, m, f, d);
        assert(kept(bs, n, m, f).take(at) =~= kept(bs, n - 1, m, f).take(at));
    }
}

/// Whether a box says that it reaches to the end of the file.
pub open spec fn open_ended(b: Seq<u8>) -> bool {
    b.len() >= 8 && be32(b, 0) == 0
}

/// What is read from a file made of whole boxes, of which the last may leave its length open.
proof fn lemma_read_all(parts: Seq<Seq<u8>>) -> (o: Seq<BoxAt>)
    requires
        parts.len() > 0,
        forall|k: int| 0 <= k < parts.len() - 1 ==> sized(#[trigger] parts[k]),
        sized(parts.last()) || open_ended(parts.last()),
    ensures
        boxes_of(flat(parts)) == Some(o),
        o.len() == parts.len(),
        forall|k: int| 0 <= k < parts.len() ==> (#[trigger] o[k]).code == be32(parts[k], 4),
{
    let init = parts.drop_last();
    let b = parts.last();
    let none = Seq::<u8>::empty();
    let s = flat(parts);
    assert(parts =~= init + seq![b]);
    lemma_flat_concat(init, seq![b]);
    lemma_flat_one(b);
    assert(s =~= none + flat(init) + b);
    assert forall|k: int| 0 <= k < init.len() implies sized(#[trigger] init[k]) by {
        assert(init[k] == parts[k]);
    }
    lemma_read_row(none, init, b);
    let pos = flat(init).len() as int;
    assert((none + flat(init)).len() == pos);
    let head = head_at(s, pos);
    assert forall|k: int| 0 <= k < b.len() implies s[pos + k] == b[k] by {}
    assert(be32(head, 0) == be32(b, 0));
    assert(be32(head, 4) == be32(b, 4));
    if be32(b, 0) == 1 {
        assert(be64(head, 8) == be64(b, 8));
    }
    let last = BoxAt { code: be32(b, 4), start: pos, len: b.len() as int };
    assert(step_at(head, pos, s.len() as int) == Step::Found {
        code: be32(b, 4),
        len: b.len() as int,
    });
    assert(boxes_from(s, s.len() as int) == Some(Seq::<BoxAt>::empty()));
    assert(seq![last] + Seq::<BoxAt>::empty() =~= seq![last]);
    let o = row_of(init, 0) + seq![last];
    if init.len() > 0 {
        lemma_row_index(init, 0, 0);
    }
    assert forall|k: int| 0 <= k < parts.len() implies (#[trigger] o[k]).code == be32(
        parts[k],
        4,
    ) by {
        if k < init.len() {
            lemma_row_index(init, 0, k);
            assert(init[k] == parts[k]);
        }
    }
    o
}

/// The bytes of the kept boxes: all but the last are sized, and the last is unless it reaches to
/// the end of the file.
proof fn lemma_kept_parts(s: Seq<u8>, bs: Seq<BoxAt>, m: int, f: Option<int>, movie: Seq<u8>)
    requires
        boxes_of(s) == Some(bs),
        headers_fit(s, bs),
    ensures
        ({
            let k = kept(bs, bs.len() as int, m, f);
            let parts = parts_of(s, movie, copied(k));
            &&& parts.len() == k.len()
            &&& forall|i: int|
                0 <= i < parts.len() ==> be32(#[trigger] parts[i], 4) == k[i].code && (sized(
                    parts[i],
                ) || (i == parts.len() - 1 && open_ended(parts[i])))
        }),
{
    let n = bs.len() as int;
    let k = kept(bs, n, m, f);
    let parts = parts_of(s, movie, copied(k));
    lemma_boxes_in_a_row(s, 0);
    assert forall|i: int| 0 <= i < parts.len() implies be32(#[trigger] parts[i], 4) == k[i].code
        && (sized(parts[i]) || (i == parts.len() - 1 && open_ended(parts[i]))) by {
        lemma_kept_origin(bs, n, m, f, i);
        let j = choose|j: int|
            0 <= j < n && j != m && f != Some(j) && k[i] == #[trigger] bs[j] && (i < k.len() - 1
                ==> j < n - 1);
        assert(parts[i] == bytes_of(s, bs[j]));
        lemma_box_sized(s, bs, j);
        lemma_box_head(s, 0, bs, j);
        lemma_row_bounds(bs, 0, s.len() as int, j);
    }
}

/// A row whose only `moov`, if any, stands last does not have it in front of `mdat`.
proof fn lemma_movie_at_end(out: Seq<BoxAt>)
    requires
        out.len() > 0,
        forall|i: int| 0 <= i < out.len() - 1 ==> (#[trigger] out[i]).code != MOOV,
    ensures
        !movie_first(out),
        plan_last(out) is None,
{
    lemma_first_from(out, MOOV as nat, 0);
    lemma_first_from(out, MDAT as nat, 0);
}

/// What is read from kept boxes with a movie box behind them.
proof fn lemma_read_movie_last(parts: Seq<Seq<u8>>, movie: Seq<u8>)
    requires
        parts.len() > 0,
        forall|i: int|
            0 <= i < parts.len() ==> be32(#[trigger] parts[i], 4) != MOOV && (sized(parts[i]) || (i
                == parts.len() - 1 && open_ended(parts[i]))),
        sized(movie),
    ensures
        boxes_of(flat(parts.push(movie))) matches Some(out) && !movie_first(out) && plan_last(
            out,
        ) is None,
{
    let all = parts.push(movie);
    if sized(parts.last()) {
        assert forall|i: int| 0 <= i < all.len() - 1 implies sized(#[trigger] all[i]) by {
            assert(all[i] == parts[i]);
        }
        let out = lemma_read_all(all);
        assert forall|i: int| 0 <= i < out.len() - 1 implies (#[trigger] out[i]).code != MOOV by {
            assert(all[i] == parts[i]);
        }
        lemma_movie_at_end(out);
    } else {
        let last = parts.last();
        let init = parts.drop_last();
        let wide = last + movie;
        let seen = init.push(wide);
        assert(last == parts[parts.len() - 1]);
        assert(open_ended(last));
        assert(be32(wide, 0) == be32(last, 0));
        assert(be32(wide, 4) == be32(last, 4));
        assert forall|i: int| 0 <= i < seen.len() - 1 implies sized(#[trigger] seen[i]) by {
            assert(seen[i] == parts[i]);
        }
        assert(all =~= init.push(last).push(movie));
        lemma_flat_merge(init, last, movie);
        let out = lemma_read_all(seen);
        assert forall|i: int| 0 <= i < out.len() - 1 implies (#[trigger] out[i]).code != MOOV by {
            assert(seen[i] == parts[i]);
        }
        lemma_movie_at_end(out);
    }
}

/// A file whose only `moov` was moved to the end is no longer laid out for streaming, and moving
/// it again has nothing to do. (A file with a second `moov` in front of its media stays as it
/// was in this respect: only the first one is moved.)
pub proof fn law_moov_last_ends_fast_start(data: Seq<u8>, bs: Seq<BoxAt>, plan: PlanAt)
    requires
        boxes_of(data) == Some(bs),
        plan_last(bs) == Some(plan),
        headers_fit(data, bs),
        forall|i: int, j: int|
            0 <= i < bs.len() && 0 <= j < bs.len() && (#[trigger] bs[i]).code == MOOV && (
            #[trigger] bs[j]).code == MOOV ==> i == j,
    ensures
        boxes_of(rewritten(data, plan)) matches Some(out) && !movie_first(out) && plan_last(
            out,
        ) is None,
{
    let n = bs.len() as int;
    let m = first_of(bs, MOOV as nat).unwrap();
    let d = first_of(bs, MDAT as nat).unwrap();
    lemma_first_from(bs, MOOV as nat, 0);
    lemma_first_from(bs, MDAT as nat, 0);
    lemma_boxes_in_a_row(data, 0);
    lemma_box_head(data, 0, bs, m);
    lemma_box_sized(data, bs, m);
    let movie = movie_of(data, plan);
    lemma_movie_sized(bytes_of(data, bs[m]), plan.delta);
    let k = kept(bs, n, m, None);
    let parts = parts_of(data, movie, copied(k));
    lemma_kept_parts(data, bs, m, None, movie);
    lemma_kept_place(bs, n, m, None, d);
    assert(parts_of(data, movie, plan.pieces) =~= parts.push(movie));
    assert forall|i: int| 0 <= i < parts.len() implies be32(#[trigger] parts[i], 4) != MOOV by {
        lemma_kept_origin(bs, n, m, None, i);
        let j = choose|j: int|
            0 <= j < n && j != m && None::<int> != Some(j) && k[i] == #[trigger] bs[j] && (i
                < k.len() - 1 ==> j < n - 1);
        assert(bs[m].code == MOOV);
    }
    lemma_read_movie_last(parts, movie);
}

/// A file whose `moov` was moved to the front is laid out for streaming. (Where `moov` or `ftyp`
/// says that it reaches to the end of the file, it would swallow what is put behind it.)
pub proof fn law_moov_first_gives_fast_start(data: Seq<u8>, bs: Seq<BoxAt>, plan: PlanAt)
    requires
        boxes_of(data) == Some(bs),
        plan_first(bs) == Some(plan),
        headers_fit(data, bs),
        be32(data, plan.moov.start) != 0,
        first_of(bs, FTYP as nat) matches Some(i) ==> be32(data, bs[i].start) != 0,
    ensures
        boxes_of(rewritten(data, plan)) matches Some(out) && movie_first(out),
{
    let n = bs.len() as int;
    let m = first_of(bs, MOOV as nat).unwrap();
    let d = first_of(bs, MDAT as nat).unwrap();
    let f = first_of(bs, FTYP as nat);
    lemma_first_from(bs, MOOV as nat, 0);
    lemma_first_from(bs, MDAT as nat, 0);
    lemma_first_from(bs, FTYP as nat, 0);
    lemma_box_sized(data, bs, m);
    let movie = movie_of(data, plan);
    lemma_movie_sized(bytes_of(data, bs[m]), plan.delta);
    let k = kept(bs, n, m, f);
    let parts = parts_of(data, movie, copied(k));
    lemma_kept_parts(data, bs, m, f, movie);
    lemma_kept_place(bs, n, m, f, d);
    let pad = free_box(FREE_PAD as int);
    assert(sized(pad)) by {
        let zeros = Seq::new(8, |i: int| 0u8);
        lemma_put32(zeros, 0, 8);
        lemma_put32(put32(zeros, 0, 8), 4, FREE as nat);
        assert(be32(pad, 0) == 8);
    }
    let front: Seq<Seq<u8>> = match f {
        Some(i) => seq![bytes_of(data, bs[i])],
        None => Seq::empty(),
    };
    if let Some(i) = f {
        lemma_box_sized(data, bs, i);
    }
    let all = front + seq![movie, pad] + parts;
    assert(parts_of(data, movie, plan.pieces) =~= all);
    let a = front.len() as int;
    assert forall|i: int| 0 <= i < all.len() - 1 implies sized(#[trigger] all[i]) by {
        if i >= a + 2 {
            assert(all[i] == parts[i - a - 2]);
        }
    }
    assert(all.last() == parts.last());
    let out = lemma_read_all(all);
    assert(all[a] == movie);
    assert(out[a].code == MOOV);
    lemma_first_is(out, MOOV as nat, a);
    let at = kept(bs, d, m, f).len() as int;
    assert(all[a + 2 + at] == parts[at]);
    assert(out[a + 2 + at].code == MDAT);
    lemma_first_from(out, MDAT as nat, 0);
}

/// The parts in front of the `k`th, the `k`th, and the others behind it.
proof fn lemma_flat_at(parts: Seq<Seq<u8>>, k: int)
    requires
        0 <= k < parts.len(),
    ensures
        flat(parts).len() >= flat(parts.take(k)).len() + parts[k].len(),
        flat(parts).subrange(
            flat(parts.take(k)).len() as int,
            (flat(parts.take(k)).len() + parts[k].len()) as int,
        ) == parts[k],
{
    let a = parts.take(k);
    let b = parts.skip(k + 1);
    assert(parts =~= (a + seq![parts[k]]) + b);
    lemma_flat_concat(a + seq![parts[k]], b);
    lemma_flat_concat(a, seq![parts[k]]);
    lemma_flat_one(parts[k]);
    assert(flat(parts).subrange(
        flat(a).len() as int,
        (flat(a).len() + parts[k].len()) as int,
    ) =~= parts[k]);
}

/// Copied boxes take as many bytes as they are long.
proof fn lemma_copied_len(data: Seq<u8>, movie: Seq<u8>, bs: Seq<BoxAt>)
    requires
        forall|i: int|
            0 <= i < bs.len() ==> {
                let b = #[trigger] bs[i];
                0 <= b.start && 8 <= b.len && b.start + b.len <= data.len()
            },
    ensures
        flat(parts_of(data, movie, copied(bs))).len() == total_len(bs),
    decreases bs.len(),
{
    let parts = parts_of(data, movie, copied(bs));
    if bs.len() > 0 {
        let init = bs.drop_last();
        let head = parts_of(data, movie, copied(init));
        assert forall|i: int| 0 <= i < init.len() implies {
            let b = #[trigger] init[i];
            0 <= b.start && 8 <= b.len && b.start + b.len <= data.len()
        } by {
            assert(init[i] == bs[i]);
        }
        lemma_copied_len(data, movie, init);
        assert(bs.last() == bs[bs.len() - 1]);
        let last = bytes_of(data, bs.last());
        assert(parts =~= head + seq![last]);
        lemma_flat_concat(head, seq![last]);
        lemma_flat_one(last);
    } else {
        assert(parts.len() == 0);
    }
}

/// What an old chunk offset into the first `mdat` pointed at stands in the rewritten file at the
/// offset that the moved movie box holds instead, whether the movie box went to the end or to the
/// front. (An offset that no longer fits its table's 32 bits cannot be followed.)
pub proof fn law_chunk_offsets_follow_the_media(
    data: Seq<u8>,
    bs: Seq<BoxAt>,
    plan: PlanAt,
    j: int,
)
    requires
        boxes_of(data) == Some(bs),
        plan_last(bs) == Some(plan) || plan_first(bs) == Some(plan),
        0 <= j < movie_tables(data, plan).entries.len(),
        ({
            let e = movie_tables(data, plan).entries[j];
            let v = entry_value(bytes_of(data, plan.moov), e);
            let mdat = bs[first_of(bs, MDAT as nat).unwrap()];
            &&& mdat.start <= v < mdat.start + mdat.len
            &&& e.width == 4 ==> v + plan.delta < 0x1_0000_0000
            &&& v + plan.delta < 0x1_0000_0000_0000_0000
        }),
    ensures
        ({
            let e = movie_tables(data, plan).entries[j];
            let old_offset = entry_value(bytes_of(data, plan.moov), e);
            let new_offset = entry_value(movie_of(data, plan), e);
            let out = rewritten(data, plan);
            &&& new_offset == old_offset + plan.delta
            &&& new_offset < out.len()
            &&& out[new_offset as int] == data[old_offset as int]
        }),
{
    let d = first_of(bs, MDAT as nat).unwrap();
    let moov = bytes_of(data, plan.moov);
    let entries = movie_tables(data, plan).entries;
    let e = entries[j];
    let v = entry_value(moov, e);
    let out = rewritten(data, plan);
    let at = bs[d].start + plan.delta;
    lemma_media_place(data, bs, plan);
    assert(v + plan.delta >= 0);
    assert(plan.moov.len == moov.len());
    assert(entry_value(movie_of(data, plan), e) == shifted_value(v, plan.delta, e.width)) by {
        law_patch_shifts_offsets_only(moov, plan.delta);
    }
    assert(e.width == 4 || e.width == 8) by {
        lemma_tables_inside(moov, 0, moov.len() as int);
    }
    lemma_shift_fits(v, plan.delta, e.width);
    assert(out.subrange(at, at + bs[d].len)[v - bs[d].start] == out[v + plan.delta]);
    assert(bytes_of(data, bs[d])[v - bs[d].start] == data[v as int]);
}

/// A shifted value that fits its bytes is the sum.
proof fn lemma_shift_fits(v: nat, delta: int, width: int)
    requires
        0 <= v + delta,
        width == 4 ==> v + delta < 0x1_0000_0000,
        v + delta < 0x1_0000_0000_0000_0000,
    ensures
        shifted_value(v, delta, width) == v + delta,
{
}

/// Where the media box stands in the rewritten file.
proof fn lemma_media_place(data: Seq<u8>, bs: Seq<BoxAt>, plan: PlanAt)
    requires
        boxes_of(data) == Some(bs),
        plan_last(bs) == Some(plan) || plan_first(bs) == Some(plan),
    ensures
        ({
            let mdat = bs[first_of(bs, MDAT as nat).unwrap()];
            let at = mdat.start + plan.delta;
            let out = rewritten(data, plan);
            &&& first_of(bs, MDAT as nat) is Some
            &&& 0 <= at
            &&& 0 <= mdat.start
            &&& mdat.start + mdat.len <= data.len()
            &&& at + mdat.len <= out.len()
            &&& out.subrange(at, at + mdat.len) == bytes_of(data, mdat)
            &&& bytes_of(data, plan.moov).len() == plan.moov.len
        }),
{
    let end = data.len() as int;
    let m = first_of(bs, MOOV as nat).unwrap();
    let d = first_of(bs, MDAT as nat).unwrap();
    lemma_first_from(bs, MOOV as nat, 0);
    lemma_first_from(bs, MDAT as nat, 0);
    lemma_boxes_in_a_row(data, 0);
    lemma_row_bounds(bs, 0, end, m);
    lemma_row_bounds(bs, 0, end, d);
    if plan_last(bs) == Some(plan) {
        lemma_media_place_last(data, bs, plan, m, d);
    } else {
        lemma_media_place_first(data, bs, plan, m, d);
    }
}

/// Where the media box stands once the movie box went to the end.
proof fn lemma_media_place_last(data: Seq<u8>, bs: Seq<BoxAt>, plan: PlanAt, m: int, d: int)
    requires
        boxes_of(data) == Some(bs),
        in_a_row(bs, 0, data.len() as int),
        plan_last(bs) == Some(plan),
        first_of(bs, MOOV as nat) == Some(m),
        first_of(bs, MDAT as nat) == Some(d),
        0 <= m < d < bs.len(),
    ensures
        0 <= bs[d].start + plan.delta,
        bs[d].start + plan.delta + bs[d].len <= rewritten(data, plan).len(),
        rewritten(data, plan).subrange(
            bs[d].start + plan.delta,
            bs[d].start + plan.delta + bs[d].len,
        ) == bytes_of(data, bs[d]),
{
    let n = bs.len() as int;
    let end = data.len() as int;
    let movie = movie_of(data, plan);
    let k = kept(bs, n, m, None);
    let at = kept(bs, d, m, None).len() as int;
    let parts = parts_of(data, movie, plan.pieces);
    lemma_kept_place(bs, n, m, None, d);
    lemma_kept_room(bs, d, m, None, end);
    lemma_kept_fits(bs, d, m, None, end);
    lemma_copied_len(data, movie, kept(bs, d, m, None));
    lemma_row_bounds(bs, 0, end, d);
    assert(plan.pieces[at] == PieceAt::Copied(k[at]));
    assert(parts[at] == bytes_of(data, bs[d]));
    assert(parts.take(at) =~= parts_of(data, movie, copied(kept(bs, d, m, None)))) by {
        assert forall|i: int| 0 <= i < at implies parts[i] == bytes_of(
            data,
            kept(bs, d, m, None)[i],
        ) by {
            assert(k.take(at)[i] == k[i]);
            assert(plan.pieces[i] == PieceAt::Copied(k[i]));
        }
    }
    lemma_flat_at(parts, at);
}

/// Where the media box stands once the movie box went to the front.
proof fn lemma_media_place_first(data: Seq<u8>, bs: Seq<BoxAt>, plan: PlanAt, m: int, d: int)
    requires
        boxes_of(data) == Some(bs),
        in_a_row(bs, 0, data.len() as int),
        plan_first(bs) == Some(plan),
        first_of(bs, MOOV as nat) == Some(m),
        first_of(bs, MDAT as nat) == Some(d),
        0 <= m < bs.len(),
        0 <= d < bs.len(),
        bs[m].code == MOOV,
        bs[d].code == MDAT,
    ensures
        0 <= bs[d].start + plan.delta,
        bs[d].start + plan.delta + bs[d].len <= rewritten(data, plan).len(),
        rewritten(data, plan).subrange(
            bs[d].start + plan.delta,
            bs[d].start + plan.delta + bs[d].len,
        ) == bytes_of(data, bs[d]),
{
    let n = bs.len() as int;
    let end = data.len() as int;
    let f = first_of(bs, FTYP as nat);
    let movie = movie_of(data, plan);
    let moov = bytes_of(data, plan.moov);
    lemma_first_from(bs, FTYP as nat, 0);
    lemma_row_bounds(bs, 0, end, m);
    lemma_row_bounds(bs, 0, end, d);
    lemma_tables_inside(moov, 0, moov.len() as int);
    lemma_shift_frame(moov, tables(moov, 0, moov.len() as int).entries, plan.delta, 0,
        moov.len() as int);
    let front: Seq<Seq<u8>> = match f {
        Some(i) => seq![bytes_of(data, bs[i])],
        None => Seq::empty(),
    };
    if let Some(i) = f {
        lemma_row_bounds(bs, 0, end, i);
        lemma_flat_one(bytes_of(data, bs[i]));
    } else {
        assert(flat(front).len() == 0);
    }
    let pad = free_box(FREE_PAD as int);
    let lead = front + seq![movie, pad];
    let k = kept(bs, n, m, f);
    let before = kept(bs, d, m, f);
    let at = before.len() as int;
    let parts = parts_of(data, movie, plan.pieces);
    assert(parts =~= lead + parts_of(data, movie, copied(k)));
    lemma_kept_place(bs, n, m, f, d);
    lemma_kept_fits(bs, d, m, f, end);
    lemma_kept_total(bs, d, m, f, end);
    lemma_copied_len(data, movie, before);
    let p = lead.len() + at;
    assert(parts[p] == bytes_of(data, k[at]));
    assert(parts.take(p) =~= lead + parts_of(data, movie, copied(before))) by {
        assert forall|i: int| 0 <= i < at implies parts[lead.len() + i] == bytes_of(
            data,
            before[i],
        ) by {
            assert(k.take(at)[i] == k[i]);
        }
    }
    lemma_flat_concat(lead, parts_of(data, movie, copied(before)));
    lemma_flat_concat(front, seq![movie, pad]);
    assert(seq![movie, pad] =~= seq![movie] + seq![pad]);
    lemma_flat_concat(seq![movie], seq![pad]);
    lemma_flat_one(movie);
    lemma_flat_one(pad);
    lemma_flat_at(parts, p);
}

/// Where a part of the rewritten file stands in it.
proof fn lemma_part_place(data: Seq<u8>, plan: PlanAt, i: int) -> (q: int)
    requires
        0 <= i < plan.pieces.len(),
    ensures
        ({
            let out = rewritten(data, plan);
            let part = piece_bytes(data, movie_of(data, plan), plan.pieces[i]);
            0 <= q && q + part.len() <= out.len() && out.subrange(q, q + part.len()) == part
        }),
{
    let parts = parts_of(data, movie_of(data, plan), plan.pieces);
    lemma_flat_at(parts, i);
    flat(parts.take(i)).len() as int
}

/// Bytes that stand elsewhere as they are hold the same numbers.
proof fn lemma_same_numbers(s: Seq<u8>, q: int, t: Seq<u8>, at: int)
    requires
        0 <= q,
        q + t.len() <= s.len(),
        s.subrange(q, q + t.len()) == t,
        0 <= at,
    ensures
        at + 4 <= t.len() ==> be32(s, q + at) == be32(t, at),
        at + 8 <= t.len() ==> be64(s, q + at) == be64(t, at),
{
    assert forall|k: int| 0 <= k < t.len() implies s[q + k] == #[trigger] t[k] by {
        assert(s.subrange(q, q + t.len())[k] == t[k]);
    }
    if at + 4 <= t.len() {
        assert(s[q + at] == t[at] && s[q + at + 1] == t[at + 1]);
        assert(s[q + at + 2] == t[at + 2] && s[q + at + 3] == t[at + 3]);
    }
    if at + 8 <= t.len() {
        assert(s[q + at + 4] == t[at + 4] && s[q + at + 5] == t[at + 5]);
        assert(s[q + at + 6] == t[at + 6] && s[q + at + 7] == t[at + 7]);
    }
}

/// Whether the rewritten file has a box at `q` whose chunk offset at a place points at `new`.
pub open spec fn points_at(out: Seq<u8>, q: int, wide: bool, at: int, new: int) -> bool {
    &&& bears(out, q, 'm', 'o', 'o', 'v')
    &&& offset_at(out, wide, q + at) == new
}

/// A movie plays on after its `moov` was moved, to the front or to the end: wherever the old `moov`
/// had a table of chunk offsets, of 32 or of 64 bits, and an entry of it pointed at a byte of the
/// first `mdat`, the new file has a `moov` whose entry in the same place points at the same byte.
/// (An offset that no longer fits its bits cannot be followed.)
pub proof fn law_moved_movie_plays_on(
    data: Seq<u8>,
    bs: Seq<BoxAt>,
    plan: PlanAt,
    p: TablePath,
    wide: bool,
    k: int,
)
    requires
        boxes_of(data) == Some(bs),
        plan_last(bs) == Some(plan) || plan_first(bs) == Some(plan),
        movie_tables(data, plan).short is None,
        ({
            let moov = data.subrange(plan.moov.start, plan.moov.start + plan.moov.len);
            let mdat = bs[first_of(bs, MDAT as nat).unwrap()];
            let old_offset = offset_at(moov, wide, offset_place(p.table, wide, k));
            &&& leads_to_table(moov, p, wide)
            &&& has_offset(moov, p.table, wide, k)
            &&& mdat.start <= old_offset < mdat.start + mdat.len
            &&& rewritten(data, plan).len() < 0x1_0000_0000 || (wide && rewritten(data, plan).len()
                < 0x1_0000_0000_0000_0000)
        }),
    ensures
        ({
            let moov = data.subrange(plan.moov.start, plan.moov.start + plan.moov.len);
            let at = offset_place(p.table, wide, k);
            let old_offset = offset_at(moov, wide, at) as int;
            let out = rewritten(data, plan);
            exists|q: int, new: int| #[trigger]
                points_at(out, q, wide, at, new) && 0 <= q && q + plan.moov.len <= out.len() && 0
                    <= new < out.len() && out[new] == data[old_offset]
        }),
{
    let moov = bytes_of(data, plan.moov);
    let mdat = bs[first_of(bs, MDAT as nat).unwrap()];
    let at = offset_place(p.table, wide, k);
    let v = offset_at(moov, wide, at);
    let out = rewritten(data, plan);
    lemma_media_place(data, bs, plan);
    assert(moov.len() == plan.moov.len);
    let j = lemma_path_is_walked(moov, p, wide, k);
    let e = movie_tables(data, plan).entries[j];
    assert(entry_value(moov, e) == v);
    assert(v + plan.delta < out.len());
    law_chunk_offsets_follow_the_media(data, bs, plan, j);
    let new = v + plan.delta;
    assert(out[new] == data[v as int]);
    let movie = movie_of(data, plan);
    lemma_tables_inside(moov, 0, moov.len() as int);
    lemma_shift_frame(moov, movie_tables(data, plan).entries, plan.delta, 0, moov.len() as int);
    let m = lemma_movie_piece(bs, plan);
    let q = lemma_part_place(data, plan, m);
    assert(e.at + e.width <= moov.len()) by {
        assert(inside(movie_tables(data, plan).entries, 8, moov.len() as int));
    }
    lemma_same_numbers(out, q, movie, at);
    assert(offset_at(movie, wide, at) == new);
    assert(bears(out, q, 'm', 'o', 'o', 'v')) by {
        assert forall|x: int| 4 <= x < 8 implies out[q + x] == #[trigger] moov[x] by {
            assert(out.subrange(q, q + movie.len())[x] == movie[x]);
            lemma_head_is_kept(moov, plan.delta);
            assert(movie == patched(moov, plan.delta));
            assert(patched(moov, plan.delta)[x] == moov[x]);
        }
        assert(moov[4] == out[q + 4] && moov[5] == out[q + 5]);
        assert(moov[6] == out[q + 6] && moov[7] == out[q + 7]);
    }
    assert(points_at(out, q, wide, at, new));
}

/// Patching leaves the header of a movie box alone.
proof fn lemma_head_is_kept(moov: Seq<u8>, delta: int)
    ensures
        forall|x: int|
            0 <= x < 8 && x < moov.len() ==> #[trigger] patched(moov, delta)[x] == moov[x],
{
    let n = moov.len() as int;
    lemma_tables_inside(moov, 0, n);
    lemma_shift_frame(moov, tables(moov, 0, n).entries, delta, 8, n);
}

/// Where a plan puts the movie box.
proof fn lemma_movie_piece(bs: Seq<BoxAt>, plan: PlanAt) -> (i: int)
    requires
        plan_last(bs) == Some(plan) || plan_first(bs) == Some(plan),
    ensures
        0 <= i < plan.pieces.len(),
        plan.pieces[i] == PieceAt::Movie,
{
    if plan_last(bs) == Some(plan) {
        plan.pieces.len() - 1
    } else {
        let f = first_of(bs, FTYP as nat);
        if f is Some {
            assert(plan.pieces[1] == PieceAt::Movie);
            1
        } else {
            assert(plan.pieces[0] == PieceAt::Movie);
            0
        }
    }
}

/// The place of a box among those that are kept.
proof fn lemma_kept_has(bs: Seq<BoxAt>, n: int, m: int, f: Option<int>, i: int) -> (k: int)
    requires
        0 <= i < n <= bs.len(),
        i != m,
        f != Some(i),
    ensures
        0 <= k < kept(bs, n, m, f).len(),
        kept(bs, n, m, f)[k] == bs[i],
    decreases n,
{
    lemma_kept_push(bs, n - 1, m, f);
    if i == n - 1 {
        kept(bs, n, m, f).len() - 1
    } else {
        lemma_kept_has(bs, n - 1, m, f, i)
    }
}

/// Every box but the `moov` that is moved is in the rewritten file, byte for byte: media, padding
/// and boxes of other programs alike. The file grows by a padding of eight bytes at most.
pub proof fn law_every_other_box_is_kept(data: Seq<u8>, bs: Seq<BoxAt>, plan: PlanAt, i: int)
    requires
        boxes_of(data) == Some(bs),
        plan_last(bs) == Some(plan) || plan_first(bs) == Some(plan),
        0 <= i < bs.len(),
        bs[i] != plan.moov,
    ensures
        ({
            let out = rewritten(data, plan);
            let bytes = data.subrange(bs[i].start, bs[i].start + bs[i].len);
            exists|q: int|
                0 <= q && q + bs[i].len <= out.len() && #[trigger] out.subrange(q, q + bs[i].len)
                    == bytes
        }),
        rewritten(data, plan).len() == total_len(bs) + (if plan_last(bs) == Some(plan) {
            0int
        } else {
            8
        }),
{
    let n = bs.len() as int;
    let end = data.len() as int;
    let m = first_of(bs, MOOV as nat).unwrap();
    lemma_first_from(bs, MOOV as nat, 0);
    lemma_boxes_in_a_row(data, 0);
    lemma_row_bounds(bs, 0, end, i);
    let out = rewritten(data, plan);
    let last = plan_last(bs) == Some(plan);
    let f = if last {
        None
    } else {
        first_of(bs, FTYP as nat)
    };
    let lead: int = if last {
        0
    } else if f is Some {
        3
    } else {
        2
    };
    let x = if f == Some(i) {
        assert(plan.pieces[0] == PieceAt::Copied(bs[i]));
        0
    } else {
        let k = lemma_kept_has(bs, n, m, f, i);
        assert(plan.pieces[lead + k] == PieceAt::Copied(bs[i]));
        lead + k
    };
    let q = lemma_part_place(data, plan, x);
    assert(bytes_of(data, bs[i]).len() == bs[i].len);
    assert(out.subrange(q, q + bs[i].len) == bytes_of(data, bs[i]));
    lemma_rewritten_len(data, bs, plan);
}

/// Leaving a box out makes what is kept shorter by that box.
proof fn lemma_kept_but_one(bs: Seq<BoxAt>, n: int, m: int)
    requires
        0 <= n <= bs.len(),
        0 <= m,
    ensures
        total_len(bs.take(n)) == total_len(kept(bs, n, m, None)) + (if m < n {
            bs[m].len
        } else {
            0
        }),
    decreases n,
{
    if n > 0 {
        lemma_kept_but_one(bs, n - 1, m);
        lemma_kept_push(bs, n - 1, m, None);
        assert(bs.take(n).drop_last() =~= bs.take(n - 1));
        assert(bs.take(n).last() == bs[n - 1]);
    }
}

proof fn lemma_rewritten_len(data: Seq<u8>, bs: Seq<BoxAt>, plan: PlanAt)
    requires
        boxes_of(data) == Some(bs),
        plan_last(bs) == Some(plan) || plan_first(bs) == Some(plan),
    ensures
        rewritten(data, plan).len() == total_len(bs) + (if plan_last(bs) == Some(plan) {
            0int
        } else {
            8
        }),
{
    let n = bs.len() as int;
    let end = data.len() as int;
    let m = first_of(bs, MOOV as nat).unwrap();
    lemma_first_from(bs, MOOV as nat, 0);
    lemma_boxes_in_a_row(data, 0);
    lemma_row_bounds(bs, 0, end, m);
    let moov = bytes_of(data, plan.moov);
    let movie = movie_of(data, plan);
    lemma_tables_inside(moov, 0, moov.len() as int);
    lemma_shift_frame(moov, tables(moov, 0, moov.len() as int).entries, plan.delta, 0,
        moov.len() as int);
    assert(movie.len() == bs[m].len);
    lemma_kept_but_one(bs, n, m);
    assert(bs.take(n) =~= bs);
    if plan_last(bs) == Some(plan) {
        let rest = kept(bs, n, m, None);
        lemma_kept_fits(bs, n, m, None, end);
        lemma_copied_len(data, movie, rest);
        let parts = parts_of(data, movie, copied(rest));
        assert(parts_of(data, movie, plan.pieces) =~= parts + seq![movie]);
        lemma_flat_concat(parts, seq![movie]);
        lemma_flat_one(movie);
    } else {
        let f = first_of(bs, FTYP as nat);
        lemma_first_from(bs, FTYP as nat, 0);
        let rest = kept(bs, n, m, f);
        lemma_kept_fits(bs, n, m, f, end);
        lemma_copied_len(data, movie, rest);
        let pad = free_box(FREE_PAD as int);
        let front: Seq<Seq<u8>> = match f {
            Some(i) => seq![bytes_of(data, bs[i])],
            None => Seq::empty(),
        };
        if let Some(i) = f {
            lemma_row_bounds(bs, 0, end, i);
            lemma_flat_one(bytes_of(data, bs[i]));
            lemma_kept_without(bs, n, m, i);
        } else {
            assert(flat(front).len() == 0);
        }
        let parts = parts_of(data, movie, copied(rest));
        assert(parts_of(data, movie, plan.pieces) =~= front + seq![movie, pad] + parts);
        lemma_flat_concat(front + seq![movie, pad], parts);
        lemma_flat_concat(front, seq![movie, pad]);
        assert(seq![movie, pad] =~= seq![movie] + seq![pad]);
        lemma_flat_concat(seq![movie], seq![pad]);
        lemma_flat_one(movie);
        lemma_flat_one(pad);
    }
}

/// Whether the box at `at` holds other boxes: it bears one of seven names.
pub open spec fn holds_boxes(s: Seq<u8>, at: int) -> bool {
    bears(s, at, 'm', 'o', 'o', 'v') || bears(s, at, 't', 'r', 'a', 'k') || bears(
        s,
        at,
        'm',
        'd',
        'i',
        'a',
    ) || bears(s, at, 'm', 'i', 'n', 'f') || bears(s, at, 's', 't', 'b', 'l') || bears(
        s,
        at,
        'u',
        'd',
        't',
        'a',
    ) || bears(s, at, 'e', 'd', 't', 's')
}

/// Whether each box of a path stands in the one before it, the first one in the row from `lo` to
/// `hi`, and all but the last hold boxes.
pub open spec fn reaches(s: Seq<u8>, lo: int, hi: int, path: Seq<int>) -> bool
    decreases path.len(),
{
    path.len() > 0 && stands_in(s, lo, hi, path[0]) && (path.len() == 1 || (holds_boxes(s, path[0])
        && reaches(s, path[0] + 8, path[0] + be32(s, path[0]), path.drop_first())))
}

proof fn lemma_holds_boxes(s: Seq<u8>, at: int)
    ensures
        holds_boxes(s, at) == is_container(be32(s, at + 4)),
{
    lemma_bears(s, at);
    assert('u' as u8 == 0x75 && 'd' as u8 == 0x64 && 't' as u8 == 0x74 && 'a' as u8 == 0x61);
    assert('e' as u8 == 0x65 && 's' as u8 == 0x73 && 'm' as u8 == 0x6d && 'o' as u8 == 0x6f);
    assert('v' as u8 == 0x76 && 'r' as u8 == 0x72 && 'k' as u8 == 0x6b && 'i' as u8 == 0x69);
    assert('n' as u8 == 0x6e && 'f' as u8 == 0x66 && 'b' as u8 == 0x62 && 'l' as u8 == 0x6c);
    let code = be32(s, at + 4);
    let a = s[at + 4];
    let b = s[at + 5];
    let c = s[at + 6];
    let d = s[at + 7];
    assert(code == a * 0x100_0000 + b * 0x1_0000 + c * 0x100 + d);
}

/// What a walk finds where a path leads is among what it finds.
proof fn lemma_reached_is_walked(s: Seq<u8>, lo: int, hi: int, path: Seq<int>)
    requires
        reaches(s, lo, hi, path),
        tables(s, lo, hi).short is None,
    ensures
        ({
            let at = path.last();
            let found = box_tables(s, be32(s, at + 4), at + 8, at + be32(s, at));
            &&& whole_box(s, at, s.len() as int)
            &&& found.short is None
            &&& forall|j: int|
                0 <= j < found.entries.len() ==> tables(s, lo, hi).entries.contains(
                    #[trigger] found.entries[j],
                )
        }),
    decreases path.len(),
{
    lemma_row_holds(s, lo, hi, path[0]);
    if path.len() > 1 {
        let at = path[0];
        lemma_holds_boxes(s, at);
        let end = at + be32(s, at);
        let inner = tables(s, at + 8, end);
        assert(is_container(be32(s, at + 4)));
        assert(box_tables(s, be32(s, at + 4), at + 8, end) == inner);
        lemma_reached_is_walked(s, at + 8, end, path.drop_first());
        assert(path.drop_first().last() == path.last());
        let last = path.last();
        let found = box_tables(s, be32(s, last + 4), last + 8, last + be32(s, last));
        lemma_contains_all(found.entries, inner.entries, tables(s, lo, hi).entries);
    }
}

/// Tables of chunk offsets count wherever they stand in boxes that hold boxes, at any depth: each
/// entry that such a table announces and has room for is shifted.
pub proof fn law_tables_at_any_depth_are_shifted(
    moov: Seq<u8>,
    delta: int,
    path: Seq<int>,
    wide: bool,
    k: int,
)
    requires
        reaches(moov, 0, moov.len() as int, path),
        wide ==> bears(moov, path.last(), 'c', 'o', '6', '4'),
        !wide ==> bears(moov, path.last(), 's', 't', 'c', 'o'),
        has_offset(moov, path.last(), wide, k),
        tables(moov, 0, moov.len() as int).short is None,
    ensures
        ({
            let at = offset_place(path.last(), wide, k);
            let bits: int = if wide {
                0x1_0000_0000_0000_0000
            } else {
                0x1_0000_0000
            };
            offset_at(patched(moov, delta), wide, at) == (offset_at(moov, wide, at) + delta) % bits
        }),
{
    let n = moov.len() as int;
    let table = path.last();
    lemma_reached_is_walked(moov, 0, n, path);
    lemma_bears(moov, table);
    let lo = table + 8;
    let hi = table + be32(moov, table);
    let own = box_tables(moov, be32(moov, table + 4), lo, hi).entries;
    let all = tables(moov, 0, n).entries;
    let width: int = if wide {
        8
    } else {
        4
    };
    let room = (hi - lo - 8) / width;
    assert(k < room) by (nonlinear_arith)
        requires
            room == (hi - lo - 8) / width,
            width * (k + 1) <= hi - lo - 8,
            width == 8 || width == 4,
    ;
    assert(own[k] == (Entry { at: lo + 8 + width * k, width }));
    assert(all.contains(own[k]));
    let j = choose|j: int| 0 <= j < all.len() && all[j] == own[k];
    law_patch_shifts_offsets_only(moov, delta);
    assert(entry_value(patched(moov, delta), all[j]) == shifted_value(
        entry_value(moov, all[j]),
        delta,
        width,
    ));
}

/// Whether the byte at `k` belongs to the entries of a table that a path leads to.
pub open spec fn in_reached_table(s: Seq<u8>, lo: int, hi: int, k: int) -> bool {
    exists|path: Seq<int>| #[trigger]
        reaches(s, lo, hi, path) && (bears(s, path.last(), 's', 't', 'c', 'o') || bears(
            s,
            path.last(),
            'c',
            'o',
            '6',
            '4',
        )) && path.last() + 16 <= k < path.last() + be32(s, path.last())
}

proof fn lemma_walked_is_reached(s: Seq<u8>, lo: int, hi: int, j: int, k: int)
    requires
        0 <= lo,
        hi <= s.len(),
        0 <= j < tables(s, lo, hi).entries.len(),
        tables(s, lo, hi).entries[j].at <= k < tables(s, lo, hi).entries[j].at + tables(
            s,
            lo,
            hi,
        ).entries[j].width,
    ensures
        in_reached_table(s, lo, hi, k),
    decreases hi - lo,
{
    assert(box_at(s, lo, hi));
    let end = lo + be32(s, lo);
    let code = be32(s, lo + 4);
    let here = box_tables(s, code, lo + 8, end);
    let all = tables(s, lo, hi);
    assert(whole_box(s, lo, hi));
    if j < here.entries.len() {
        assert(all.entries[j] == here.entries[j]);
        if code == STCO || code == CO64 {
            lemma_bears_back(s, lo);
            let width: int = if code == STCO {
                4
            } else {
                8
            };
            lemma_table_inside(s, lo + 8, end, width);
            assert(inside(here.entries, lo + 16, end));
            let path = seq![lo];
            assert(stands_in(s, lo, hi, lo));
            assert(reaches(s, lo, hi, path));
            assert(path.last() == lo);
            assert(here.entries[j].at + here.entries[j].width <= end);
        } else {
            assert(is_container(code));
            lemma_holds_boxes(s, lo);
            lemma_walked_is_reached(s, lo + 8, end, j, k);
            let inner = choose|path: Seq<int>| #[trigger]
                reaches(s, lo + 8, end, path) && (bears(s, path.last(), 's', 't', 'c', 'o')
                    || bears(s, path.last(), 'c', 'o', '6', '4')) && path.last() + 16 <= k
                    < path.last() + be32(s, path.last());
            let path = seq![lo] + inner;
            assert(path.drop_first() =~= inner);
            assert(path[0] == lo);
            assert(path.last() == inner.last());
            assert(stands_in(s, lo, hi, lo));
            assert(reaches(s, lo, hi, path));
        }
    } else {
        let rest = tables(s, end, hi);
        assert(all.entries[j] == rest.entries[j - here.entries.len()]);
        lemma_walked_is_reached(s, end, hi, j - here.entries.len(), k);
        let path = choose|path: Seq<int>| #[trigger]
            reaches(s, end, hi, path) && (bears(s, path.last(), 's', 't', 'c', 'o') || bears(
                s,
                path.last(),
                'c',
                'o',
                '6',
                '4',
            )) && path.last() + 16 <= k < path.last() + be32(s, path.last());
        assert(stands_in(s, lo, hi, path[0])) by {
            assert(stands_in(s, end, hi, path[0]));
        }
        assert(reaches(s, lo, hi, path));
    }
}

/// No byte changes but those of tables that stand in boxes which hold boxes: what lies in any other
/// box is left alone, whatever it looks like.
pub proof fn law_bytes_outside_the_tables_stay(moov: Seq<u8>, delta: int)
    ensures
        forall|k: int|
            0 <= k < moov.len() && #[trigger] patched(moov, delta)[k] != moov[k]
                ==> in_reached_table(moov, 0, moov.len() as int, k),
{
    let n = moov.len() as int;
    let entries = tables(moov, 0, n).entries;
    law_patch_shifts_offsets_only(moov, delta);
    assert forall|k: int|
        0 <= k < moov.len() && #[trigger] patched(moov, delta)[k] != moov[k] implies in_reached_table(
        moov,
        0,
        n,
        k,
    ) by {
        assert(covered(entries, k));
        let j = choose|j: int|
            0 <= j < entries.len() && (#[trigger] entries[j]).at <= k < entries[j].at
                + entries[j].width;
        lemma_walked_is_reached(moov, 0, n, j, k);
    }
}

/// Whether a table of chunk offsets that is too small to announce its entries stands at the end of
/// a path.
pub open spec fn reaches_short_table(s: Seq<u8>, lo: int, hi: int, code: u32) -> bool {
    exists|path: Seq<int>| #[trigger]
        reaches(s, lo, hi, path) && be32(s, path.last()) < 16 && (if code == STCO {
            bears(s, path.last(), 's', 't', 'c', 'o')
        } else {
            bears(s, path.last(), 'c', 'o', '6', '4')
        })
}

proof fn lemma_short_is_reached(s: Seq<u8>, lo: int, hi: int)
    requires
        0 <= lo,
        hi <= s.len(),
    ensures
        tables(s, lo, hi).short matches Some(code) ==> reaches_short_table(s, lo, hi, code) && (code
            == STCO || code == CO64),
    decreases hi - lo,
{
    if box_at(s, lo, hi) {
        let end = lo + be32(s, lo);
        let name = be32(s, lo + 4);
        let here = box_tables(s, name, lo + 8, end);
        assert(whole_box(s, lo, hi));
        assert(stands_in(s, lo, hi, lo));
        if let Some(code) = here.short {
            if name == STCO || name == CO64 {
                lemma_bears_back(s, lo);
                let path = seq![lo];
                assert(path.last() == lo);
                assert(reaches(s, lo, hi, path));
                assert(reaches_short_table(s, lo, hi, code));
            } else {
                lemma_holds_boxes(s, lo);
                lemma_short_is_reached(s, lo + 8, end);
                let inner = choose|path: Seq<int>| #[trigger]
                    reaches(s, lo + 8, end, path) && be32(s, path.last()) < 16 && (if code
                        == STCO {
                        bears(s, path.last(), 's', 't', 'c', 'o')
                    } else {
                        bears(s, path.last(), 'c', 'o', '6', '4')
                    });
                let path = seq![lo] + inner;
                assert(path.drop_first() =~= inner);
                assert(path[0] == lo);
                assert(path.last() == inner.last());
                assert(reaches(s, lo, hi, path));
            }
        } else {
            lemma_short_is_reached(s, end, hi);
            if let Some(code) = tables(s, end, hi).short {
                let path = choose|path: Seq<int>| #[trigger]
                    reaches(s, end, hi, path) && be32(s, path.last()) < 16 && (if code == STCO {
                        bears(s, path.last(), 's', 't', 'c', 'o')
                    } else {
                        bears(s, path.last(), 'c', 'o', '6', '4')
                    });
                assert(stands_in(s, end, hi, path[0]));
                assert(stands_in(s, lo, hi, path[0]));
                assert(reaches(s, lo, hi, path));
            }
        }
    }
}

/// A movie box cannot be patched exactly where a table in it is too small to announce its entries,
/// and the error names the kind of a table that is.
pub proof fn law_patch_fails_on_short_tables_only(moov: Seq<u8>, path: Seq<int>)
    ensures
        tables(moov, 0, moov.len() as int).short matches Some(code) ==> reaches_short_table(
            moov,
            0,
            moov.len() as int,
            code,
        ) && short_text(code) == (if code == 0x7374_636f {
            "stco too small"@
        } else {
            "co64 too small"@
        }),
        reaches(moov, 0, moov.len() as int, path) && (bears(moov, path.last(), 's', 't', 'c', 'o')
            || bears(moov, path.last(), 'c', 'o', '6', '4')) && be32(moov, path.last()) < 16
            ==> tables(moov, 0, moov.len() as int).short is Some,
{
    let n = moov.len() as int;
    lemma_short_is_reached(moov, 0, n);
    if reaches(moov, 0, n, path) && tables(moov, 0, n).short is None {
        lemma_reached_is_walked(moov, 0, n, path);
        lemma_bears(moov, path.last());
    }
}

/// The boxes of a file are what their headers say, one behind the other from its beginning: a
/// length in 32 bits, or in 64 where that is one, or up to the end of the file where it is zero;
/// and a name. The list ends where no whole box follows.
pub proof fn law_boxes_are_what_their_headers_say(data: Seq<u8>, bs: Seq<BoxAt>, i: int)
    requires
        boxes_of(data) == Some(bs),
        0 <= i < bs.len(),
    ensures
        i == 0 ==> bs[i].start == 0,
        i + 1 < bs.len() ==> bs[i + 1].start == bs[i].start + bs[i].len,
        0 <= bs[i].start && 8 <= bs[i].len && bs[i].start + bs[i].len <= data.len(),
        bs[i].code == be32(data, bs[i].start + 4),
        be32(data, bs[i].start) == 1 ==> bs[i].len == be64(data, bs[i].start + 8),
        be32(data, bs[i].start) == 0 ==> bs[i].start + bs[i].len == data.len(),
        be32(data, bs[i].start) > 1 ==> bs[i].len == be32(data, bs[i].start),
        ({
            let end = bs[i].start + bs[i].len;
            i == bs.len() - 1 && end + 8 <= data.len() && be32(data, end) > 1 ==> be32(data, end) < 8
                || end + be32(data, end) > data.len()
        }),
{
    lemma_boxes_in_a_row(data, 0);
    lemma_row_bounds(bs, 0, data.len() as int, i);
    lemma_box_head(data, 0, bs, i);
    let start = bs[i].start;
    let head = head_at(data, start);
    assert(be32(head, 0) == be32(data, start));
    assert(be32(head, 4) == be32(data, start + 4));
    if be32(data, start) == 1 {
        assert(be64(head, 8) == be64(data, start + 8));
    }
    if i == bs.len() - 1 {
        lemma_list_ends(data, 0, bs);
    }
}

/// Where the list of boxes ends.
proof fn lemma_list_ends(data: Seq<u8>, pos: int, bs: Seq<BoxAt>)
    requires
        0 <= pos <= data.len(),
        boxes_from(data, pos) == Some(bs),
    ensures
        ({
            let end = if bs.len() == 0 {
                pos
            } else {
                bs.last().start + bs.last().len
            };
            end + 8 <= data.len() && be32(data, end) > 1 ==> be32(data, end) < 8 || end + be32(
                data,
                end,
            ) > data.len()
        }),
    decreases data.len() - pos,
{
    match step_at(head_at(data, pos), pos, data.len() as int) {
        Step::Found { code, len } => {
            let rest = boxes_from(data, pos + len).unwrap();
            assert(bs == seq![BoxAt { code, start: pos, len }] + rest);
            lemma_list_ends(data, pos + len, rest);
            if rest.len() > 0 {
                assert(bs.last() == rest.last());
            } else {
                assert(bs.last() == bs[0]);
            }
        },
        Step::Over => {
            if pos + 8 <= data.len() {
                let head = head_at(data, pos);
                assert(be32(head, 0) == be32(data, pos));
            }
        },
        Step::Cut => {},
    }
}

/// The movie comes first exactly where there are a `moov` and an `mdat` and a `moov` stands in
/// front of every `mdat`. Only then is there something to move to the end; to the front it can be
/// moved wherever there are both.
pub proof fn law_movie_first_means_in_front_of_the_media(bs: Seq<BoxAt>)
    ensures
        movie_first(bs) == ((exists|d: int|
            0 <= d < bs.len() && (#[trigger] bs[d]).code == 0x6d64_6174) && (exists|m: int|
            0 <= m < bs.len() && (#[trigger] bs[m]).code == 0x6d6f_6f76 && forall|d: int|
                0 <= d < bs.len() && (#[trigger] bs[d]).code == 0x6d64_6174 ==> m < d)),
        (plan_last(bs) is Some) == movie_first(bs),
        (plan_first(bs) is Some) == ((exists|d: int|
            0 <= d < bs.len() && (#[trigger] bs[d]).code == 0x6d64_6174) && (exists|m: int|
            0 <= m < bs.len() && (#[trigger] bs[m]).code == 0x6d6f_6f76)),
{
    lemma_first_from(bs, MOOV as nat, 0);
    lemma_first_from(bs, MDAT as nat, 0);
    let m = first_of(bs, MOOV as nat);
    let d = first_of(bs, MDAT as nat);
    if m is Some {
        assert(bs[m.unwrap()].code == 0x6d6f_6f76);
    }
    if d is Some {
        assert(bs[d.unwrap()].code == 0x6d64_6174);
    }
    if m is Some && d is Some && m.unwrap() < d.unwrap() {
        assert forall|x: int| 0 <= x < bs.len() && (
        #[trigger] bs[x]).code == 0x6d64_6174 implies m.unwrap() < x by {}
    }
    if exists|x: int|
        0 <= x < bs.len() && (#[trigger] bs[x]).code == 0x6d6f_6f76 && forall|y: int|
            0 <= y < bs.len() && (#[trigger] bs[y]).code == 0x6d64_6174 ==> x < y {
        let x = choose|x: int|
            0 <= x < bs.len() && (#[trigger] bs[x]).code == 0x6d6f_6f76 && forall|y: int|
                0 <= y < bs.len() && (#[trigger] bs[y]).code == 0x6d64_6174 ==> x < y;
        assert(m is Some && m.unwrap() <= x);
        if d is Some {
            assert(bs[d.unwrap()].code == 0x6d64_6174);
        }
    }
}

/// A copy is reported in steps of at most a mebibyte: the reports rise, none of them skips more
/// than that, and the last one is the end.
pub proof fn law_copy_is_reported_up_to_its_end(base: int, len: int)
    ensures
        len > 0 ==> chunk_marks(base, len).len() > 0 && chunk_marks(base, len).last() == base + len
            && base < chunk_marks(base, len)[0] <= base + 0x10_0000,
        len <= 0 ==> chunk_marks(base, len).len() == 0,
        forall|i: int|
            0 < i < chunk_marks(base, len).len() ==> chunk_marks(base, len)[i - 1]
                < #[trigger] chunk_marks(base, len)[i] <= chunk_marks(base, len)[i - 1] + 0x10_0000,
    decreases len,
{
    if len > 0 {
        let n = chunk_len(len);
        law_copy_is_reported_up_to_its_end(base + n, len - n);
        let rest = chunk_marks(base + n, len - n);
        let all = chunk_marks(base, len);
        assert(all == seq![base + n] + rest);
        assert forall|i: int| 0 < i < all.len() implies all[i - 1] < #[trigger] all[i] <= all[i - 1]
            + 0x10_0000 by {
            assert(all[i] == rest[i - 1]);
            if i > 1 {
                assert(all[i - 1] == rest[i - 2]);
            }
        }
        if rest.len() > 0 {
            assert(all.last() == rest.last());
        }
    }
}

proof fn lemma_flat_takes(parts: Seq<Seq<u8>>, x: int, y: int)
    requires
        0 <= x < y <= parts.len(),
    ensures
        flat(parts.take(x)).len() + parts[x].len() <= flat(parts.take(y)).len(),
{
    let front = parts.take(y);
    lemma_flat_at(front, x);
    assert(front.take(x) =~= parts.take(x));
    assert(front[x] == parts[x]);
}

/// Whether two pieces of a file are in another one, the first in front of the second.
pub open spec fn in_that_order(out: Seq<u8>, a: Seq<u8>, b: Seq<u8>, p: int, q: int) -> bool {
    &&& 0 <= p && p + a.len() <= q && q + b.len() <= out.len()
    &&& out.subrange(p, p + a.len()) == a
    &&& out.subrange(q, q + b.len()) == b
}

/// The boxes that are not moved keep their order: of two of them, neither the `moov` nor, where it
/// goes to the front, the `ftyp`, the one that came first still does.
pub proof fn law_boxes_keep_their_order(data: Seq<u8>, bs: Seq<BoxAt>, plan: PlanAt, i: int, j: int)
    requires
        boxes_of(data) == Some(bs),
        plan_last(bs) == Some(plan) || plan_first(bs) == Some(plan),
        0 <= i < j < bs.len(),
        bs[i].code != 0x6d6f_6f76 && bs[j].code != 0x6d6f_6f76,
        plan_last(bs) != Some(plan) ==> bs[i].code != 0x6674_7970 && bs[j].code != 0x6674_7970,
    ensures
        ({
            let a = data.subrange(bs[i].start, bs[i].start + bs[i].len);
            let b = data.subrange(bs[j].start, bs[j].start + bs[j].len);
            exists|p: int, q: int| #[trigger] in_that_order(rewritten(data, plan), a, b, p, q)
        }),
{
    let n = bs.len() as int;
    let m = first_of(bs, MOOV as nat).unwrap();
    lemma_first_from(bs, MOOV as nat, 0);
    lemma_first_from(bs, FTYP as nat, 0);
    let last = plan_last(bs) == Some(plan);
    let f = if last {
        None
    } else {
        first_of(bs, FTYP as nat)
    };
    let lead: int = if last {
        0
    } else if f is Some {
        3
    } else {
        2
    };
    lemma_kept_place(bs, n, m, f, i);
    lemma_kept_place(bs, n, m, f, j);
    lemma_kept_place(bs, j, m, f, i);
    let x = lead + kept(bs, i, m, f).len();
    let y = lead + kept(bs, j, m, f).len();
    assert(plan.pieces[x] == PieceAt::Copied(bs[i]));
    assert(plan.pieces[y] == PieceAt::Copied(bs[j]));
    let parts = parts_of(data, movie_of(data, plan), plan.pieces);
    lemma_flat_at(parts, x);
    lemma_flat_at(parts, y);
    lemma_flat_takes(parts, x, y);
    let p = flat(parts.take(x)).len() as int;
    let q = flat(parts.take(y)).len() as int;
    assert(in_that_order(
        rewritten(data, plan),
        bytes_of(data, bs[i]),
        bytes_of(data, bs[j]),
        p,
        q,
    ));
}

/// Moved to the front, the patched `moov` stands right behind the `ftyp`, where there is one, and
/// behind it an empty `free` box of eight bytes. Moved to the end, it is the last thing in the
/// file.
pub proof fn law_movie_stands_where_it_was_moved(data: Seq<u8>, bs: Seq<BoxAt>, plan: PlanAt)
    requires
        boxes_of(data) == Some(bs),
        plan_last(bs) == Some(plan) || plan_first(bs) == Some(plan),
    ensures
        ({
            let out = rewritten(data, plan);
            let moov = data.subrange(plan.moov.start, plan.moov.start + plan.moov.len);
            let movie = patched(moov, plan.delta);
            let f = first_of(bs, FTYP as nat);
            let front = if f is Some {
                data.subrange(bs[f.unwrap()].start, bs[f.unwrap()].start + bs[f.unwrap()].len)
            } else {
                Seq::empty()
            };
            &&& plan_last(bs) == Some(plan) ==> movie.len() <= out.len() && out.skip(
                out.len() - movie.len(),
            ) == movie
            &&& plan_last(bs) != Some(plan) ==> {
                let a = front.len() as int;
                let b = a + movie.len();
                &&& b + 8 <= out.len()
                &&& out.take(a) == front
                &&& out.subrange(a, b) == movie
                &&& out.subrange(b, b + 8) == seq![
                    0u8,
                    0u8,
                    0u8,
                    8u8,
                    'f' as u8,
                    'r' as u8,
                    'e' as u8,
                    'e' as u8,
                ]
            }
        }),
{
    let n = bs.len() as int;
    let end = data.len() as int;
    let out = rewritten(data, plan);
    let moov = bytes_of(data, plan.moov);
    let movie = movie_of(data, plan);
    lemma_media_place(data, bs, plan);
    assert(movie == patched(moov, plan.delta));
    let parts = parts_of(data, movie, plan.pieces);
    if plan_last(bs) == Some(plan) {
        let last = plan.pieces.len() - 1;
        let init = parts.drop_last();
        assert(parts[last] == movie);
        assert(parts =~= init + seq![movie]);
        lemma_flat_concat(init, seq![movie]);
        lemma_flat_one(movie);
        assert(out.skip(out.len() - movie.len()) =~= movie);
    } else {
        let f = first_of(bs, FTYP as nat);
        lemma_first_from(bs, FTYP as nat, 0);
        lemma_boxes_in_a_row(data, 0);
        let pad = free_box(FREE_PAD as int);
        let rest = parts_of(
            data,
            movie,
            copied(kept(bs, n, first_of(bs, MOOV as nat).unwrap(), f)),
        );
        let front = if f is Some {
            bytes_of(data, bs[f.unwrap()])
        } else {
            Seq::empty()
        };
        let lead: Seq<Seq<u8>> = if f is Some {
            seq![front]
        } else {
            Seq::empty()
        };
        if f is Some {
            lemma_row_bounds(bs, 0, end, f.unwrap());
            lemma_flat_one(front);
        } else {
            assert(flat(lead) =~= Seq::<u8>::empty());
        }
        assert(flat(lead) =~= front);
        assert(parts =~= lead + seq![movie, pad] + rest);
        lemma_flat_concat(lead + seq![movie, pad], rest);
        lemma_flat_concat(lead, seq![movie, pad]);
        assert(seq![movie, pad] =~= seq![movie] + seq![pad]);
        lemma_flat_concat(seq![movie], seq![pad]);
        lemma_flat_one(movie);
        lemma_flat_one(pad);
        let a = front.len() as int;
        let b = a + movie.len();
        assert(out == front + (movie + pad) + flat(rest));
        assert(pad.len() == 8);
        assert('f' as u8 == 0x66 && 'r' as u8 == 0x72 && 'e' as u8 == 0x65);
        assert(pad =~= seq![
            0u8,
            0u8,
            0u8,
            8u8,
            'f' as u8,
            'r' as u8,
            'e' as u8,
            'e' as u8,
        ]);
        assert(out.take(a) =~= front);
        assert(out.subrange(a, b) =~= movie);
        assert(out.subrange(b, b + 8) =~= pad);
    }
}

/// Numbers are written with their highest byte first, and read back as they were.
pub proof fn law_numbers_begin_with_their_highest_byte(s: Seq<u8>, i: int, v: nat)
    requires
        0 <= i,
        i + 8 <= s.len(),
    ensures
        be32(s, i) == ((s[i] * 256 + s[i + 1]) * 256 + s[i + 2]) * 256 + s[i + 3],
        be64(s, i) == be32(s, i) * 0x1_0000_0000 + be32(s, i + 4),
        v < 0x1_0000_0000 ==> be32(put32(s, i, v), i) == v,
        v < 0x1_0000_0000_0000_0000 ==> be64(put64(s, i, v), i) == v,
{
    if v < 0x1_0000_0000 {
        lemma_put32(s, i, v);
    }
    if v < 0x1_0000_0000_0000_0000 {
        lemma_put64(s, i, v);
    }
}

} // verus!
