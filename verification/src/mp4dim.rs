//! The pixel dimensions of an MP4 file's video track, from `moov`, `trak` and `tkhd`.
//!
//! A track header ends with the width and the height, in 16.16 fixed point. Audio tracks say 0 by
//! 0, so the video track is the one with the largest area.

use crate::mp4rewrite::{
    be32, be64, bears, held_by, read32, read64, stands_in, whole_box, MDIA, MINF, MOOV, TRAK,
};
use vstd::prelude::*;
use vstd::slice::slice_subrange;

verus! {

/// `tkhd`: a track header.
pub const TKHD: u32 = 0x746b_6864;

/// What a box header at some position says.
pub struct HeaderAt {
    /// The length of the box, as the header gives it.
    pub size: int,
    /// What kind of box it is.
    pub code: nat,
    /// Where its content begins.
    pub content: int,
}

/// The header at `pos`, given the first bytes there: at least eight, and sixteen unless the file
/// ends before. None where the file ends inside a header in its long form.
pub open spec fn header_in(head: Seq<u8>, pos: int) -> Option<HeaderAt> {
    if be32(head, 0) != 1 {
        Some(HeaderAt { size: be32(head, 0) as int, code: be32(head, 4), content: pos + 8 })
    } else if head.len() >= 16 {
        Some(HeaderAt { size: be64(head, 8) as int, code: be32(head, 4), content: pos + 16 })
    } else {
        None
    }
}

/// The header at `pos` of a file.
pub open spec fn header_of(s: Seq<u8>, pos: int) -> Option<HeaderAt> {
    header_in(s.skip(pos), pos)
}

/// The smaller of two numbers.
pub open spec fn smaller(a: int, b: int) -> int {
    if a < b {
        a
    } else {
        b
    }
}

/// How many positions there are from `lo` up to `hi`.
pub open spec fn span(lo: int, hi: int) -> int {
    if lo < hi {
        hi - lo
    } else {
        0
    }
}

/// The content of the first box of this kind in the row `s[lo..hi]`.
pub open spec fn content_of(s: Seq<u8>, lo: int, hi: int, code: nat) -> Option<(int, int)>
    decreases span(lo, hi),
{
    if lo + 8 > hi {
        None
    } else {
        match header_of(s, lo) {
            None => None,
            Some(h) => if h.code == code {
                Some((h.content, smaller(lo + h.size, hi)))
            } else if h.size <= 0 {
                None
            } else {
                content_of(s, lo + h.size, hi, code)
            },
        }
    }
}

/// The width and the height in the track header with the content `s[lo..hi]`.
pub open spec fn header_size(s: Seq<u8>, lo: int, hi: int) -> Seq<(int, int)> {
    if hi < lo + 8 {
        Seq::empty()
    } else {
        seq![((be32(s, hi - 8) / 0x1_0000) as int, (be32(s, hi - 4) / 0x1_0000) as int)]
    }
}

/// The sizes in a box with this code and with the content `s[lo..hi]`.
pub open spec fn box_sizes(s: Seq<u8>, code: nat, lo: int, hi: int) -> Seq<(int, int)>
    decreases span(lo, hi), 1int,
{
    if code == TRAK || code == MDIA || code == MINF {
        track_sizes(s, lo, hi)
    } else if code == TKHD {
        header_size(s, lo, hi)
    } else {
        Seq::empty()
    }
}

/// The sizes of the tracks in the row of boxes `s[lo..hi]`, in order.
pub open spec fn track_sizes(s: Seq<u8>, lo: int, hi: int) -> Seq<(int, int)>
    decreases span(lo, hi), 0int,
{
    if lo < 0 || lo + 8 > hi {
        Seq::empty()
    } else {
        match header_of(s, lo) {
            None => Seq::empty(),
            Some(h) => if h.content <= lo {
                Seq::empty()
            } else {
                box_sizes(s, h.code, h.content, smaller(lo + h.size, hi)) + (if h.size <= 0 {
                    Seq::empty()
                } else {
                    track_sizes(s, lo + h.size, hi)
                })
            },
        }
    }
}

/// The area of a size.
pub open spec fn area(size: (int, int)) -> int {
    size.0 * size.1
}

/// The largest size so far.
pub open spec fn larger(best: Option<(int, int)>, size: (int, int)) -> Option<(int, int)> {
    let best_area = match best {
        Some(b) => area(b),
        None => 0,
    };
    if size.0 > 0 && size.1 > 0 && area(size) > best_area {
        Some(size)
    } else {
        best
    }
}

/// The first of the largest sizes, beginning with `best`.
pub open spec fn largest_from(best: Option<(int, int)>, sizes: Seq<(int, int)>) -> Option<(int, int)>
    decreases sizes.len(),
{
    if sizes.len() == 0 {
        best
    } else {
        larger(largest_from(best, sizes.drop_last()), sizes.last())
    }
}

/// The dimensions of the video track: the first of the largest track sizes.
pub open spec fn dimensions_of(data: Seq<u8>) -> Option<(int, int)> {
    match content_of(data, 0, data.len() as int, MOOV as nat) {
        None => None,
        Some((lo, hi)) => largest_from(None, track_sizes(data, lo, hi)),
    }
}

/// A size as mathematical integers.
pub open spec fn size_of(best: Option<(u32, u32)>) -> Option<(int, int)> {
    match best {
        Some((w, h)) => Some((w as int, h as int)),
        None => None,
    }
}

proof fn lemma_largest_concat(
    best: Option<(int, int)>,
    a: Seq<(int, int)>,
    b: Seq<(int, int)>,
)
    ensures
        largest_from(largest_from(best, a), b) == largest_from(best, a + b),
    decreases b.len(),
{
    if b.len() == 0 {
        assert(a + b =~= a);
    } else {
        assert((a + b).drop_last() =~= a + b.drop_last());
        lemma_largest_concat(best, a, b.drop_last());
    }
}

/// A box header.
struct Header {
    size: u64,
    code: u32,
    long: bool,
}

/// The header that the bytes `head` begin with.
fn read_box_header(head: &[u8], Ghost(pos): Ghost<int>) -> (r: Option<Header>)
    requires
        head@.len() >= 8,
    ensures
        match header_in(head@, pos) {
            None => r is None,
            Some(h) => r matches Some(x) && x.size == h.size && x.code == h.code && h.content
                == pos + (if x.long {
                16int
            } else {
                8int
            }),
        },
{
    let size: u32 = read32(head, 0);
    let code: u32 = read32(head, 4);
    if size != 1 {
        Some(Header { size: size as u64, code, long: false })
    } else if head.len() >= 16 {
        Some(Header { size: read64(head, 8), code, long: true })
    } else {
        None
    }
}

/// What a search through a row of boxes does next.
#[derive(Clone, Copy, Debug, PartialEq, Eq)]
pub enum Search {
    /// The box was found; this is its content.
    Found(u64, u64),
    /// Look at this position next.
    Next(u64),
    /// There is no such box.
    Missing,
}

/// One step of a search for a box of this kind in a row that ends at `end`, given the bytes at
/// `pos`: sixteen, or as many as the file has left.
pub fn find_box_step(head: &[u8], pos: u64, end: u64, code: u32) -> (r: Search)
    requires
        pos + 8 <= end ==> head@.len() >= 8,
        end <= 0x7fff_ffff_ffff_ffff,
    ensures
        match r {
            Search::Found(lo, hi) => pos + 8 <= end && (header_in(head@, pos as int) matches Some(h)
                && h.code == code && lo == h.content && hi == smaller(pos + h.size, end as int)),
            Search::Next(next) => pos + 8 <= end && (header_in(head@, pos as int) matches Some(h)
                && h.code != code && h.size > 0 && next == smaller(pos + h.size, end as int)),
            Search::Missing => pos + 8 > end || (match header_in(head@, pos as int) {
                None => true,
                Some(h) => h.code != code && h.size <= 0,
            }),
        },
{
    if end < 8 || pos > end - 8 {
        return Search::Missing;
    }
    match read_box_header(head, Ghost(pos as int)) {
        None => Search::Missing,
        Some(h) => {
            let content: u64 = if h.long {
                pos + 16
            } else {
                pos + 8
            };
            let box_end: u64 = if h.size < end - pos {
                pos + h.size
            } else {
                end
            };
            if h.code == code {
                Search::Found(content, box_end)
            } else if h.size == 0 {
                Search::Missing
            } else {
                Search::Next(box_end)
            }
        },
    }
}

/// At most the first sixteen bytes at `pos`.
fn head_bytes(data: &[u8], pos: usize) -> (r: &[u8])
    requires
        pos <= data@.len(),
    ensures
        r@ == data@.subrange(pos as int, smaller(pos + 16, data@.len() as int)),
{
    let n: usize = data.len();
    let to: usize = if n - pos < 16 {
        n
    } else {
        pos + 16
    };
    slice_subrange(data, pos, to)
}

/// A header is read from its first sixteen bytes.
proof fn lemma_head_enough(s: Seq<u8>, pos: int)
    requires
        0 <= pos,
        pos + 8 <= s.len(),
    ensures
        header_in(s.subrange(pos, smaller(pos + 16, s.len() as int)), pos) == header_of(s, pos),
{
    let head = s.subrange(pos, smaller(pos + 16, s.len() as int));
    let rest = s.skip(pos);
    assert(be32(head, 0) == be32(rest, 0));
    assert(be32(head, 4) == be32(rest, 4));
    if s.len() >= pos + 16 {
        assert(be64(head, 8) == be64(rest, 8));
    }
}

/// The content of the first top-level box of this kind.
pub fn find_box(data: &[u8], code: u32) -> (r: Option<(u64, u64)>)
    requires
        data@.len() <= isize::MAX,
    ensures
        match content_of(data@, 0, data@.len() as int, code as nat) {
            None => r is None,
            Some((lo, hi)) => r matches Some((a, b)) && a == lo && b == hi,
        },
{
    let end: usize = data.len();
    let mut pos: usize = 0;
    loop
        invariant
            pos <= end == data@.len(),
            end <= isize::MAX,
            content_of(data@, 0, end as int, code as nat) == content_of(
                data@,
                pos as int,
                end as int,
                code as nat,
            ),
        decreases end - pos,
    {
        let head = head_bytes(data, pos);
        proof {
            if pos + 8 <= end {
                lemma_head_enough(data@, pos as int);
            }
        }
        match find_box_step(head, pos as u64, end as u64, code) {
            Search::Found(lo, hi) => {
                return Some((lo, hi));
            },
            Search::Missing => {
                return None;
            },
            Search::Next(next) => {
                proof {
                    let h = header_of(data@, pos as int).unwrap();
                    if pos + h.size > end {
                        assert(content_of(data@, pos + h.size, end as int, code as nat) is None);
                        assert(content_of(data@, end as int, end as int, code as nat) is None);
                    }
                }
                pos = next as usize;
            },
        }
    }
}

/// The width and the height in the track header with the content `data[lo..hi]`.
fn read_tkhd_dims(data: &[u8], lo: usize, hi: usize) -> (r: Option<(u32, u32)>)
    requires
        hi <= data@.len(),
    ensures
        match r {
            None => header_size(data@, lo as int, hi as int) == Seq::<(int, int)>::empty(),
            Some((w, h)) => header_size(data@, lo as int, hi as int) == seq![(w as int, h as int)],
        },
{
    if hi < 8 || lo > hi - 8 {
        return None;
    }
    Some((read32(data, hi - 8) / 0x1_0000, read32(data, hi - 4) / 0x1_0000))
}

/// The largest size among `best` and those in a box with the content `data[lo..hi]`.
fn box_dims(
    data: &[u8],
    code: u32,
    lo: usize,
    hi: usize,
    best: Option<(u32, u32)>,
) -> (r: Option<(u32, u32)>)
    requires
        hi <= data@.len() <= isize::MAX,
        best matches Some((w, h)) ==> w < 0x1_0000 && h < 0x1_0000,
    ensures
        size_of(r) == largest_from(
            size_of(best),
            box_sizes(data@, code as nat, lo as int, hi as int),
        ),
        r matches Some((w, h)) ==> w < 0x1_0000 && h < 0x1_0000,
    decreases span(lo as int, hi as int), 1int,
{
    if code == TRAK || code == MDIA || code == MINF {
        return collect_tkhd_dims(data, lo, hi, best);
    }
    if code == TKHD {
        if let Some((w, h)) = read_tkhd_dims(data, lo, hi) {
            let ghost sizes = seq![(w as int, h as int)];
            let ghost found = (w as int, h as int);
            proof {
                assert(box_sizes(data@, code as nat, lo as int, hi as int) == sizes);
                assert(sizes.drop_last() =~= Seq::<(int, int)>::empty());
                reveal_with_fuel(largest_from, 2);
                assert(largest_from(size_of(best), sizes) == larger(size_of(best), found));
                assert(w * h <= 0xffff * 0xffff) by (nonlinear_arith)
                    requires
                        w <= 0xffff,
                        h <= 0xffff,
                ;
            }
            if w > 0 && h > 0 {
                let best_area: u64 = match best {
                    Some((bw, bh)) => {
                        assert(bw * bh <= 0xffff * 0xffff) by (nonlinear_arith)
                            requires
                                bw <= 0xffff,
                                bh <= 0xffff,
                        ;
                        bw as u64 * bh as u64
                    },
                    None => 0,
                };
                if w as u64 * h as u64 > best_area {
                    return Some((w, h));
                }
            }
            return best;
        }
        assert(box_sizes(data@, code as nat, lo as int, hi as int).len() == 0);
    }
    best
}

/// The largest size among `best` and those in the row of boxes `data[lo..hi]`.
pub fn collect_tkhd_dims(
    data: &[u8],
    lo: usize,
    hi: usize,
    best: Option<(u32, u32)>,
) -> (r: Option<(u32, u32)>)
    requires
        hi <= data@.len() <= isize::MAX,
        best matches Some((w, h)) ==> w < 0x1_0000 && h < 0x1_0000,
    ensures
        size_of(r) == largest_from(size_of(best), track_sizes(data@, lo as int, hi as int)),
        r matches Some((w, h)) ==> w < 0x1_0000 && h < 0x1_0000,
    decreases span(lo as int, hi as int), 0int,
{
    let ghost all = track_sizes(data@, lo as int, hi as int);
    let ghost mut done: Seq<(int, int)> = Seq::empty();
    let mut best = best;
    let ghost first = size_of(best);
    let mut pos: usize = lo;
    assert(done + all =~= all);
    while pos <= hi && hi - pos >= 8
        invariant
            lo <= pos,
            hi <= data@.len() <= isize::MAX,
            all == done + track_sizes(data@, pos as int, hi as int),
            size_of(best) == largest_from(first, done),
            best matches Some((w, h)) ==> w < 0x1_0000 && h < 0x1_0000,
        ensures
            track_sizes(data@, pos as int, hi as int).len() == 0,
        decreases hi - pos,
    {
        let head = head_bytes(data, pos);
        proof {
            lemma_head_enough(data@, pos as int);
        }
        let h = match read_box_header(head, Ghost(pos as int)) {
            None => {
                break;
            },
            Some(h) => h,
        };
        let content: usize = if h.long {
            pos + 16
        } else {
            pos + 8
        };
        let box_end: usize = if h.size < (hi - pos) as u64 {
            pos + h.size as usize
        } else {
            hi
        };
        best = box_dims(data, h.code, content, box_end, best);
        proof {
            let here = box_sizes(data@, h.code as nat, content as int, box_end as int);
            lemma_largest_concat(first, done, here);
            if h.size == 0 {
                assert(track_sizes(data@, pos as int, hi as int) =~= here);
                assert(done + here == all);
            } else {
                let rest = track_sizes(data@, pos + h.size, hi as int);
                assert(done + (here + rest) =~= (done + here) + rest);
                if pos + h.size > hi {
                    assert(rest =~= track_sizes(data@, hi as int, hi as int));
                }
            }
            done = done + here;
        }
        if h.size == 0 {
            proof {
                assert(track_sizes(data@, hi as int, hi as int).len() == 0);
                assert(done + track_sizes(data@, hi as int, hi as int) =~= all);
            }
            pos = hi;
            break;
        }
        pos = box_end;
    }
    assert(done =~= all);
    best
}

/// The dimensions of the video track in the file with these bytes, if a track with a size is
/// found.
pub fn video_dimensions(data: &[u8]) -> (r: Option<(u32, u32)>)
    requires
        data@.len() <= isize::MAX,
    ensures
        size_of(r) == dimensions_of(data@),
{
    match find_box(data, MOOV) {
        None => None,
        Some((lo, hi)) => {
            proof {
                lemma_content_bounds(data@, 0, data@.len() as int, MOOV as nat);
            }
            collect_tkhd_dims(data, lo as usize, hi as usize, None)
        },
    }
}

proof fn lemma_content_bounds(s: Seq<u8>, lo: int, hi: int, code: nat)
    requires
        0 <= lo,
        hi <= s.len(),
    ensures
        content_of(s, lo, hi, code) matches Some((a, b)) ==> 0 <= a <= hi + 8 && b <= hi && 0 <= b,
    decreases span(lo, hi),
{
    if lo + 8 <= hi {
        if let Some(h) = header_of(s, lo) {
            if h.code != code && h.size > 0 {
                lemma_content_bounds(s, lo + h.size, hi, code);
            }
        }
    }
}

/// Whether no size is negative.
pub open spec fn no_negative(sizes: Seq<(int, int)>) -> bool {
    forall|i: int| 0 <= i < sizes.len() ==> (#[trigger] sizes[i]).0 >= 0 && sizes[i].1 >= 0
}

proof fn lemma_box_sizes_no_negative(s: Seq<u8>, code: nat, lo: int, hi: int)
    ensures
        no_negative(box_sizes(s, code, lo, hi)),
    decreases span(lo, hi), 1int,
{
    if code == TRAK || code == MDIA || code == MINF {
        lemma_track_sizes_no_negative(s, lo, hi);
    }
}

proof fn lemma_track_sizes_no_negative(s: Seq<u8>, lo: int, hi: int)
    ensures
        no_negative(track_sizes(s, lo, hi)),
    decreases span(lo, hi), 0int,
{
    if 0 <= lo && lo + 8 <= hi {
        if let Some(h) = header_of(s, lo) {
            if h.content > lo {
                lemma_box_sizes_no_negative(s, h.code, h.content, smaller(lo + h.size, hi));
                if h.size > 0 {
                    lemma_track_sizes_no_negative(s, lo + h.size, hi);
                }
            }
        }
    }
}

/// The dimensions that are given are those of a track with a size, and no track in the movie box
/// has a larger area. None are given only where no track has a size.
pub proof fn law_video_track_is_the_largest(data: Seq<u8>, lo: int, hi: int)
    requires
        content_of(data, 0, data.len() as int, MOOV as nat) == Some((lo, hi)),
    ensures
        ({
            let sizes = track_sizes(data, lo, hi);
            match dimensions_of(data) {
                Some(best) => sizes.contains(best) && best.0 > 0 && best.1 > 0 && forall|i: int|
                    0 <= i < sizes.len() ==> area(#[trigger] sizes[i]) <= area(best),
                None => forall|i: int|
                    0 <= i < sizes.len() ==> (#[trigger] sizes[i]).0 == 0 || sizes[i].1 == 0,
            }
        }),
{
    lemma_track_sizes_no_negative(data, lo, hi);
    lemma_largest(track_sizes(data, lo, hi));
}

proof fn lemma_largest(sizes: Seq<(int, int)>)
    requires
        no_negative(sizes),
    ensures
        match largest_from(None, sizes) {
            Some(best) => sizes.contains(best) && best.0 > 0 && best.1 > 0 && forall|i: int|
                0 <= i < sizes.len() ==> area(#[trigger] sizes[i]) <= area(best),
            None => forall|i: int|
                0 <= i < sizes.len() ==> (#[trigger] sizes[i]).0 == 0 || sizes[i].1 == 0,
        },
    decreases sizes.len(),
{
    if sizes.len() > 0 {
        let init = sizes.drop_last();
        let last = sizes.last();
        assert(last == sizes[sizes.len() - 1]);
        assert(no_negative(init)) by {
            assert forall|i: int| 0 <= i < init.len() implies (#[trigger] init[i]).0 >= 0
                && init[i].1 >= 0 by {
                assert(init[i] == sizes[i]);
            }
        }
        lemma_largest(init);
        assert forall|i: int| 0 <= i < init.len() implies init[i] == #[trigger] sizes[i] by {}
        let (w, h) = last;
        assert(w == 0 || h == 0 ==> w * h == 0) by (nonlinear_arith);
        assert(w > 0 && h > 0 ==> w * h > 0) by (nonlinear_arith);
        match largest_from(None, init) {
            Some(best) => {
                let (bw, bh) = best;
                assert(bw > 0 && bh > 0 ==> bw * bh > 0) by (nonlinear_arith);
                let k = choose|k: int| 0 <= k < init.len() && init[k] == best;
                assert(sizes[k] == best);
            },
            None => {},
        }
        assert forall|i: int|
            0 <= i < sizes.len() && ((#[trigger] sizes[i]).0 == 0 || sizes[i].1 == 0) implies area(
            sizes[i],
        ) == 0 by {
            let (a, b) = sizes[i];
            assert(a == 0 || b == 0 ==> a * b == 0) by (nonlinear_arith);
        }
        match largest_from(None, sizes) {
            Some(best) => {
                assert forall|i: int| 0 <= i < sizes.len() implies area(#[trigger] sizes[i])
                    <= area(best) by {
                    if i < init.len() {
                        assert(init[i] == sizes[i]);
                    }
                }
            },
            None => {
                assert forall|i: int| 0 <= i < sizes.len() implies (#[trigger] sizes[i]).0 == 0
                    || sizes[i].1 == 0 by {
                    if i < init.len() {
                        assert(init[i] == sizes[i]);
                    }
                }
            },
        }
    }
}

/// The upper half of the 32-bit number at `i`: the whole part of a number in 16.16 fixed point.
pub open spec fn whole_part(s: Seq<u8>, i: int) -> int {
    s[i] * 0x100 + s[i + 1]
}

proof fn lemma_whole_part(s: Seq<u8>, i: int)
    ensures
        be32(s, i) / 0x1_0000 == whole_part(s, i),
{
    let a = s[i];
    let b = s[i + 1];
    let c = s[i + 2];
    let d = s[i + 3];
    assert((a * 0x100_0000 + b * 0x1_0000 + c * 0x100 + d) / 0x1_0000 == a * 0x100 + b)
        by (nonlinear_arith)
        requires
            0 <= a < 256,
            0 <= b < 256,
            0 <= c < 256,
            0 <= d < 256,
    ;
}

/// A whole box as its header gives it.
proof fn lemma_whole_header(s: Seq<u8>, at: int, hi: int)
    requires
        whole_box(s, at, hi),
    ensures
        header_of(s, at) == Some(
            HeaderAt { size: be32(s, at) as int, code: be32(s, at + 4), content: at + 8 },
        ),
{
    let t = s.skip(at);
    assert(t[0] == s[at] && t[1] == s[at + 1] && t[2] == s[at + 2] && t[3] == s[at + 3]);
    assert(t[4] == s[at + 4] && t[5] == s[at + 5] && t[6] == s[at + 6] && t[7] == s[at + 7]);
}

/// What the boxes of a row measure is among what the row measures.
proof fn lemma_row_measures(s: Seq<u8>, lo: int, hi: int, at: int, size: (int, int))
    requires
        stands_in(s, lo, hi, at),
        box_sizes(s, be32(s, at + 4), at + 8, at + be32(s, at)).contains(size),
    ensures
        track_sizes(s, lo, hi).contains(size),
    decreases hi - lo,
{
    lemma_whole_header(s, lo, hi);
    let next = lo + be32(s, lo);
    let here = box_sizes(s, be32(s, lo + 4), lo + 8, smaller(next, hi));
    let all = track_sizes(s, lo, hi);
    assert(smaller(next, hi) == next);
    let rest = track_sizes(s, next, hi);
    assert(all == here + rest);
    if at == lo {
        let i = choose|i: int| 0 <= i < here.len() && here[i] == size;
        assert(all[i] == size);
    } else {
        lemma_row_measures(s, next, hi, at, size);
        let i = choose|i: int| 0 <= i < rest.len() && rest[i] == size;
        assert(all[here.len() + i] == size);
    }
}

/// The first box with this name in a row of whole boxes.
proof fn lemma_row_finds(s: Seq<u8>, lo: int, hi: int, at: int, code: nat)
    requires
        stands_in(s, lo, hi, at),
        be32(s, at + 4) == code,
        forall|k: int| #[trigger] stands_in(s, lo, hi, k) && be32(s, k + 4) == code ==> at <= k,
    ensures
        content_of(s, lo, hi, code) == Some((at + 8, at + be32(s, at))),
    decreases hi - lo,
{
    lemma_whole_header(s, lo, hi);
    if at != lo {
        let next = lo + be32(s, lo);
        assert(stands_in(s, lo, hi, lo));
        lemma_stands_behind(s, next, hi, at);
        assert(be32(s, lo + 4) != code);
        assert forall|k: int| #[trigger] stands_in(s, next, hi, k) && be32(s, k + 4) == code implies at
            <= k by {
            assert(stands_in(s, lo, hi, k));
        }
        lemma_row_finds(s, next, hi, at, code);
    }
}

proof fn lemma_stands_behind(s: Seq<u8>, lo: int, hi: int, at: int)
    requires
        stands_in(s, lo, hi, at),
    ensures
        lo <= at,
        whole_box(s, at, hi),
    decreases hi - lo,
{
    if at != lo {
        lemma_stands_behind(s, lo + be32(s, lo), hi, at);
    }
}

proof fn lemma_name(s: Seq<u8>, at: int)
    ensures
        bears(s, at, 'm', 'o', 'o', 'v') == (be32(s, at + 4) == 0x6d6f_6f76),
        bears(s, at, 't', 'r', 'a', 'k') == (be32(s, at + 4) == 0x7472_616b),
        bears(s, at, 't', 'k', 'h', 'd') == (be32(s, at + 4) == 0x746b_6864),
{
    let a = s[at + 4];
    let b = s[at + 5];
    let c = s[at + 6];
    let d = s[at + 7];
    assert('m' as u8 == 0x6d && 'o' as u8 == 0x6f && 'v' as u8 == 0x76 && 't' as u8 == 0x74);
    assert('r' as u8 == 0x72 && 'a' as u8 == 0x61 && 'k' as u8 == 0x6b && 'h' as u8 == 0x68);
    assert('d' as u8 == 0x64);
}

/// Every track header counts: where a whole header stands in a track of the first movie box, its
/// width and height, which are the whole parts of its last two numbers, have no larger area than
/// the dimensions that are given, and dimensions are given where neither is zero.
pub proof fn law_every_track_header_counts(data: Seq<u8>, movie: int, track: int, head: int)
    requires
        stands_in(data, 0, data.len() as int, movie),
        bears(data, movie, 'm', 'o', 'o', 'v'),
        forall|k: int| #[trigger]
            stands_in(data, 0, data.len() as int, k) && bears(data, k, 'm', 'o', 'o', 'v') ==> movie
                <= k,
        held_by(data, movie, track),
        bears(data, track, 't', 'r', 'a', 'k'),
        held_by(data, track, head),
        bears(data, head, 't', 'k', 'h', 'd'),
        be32(data, head) >= 16,
    ensures
        ({
            let end = head + be32(data, head);
            let width = whole_part(data, end - 8);
            let height = whole_part(data, end - 4);
            &&& dimensions_of(data) matches Some(best) ==> width * height <= best.0 * best.1
            &&& width > 0 && height > 0 ==> dimensions_of(data) is Some
        }),
{
    let len = data.len() as int;
    let end = head + be32(data, head);
    let size = (whole_part(data, end - 8), whole_part(data, end - 4));
    lemma_whole_part(data, end - 8);
    lemma_whole_part(data, end - 4);
    lemma_name(data, movie);
    lemma_name(data, track);
    lemma_name(data, head);
    assert forall|k: int| #[trigger]
        stands_in(data, 0, len, k) && be32(data, k + 4) == MOOV as nat implies movie <= k by {
        lemma_name(data, k);
    }
    lemma_row_finds(data, 0, len, movie, MOOV as nat);
    let own = header_size(data, head + 8, end);
    assert(own[0] == size);
    assert(own.contains(size));
    lemma_row_measures(data, track + 8, track + be32(data, track), head, size);
    lemma_row_measures(data, movie + 8, movie + be32(data, movie), track, size);
    law_video_track_is_the_largest(data, movie + 8, movie + be32(data, movie));
    let sizes = track_sizes(data, movie + 8, movie + be32(data, movie));
    let i = choose|i: int| 0 <= i < sizes.len() && sizes[i] == size;
    assert(area(sizes[i]) == size.0 * size.1);
}

/// Whether a size is what a track header says that ends at `end`.
pub open spec fn said_at(s: Seq<u8>, size: (int, int), at: int, end: int) -> bool {
    &&& at + 16 <= end
    &&& bears(s, at, 't', 'k', 'h', 'd')
    &&& size == (whole_part(s, end - 8), whole_part(s, end - 4))
}

/// Whether a size is what some track header says.
pub open spec fn is_said(s: Seq<u8>, size: (int, int)) -> bool {
    exists|at: int, end: int| #[trigger] said_at(s, size, at, end)
}

proof fn lemma_box_sizes_said(s: Seq<u8>, code: nat, at: int, lo: int, hi: int)
    requires
        0 <= at,
        at + 8 <= lo,
        hi <= s.len(),
        code == be32(s, at + 4),
    ensures
        forall|i: int|
            0 <= i < box_sizes(s, code, lo, hi).len() ==> is_said(
                s,
                #[trigger] box_sizes(s, code, lo, hi)[i],
            ),
    decreases span(lo, hi), 1int,
{
    let all = box_sizes(s, code, lo, hi);
    if code == TRAK || code == MDIA || code == MINF {
        lemma_track_sizes_said(s, lo, hi);
        assert(all == track_sizes(s, lo, hi));
    } else if code == TKHD && hi >= lo + 8 {
        lemma_name(s, at);
        lemma_whole_part(s, hi - 8);
        lemma_whole_part(s, hi - 4);
        assert(all == header_size(s, lo, hi));
        assert(said_at(s, all[0], at, hi));
        assert(is_said(s, all[0]));
    } else {
        assert(all.len() == 0);
    }
}

proof fn lemma_track_sizes_said(s: Seq<u8>, lo: int, hi: int)
    requires
        hi <= s.len(),
    ensures
        forall|i: int|
            0 <= i < track_sizes(s, lo, hi).len() ==> is_said(
                s,
                #[trigger] track_sizes(s, lo, hi)[i],
            ),
    decreases span(lo, hi), 0int,
{
    if 0 <= lo && lo + 8 <= hi {
        if let Some(h) = header_of(s, lo) {
            if h.content > lo {
                let t = s.skip(lo);
                let next = smaller(lo + h.size, hi);
                let here = box_sizes(s, h.code, h.content, next);
                let rest = if h.size <= 0 {
                    Seq::empty()
                } else {
                    track_sizes(s, lo + h.size, hi)
                };
                assert(t[4] == s[lo + 4] && t[5] == s[lo + 5] && t[6] == s[lo + 6] && t[7] == s[lo
                    + 7]);
                lemma_box_sizes_said(s, h.code, lo, h.content, next);
                if h.size > 0 {
                    lemma_track_sizes_said(s, lo + h.size, hi);
                }
                let all = track_sizes(s, lo, hi);
                assert(all == here + rest);
                assert forall|i: int| 0 <= i < all.len() implies is_said(s, #[trigger] all[i]) by {
                    if i < here.len() {
                        assert(all[i] == here[i]);
                    } else {
                        assert(all[i] == rest[i - here.len()]);
                    }
                }
            }
        }
    }
}

/// The dimensions that are given are what a track header of the file says: the whole parts of the
/// last two numbers of a box with that name.
pub proof fn law_dimensions_are_said_by_a_track_header(data: Seq<u8>)
    ensures
        dimensions_of(data) matches Some(size) ==> is_said(data, size),
{
    if let Some((lo, hi)) = content_of(data, 0, data.len() as int, MOOV as nat) {
        lemma_content_bounds(data, 0, data.len() as int, MOOV as nat);
        law_video_track_is_the_largest(data, lo, hi);
        lemma_track_sizes_said(data, lo, hi);
        if let Some(size) = dimensions_of(data) {
            let sizes = track_sizes(data, lo, hi);
            let i = choose|i: int| 0 <= i < sizes.len() && sizes[i] == size;
            assert(is_said(data, sizes[i]));
        }
    }
}

} // verus!
