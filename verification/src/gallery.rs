//! The posters to choose from: which of them to fetch, and which one is shown enlarged.

use crate::artwork::{DecodedImage, PixelsView};
use crate::form::{caption_text, size_caption};
use crate::model::{Artwork, ArtworkView};
use crate::worker::{pixels, Request, RequestView};
use vstd::prelude::*;

verus! {

/// What is shown enlarged.
#[derive(Clone, Copy, Debug, PartialEq, Eq, Structural)]
pub enum Lightbox {
    /// The poster of this index.
    Tmdb(usize),
    /// The current cover.
    CurrentCover,
}

/// A poster in the grid: the picture once it is there, and the caption with its size.
#[derive(Debug)]
pub struct Poster {
    pub image: Option<DecodedImage>,
    pub size: String,
}

/// A poster in the grid, in mathematical terms.
pub struct PosterView {
    pub image: Option<PixelsView>,
    pub size: Seq<char>,
}

impl DeepView for Poster {
    type V = PosterView;

    open spec fn deep_view(&self) -> PosterView {
        PosterView { image: pixels(self.image), size: self.size@ }
    }
}

/// The posters to choose from, and the one that is shown enlarged.
#[derive(Debug)]
pub struct Gallery {
    pub posters: Vec<Poster>,
    /// Which posters have been asked for.
    pub thumb_requested: Vec<bool>,
    /// The enlarged posters that are there.
    pub full_images: Vec<Option<DecodedImage>>,
    /// Which enlarged posters have been asked for.
    pub full_requested: Vec<bool>,
    /// What is shown enlarged, if anything.
    pub lightbox: Option<Lightbox>,
    /// The picture that is shown enlarged, once it is there.
    pub picture: Option<DecodedImage>,
    /// Whether it is there.
    pub loaded: bool,
}

/// The posters to choose from, in mathematical terms.
pub struct GalleryView {
    pub posters: Seq<PosterView>,
    pub thumb_requested: Seq<bool>,
    pub full_images: Seq<Option<PixelsView>>,
    pub full_requested: Seq<bool>,
    pub lightbox: Option<Lightbox>,
    pub picture: Option<PixelsView>,
    pub loaded: bool,
}

/// The pixels of pictures.
pub open spec fn all_pixels(list: Seq<Option<DecodedImage>>) -> Seq<Option<PixelsView>> {
    list.map_values(|p: Option<DecodedImage>| pixels(p))
}

impl View for Gallery {
    type V = GalleryView;

    open spec fn view(&self) -> GalleryView {
        GalleryView {
            posters: self.posters.deep_view(),
            thumb_requested: self.thumb_requested@,
            full_images: all_pixels(self.full_images@),
            full_requested: self.full_requested@,
            lightbox: self.lightbox,
            picture: pixels(self.picture),
            loaded: self.loaded,
        }
    }
}

/// A copy of a picture.
pub fn copy_image(p: &DecodedImage) -> (r: DecodedImage)
    ensures
        r@ == p@,
{
    let mut rgba: Vec<u8> = Vec::new();
    rgba.extend_from_slice(p.rgba.as_slice());
    assert(rgba@ =~= p.rgba@);
    DecodedImage { width: p.width, height: p.height, rgba }
}

// ---------------------------------------------------------------------------
// Which posters are in sight
// ---------------------------------------------------------------------------

/// A row, or the first one.
pub open spec fn row_from(row: i32) -> int {
    if row < 0 {
        0
    } else {
        row as int
    }
}

/// The first and the last index that rows of the grid cover, of `count` posters; none where they
/// cover no poster.
pub open spec fn index_range(first_row: i32, last_row: i32, columns: i32, count: nat) -> Option<
    (int, int),
> {
    if columns < 1 || count == 0 || row_from(first_row) * columns >= count {
        None
    } else {
        let end = (row_from(last_row) + 1) * columns - 1;
        Some(
            (
                row_from(first_row) * columns,
                if end < count - 1 {
                    end
                } else {
                    count - 1
                },
            ),
        )
    }
}

/// The first and the last index that rows of the grid cover, of `count` posters; none where they
/// cover no poster.
pub fn visible_index_range(first_row: i32, last_row: i32, columns: i32, count: usize) -> (r: Option<
    (usize, usize),
>)
    ensures
        match index_range(first_row, last_row, columns, count as nat) {
            Some((first, last)) => r matches Some((f, l)) && f == first && l == last,
            None => r is None,
        },
{
    if columns < 1 || count == 0 {
        return None;
    }
    let top: u64 = if first_row < 0 {
        0
    } else {
        first_row as u64
    };
    let bottom: u64 = if last_row < 0 {
        0
    } else {
        last_row as u64
    };
    assert(top * columns as u64 <= 0x7fff_ffff * 0x7fff_ffff) by (nonlinear_arith)
        requires
            top <= 0x7fff_ffff,
            1 <= columns <= 0x7fff_ffff,
    ;
    assert((bottom + 1) * columns as u64 <= 0x8000_0000 * 0x7fff_ffff) by (nonlinear_arith)
        requires
            bottom <= 0x7fff_ffff,
            1 <= columns <= 0x7fff_ffff,
    ;
    assert((bottom + 1) * columns as u64 >= 1) by (nonlinear_arith)
        requires
            bottom >= 0,
            1 <= columns,
    ;
    assert(top * columns as u64 == row_from(first_row) * columns);
    assert((bottom + 1) * columns as u64 == (row_from(last_row) + 1) * columns);
    let first: u64 = top * columns as u64;
    if first >= count as u64 {
        return None;
    }
    let end: u64 = (bottom + 1) * columns as u64 - 1;
    let last: u64 = if end < count as u64 - 1 {
        end
    } else {
        count as u64 - 1
    };
    Some((first as usize, last as usize))
}

/// Whether a poster has been asked for; one that does not exist counts as asked for.
pub open spec fn asked_for(requested: Seq<bool>, i: int) -> bool {
    if 0 <= i < requested.len() {
        requested[i]
    } else {
        true
    }
}

/// Where the poster of the grid is to be had.
pub open spec fn thumb_address(a: ArtworkView) -> Seq<char> {
    match a.thumb_url {
        Some(t) => t,
        None => a.url,
    }
}

/// The requests for the posters from `first` up to `end` that have not been asked for.
pub open spec fn thumb_requests(
    artwork: Seq<ArtworkView>,
    requested: Seq<bool>,
    first: int,
    end: int,
) -> Seq<RequestView>
    decreases end - first,
{
    if first >= end {
        Seq::empty()
    } else {
        let before = thumb_requests(artwork, requested, first, end - 1);
        if asked_for(requested, end - 1) {
            before
        } else {
            before.push(
                RequestView::FetchThumb {
                    index: (end - 1) as usize,
                    url: thumb_address(artwork[end - 1]),
                },
            )
        }
    }
}

/// The requests for the posters in rows of the grid that have not been asked for.
pub open spec fn row_requests(
    artwork: Seq<ArtworkView>,
    requested: Seq<bool>,
    first_row: i32,
    last_row: i32,
    columns: i32,
) -> Seq<RequestView> {
    match index_range(first_row, last_row, columns, artwork.len()) {
        Some((first, last)) => thumb_requests(artwork, requested, first, last + 1),
        None => Seq::empty(),
    }
}

/// Which posters have been asked for, after those in rows of the grid have.
pub open spec fn rows_requested(
    requested: Seq<bool>,
    first_row: i32,
    last_row: i32,
    columns: i32,
    count: nat,
) -> Seq<bool> {
    match index_range(first_row, last_row, columns, count) {
        Some((first, last)) => Seq::new(
            requested.len(),
            |i: int| requested[i] || first <= i <= last,
        ),
        None => requested,
    }
}

/// The caption of a poster.
pub open spec fn artwork_size(a: ArtworkView) -> Option<(u32, u32)> {
    match (a.width, a.height) {
        (Some(w), Some(h)) => Some((w, h)),
        _ => None,
    }
}

/// The grid for pictures of which none is there yet.
pub open spec fn waiting(artwork: Seq<ArtworkView>) -> Seq<PosterView> {
    artwork.map_values(
        |a: ArtworkView| PosterView { image: None, size: caption_text(artwork_size(a)) },
    )
}

/// The gallery for new pictures: none is there, none has been asked for, and nothing is shown
/// enlarged.
pub open spec fn rebuilt(g: GalleryView, artwork: Seq<ArtworkView>) -> GalleryView {
    GalleryView {
        posters: waiting(artwork),
        thumb_requested: Seq::new(artwork.len(), |i: int| false),
        full_images: Seq::new(artwork.len(), |i: int| None),
        full_requested: Seq::new(artwork.len(), |i: int| false),
        lightbox: None,
        picture: g.picture,
        loaded: g.loaded,
    }
}

/// A list that says no for each picture.
fn no_for_each(n: usize) -> (r: Vec<bool>)
    ensures
        r@ == Seq::new(n as nat, |i: int| false),
{
    let mut out: Vec<bool> = Vec::new();
    let mut i: usize = 0;
    while i < n
        invariant
            i <= n,
            out@ =~= Seq::new(i as nat, |k: int| false),
        decreases n - i,
    {
        out.push(false);
        i += 1;
    }
    out
}

/// No gallery.
pub open spec fn no_gallery() -> GalleryView {
    GalleryView {
        posters: Seq::empty(),
        thumb_requested: Seq::empty(),
        full_images: Seq::empty(),
        full_requested: Seq::empty(),
        lightbox: None,
        picture: None,
        loaded: false,
    }
}

/// What is shown enlarged after the poster of an index was chosen for it.
pub open spec fn enlarged(g: GalleryView, index: int) -> GalleryView {
    let there = 0 <= index < g.full_images.len() && g.full_images[index] is Some;
    GalleryView {
        lightbox: Some(Lightbox::Tmdb(index as usize)),
        picture: if there {
            g.full_images[index]
        } else {
            g.picture
        },
        loaded: there,
        ..g
    }
}

impl Gallery {
    /// A gallery without posters.
    pub fn empty() -> (r: Gallery)
        ensures
            r@ == no_gallery(),
    {
        let r = Gallery {
            posters: Vec::new(),
            thumb_requested: Vec::new(),
            full_images: Vec::new(),
            full_requested: Vec::new(),
            lightbox: None,
            picture: None,
            loaded: false,
        };
        assert(r.posters.deep_view() =~= Seq::<PosterView>::empty());
        assert(all_pixels(r.full_images@) =~= Seq::<Option<PixelsView>>::empty());
        r
    }

    /// Takes up new pictures.
    pub fn rebuild(&mut self, artwork: &Vec<Artwork>)
        ensures
            final(self)@ == rebuilt(old(self)@, artwork.deep_view()),
    {
        let ghost all = waiting(artwork.deep_view());
        let mut posters: Vec<Poster> = Vec::new();
        let mut full: Vec<Option<DecodedImage>> = Vec::new();
        let mut i: usize = 0;
        assert(posters.deep_view() =~= all.take(0));
        while i < artwork.len()
            invariant
                i <= artwork@.len(),
                all == waiting(artwork.deep_view()),
                posters.deep_view() == all.take(i as int),
                full@.len() == i,
                forall|k: int| 0 <= k < i ==> #[trigger] full@[k] is None,
            decreases artwork@.len() - i,
        {
            let ghost before = posters.deep_view();
            let a = &artwork[i];
            assert(artwork.deep_view()[i as int] == a.deep_view());
            let size: Option<(u32, u32)> = match (a.width, a.height) {
                (Some(w), Some(h)) => Some((w, h)),
                _ => None,
            };
            posters.push(Poster { image: None, size: size_caption(size) });
            full.push(None);
            assert(posters.deep_view() =~= before.push(all[i as int]));
            assert(all.take(i + 1) =~= all.take(i as int).push(all[i as int]));
            i += 1;
        }
        assert(all.take(all.len() as int) =~= all);
        assert(all_pixels(full@) =~= Seq::new(artwork@.len(), |i: int| None));
        self.posters = posters;
        self.thumb_requested = no_for_each(artwork.len());
        self.full_images = full;
        self.full_requested = no_for_each(artwork.len());
        self.lightbox = None;
    }

    /// Asks for the posters in rows of the grid that have not been asked for.
    pub fn request_visible_thumbs(
        &mut self,
        artwork: &Vec<Artwork>,
        first_row: i32,
        last_row: i32,
        columns: i32,
    ) -> (r: Vec<Request>)
        ensures
            r.deep_view() == row_requests(
                artwork.deep_view(),
                old(self)@.thumb_requested,
                first_row,
                last_row,
                columns,
            ),
            final(self)@ == (GalleryView {
                thumb_requested: rows_requested(
                    old(self)@.thumb_requested,
                    first_row,
                    last_row,
                    columns,
                    artwork@.len(),
                ),
                ..old(self)@
            }),
    {
        let mut out: Vec<Request> = Vec::new();
        assert(out.deep_view() =~= Seq::<RequestView>::empty());
        let (first, last) = match visible_index_range(
            first_row,
            last_row,
            columns,
            artwork.len(),
        ) {
            Some(range) => range,
            None => return out,
        };
        let ghost start = self@;
        let ghost before = self.thumb_requested@;
        let ghost pics = artwork.deep_view();
        let n: usize = artwork.len();
        let mut i: usize = first;
        while i <= last
            invariant
                n == artwork@.len(),
                first <= i <= n,
                i <= last + 1 || i == first,
                last < artwork@.len(),
                pics == artwork.deep_view(),
                start == (GalleryView { thumb_requested: before, ..self@ }),
                self.thumb_requested@.len() == before.len(),
                forall|k: int|
                    0 <= k < before.len() ==> #[trigger] self.thumb_requested@[k] == (before[k]
                        || first <= k < i),
                out.deep_view() == thumb_requests(pics, before, first as int, i as int),
            decreases last + 1 - i,
        {
            let ghost sent = out.deep_view();
            let known = if i < self.thumb_requested.len() {
                self.thumb_requested[i]
            } else {
                true
            };
            assert(known == asked_for(before, i as int));
            if !known {
                let a = &artwork[i];
                assert(pics[i as int] == a.deep_view());
                let url = match &a.thumb_url {
                    Some(t) => t.clone(),
                    None => a.url.clone(),
                };
                let ghost ask = RequestView::FetchThumb { index: i, url: url@ };
                out.push(Request::FetchThumb { index: i, url });
                assert(out.deep_view() =~= sent.push(ask));
                self.thumb_requested.set(i, true);
            }
            i += 1;
        }
        proof {
            if last < first {
                assert(i == first);
                assert(thumb_requests(pics, before, first as int, last + 1) =~= thumb_requests(
                    pics,
                    before,
                    first as int,
                    first as int,
                ));
            }
            assert(self.thumb_requested@ =~= rows_requested(
                before,
                first_row,
                last_row,
                columns,
                artwork@.len(),
            ));
        }
        out
    }

    /// Puts a poster into the grid; one of an index that does not exist is dropped.
    pub fn place_thumb(&mut self, index: usize, image: DecodedImage)
        ensures
            final(self)@ == (if index < old(self)@.posters.len() {
                GalleryView {
                    posters: old(self)@.posters.update(
                        index as int,
                        PosterView { image: Some(image@), size: old(self)@.posters[index as int].size },
                    ),
                    ..old(self)@
                }
            } else {
                old(self)@
            }),
    {
        assert(self.posters.deep_view().len() == self.posters@.len());
        if index < self.posters.len() {
            let ghost before = self.posters.deep_view();
            assert(before[index as int] == self.posters@[index as int].deep_view());
            let size = self.posters[index].size.clone();
            let p = Poster { image: Some(image), size };
            let ghost new = p.deep_view();
            self.posters.set(index, p);
            assert(self.posters.deep_view() =~= before.update(index as int, new));
        }
    }

    /// Keeps an enlarged poster, and shows it where it is waited for.
    pub fn place_full(&mut self, index: usize, image: DecodedImage)
        ensures
            final(self)@ == ({
                let g = old(self)@;
                let waited = g.lightbox == Some(Lightbox::Tmdb(index));
                GalleryView {
                    full_images: if index < g.full_images.len() {
                        g.full_images.update(index as int, Some(image@))
                    } else {
                        g.full_images
                    },
                    picture: if waited {
                        Some(image@)
                    } else {
                        g.picture
                    },
                    loaded: if waited {
                        true
                    } else {
                        g.loaded
                    },
                    ..g
                }
            }),
    {
        let waited = match self.lightbox {
            Some(Lightbox::Tmdb(i)) => i == index,
            _ => false,
        };
        if waited {
            self.picture = Some(copy_image(&image));
            self.loaded = true;
        }
        if index < self.full_images.len() {
            let ghost before = all_pixels(self.full_images@);
            let ghost new = image@;
            self.full_images.set(index, Some(image));
            assert(all_pixels(self.full_images@) =~= before.update(index as int, Some(new)));
        }
    }

    /// Shows the poster of an index enlarged, and asks for it where it is neither there nor has
    /// been asked for.
    pub fn open(&mut self, index: usize, url: Option<String>) -> (r: Option<Request>)
        ensures
            ({
                let g = enlarged(old(self)@, index as int);
                let ask = !g.loaded && !asked_for(g.full_requested, index as int) && url is Some;
                &&& final(self)@ == (GalleryView {
                    full_requested: if ask {
                        g.full_requested.update(index as int, true)
                    } else {
                        g.full_requested
                    },
                    ..g
                })
                &&& r.deep_view() == (if ask {
                    Some(RequestView::FetchFullImage { index, url: url.unwrap()@ })
                } else {
                    None
                })
            }),
    {
        let cached: Option<DecodedImage> = if index < self.full_images.len() {
            match &self.full_images[index] {
                Some(p) => Some(copy_image(p)),
                None => None,
            }
        } else {
            None
        };
        let known = if index < self.full_requested.len() {
            self.full_requested[index]
        } else {
            true
        };
        self.lightbox = Some(Lightbox::Tmdb(index));
        match cached {
            Some(p) => {
                self.picture = Some(p);
                self.loaded = true;
                None
            },
            None => {
                self.loaded = false;
                match url {
                    Some(u) => if !known {
                        self.full_requested.set(index, true);
                        Some(Request::FetchFullImage { index, url: u })
                    } else {
                        None
                    },
                    None => None,
                }
            },
        }
    }
}

// ---------------------------------------------------------------------------
// Laws
// ---------------------------------------------------------------------------

proof fn lemma_nothing_left(
    artwork: Seq<ArtworkView>,
    requested: Seq<bool>,
    first: int,
    end: int,
)
    requires
        forall|i: int| first <= i < end ==> asked_for(requested, i),
    ensures
        thumb_requests(artwork, requested, first, end) == Seq::<RequestView>::empty(),
    decreases end - first,
{
    if first < end {
        lemma_nothing_left(artwork, requested, first, end - 1);
        assert(asked_for(requested, end - 1));
    }
}

/// No poster is asked for twice: rows that were asked for once ask for nothing more.
pub proof fn law_thumbs_are_asked_for_once(
    artwork: Seq<ArtworkView>,
    requested: Seq<bool>,
    first_row: i32,
    last_row: i32,
    columns: i32,
)
    ensures
        row_requests(
            artwork,
            rows_requested(requested, first_row, last_row, columns, artwork.len()),
            first_row,
            last_row,
            columns,
        ) == Seq::<RequestView>::empty(),
{
    let after = rows_requested(requested, first_row, last_row, columns, artwork.len());
    if let Some((first, last)) = index_range(first_row, last_row, columns, artwork.len()) {
        lemma_nothing_left(artwork, after, first, last + 1);
    }
}

/// The indices that rows cover are those of posters, and each row covers its own.
pub proof fn law_visible_range_is_within(
    first_row: i32,
    last_row: i32,
    columns: i32,
    count: nat,
    row: int,
    column: int,
)
    requires
        row_from(first_row) <= row <= row_from(last_row),
        0 <= column < columns,
        row * columns + column < count,
    ensures
        index_range(first_row, last_row, columns, count) matches Some((first, last)) && first <= row
            * columns + column <= last && last < count,
{
    let top = row_from(first_row);
    let bottom = row_from(last_row);
    assert(top * columns <= row * columns) by (nonlinear_arith)
        requires
            top <= row,
            columns > 0,
    ;
    assert(row * columns + column <= (bottom + 1) * columns - 1) by (nonlinear_arith)
        requires
            row <= bottom,
            0 <= column < columns,
    ;
}

/// The indices that rows cover are exactly those of the posters in these rows: a poster is covered
/// where its row, its index divided by the number of columns, is one of them.
pub proof fn law_covered_posters_are_in_the_rows(
    first_row: i32,
    last_row: i32,
    columns: i32,
    count: nat,
    i: int,
)
    requires
        0 < columns,
        0 <= i < count,
    ensures
        (index_range(first_row, last_row, columns, count) matches Some((first, last)) && first <= i
            <= last) == (first_row <= i / columns as int && (i / columns as int <= last_row || i
            / columns as int == 0)),
{
    let row = i / columns as int;
    let column = i % columns as int;
    assert(i == row * columns + column && 0 <= column < columns && 0 <= row) by (nonlinear_arith)
        requires
            row == i / columns as int,
            column == i % columns as int,
            0 < columns,
            0 <= i,
    ;
    let top = row_from(first_row);
    let bottom = row_from(last_row);
    if top <= row <= bottom {
        law_visible_range_is_within(first_row, last_row, columns, count, row, column);
    } else if row < top {
        assert(row * columns + column < top * columns) by (nonlinear_arith)
            requires
                row + 1 <= top,
                0 <= column < columns,
        ;
    } else {
        assert((bottom + 1) * columns - 1 < row * columns) by (nonlinear_arith)
            requires
                bottom + 1 <= row,
                0 < columns,
        ;
    }
}

/// Whether a request is for the small picture of a poster: under the address of its small picture
/// where it has one, else under its own.
pub open spec fn fetches(r: RequestView, artwork: Seq<ArtworkView>, i: int) -> bool {
    r matches RequestView::FetchThumb { index, url } && index == i && (artwork[i].thumb_url is Some
        ==> url == artwork[i].thumb_url.unwrap()) && (artwork[i].thumb_url is None ==> url
        == artwork[i].url)
}

proof fn lemma_requests_fetch(
    artwork: Seq<ArtworkView>,
    requested: Seq<bool>,
    first: int,
    end: int,
)
    requires
        0 <= first,
        end <= artwork.len(),
        artwork.len() <= usize::MAX,
    ensures
        ({
            let all = thumb_requests(artwork, requested, first, end);
            &&& forall|i: int|
                first <= i < end && i < requested.len() && !#[trigger] requested[i] ==> exists|
                    k: int,
                |
                    0 <= k < all.len() && fetches(#[trigger] all[k], artwork, i)
            &&& forall|k: int|
                0 <= k < all.len() ==> exists|i: int|
                    first <= i < end && i < requested.len() && !#[trigger] requested[i] && fetches(
                        #[trigger] all[k],
                        artwork,
                        i,
                    )
        }),
    decreases end - first,
{
    if first < end {
        lemma_requests_fetch(artwork, requested, first, end - 1);
        let before = thumb_requests(artwork, requested, first, end - 1);
        let all = thumb_requests(artwork, requested, first, end);
        assert forall|i: int|
            first <= i < end && i < requested.len() && !#[trigger] requested[i] implies exists|
            k: int,
        | 0 <= k < all.len() && fetches(#[trigger] all[k], artwork, i) by {
            if i < end - 1 {
                let k = choose|k: int|
                    0 <= k < before.len() && fetches(#[trigger] before[k], artwork, i);
                assert(all[k] == before[k]);
            } else {
                assert(fetches(all.last(), artwork, i));
            }
        }
        assert forall|k: int| 0 <= k < all.len() implies exists|i: int|
            first <= i < end && i < requested.len() && !#[trigger] requested[i] && fetches(
                #[trigger] all[k],
                artwork,
                i,
            ) by {
            if k < before.len() {
                assert(all[k] == before[k]);
            } else {
                assert(!requested[end - 1]);
                assert(fetches(all[k], artwork, end - 1));
            }
        }
    }
}

/// Every poster in the rows that was not asked for yet is asked for, under its own index and its
/// own address, and no other is.
pub proof fn law_rows_ask_for_what_is_missing(
    artwork: Seq<ArtworkView>,
    requested: Seq<bool>,
    first_row: i32,
    last_row: i32,
    columns: i32,
    i: int,
)
    requires
        0 < columns,
        0 <= i < artwork.len(),
        requested.len() == artwork.len(),
        artwork.len() <= usize::MAX,
    ensures
        ({
            let row = i / columns as int;
            let all = row_requests(artwork, requested, first_row, last_row, columns);
            let shown = first_row <= row && (row <= last_row || row == 0);
            &&& shown && !requested[i] ==> exists|k: int|
                0 <= k < all.len() && fetches(#[trigger] all[k], artwork, i)
            &&& !shown || requested[i] ==> forall|k: int|
                0 <= k < all.len() ==> !fetches(#[trigger] all[k], artwork, i)
            &&& rows_requested(requested, first_row, last_row, columns, artwork.len())[i] == (
            requested[i] || shown)
        }),
{
    law_covered_posters_are_in_the_rows(first_row, last_row, columns, artwork.len(), i);
    let all = row_requests(artwork, requested, first_row, last_row, columns);
    if let Some((first, last)) = index_range(first_row, last_row, columns, artwork.len()) {
        lemma_range_is_inside(first_row, last_row, columns, artwork.len());
        lemma_requests_fetch(artwork, requested, first, last + 1);
        assert forall|k: int| 0 <= k < all.len() && fetches(
            #[trigger] all[k],
            artwork,
            i,
        ) implies first <= i <= last && !requested[i] by {
            let j = choose|j: int|
                first <= j < last + 1 && j < requested.len() && !#[trigger] requested[j] && fetches(
                    all[k],
                    artwork,
                    j,
                );
            assert(i == j);
        }
    }
}

proof fn lemma_range_is_inside(first_row: i32, last_row: i32, columns: i32, count: nat)
    ensures
        index_range(first_row, last_row, columns, count) matches Some((first, last)) ==> 0 <= first
            && last < count,
{
    if columns >= 1 {
        let top = row_from(first_row);
        assert(top * columns >= 0) by (nonlinear_arith)
            requires
                top >= 0,
                columns >= 1,
        ;
    }
}

/// A new gallery has a poster without a picture for each one that is offered, with its dimensions
/// for a caption. Nothing in it has been asked for or is shown enlarged.
pub proof fn law_new_gallery_waits_for_its_pictures(g: GalleryView, artwork: Seq<ArtworkView>, i: int)
    requires
        0 <= i < artwork.len(),
    ensures
        ({
            let r = rebuilt(g, artwork);
            &&& r.posters.len() == artwork.len() && r.thumb_requested.len() == artwork.len()
            &&& r.full_images.len() == artwork.len() && r.full_requested.len() == artwork.len()
            &&& r.posters[i].image is None
            &&& artwork[i].width is Some && artwork[i].height is Some ==> r.posters[i].size
                == caption_text(Some((artwork[i].width.unwrap(), artwork[i].height.unwrap())))
            &&& artwork[i].width is None || artwork[i].height is None ==> r.posters[i].size
                == "— x —"@
            &&& !r.thumb_requested[i] && !r.full_requested[i] && r.full_images[i] is None
            &&& r.lightbox is None
            &&& r.picture == g.picture && r.loaded == g.loaded
        }),
{
}

/// Enlarging a poster shows that poster: its picture where it is there, and only then does it count
/// as there. The posters stay as they are.
pub proof fn law_enlarging_shows_the_poster(g: GalleryView, index: int)
    requires
        0 <= index <= usize::MAX,
    ensures
        ({
            let r = enlarged(g, index);
            let there = index < g.full_images.len() && g.full_images[index] is Some;
            &&& r.lightbox == Some(Lightbox::Tmdb(index as usize))
            &&& r.loaded == there
            &&& there ==> r.picture == g.full_images[index]
            &&& !there ==> r.picture == g.picture
            &&& r.posters == g.posters && r.thumb_requested == g.thumb_requested
            &&& r.full_images == g.full_images && r.full_requested == g.full_requested
        }),
{
}

proof fn lemma_requests_rise(artwork: Seq<ArtworkView>, requested: Seq<bool>, first: int, end: int)
    requires
        0 <= first,
        end <= artwork.len(),
        artwork.len() <= usize::MAX,
    ensures
        ({
            let all = thumb_requests(artwork, requested, first, end);
            &&& forall|k: int|
                0 <= k < all.len() ==> (#[trigger] all[k] matches RequestView::FetchThumb {
                    index,
                    url,
                } && first <= index < end)
            &&& forall|j: int, k: int|
                0 <= j < k < all.len() ==> index_in(#[trigger] all[j]) < index_in(#[trigger] all[k])
        }),
    decreases end - first,
{
    if first < end {
        lemma_requests_rise(artwork, requested, first, end - 1);
        let before = thumb_requests(artwork, requested, first, end - 1);
        let all = thumb_requests(artwork, requested, first, end);
        assert forall|j: int, k: int| 0 <= j < k < all.len() implies index_in(#[trigger] all[j])
            < index_in(#[trigger] all[k]) by {
            assert(all[j] == before[j]);
            if k < before.len() {
                assert(all[k] == before[k]);
            }
        }
        assert forall|k: int| 0 <= k < all.len() implies (#[trigger] all[k] matches
            RequestView::FetchThumb { index, url } && first <= index < end) by {
            if k < before.len() {
                assert(all[k] == before[k]);
            }
        }
    }
}

/// The poster that a request is for.
pub open spec fn index_in(r: RequestView) -> int {
    match r {
        RequestView::FetchThumb { index, url } => index as int,
        _ => -1,
    }
}

/// Posters are asked for from the first to the last, each at most once.
pub proof fn law_posters_are_asked_for_in_order(
    artwork: Seq<ArtworkView>,
    requested: Seq<bool>,
    first_row: i32,
    last_row: i32,
    columns: i32,
)
    requires
        artwork.len() <= usize::MAX,
    ensures
        ({
            let all = row_requests(artwork, requested, first_row, last_row, columns);
            &&& forall|k: int| 0 <= k < all.len() ==> #[trigger] all[k] is FetchThumb
            &&& forall|j: int, k: int|
                0 <= j < k < all.len() ==> index_in(#[trigger] all[j]) < index_in(#[trigger] all[k])
        }),
{
    lemma_range_is_inside(first_row, last_row, columns, artwork.len());
    if let Some((first, last)) = index_range(first_row, last_row, columns, artwork.len()) {
        lemma_requests_rise(artwork, requested, first, last + 1);
    }
}

} // verus!
