//! What the library knows about a title, whatever the source and whatever the file format.

use crate::text::{copy_list, copy_opt};
use vstd::prelude::*;

verus! {

/// Movie or television.
#[derive(Debug, Clone, Copy, PartialEq, Eq, Structural)]
pub enum MediaKind {
    Movie,
    TvShow,
}

/// The kind of video that players sort a file under.
#[derive(Debug, Clone, Copy, PartialEq, Eq, Structural)]
pub enum VideoKind {
    HomeVideo,
    Movie,
    TvShow,
    MusicVideo,
    Booklet,
}

/// The number that a `stik` atom holds for a kind of video.
pub open spec fn stik_of(k: VideoKind) -> u8 {
    match k {
        VideoKind::HomeVideo => 0,
        VideoKind::MusicVideo => 6,
        VideoKind::Movie => 9,
        VideoKind::TvShow => 10,
        VideoKind::Booklet => 11,
    }
}

/// The name of a kind of video in the menu.
pub open spec fn video_kind_label(k: VideoKind) -> Seq<char> {
    match k {
        VideoKind::HomeVideo => "Home Video"@,
        VideoKind::Movie => "Movie"@,
        VideoKind::TvShow => "TV Show"@,
        VideoKind::MusicVideo => "Music Video"@,
        VideoKind::Booklet => "Booklet"@,
    }
}

/// The kind of video that a `stik` number stands for.
pub open spec fn video_kind_of(stik: u8) -> Option<VideoKind> {
    if stik == 0 {
        Some(VideoKind::HomeVideo)
    } else if stik == 6 {
        Some(VideoKind::MusicVideo)
    } else if stik == 9 {
        Some(VideoKind::Movie)
    } else if stik == 10 {
        Some(VideoKind::TvShow)
    } else if stik == 11 {
        Some(VideoKind::Booklet)
    } else {
        None
    }
}

/// The kinds of video in menu order.
pub open spec fn video_kinds() -> Seq<VideoKind> {
    seq![
        VideoKind::Movie,
        VideoKind::TvShow,
        VideoKind::MusicVideo,
        VideoKind::HomeVideo,
        VideoKind::Booklet,
    ]
}

impl VideoKind {
    /// The number that a `stik` atom holds for this kind.
    pub fn stik(self) -> (r: u8)
        ensures
            r == stik_of(self),
    {
        match self {
            VideoKind::HomeVideo => 0,
            VideoKind::MusicVideo => 6,
            VideoKind::Movie => 9,
            VideoKind::TvShow => 10,
            VideoKind::Booklet => 11,
        }
    }

    /// The name in the menu.
    pub fn label(self) -> (r: &'static str)
        ensures
            r@ == video_kind_label(self),
    {
        match self {
            VideoKind::HomeVideo => "Home Video",
            VideoKind::Movie => "Movie",
            VideoKind::TvShow => "TV Show",
            VideoKind::MusicVideo => "Music Video",
            VideoKind::Booklet => "Booklet",
        }
    }

    /// The kinds in menu order.
    pub fn all() -> (r: Vec<VideoKind>)
        ensures
            r@ == video_kinds(),
    {
        let mut v: Vec<VideoKind> = Vec::new();
        v.push(VideoKind::Movie);
        v.push(VideoKind::TvShow);
        v.push(VideoKind::MusicVideo);
        v.push(VideoKind::HomeVideo);
        v.push(VideoKind::Booklet);
        v
    }

    /// The kind that a `stik` number stands for.
    pub fn from_stik(v: u8) -> (r: Option<VideoKind>)
        ensures
            r == video_kind_of(v),
    {
        match v {
            0 => Some(VideoKind::HomeVideo),
            6 => Some(VideoKind::MusicVideo),
            9 => Some(VideoKind::Movie),
            10 => Some(VideoKind::TvShow),
            11 => Some(VideoKind::Booklet),
            _ => None,
        }
    }
}

/// Every kind of video is read back from its `stik` number, no other number stands for a kind,
/// and the menu holds every kind once.
pub proof fn law_stik_round_trip(k: VideoKind, n: u8)
    ensures
        video_kind_of(stik_of(k)) == Some(k),
        video_kind_of(n) == Some(k) ==> stik_of(k) == n,
        exists|i: int| 0 <= i < video_kinds().len() && #[trigger] video_kinds()[i] == k,
        forall|i: int, j: int|
            0 <= i < j < video_kinds().len() ==> #[trigger] video_kinds()[i]
                != #[trigger] video_kinds()[j],
{
    let all = video_kinds();
    assert(all[0] == VideoKind::Movie && all[1] == VideoKind::TvShow && all[2]
        == VideoKind::MusicVideo && all[3] == VideoKind::HomeVideo && all[4]
        == VideoKind::Booklet);
}

/// How fine the picture is.
#[derive(Debug, Clone, Copy, PartialEq, Eq, Structural)]
pub enum Definition {
    Sd,
    Hd720,
    Hd1080,
    Uhd4k,
}

/// The number that an `hdvd` atom holds for a definition.
pub open spec fn hdvd_of(d: Definition) -> u8 {
    match d {
        Definition::Sd => 0,
        Definition::Hd720 => 1,
        Definition::Hd1080 => 2,
        Definition::Uhd4k => 3,
    }
}

/// The name of a definition in the menu.
pub open spec fn definition_label(d: Definition) -> Seq<char> {
    match d {
        Definition::Sd => "SD"@,
        Definition::Hd720 => "HD 720p"@,
        Definition::Hd1080 => "HD 1080p"@,
        Definition::Uhd4k => "4K"@,
    }
}

/// The definition that an `hdvd` number stands for.
pub open spec fn definition_of(hdvd: u8) -> Option<Definition> {
    if hdvd == 0 {
        Some(Definition::Sd)
    } else if hdvd == 1 {
        Some(Definition::Hd720)
    } else if hdvd == 2 {
        Some(Definition::Hd1080)
    } else if hdvd == 3 {
        Some(Definition::Uhd4k)
    } else {
        None
    }
}

/// The definitions in menu order.
pub open spec fn definitions() -> Seq<Definition> {
    seq![Definition::Sd, Definition::Hd720, Definition::Hd1080, Definition::Uhd4k]
}

/// The finest master that a picture of this size cannot have come from is one whose lines or
/// columns it exceeds; the long edge counts as the width.
pub open spec fn definition_for(width: u32, height: u32) -> Definition {
    let long = if width >= height {
        width
    } else {
        height
    };
    let short = if width >= height {
        height
    } else {
        width
    };
    if short > 1080 || long > 1920 {
        Definition::Uhd4k
    } else if short > 720 || long > 1280 {
        Definition::Hd1080
    } else if short > 576 || long > 1024 {
        Definition::Hd720
    } else {
        Definition::Sd
    }
}

impl Definition {
    /// The number that an `hdvd` atom holds for this definition.
    pub fn hdvd(self) -> (r: u8)
        ensures
            r == hdvd_of(self),
    {
        match self {
            Definition::Sd => 0,
            Definition::Hd720 => 1,
            Definition::Hd1080 => 2,
            Definition::Uhd4k => 3,
        }
    }

    /// The name in the menu.
    pub fn label(self) -> (r: &'static str)
        ensures
            r@ == definition_label(self),
    {
        match self {
            Definition::Sd => "SD",
            Definition::Hd720 => "HD 720p",
            Definition::Hd1080 => "HD 1080p",
            Definition::Uhd4k => "4K",
        }
    }

    /// The definitions in menu order.
    pub fn all() -> (r: Vec<Definition>)
        ensures
            r@ == definitions(),
    {
        let mut v: Vec<Definition> = Vec::new();
        v.push(Definition::Sd);
        v.push(Definition::Hd720);
        v.push(Definition::Hd1080);
        v.push(Definition::Uhd4k);
        v
    }

    /// The definition that an `hdvd` number stands for.
    pub fn from_hdvd(v: u8) -> (r: Option<Definition>)
        ensures
            r == definition_of(v),
    {
        match v {
            0 => Some(Definition::Sd),
            1 => Some(Definition::Hd720),
            2 => Some(Definition::Hd1080),
            3 => Some(Definition::Uhd4k),
            _ => None,
        }
    }

    /// The definition of a video track with these pixel dimensions. Cropping only ever takes
    /// lines away from a master, so each tier is a ceiling on the lines, and on the columns for
    /// the widest crops.
    pub fn from_dimensions(width: u32, height: u32) -> (r: Definition)
        ensures
            r == definition_for(width, height),
    {
        let w: u32 = if width >= height {
            width
        } else {
            height
        };
        let h: u32 = if width >= height {
            height
        } else {
            width
        };
        if h > 1080 || w > 1920 {
            Definition::Uhd4k
        } else if h > 720 || w > 1280 {
            Definition::Hd1080
        } else if h > 576 || w > 1024 {
            Definition::Hd720
        } else {
            Definition::Sd
        }
    }
}

/// Every definition is read back from its `hdvd` number, and no other number stands for one.
pub proof fn law_hdvd_round_trip(d: Definition, n: u8)
    ensures
        definition_of(hdvd_of(d)) == Some(d),
        definition_of(n) == Some(d) ==> hdvd_of(d) == n,
        definitions()[hdvd_of(d) as int] == d,
{
}

/// Turning a picture on its side does not change its definition.
pub proof fn law_definition_ignores_rotation(width: u32, height: u32)
    ensures
        definition_for(width, height) == definition_for(height, width),
{
}

/// Cropping a picture never raises its definition.
pub proof fn law_cropping_never_raises_definition(w: u32, h: u32, cropped_w: u32, cropped_h: u32)
    requires
        cropped_w <= w,
        cropped_h <= h,
    ensures
        hdvd_of(definition_for(cropped_w, cropped_h)) <= hdvd_of(definition_for(w, h)),
{
}

/// Each definition is a ceiling on the long edge and on the short one, and a picture has the lowest
/// definition whose ceilings it stays under: 1024 by 576, then 1280 by 720, then 1920 by 1080.
pub proof fn law_definitions_are_ceilings(long: u32, short: u32)
    requires
        short <= long,
    ensures
        (definition_for(long, short) == Definition::Sd) == (long <= 1024 && short <= 576),
        (definition_for(long, short) == Definition::Hd720) == (long <= 1280 && short <= 720 && !(
        long <= 1024 && short <= 576)),
        (definition_for(long, short) == Definition::Hd1080) == (long <= 1920 && short <= 1080 && !(
        long <= 1280 && short <= 720)),
        (definition_for(long, short) == Definition::Uhd4k) == (long > 1920 || short > 1080),
{
}

/// The numbers and the names of the definitions.
pub proof fn law_definitions_have_their_numbers(d: Definition)
    ensures
        d == Definition::Sd <==> hdvd_of(d) == 0,
        d == Definition::Hd720 <==> hdvd_of(d) == 1,
        d == Definition::Hd1080 <==> hdvd_of(d) == 2,
        d == Definition::Uhd4k <==> hdvd_of(d) == 3,
        d == Definition::Sd ==> definition_label(d) == "SD"@,
        d == Definition::Hd720 ==> definition_label(d) == "HD 720p"@,
        d == Definition::Hd1080 ==> definition_label(d) == "HD 1080p"@,
        d == Definition::Uhd4k ==> definition_label(d) == "4K"@,
        definitions().len() == 4,
{
}

/// The numbers and the names of the kinds of video, and their order in the menu.
pub proof fn law_video_kinds_have_their_numbers(k: VideoKind)
    ensures
        k == VideoKind::HomeVideo <==> stik_of(k) == 0,
        k == VideoKind::MusicVideo <==> stik_of(k) == 6,
        k == VideoKind::Movie <==> stik_of(k) == 9,
        k == VideoKind::TvShow <==> stik_of(k) == 10,
        k == VideoKind::Booklet <==> stik_of(k) == 11,
        k == VideoKind::HomeVideo ==> video_kind_label(k) == "Home Video"@ && video_kinds()[3] == k,
        k == VideoKind::MusicVideo ==> video_kind_label(k) == "Music Video"@ && video_kinds()[2]
            == k,
        k == VideoKind::Movie ==> video_kind_label(k) == "Movie"@ && video_kinds()[0] == k,
        k == VideoKind::TvShow ==> video_kind_label(k) == "TV Show"@ && video_kinds()[1] == k,
        k == VideoKind::Booklet ==> video_kind_label(k) == "Booklet"@ && video_kinds()[4] == k,
        video_kinds().len() == 5,
{
}

/// A calendar date.
#[derive(Debug, Clone, Copy, PartialEq, Eq, Structural)]
pub struct Date {
    pub year: i32,
    pub month: u32,
    pub day: u32,
}

/// A person credited on a title, with the role where it is known.
#[derive(Debug, PartialEq, Eq)]
pub struct Person {
    pub name: String,
    pub role: Option<String>,
}

/// A credited person, as text.
pub struct PersonView {
    pub name: Seq<char>,
    pub role: Option<Seq<char>>,
}

impl DeepView for Person {
    type V = PersonView;

    open spec fn deep_view(&self) -> PersonView {
        PersonView { name: self.name@, role: self.role.deep_view() }
    }
}

/// A person of whom only the name is known.
pub open spec fn named(name: Seq<char>) -> PersonView {
    PersonView { name, role: None }
}

impl Person {
    /// A person of whom only the name is known.
    pub fn new(name: &str) -> (r: Person)
        ensures
            r.deep_view() == named(name@),
    {
        Person { name: name.to_string(), role: None }
    }

    /// A copy.
    pub fn copy(&self) -> (r: Person)
        ensures
            r.deep_view() == self.deep_view(),
    {
        Person { name: self.name.clone(), role: copy_opt(&self.role) }
    }
}

/// A copy of a list of people.
pub fn copy_people(list: &Vec<Person>) -> (r: Vec<Person>)
    ensures
        r.deep_view() == list.deep_view(),
{
    let mut out: Vec<Person> = Vec::new();
    let mut i: usize = 0;
    while i < list.len()
        invariant
            i <= list@.len(),
            out.deep_view() == list.deep_view().take(i as int),
        decreases list@.len() - i,
    {
        let ghost before = out.deep_view();
        out.push(list[i].copy());
        assert(out.deep_view() =~= before.push(list@[i as int].deep_view()));
        assert(out.deep_view() =~= list.deep_view().take(i + 1));
        i += 1;
    }
    assert(list.deep_view().take(list@.len() as int) =~= list.deep_view());
    out
}

/// The names of people.
pub open spec fn names_of(people: Seq<PersonView>) -> Seq<Seq<char>> {
    people.map_values(|p: PersonView| p.name)
}

/// The names of people.
pub fn people_names(people: &Vec<Person>) -> (r: Vec<String>)
    ensures
        r.deep_view() == names_of(people.deep_view()),
{
    let ghost all = names_of(people.deep_view());
    let mut out: Vec<String> = Vec::new();
    let mut i: usize = 0;
    while i < people.len()
        invariant
            i <= people@.len(),
            all == names_of(people.deep_view()),
            out.deep_view() == all.take(i as int),
        decreases people@.len() - i,
    {
        let ghost before = out.deep_view();
        assert(people.deep_view()[i as int] == people@[i as int].deep_view());
        out.push(people[i].name.clone());
        assert(out.deep_view() =~= before.push(all[i as int]));
        assert(all.take(i + 1) =~= all.take(i as int).push(all[i as int]));
        i += 1;
    }
    assert(all.take(all.len() as int) =~= all);
    out
}

/// A picture that a source offers for a title.
#[derive(Debug, PartialEq, Eq)]
pub struct Artwork {
    /// Where the picture is to be had in full size.
    pub url: String,
    /// Where a smaller one is to be had, if the source has one.
    pub thumb_url: Option<String>,
    pub width: Option<u32>,
    pub height: Option<u32>,
}

/// An offered picture, as text and numbers.
pub struct ArtworkView {
    pub url: Seq<char>,
    pub thumb_url: Option<Seq<char>>,
    pub width: Option<u32>,
    pub height: Option<u32>,
}

impl DeepView for Artwork {
    type V = ArtworkView;

    open spec fn deep_view(&self) -> ArtworkView {
        ArtworkView {
            url: self.url@,
            thumb_url: self.thumb_url.deep_view(),
            width: self.width,
            height: self.height,
        }
    }
}

impl Artwork {
    /// A copy.
    pub fn copy(&self) -> (r: Artwork)
        ensures
            r.deep_view() == self.deep_view(),
    {
        Artwork {
            url: self.url.clone(),
            thumb_url: copy_opt(&self.thumb_url),
            width: self.width,
            height: self.height,
        }
    }
}

/// A copy of a list of pictures.
pub fn copy_artwork(list: &Vec<Artwork>) -> (r: Vec<Artwork>)
    ensures
        r.deep_view() == list.deep_view(),
{
    let mut out: Vec<Artwork> = Vec::new();
    let mut i: usize = 0;
    while i < list.len()
        invariant
            i <= list@.len(),
            out.deep_view() == list.deep_view().take(i as int),
        decreases list@.len() - i,
    {
        let ghost before = out.deep_view();
        out.push(list[i].copy());
        assert(out.deep_view() =~= before.push(list@[i as int].deep_view()));
        assert(out.deep_view() =~= list.deep_view().take(i + 1));
        i += 1;
    }
    assert(list.deep_view().take(list@.len() as int) =~= list.deep_view());
    out
}

/// What only an episode has.
#[derive(Debug, PartialEq, Eq)]
pub struct EpisodeInfo {
    pub show_name: String,
    pub season: u32,
    pub episode: u32,
    pub episode_title: Option<String>,
    pub network: Option<String>,
    /// The network's own number for the episode.
    pub episode_id: Option<String>,
}

/// What only an episode has, as text and numbers.
pub struct EpisodeView {
    pub show_name: Seq<char>,
    pub season: u32,
    pub episode: u32,
    pub episode_title: Option<Seq<char>>,
    pub network: Option<Seq<char>>,
    pub episode_id: Option<Seq<char>>,
}

impl DeepView for EpisodeInfo {
    type V = EpisodeView;

    open spec fn deep_view(&self) -> EpisodeView {
        EpisodeView {
            show_name: self.show_name@,
            season: self.season,
            episode: self.episode,
            episode_title: self.episode_title.deep_view(),
            network: self.network.deep_view(),
            episode_id: self.episode_id.deep_view(),
        }
    }
}

impl EpisodeInfo {
    /// A copy.
    pub fn copy(&self) -> (r: EpisodeInfo)
        ensures
            r.deep_view() == self.deep_view(),
    {
        EpisodeInfo {
            show_name: self.show_name.clone(),
            season: self.season,
            episode: self.episode,
            episode_title: copy_opt(&self.episode_title),
            network: copy_opt(&self.network),
            episode_id: copy_opt(&self.episode_id),
        }
    }
}

/// Movie or episode, with what only that kind has.
#[derive(Debug, PartialEq, Eq)]
pub enum MediaKindMeta {
    Movie,
    Episode(EpisodeInfo),
}

/// Movie or episode, as text and numbers.
pub enum KindView {
    Movie,
    Episode(EpisodeView),
}

impl DeepView for MediaKindMeta {
    type V = KindView;

    open spec fn deep_view(&self) -> KindView {
        match self {
            MediaKindMeta::Movie => KindView::Movie,
            MediaKindMeta::Episode(e) => KindView::Episode(e.deep_view()),
        }
    }
}

impl MediaKindMeta {
    /// Movie or television.
    pub fn kind(&self) -> (r: MediaKind)
        ensures
            r == (match self.deep_view() {
                KindView::Movie => MediaKind::Movie,
                KindView::Episode(_) => MediaKind::TvShow,
            }),
    {
        match self {
            MediaKindMeta::Movie => MediaKind::Movie,
            MediaKindMeta::Episode(_) => MediaKind::TvShow,
        }
    }

    /// A copy.
    pub fn copy(&self) -> (r: MediaKindMeta)
        ensures
            r.deep_view() == self.deep_view(),
    {
        match self {
            MediaKindMeta::Movie => MediaKindMeta::Movie,
            MediaKindMeta::Episode(e) => MediaKindMeta::Episode(e.copy()),
        }
    }
}

impl Default for MediaKindMeta {
    fn default() -> (r: MediaKindMeta)
        ensures
            r.deep_view() == KindView::Movie,
    {
        MediaKindMeta::Movie
    }
}

/// Everything known about one title. Sources differ in what they know, so most of it is optional.
#[derive(Debug, PartialEq, Eq)]
pub struct MediaMetadata {
    pub title: String,
    pub release_date: Option<Date>,
    /// A short description.
    pub summary: Option<String>,
    /// A long description.
    pub overview: Option<String>,
    pub genres: Vec<String>,
    pub cast: Vec<Person>,
    pub directors: Vec<Person>,
    pub producers: Vec<Person>,
    pub writers: Vec<Person>,
    pub content_rating: Option<String>,
    pub studio: Option<String>,
    /// The kind of video, where the user has chosen one.
    pub video_kind: Option<VideoKind>,
    pub definition: Option<Definition>,
    /// The pictures to choose from.
    pub artwork: Vec<Artwork>,
    pub kind: MediaKindMeta,
}

/// Everything known about one title, as text and numbers.
pub struct MetadataView {
    pub title: Seq<char>,
    pub release_date: Option<Date>,
    pub summary: Option<Seq<char>>,
    pub overview: Option<Seq<char>>,
    pub genres: Seq<Seq<char>>,
    pub cast: Seq<PersonView>,
    pub directors: Seq<PersonView>,
    pub producers: Seq<PersonView>,
    pub writers: Seq<PersonView>,
    pub content_rating: Option<Seq<char>>,
    pub studio: Option<Seq<char>>,
    pub video_kind: Option<VideoKind>,
    pub definition: Option<Definition>,
    pub artwork: Seq<ArtworkView>,
    pub kind: KindView,
}

impl DeepView for MediaMetadata {
    type V = MetadataView;

    open spec fn deep_view(&self) -> MetadataView {
        MetadataView {
            title: self.title@,
            release_date: self.release_date,
            summary: self.summary.deep_view(),
            overview: self.overview.deep_view(),
            genres: self.genres.deep_view(),
            cast: self.cast.deep_view(),
            directors: self.directors.deep_view(),
            producers: self.producers.deep_view(),
            writers: self.writers.deep_view(),
            content_rating: self.content_rating.deep_view(),
            studio: self.studio.deep_view(),
            video_kind: self.video_kind,
            definition: self.definition,
            artwork: self.artwork.deep_view(),
            kind: self.kind.deep_view(),
        }
    }
}

/// A movie of which nothing is known.
pub open spec fn blank_metadata() -> MetadataView {
    MetadataView {
        title: Seq::empty(),
        release_date: None,
        summary: None,
        overview: None,
        genres: Seq::empty(),
        cast: Seq::empty(),
        directors: Seq::empty(),
        producers: Seq::empty(),
        writers: Seq::empty(),
        content_rating: None,
        studio: None,
        video_kind: None,
        definition: None,
        artwork: Seq::empty(),
        kind: KindView::Movie,
    }
}

impl MediaMetadata {
    /// A copy.
    pub fn copy(&self) -> (r: MediaMetadata)
        ensures
            r.deep_view() == self.deep_view(),
    {
        MediaMetadata {
            title: self.title.clone(),
            release_date: self.release_date,
            summary: copy_opt(&self.summary),
            overview: copy_opt(&self.overview),
            genres: copy_list(&self.genres),
            cast: copy_people(&self.cast),
            directors: copy_people(&self.directors),
            producers: copy_people(&self.producers),
            writers: copy_people(&self.writers),
            content_rating: copy_opt(&self.content_rating),
            studio: copy_opt(&self.studio),
            video_kind: self.video_kind,
            definition: self.definition,
            artwork: copy_artwork(&self.artwork),
            kind: self.kind.copy(),
        }
    }
}

impl Default for MediaMetadata {
    fn default() -> (r: MediaMetadata)
        ensures
            r.deep_view() == blank_metadata(),
    {
        let r = MediaMetadata {
            title: String::new(),
            release_date: None,
            summary: None,
            overview: None,
            genres: Vec::new(),
            cast: Vec::new(),
            directors: Vec::new(),
            producers: Vec::new(),
            writers: Vec::new(),
            content_rating: None,
            studio: None,
            video_kind: None,
            definition: None,
            artwork: Vec::new(),
            kind: MediaKindMeta::Movie,
        };
        assert(r.genres.deep_view() =~= Seq::empty());
        assert(r.cast.deep_view() =~= Seq::empty());
        assert(r.directors.deep_view() =~= Seq::empty());
        assert(r.producers.deep_view() =~= Seq::empty());
        assert(r.writers.deep_view() =~= Seq::empty());
        assert(r.artwork.deep_view() =~= Seq::empty());
        r
    }
}

/// How a source names a title; for an episode, with its season and number.
#[derive(Debug, PartialEq, Eq)]
pub struct ProviderId {
    pub provider: String,
    pub id: String,
    pub kind: MediaKind,
    pub season: Option<u32>,
    pub episode: Option<u32>,
}

/// How a source names a title, as text and numbers.
pub struct ProviderIdView {
    pub provider: Seq<char>,
    pub id: Seq<char>,
    pub kind: MediaKind,
    pub season: Option<u32>,
    pub episode: Option<u32>,
}

impl DeepView for ProviderId {
    type V = ProviderIdView;

    open spec fn deep_view(&self) -> ProviderIdView {
        ProviderIdView {
            provider: self.provider@,
            id: self.id@,
            kind: self.kind,
            season: self.season,
            episode: self.episode,
        }
    }
}

impl ProviderId {
    /// A copy.
    pub fn copy(&self) -> (r: ProviderId)
        ensures
            r.deep_view() == self.deep_view(),
    {
        ProviderId {
            provider: self.provider.clone(),
            id: self.id.clone(),
            kind: self.kind,
            season: self.season,
            episode: self.episode,
        }
    }
}

/// One hit of a search, before its details are fetched.
#[derive(Debug, PartialEq, Eq)]
pub struct SearchResult {
    pub id: ProviderId,
    pub title: String,
    pub year: Option<i32>,
    pub overview: Option<String>,
    pub poster_thumb_url: Option<String>,
    pub episode_name: Option<String>,
}

/// One hit of a search, as text and numbers.
pub struct SearchResultView {
    pub id: ProviderIdView,
    pub title: Seq<char>,
    pub year: Option<i32>,
    pub overview: Option<Seq<char>>,
    pub poster_thumb_url: Option<Seq<char>>,
    pub episode_name: Option<Seq<char>>,
}

impl DeepView for SearchResult {
    type V = SearchResultView;

    open spec fn deep_view(&self) -> SearchResultView {
        SearchResultView {
            id: self.id.deep_view(),
            title: self.title@,
            year: self.year,
            overview: self.overview.deep_view(),
            poster_thumb_url: self.poster_thumb_url.deep_view(),
            episode_name: self.episode_name.deep_view(),
        }
    }
}

/// What to look for, from a file name or from the user.
#[derive(Debug, PartialEq, Eq)]
pub struct MediaQuery {
    pub title: String,
    pub year: Option<i32>,
    pub kind: MediaKind,
    pub season: Option<u32>,
    pub episode: Option<u32>,
}

/// What to look for, as text and numbers.
pub struct QueryView {
    pub title: Seq<char>,
    pub year: Option<i32>,
    pub kind: MediaKind,
    pub season: Option<u32>,
    pub episode: Option<u32>,
}

impl DeepView for MediaQuery {
    type V = QueryView;

    open spec fn deep_view(&self) -> QueryView {
        QueryView {
            title: self.title@,
            year: self.year,
            kind: self.kind,
            season: self.season,
            episode: self.episode,
        }
    }
}

impl SearchResult {
    /// A copy.
    pub fn copy(&self) -> (r: SearchResult)
        ensures
            r.deep_view() == self.deep_view(),
    {
        SearchResult {
            id: self.id.copy(),
            title: self.title.clone(),
            year: self.year,
            overview: copy_opt(&self.overview),
            poster_thumb_url: copy_opt(&self.poster_thumb_url),
            episode_name: copy_opt(&self.episode_name),
        }
    }
}

/// An episode found by its title.
#[derive(Debug, PartialEq, Eq)]
pub struct TvEpisodeHit {
    pub number: u32,
    pub name: String,
}

/// An episode found by its title, as text and numbers.
pub struct TvEpisodeHitView {
    pub number: u32,
    pub name: Seq<char>,
}

impl DeepView for TvEpisodeHit {
    type V = TvEpisodeHitView;

    open spec fn deep_view(&self) -> TvEpisodeHitView {
        TvEpisodeHitView { number: self.number, name: self.name@ }
    }
}

/// A season with the episodes found in it.
#[derive(Debug, PartialEq, Eq)]
pub struct TvSeasonMatch {
    pub season_number: u32,
    pub name: String,
    pub episodes: Vec<TvEpisodeHit>,
}

/// A season with the episodes found in it, as text and numbers.
pub struct TvSeasonMatchView {
    pub season_number: u32,
    pub name: Seq<char>,
    pub episodes: Seq<TvEpisodeHitView>,
}

impl DeepView for TvSeasonMatch {
    type V = TvSeasonMatchView;

    open spec fn deep_view(&self) -> TvSeasonMatchView {
        TvSeasonMatchView {
            season_number: self.season_number,
            name: self.name@,
            episodes: self.episodes.deep_view(),
        }
    }
}

/// A season and how many episodes it has.
#[derive(Debug, PartialEq, Eq)]
pub struct TvSeasonSummary {
    pub season_number: u32,
    pub name: String,
    pub episode_count: u32,
}

/// A season and how many episodes it has, as text and numbers.
pub struct TvSeasonSummaryView {
    pub season_number: u32,
    pub name: Seq<char>,
    pub episode_count: u32,
}

impl DeepView for TvSeasonSummary {
    type V = TvSeasonSummaryView;

    open spec fn deep_view(&self) -> TvSeasonSummaryView {
        TvSeasonSummaryView {
            season_number: self.season_number,
            name: self.name@,
            episode_count: self.episode_count,
        }
    }
}

/// A show with the seasons in which episodes were found.
#[derive(Debug, PartialEq, Eq)]
pub struct TvShowMatch {
    pub series_id: String,
    pub show_name: String,
    pub year: Option<i32>,
    pub seasons: Vec<TvSeasonMatch>,
}

/// A show with the seasons in which episodes were found, as text and numbers.
pub struct TvShowMatchView {
    pub series_id: Seq<char>,
    pub show_name: Seq<char>,
    pub year: Option<i32>,
    pub seasons: Seq<TvSeasonMatchView>,
}

impl DeepView for TvShowMatch {
    type V = TvShowMatchView;

    open spec fn deep_view(&self) -> TvShowMatchView {
        TvShowMatchView {
            series_id: self.series_id@,
            show_name: self.show_name@,
            year: self.year,
            seasons: self.seasons.deep_view(),
        }
    }
}

/// Blank metadata says nothing, and is that of a movie.
pub proof fn law_blank_metadata_says_nothing()
    ensures
        ({
            let m = blank_metadata();
            &&& m.title.len() == 0 && m.release_date is None && m.summary is None
            &&& m.overview is None && m.genres.len() == 0 && m.cast.len() == 0
            &&& m.directors.len() == 0 && m.producers.len() == 0 && m.writers.len() == 0
            &&& m.content_rating is None && m.studio is None && m.video_kind is None
            &&& m.definition is None && m.artwork.len() == 0 && m.kind is Movie
        }),
{
}

/// Names are those of the people, in order, and someone who is only named has no role.
pub proof fn law_names_are_those_of_the_people(people: Seq<PersonView>, i: int, name: Seq<char>)
    ensures
        names_of(people).len() == people.len(),
        0 <= i < people.len() ==> names_of(people)[i] == people[i].name,
        named(name).name == name && named(name).role is None,
{
}

/// The text of metadata is seen part by part, each in its own place.
pub proof fn law_metadata_is_seen_part_by_part(m: MediaMetadata, e: EpisodeInfo)
    ensures
        m.deep_view().title == m.title@ && m.deep_view().release_date == m.release_date,
        m.deep_view().summary == m.summary.deep_view(),
        m.deep_view().overview == m.overview.deep_view(),
        m.deep_view().genres == m.genres.deep_view(),
        m.deep_view().cast == m.cast.deep_view(),
        m.deep_view().directors == m.directors.deep_view(),
        m.deep_view().producers == m.producers.deep_view(),
        m.deep_view().writers == m.writers.deep_view(),
        m.deep_view().content_rating == m.content_rating.deep_view(),
        m.deep_view().studio == m.studio.deep_view(),
        m.deep_view().video_kind == m.video_kind && m.deep_view().definition == m.definition,
        m.deep_view().artwork == m.artwork.deep_view(),
        m.deep_view().kind == m.kind.deep_view(),
        MediaKindMeta::Movie.deep_view() is Movie,
        MediaKindMeta::Episode(e).deep_view() == KindView::Episode(e.deep_view()),
        e.deep_view().show_name == e.show_name@,
        e.deep_view().season == e.season && e.deep_view().episode == e.episode,
        e.deep_view().episode_title == e.episode_title.deep_view(),
        e.deep_view().network == e.network.deep_view(),
        e.deep_view().episode_id == e.episode_id.deep_view(),
{
}

/// The text of a result, of its id and of a query is seen part by part, each in its own place.
pub proof fn law_results_are_seen_part_by_part(id: ProviderId, r: SearchResult, q: MediaQuery)
    ensures
        id.deep_view().provider == id.provider@ && id.deep_view().id == id.id@,
        id.deep_view().kind == id.kind,
        id.deep_view().season == id.season && id.deep_view().episode == id.episode,
        r.deep_view().id == r.id.deep_view() && r.deep_view().title == r.title@,
        r.deep_view().year == r.year && r.deep_view().overview == r.overview.deep_view(),
        r.deep_view().poster_thumb_url == r.poster_thumb_url.deep_view(),
        r.deep_view().episode_name == r.episode_name.deep_view(),
        q.deep_view().title == q.title@ && q.deep_view().year == q.year,
        q.deep_view().kind == q.kind,
        q.deep_view().season == q.season && q.deep_view().episode == q.episode,
{
}

/// The text of people and pictures is seen part by part, each in its own place.
pub proof fn law_people_and_pictures_are_seen_part_by_part(p: Person, a: Artwork)
    ensures
        p.deep_view().name == p.name@ && p.deep_view().role == p.role.deep_view(),
        a.deep_view().url == a.url@ && a.deep_view().thumb_url == a.thumb_url.deep_view(),
        a.deep_view().width == a.width && a.deep_view().height == a.height,
{
}

} // verus!
