//! The Movie Database: what to ask it, and what its replies mean.
//!
//! Requests are built and replies are read here; sending the ones and receiving the others is left
//! to the program.

use crate::dates::{
    date_in, iso_text, leading_year, lemma_year_value, parse_date, parse_year, valid_date,
    year_text,
};
use crate::error::{Error, Result};
use crate::model::{
    copy_artwork, Artwork, ArtworkView, Date, EpisodeInfo, EpisodeView, KindView, MediaKind,
    MediaKindMeta, MediaMetadata, MediaQuery, MetadataView, Person, PersonView, ProviderId,
    ProviderIdView, QueryView, SearchResult, SearchResultView, TvEpisodeHit, TvEpisodeHitView,
    TvSeasonMatch, TvSeasonMatchView, TvSeasonSummary, TvSeasonSummaryView, TvShowMatch,
    TvShowMatchView, VideoKind,
};
use crate::tag::{shorten, shortened};
use crate::text::{
    all_digits, ascii_lowered, contains, copy_opt, decimal, digits_value, has_solid, holds,
    is_ascii_text, is_digit, is_white, law_trim_cuts_white_space_only, law_trim_is_idempotent,
    lemma_decimal_value, lemma_find_from, lemma_trim_and_lower, lowered, show, show_signed,
    signed_decimal, stands_at, str_eq, text_in, to_lowercase, trim, trimmed,
};
use vstd::prelude::*;

verus! {

/// Where the service is.
pub const API_BASE: &'static str = "https://api.themoviedb.org/3";

/// Where its pictures are.
pub const IMG_BASE: &'static str = "https://image.tmdb.org/t/p";

/// The size of pictures for small displays.
pub const THUMB_SIZE: &'static str = "w342";

/// The size of pictures for covers.
pub const FULL_SIZE: &'static str = "original";

/// The most people of a cast that are kept.
pub const MAX_CAST: usize = 20;

/// The most shows that a search through episodes looks into.
pub const MAX_SHOWS: usize = 8;

/// The most seasons of a show that a search through episodes looks into.
pub const MAX_SEASONS: usize = 50;

// ---------------------------------------------------------------------------
// Replies
// ---------------------------------------------------------------------------

/// A movie among the results of a search.
#[derive(Debug)]
pub struct TmdbMovieHit {
    pub id: i64,
    pub title: String,
    pub overview: Option<String>,
    pub release_date: Option<String>,
    pub poster_path: Option<String>,
}

/// A show among the results of a search.
#[derive(Debug)]
pub struct TmdbTvHit {
    pub id: i64,
    pub name: String,
    pub overview: Option<String>,
    pub first_air_date: Option<String>,
    pub poster_path: Option<String>,
}

/// A member of the cast.
#[derive(Debug)]
pub struct TmdbCast {
    pub name: String,
    pub character: Option<String>,
}

/// A member of the crew.
#[derive(Debug)]
pub struct TmdbCrew {
    pub name: String,
    pub job: Option<String>,
    pub department: Option<String>,
}

/// Cast and crew.
#[derive(Debug)]
pub struct TmdbCredits {
    pub cast: Vec<TmdbCast>,
    pub crew: Vec<TmdbCrew>,
}

/// A picture.
#[derive(Debug)]
pub struct TmdbImage {
    pub file_path: String,
    pub width: Option<u32>,
    pub height: Option<u32>,
}

/// The certification of one release.
#[derive(Debug)]
pub struct TmdbReleaseDateEntry {
    pub certification: String,
}

/// The releases in one country.
#[derive(Debug)]
pub struct TmdbReleaseDatesCountry {
    pub iso_3166_1: String,
    pub release_dates: Vec<TmdbReleaseDateEntry>,
}

/// The releases in all countries.
#[derive(Debug)]
pub struct TmdbReleaseDates {
    pub results: Vec<TmdbReleaseDatesCountry>,
}

/// The rating of a show in one country.
#[derive(Debug)]
pub struct TmdbContentRatingCountry {
    pub iso_3166_1: String,
    pub rating: String,
}

/// The ratings of a show in all countries.
#[derive(Debug)]
pub struct TmdbContentRatings {
    pub results: Vec<TmdbContentRatingCountry>,
}

/// The details of a movie.
#[derive(Debug)]
pub struct TmdbMovieDetail {
    pub title: String,
    pub overview: Option<String>,
    pub tagline: Option<String>,
    pub release_date: Option<String>,
    pub poster_path: Option<String>,
    pub genres: Vec<String>,
    pub production_companies: Vec<String>,
    pub credits: Option<TmdbCredits>,
    pub images: Option<Vec<TmdbImage>>,
    pub release_dates: Option<TmdbReleaseDates>,
}

/// The details of a show.
#[derive(Debug)]
pub struct TmdbTvDetail {
    pub name: String,
    pub overview: Option<String>,
    pub tagline: Option<String>,
    pub first_air_date: Option<String>,
    pub poster_path: Option<String>,
    pub genres: Vec<String>,
    pub networks: Vec<String>,
    pub credits: Option<TmdbCredits>,
    pub images: Option<Vec<TmdbImage>>,
    pub content_ratings: Option<TmdbContentRatings>,
}

/// The details of an episode. The service leaves out whatever it does not know.
#[derive(Debug)]
pub struct TmdbEpisodeDetail {
    pub name: Option<String>,
    pub overview: Option<String>,
    pub air_date: Option<String>,
    pub still_path: Option<String>,
    pub guest_stars: Vec<TmdbCast>,
    pub crew: Option<Vec<TmdbCrew>>,
    pub stills: Option<Vec<TmdbImage>>,
}

/// One episode in the list of a season.
#[derive(Debug)]
pub struct TmdbSeasonEpisode {
    pub episode_number: u32,
    pub name: Option<String>,
    pub overview: Option<String>,
    pub air_date: Option<String>,
    pub still_path: Option<String>,
}

/// One season in the list of a show.
#[derive(Debug)]
pub struct TmdbSeasonEntry {
    pub season_number: u32,
    pub name: Option<String>,
    pub episode_count: u32,
}

// ---------------------------------------------------------------------------
// The service
// ---------------------------------------------------------------------------

/// How requests say who asks.
#[derive(Debug)]
pub enum Auth {
    /// With a token in a header.
    Bearer(String),
    /// With a key among the parameters.
    ApiKey(String),
}

/// How requests say who asks, as text.
pub enum AuthView {
    Bearer(Seq<char>),
    ApiKey(Seq<char>),
}

impl DeepView for Auth {
    type V = AuthView;

    open spec fn deep_view(&self) -> AuthView {
        match self {
            Auth::Bearer(t) => AuthView::Bearer(t@),
            Auth::ApiKey(k) => AuthView::ApiKey(k@),
        }
    }
}

/// Who asks, as the environment has it: by a token that is not blank, else by a key.
pub open spec fn env_auth(token: Option<Seq<char>>, api_key: Option<Seq<char>>) -> Option<
    AuthView,
> {
    let usable = token matches Some(t) && trimmed(t).len() > 0;
    if usable {
        Some(AuthView::Bearer(token.unwrap()))
    } else {
        match api_key {
            Some(k) => Some(AuthView::ApiKey(k)),
            None => None,
        }
    }
}

/// The Movie Database, for someone who may ask it.
#[derive(Debug)]
pub struct TmdbProvider {
    pub auth: Auth,
}

impl TmdbProvider {
    /// For someone with a key.
    pub fn new(api_key: &str) -> (r: TmdbProvider)
        ensures
            r.auth.deep_view() == AuthView::ApiKey(api_key@),
    {
        TmdbProvider { auth: Auth::ApiKey(api_key.to_string()) }
    }

    /// For someone with a token.
    pub fn with_bearer(token: &str) -> (r: TmdbProvider)
        ensures
            r.auth.deep_view() == AuthView::Bearer(token@),
    {
        TmdbProvider { auth: Auth::Bearer(token.to_string()) }
    }

    /// For whom the environment has a token or a key: the token where it is not blank, else the
    /// key; an error where there is neither.
    pub fn from_env(token: Option<&str>, api_key: Option<&str>) -> (r: Result<TmdbProvider>)
        ensures
            match env_auth(text_in(token), text_in(api_key)) {
                Some(a) => r matches Ok(p) && p.auth.deep_view() == a,
                None => r matches Err(Error::MissingApiKey(p)) && p@ == "tmdb"@,
            },
    {
        if let Some(t) = token {
            let rest = trim(t);
            if !rest.as_str().is_empty() {
                return Ok(TmdbProvider::with_bearer(t));
            }
        }
        match api_key {
            Some(k) => Ok(TmdbProvider::new(k)),
            None => Err(Error::MissingApiKey("tmdb".to_string())),
        }
    }

    /// What the service is called.
    pub fn name(&self) -> (r: &'static str)
        ensures
            r@ == "tmdb"@,
    {
        "tmdb"
    }

    /// The address of a picture in some size, if there is a picture.
    pub fn image_url(path: &Option<String>, size: &str) -> (r: Option<String>)
        ensures
            r.deep_view() == optional_url(path.deep_view(), size@),
    {
        match path {
            Some(p) => Some(build_picture_url(size, p.as_str())),
            None => None,
        }
    }
}

// ---------------------------------------------------------------------------
// Pictures
// ---------------------------------------------------------------------------

/// The address of a picture in some size.
pub open spec fn picture_url(size: Seq<char>, path: Seq<char>) -> Seq<char> {
    IMG_BASE@ + "/"@ + size + path
}

/// The address of a picture in some size.
fn build_picture_url(size: &str, path: &str) -> (r: String)
    ensures
        r@ == picture_url(size@, path@),
{
    IMG_BASE.to_string().concat("/").concat(size).concat(path)
}

/// A picture to choose from.
pub open spec fn offered(path: Seq<char>, width: Option<u32>, height: Option<u32>) -> ArtworkView {
    ArtworkView {
        url: picture_url(FULL_SIZE@, path),
        thumb_url: Some(picture_url(THUMB_SIZE@, path)),
        width,
        height,
    }
}

/// Whether a picture with this address is among those.
pub open spec fn has_url(list: Seq<ArtworkView>, url: Seq<char>) -> bool {
    exists|i: int| 0 <= i < list.len() && (#[trigger] list[i]).url == url
}

/// The first picture from `i` on with this path.
pub open spec fn picture_from(images: Seq<TmdbImage>, path: Seq<char>, i: int) -> Option<int>
    decreases images.len() - i,
{
    if i < 0 || i >= images.len() {
        None
    } else if images[i].file_path@ == path {
        Some(i)
    } else {
        picture_from(images, path, i + 1)
    }
}

/// The main picture, with its dimensions where it is also in the list.
pub open spec fn main_picture(path: Seq<char>, images: Option<Seq<TmdbImage>>) -> ArtworkView {
    match images {
        Some(list) => match picture_from(list, path, 0) {
            Some(i) => offered(path, list[i].width, list[i].height),
            None => offered(path, None, None),
        },
        None => offered(path, None, None),
    }
}

/// `start`, and behind it the first `n` pictures of the list that are not among them already.
pub open spec fn with_pictures(
    start: Seq<ArtworkView>,
    images: Seq<TmdbImage>,
    n: int,
) -> Seq<ArtworkView>
    decreases n,
{
    if n <= 0 {
        start
    } else {
        let before = with_pictures(start, images, n - 1);
        let img = images[n - 1];
        if has_url(before, picture_url(FULL_SIZE@, img.file_path@)) {
            before
        } else {
            before.push(offered(img.file_path@, img.width, img.height))
        }
    }
}

/// The pictures to choose from: the main one first, then the list, each only once.
pub open spec fn gallery(
    path: Option<Seq<char>>,
    images: Option<Seq<TmdbImage>>,
) -> Seq<ArtworkView> {
    let start = match path {
        Some(p) => seq![main_picture(p, images)],
        None => Seq::empty(),
    };
    match images {
        Some(list) => with_pictures(start, list, list.len() as int),
        None => start,
    }
}

/// The pictures of an optional list.
pub open spec fn images_of(images: Option<Vec<TmdbImage>>) -> Option<Seq<TmdbImage>> {
    match images {
        Some(list) => Some(list@),
        None => None,
    }
}

/// Whether a picture with this address is among those.
fn contains_url(list: &Vec<Artwork>, url: &str) -> (r: bool)
    ensures
        r == has_url(list.deep_view(), url@),
{
    let mut i: usize = 0;
    while i < list.len()
        invariant
            i <= list@.len(),
            forall|k: int| 0 <= k < i ==> (#[trigger] list.deep_view()[k]).url != url@,
        decreases list@.len() - i,
    {
        assert(list.deep_view()[i as int] == list@[i as int].deep_view());
        if str_eq(list[i].url.as_str(), url) {
            return true;
        }
        i += 1;
    }
    false
}

/// A picture to choose from.
fn offer(path: &str, width: Option<u32>, height: Option<u32>) -> (r: Artwork)
    ensures
        r.deep_view() == offered(path@, width, height),
{
    Artwork {
        url: build_picture_url(FULL_SIZE, path),
        thumb_url: Some(build_picture_url(THUMB_SIZE, path)),
        width,
        height,
    }
}

/// The main picture, with its dimensions where it is also in the list.
fn offer_main(path: &str, images: &Option<Vec<TmdbImage>>) -> (r: Artwork)
    ensures
        r.deep_view() == main_picture(path@, images_of(*images)),
{
    if let Some(list) = images {
        let mut i: usize = 0;
        while i < list.len()
            invariant
                i <= list@.len(),
                images_of(*images) == Some(list@),
                picture_from(list@, path@, 0) == picture_from(list@, path@, i as int),
            decreases list@.len() - i,
        {
            if str_eq(list[i].file_path.as_str(), path) {
                return offer(path, list[i].width, list[i].height);
            }
            i += 1;
        }
    }
    offer(path, None, None)
}

/// The posters to choose from: the main one first, then the others, each only once.
pub fn collect_artwork(poster_path: &Option<String>, images: &Option<Vec<TmdbImage>>) -> (r: Vec<
    Artwork,
>)
    ensures
        r.deep_view() == gallery(poster_path.deep_view(), images_of(*images)),
{
    let mut out: Vec<Artwork> = Vec::new();
    if let Some(p) = poster_path {
        out.push(offer_main(p.as_str(), images));
    }
    let ghost start: Seq<ArtworkView> = match poster_path.deep_view() {
        Some(p) => seq![main_picture(p, images_of(*images))],
        None => Seq::empty(),
    };
    assert(out.deep_view() =~= start);
    if let Some(list) = images {
        let mut i: usize = 0;
        while i < list.len()
            invariant
                i <= list@.len(),
                out.deep_view() == with_pictures(start, list@, i as int),
            decreases list@.len() - i,
        {
            let ghost before = out.deep_view();
            let url = build_picture_url(FULL_SIZE, list[i].file_path.as_str());
            if !contains_url(&out, url.as_str()) {
                let art = offer(list[i].file_path.as_str(), list[i].width, list[i].height);
                let ghost new = art.deep_view();
                out.push(art);
                assert(out.deep_view() =~= before.push(new));
            }
            i += 1;
        }
    }
    out
}

/// The stills of an episode to choose from: the main one first, then the others, each only once.
pub fn collect_still_artwork(still_path: &Option<String>, stills: &Option<Vec<TmdbImage>>) -> (r:
    Vec<Artwork>)
    ensures
        r.deep_view() == gallery(still_path.deep_view(), images_of(*stills)),
{
    collect_artwork(still_path, stills)
}

/// Whether no two pictures have the same address.
pub open spec fn urls_distinct(list: Seq<ArtworkView>) -> bool {
    forall|i: int, j: int|
        0 <= i < j < list.len() ==> (#[trigger] list[i]).url != (#[trigger] list[j]).url
}

proof fn lemma_with_pictures(start: Seq<ArtworkView>, images: Seq<TmdbImage>, n: int)
    requires
        urls_distinct(start),
        0 <= n <= images.len(),
    ensures
        urls_distinct(with_pictures(start, images, n)),
        start.len() <= with_pictures(start, images, n).len(),
        forall|i: int| 0 <= i < start.len() ==> with_pictures(start, images, n)[i] == start[i],
        forall|k: int|
            0 <= k < n ==> has_url(
                with_pictures(start, images, n),
                picture_url(FULL_SIZE@, (#[trigger] images[k]).file_path@),
            ),
    decreases n,
{
    if n > 0 {
        lemma_with_pictures(start, images, n - 1);
        let before = with_pictures(start, images, n - 1);
        let all = with_pictures(start, images, n);
        let url = picture_url(FULL_SIZE@, images[n - 1].file_path@);
        if !has_url(before, url) {
            assert(all[before.len() as int].url == url);
        }
        assert forall|k: int| 0 <= k < n implies has_url(
            all,
            picture_url(FULL_SIZE@, (#[trigger] images[k]).file_path@),
        ) by {
            if k < n - 1 {
                let u = picture_url(FULL_SIZE@, images[k].file_path@);
                assert(has_url(before, u));
                let i = choose|i: int| 0 <= i < before.len() && (#[trigger] before[i]).url == u;
                assert(all[i] == before[i]);
            }
        }
    }
}

/// No picture is offered twice, the main one is offered first, and every one of the list is
/// offered.
pub proof fn law_gallery_offers_each_picture_once(
    path: Option<Seq<char>>,
    images: Option<Seq<TmdbImage>>,
)
    ensures
        urls_distinct(gallery(path, images)),
        path matches Some(p) ==> gallery(path, images).len() > 0 && gallery(path, images)[0].url
            == picture_url(FULL_SIZE@, p),
        images matches Some(list) ==> forall|k: int|
            0 <= k < list.len() ==> has_url(
                gallery(path, images),
                picture_url(FULL_SIZE@, (#[trigger] list[k]).file_path@),
            ),
{
    let start = match path {
        Some(p) => seq![main_picture(p, images)],
        None => Seq::empty(),
    };
    if let Some(list) = images {
        lemma_with_pictures(start, list, list.len() as int);
    }
    if let Some(p) = path {
        assert(gallery(path, images)[0] == start[0]);
        assert(start[0] == main_picture(p, images));
    }
}

// ---------------------------------------------------------------------------
// People
// ---------------------------------------------------------------------------

/// Whether an optional text is this one.
pub open spec fn is_text(s: Option<String>, t: Seq<char>) -> bool {
    s.deep_view() == Some(t)
}

/// Whether a member of the crew is a producer of any kind: someone of the production department,
/// or, where no department is given, with a job that has `Producer` in it.
pub open spec fn produces(c: TmdbCrew) -> bool {
    is_text(c.department, "Production"@) || (c.department is None && (match c.job.deep_view() {
        Some(job) => holds(job, "Producer"@),
        None => false,
    }))
}

/// Whether a member of the crew is a writer of any kind: someone of the writing department, or,
/// where no department is given, with a writer's job.
pub open spec fn writes(c: TmdbCrew) -> bool {
    is_text(c.department, "Writing"@) || (c.department is None && (is_text(c.job, "Screenplay"@)
        || is_text(c.job, "Writer"@) || is_text(c.job, "Story"@) || is_text(c.job, "Author"@)
        || is_text(c.job, "Novel"@)))
}

/// Whether a member of the crew is a director.
pub open spec fn directs(c: TmdbCrew) -> bool {
    is_text(c.job, "Director"@)
}

/// Whether an optional text is this one.
fn text_is(s: &Option<String>, t: &str) -> (r: bool)
    ensures
        r == is_text(*s, t@),
{
    match s {
        Some(x) => str_eq(x.as_str(), t),
        None => false,
    }
}

/// Whether a member of the crew is a producer of any kind.
pub fn is_producer(c: &TmdbCrew) -> (r: bool)
    ensures
        r == produces(*c),
{
    match &c.department {
        Some(department) => str_eq(department.as_str(), "Production"),
        None => match &c.job {
            Some(job) => contains(job.as_str(), "Producer"),
            None => false,
        },
    }
}

/// Whether a member of the crew is a writer of any kind.
pub fn is_writer(c: &TmdbCrew) -> (r: bool)
    ensures
        r == writes(*c),
{
    match &c.department {
        Some(department) => str_eq(department.as_str(), "Writing"),
        None => text_is(&c.job, "Screenplay") || text_is(&c.job, "Writer") || text_is(
            &c.job,
            "Story",
        ) || text_is(&c.job, "Author") || text_is(&c.job, "Novel"),
    }
}

/// A trade of the crew.
#[derive(Debug, Clone, Copy, PartialEq, Eq, Structural)]
pub enum Trade {
    Producing,
    Writing,
}

/// Whether a member of the crew is of a trade.
pub open spec fn is_of(c: TmdbCrew, trade: Trade) -> bool {
    match trade {
        Trade::Producing => produces(c),
        Trade::Writing => writes(c),
    }
}

/// Whether someone of this name is among the people.
pub open spec fn has_name(people: Seq<PersonView>, name: Seq<char>) -> bool {
    exists|i: int| 0 <= i < people.len() && (#[trigger] people[i]).name == name
}

/// The people of a trade, each once, in the order in which they first appear.
pub open spec fn people_of(crew: Seq<TmdbCrew>, trade: Trade) -> Seq<PersonView>
    decreases crew.len(),
{
    if crew.len() == 0 {
        Seq::empty()
    } else {
        let before = people_of(crew.drop_last(), trade);
        let c = crew.last();
        if is_of(c, trade) && !has_name(before, c.name@) {
            before.push(PersonView { name: c.name@, role: None })
        } else {
            before
        }
    }
}

/// The directors, in order; one who is listed twice is twice among them.
pub open spec fn directors_of(crew: Seq<TmdbCrew>) -> Seq<PersonView>
    decreases crew.len(),
{
    if crew.len() == 0 {
        Seq::empty()
    } else {
        let before = directors_of(crew.drop_last());
        let c = crew.last();
        if directs(c) {
            before.push(PersonView { name: c.name@, role: None })
        } else {
            before
        }
    }
}

/// A member of the cast as a person.
pub open spec fn cast_person(c: TmdbCast) -> PersonView {
    PersonView { name: c.name@, role: c.character.deep_view() }
}

/// The first people of a cast, up to a limit.
pub open spec fn cast_of(cast: Seq<TmdbCast>) -> Seq<PersonView> {
    let n = if cast.len() < MAX_CAST {
        cast.len() as int
    } else {
        MAX_CAST as int
    };
    cast.take(n).map_values(|c: TmdbCast| cast_person(c))
}

/// Whether someone of this name is among the people.
fn contains_name(people: &Vec<Person>, name: &str) -> (r: bool)
    ensures
        r == has_name(people.deep_view(), name@),
{
    let mut i: usize = 0;
    while i < people.len()
        invariant
            i <= people@.len(),
            forall|k: int| 0 <= k < i ==> (#[trigger] people.deep_view()[k]).name != name@,
        decreases people@.len() - i,
    {
        assert(people.deep_view()[i as int] == people@[i as int].deep_view());
        if str_eq(people[i].name.as_str(), name) {
            return true;
        }
        i += 1;
    }
    false
}

/// The people of a trade, each once, in the order in which they first appear. The service lists a
/// person once for each job.
pub fn crew_people(crew: &Vec<TmdbCrew>, trade: Trade) -> (r: Vec<Person>)
    ensures
        r.deep_view() == people_of(crew@, trade),
{
    let mut out: Vec<Person> = Vec::new();
    let mut i: usize = 0;
    assert(crew@.take(0) =~= Seq::<TmdbCrew>::empty());
    assert(out.deep_view() =~= Seq::<PersonView>::empty());
    while i < crew.len()
        invariant
            i <= crew@.len(),
            out.deep_view() == people_of(crew@.take(i as int), trade),
        decreases crew@.len() - i,
    {
        let ghost before = out.deep_view();
        proof {
            assert(crew@.take(i + 1).drop_last() =~= crew@.take(i as int));
            assert(crew@.take(i + 1).last() == crew@[i as int]);
        }
        let counts = match trade {
            Trade::Producing => is_producer(&crew[i]),
            Trade::Writing => is_writer(&crew[i]),
        };
        if counts && !contains_name(&out, crew[i].name.as_str()) {
            out.push(Person::new(crew[i].name.as_str()));
            assert(out.deep_view() =~= before.push(
                PersonView { name: crew@[i as int].name@, role: None },
            ));
        }
        i += 1;
    }
    assert(crew@.take(crew@.len() as int) =~= crew@);
    out
}

/// The directors, in order.
pub fn crew_directors(crew: &Vec<TmdbCrew>) -> (r: Vec<Person>)
    ensures
        r.deep_view() == directors_of(crew@),
{
    let mut out: Vec<Person> = Vec::new();
    let mut i: usize = 0;
    assert(crew@.take(0) =~= Seq::<TmdbCrew>::empty());
    assert(out.deep_view() =~= Seq::<PersonView>::empty());
    while i < crew.len()
        invariant
            i <= crew@.len(),
            out.deep_view() == directors_of(crew@.take(i as int)),
        decreases crew@.len() - i,
    {
        let ghost before = out.deep_view();
        proof {
            assert(crew@.take(i + 1).drop_last() =~= crew@.take(i as int));
            assert(crew@.take(i + 1).last() == crew@[i as int]);
        }
        if text_is(&crew[i].job, "Director") {
            out.push(Person::new(crew[i].name.as_str()));
            assert(out.deep_view() =~= before.push(
                PersonView { name: crew@[i as int].name@, role: None },
            ));
        }
        i += 1;
    }
    assert(crew@.take(crew@.len() as int) =~= crew@);
    out
}

/// A member of the cast as a person, with the character as the role.
pub fn person_from_cast(c: &TmdbCast) -> (r: Person)
    ensures
        r.deep_view() == cast_person(*c),
{
    Person { name: c.name.clone(), role: copy_opt(&c.character) }
}

/// The first people of a cast, up to a limit.
pub fn cast_people(cast: &Vec<TmdbCast>) -> (r: Vec<Person>)
    ensures
        r.deep_view() == cast_of(cast@),
{
    let n: usize = if cast.len() < MAX_CAST {
        cast.len()
    } else {
        MAX_CAST
    };
    let ghost all = cast_of(cast@);
    let mut out: Vec<Person> = Vec::new();
    let mut i: usize = 0;
    while i < n
        invariant
            i <= n <= cast@.len(),
            all == cast_of(cast@),
            all.len() == n,
            forall|k: int| 0 <= k < n ==> #[trigger] all[k] == cast_person(cast@[k]),
            out.deep_view() == all.take(i as int),
        decreases n - i,
    {
        let ghost before = out.deep_view();
        out.push(person_from_cast(&cast[i]));
        assert(out.deep_view() =~= before.push(all[i as int]));
        assert(all.take(i + 1) =~= all.take(i as int).push(all[i as int]));
        i += 1;
    }
    assert(all.take(all.len() as int) =~= all);
    out
}

/// Everyone of a trade is among its people, nobody else is, and nobody is there twice.
pub proof fn law_crew_is_listed_once(crew: Seq<TmdbCrew>, trade: Trade)
    ensures
        forall|i: int, j: int|
            0 <= i < j < people_of(crew, trade).len() ==> (#[trigger] people_of(crew, trade)[i]).name
                != (#[trigger] people_of(crew, trade)[j]).name,
        forall|k: int|
            0 <= k < crew.len() && is_of(#[trigger] crew[k], trade) ==> has_name(
                people_of(crew, trade),
                crew[k].name@,
            ),
        forall|i: int|
            0 <= i < people_of(crew, trade).len() ==> exists|k: int|
                0 <= k < crew.len() && is_of(#[trigger] crew[k], trade) && crew[k].name@ == (
                #[trigger] people_of(crew, trade)[i]).name,
    decreases crew.len(),
{
    if crew.len() > 0 {
        let init = crew.drop_last();
        let c = crew.last();
        law_crew_is_listed_once(init, trade);
        let before = people_of(init, trade);
        let all = people_of(crew, trade);
        assert(c == crew[crew.len() - 1]);
        assert forall|k: int| 0 <= k < crew.len() && is_of(#[trigger] crew[k], trade) implies has_name(
            all,
            crew[k].name@,
        ) by {
            if k < init.len() {
                assert(init[k] == crew[k]);
                let i = choose|i: int|
                    0 <= i < before.len() && (#[trigger] before[i]).name == crew[k].name@;
                assert(all[i] == before[i]);
            } else if !has_name(before, c.name@) {
                assert(all[before.len() as int].name == c.name@);
            }
        }
        assert forall|i: int| 0 <= i < all.len() implies exists|k: int|
            0 <= k < crew.len() && is_of(#[trigger] crew[k], trade) && crew[k].name@ == (
            #[trigger] all[i]).name by {
            if i < before.len() {
                assert(all[i] == before[i]);
                let k = choose|k: int|
                    0 <= k < init.len() && is_of(#[trigger] init[k], trade) && init[k].name@
                        == before[i].name;
                assert(crew[k] == init[k]);
            } else {
                assert(crew[crew.len() - 1] == c);
            }
        }
    }
}

// ---------------------------------------------------------------------------
// Descriptions and ratings
// ---------------------------------------------------------------------------

/// The short description: the tagline where there is one, else the beginning of the long one.
pub open spec fn summary_of(
    tagline: Option<Seq<char>>,
    overview: Option<Seq<char>>,
) -> Option<Seq<char>> {
    let line = match tagline {
        Some(t) => trimmed(t),
        None => Seq::empty(),
    };
    if line.len() > 0 {
        Some(shortened(line))
    } else {
        match overview {
            Some(o) => if trimmed(shortened(o)).len() > 0 {
                Some(shortened(o))
            } else {
                None
            },
            None => None,
        }
    }
}

/// The short description: the tagline where there is one, else the beginning of the long one.
pub fn pick_summary(tagline: &Option<String>, overview: &Option<String>) -> (r: Option<String>)
    ensures
        r.deep_view() == summary_of(tagline.deep_view(), overview.deep_view()),
{
    if let Some(t) = tagline {
        let line = trim(t.as_str());
        if !line.as_str().is_empty() {
            return Some(shorten(line.as_str()));
        }
    }
    match overview {
        Some(o) => {
            let text = shorten(o.as_str());
            let rest = trim(text.as_str());
            if rest.as_str().is_empty() {
                None
            } else {
                Some(text)
            }
        },
        None => None,
    }
}

/// The first certification from `i` on that is not blank.
pub open spec fn certification_from(entries: Seq<TmdbReleaseDateEntry>, i: int) -> Option<Seq<char>>
    decreases entries.len() - i,
{
    if i < 0 || i >= entries.len() {
        None
    } else if trimmed(entries[i].certification@).len() > 0 {
        Some(trimmed(entries[i].certification@))
    } else {
        certification_from(entries, i + 1)
    }
}

/// The first certification in the countries from `i` on that is not blank.
pub open spec fn any_certification(
    results: Seq<TmdbReleaseDatesCountry>,
    i: int,
) -> Option<Seq<char>>
    decreases results.len() - i,
{
    if i < 0 || i >= results.len() {
        None
    } else {
        match certification_from(results[i].release_dates@, 0) {
            Some(c) => Some(c),
            None => any_certification(results, i + 1),
        }
    }
}

/// The first entry for the United States from `i` on.
pub open spec fn us_from(results: Seq<TmdbReleaseDatesCountry>, i: int) -> Option<int>
    decreases results.len() - i,
{
    if i < 0 || i >= results.len() {
        None
    } else if results[i].iso_3166_1@ == "US"@ {
        Some(i)
    } else {
        us_from(results, i + 1)
    }
}

/// The certification of a movie: that of the United States, else the first one there is.
pub open spec fn certification_of(rd: Option<TmdbReleaseDates>) -> Option<Seq<char>> {
    match rd {
        None => None,
        Some(r) => {
            let us = match us_from(r.results@, 0) {
                Some(i) => certification_from(r.results@[i].release_dates@, 0),
                None => None,
            };
            match us {
                Some(c) => Some(c),
                None => any_certification(r.results@, 0),
            }
        },
    }
}

/// The first certification that is not blank.
fn first_certification(entries: &Vec<TmdbReleaseDateEntry>) -> (r: Option<String>)
    ensures
        r.deep_view() == certification_from(entries@, 0),
{
    let mut i: usize = 0;
    while i < entries.len()
        invariant
            i <= entries@.len(),
            certification_from(entries@, 0) == certification_from(entries@, i as int),
        decreases entries@.len() - i,
    {
        let c = trim(entries[i].certification.as_str());
        if !c.as_str().is_empty() {
            return Some(c);
        }
        i += 1;
    }
    None
}

/// The first entry for the United States.
fn find_us(results: &Vec<TmdbReleaseDatesCountry>) -> (r: Option<usize>)
    ensures
        r matches Some(k) ==> k < results@.len() && us_from(results@, 0) == Some(k as int),
        r is None ==> us_from(results@, 0) is None,
{
    let mut i: usize = 0;
    while i < results.len()
        invariant
            i <= results@.len(),
            us_from(results@, 0) == us_from(results@, i as int),
        decreases results@.len() - i,
    {
        if str_eq(results[i].iso_3166_1.as_str(), "US") {
            return Some(i);
        }
        i += 1;
    }
    None
}

/// The certification of a movie: that of the United States, else the first one there is.
pub fn us_movie_certification(rd: &Option<TmdbReleaseDates>) -> (r: Option<String>)
    ensures
        r.deep_view() == certification_of(*rd),
{
    let results = match rd {
        Some(r) => &r.results,
        None => return None,
    };
    let us: Option<usize> = find_us(results);
    if let Some(k) = us {
        if let Some(c) = first_certification(&results[k].release_dates) {
            return Some(c);
        }
    }
    let mut j: usize = 0;
    while j < results.len()
        invariant
            j <= results@.len(),
            rd matches Some(r) && r.results@ == results@,
            certification_of(*rd) == any_certification(results@, 0),
            any_certification(results@, 0) == any_certification(results@, j as int),
        decreases results@.len() - j,
    {
        if let Some(c) = first_certification(&results[j].release_dates) {
            return Some(c);
        }
        j += 1;
    }
    None
}

/// The first rating from `i` on that is not blank; only those of the United States, or any.
pub open spec fn rating_in_from(
    results: Seq<TmdbContentRatingCountry>,
    us_only: bool,
    i: int,
) -> Option<Seq<char>>
    decreases results.len() - i,
{
    if i < 0 || i >= results.len() {
        None
    } else if (!us_only || results[i].iso_3166_1@ == "US"@) && trimmed(results[i].rating@).len()
        > 0 {
        Some(trimmed(results[i].rating@))
    } else {
        rating_in_from(results, us_only, i + 1)
    }
}

/// The rating of a show: that of the United States, else the first one there is.
pub open spec fn show_rating_of(cr: Option<TmdbContentRatings>) -> Option<Seq<char>> {
    match cr {
        None => None,
        Some(c) => match rating_in_from(c.results@, true, 0) {
            Some(r) => Some(r),
            None => rating_in_from(c.results@, false, 0),
        },
    }
}

/// The first rating that is not blank; only those of the United States, or any.
fn first_rating(results: &Vec<TmdbContentRatingCountry>, us_only: bool) -> (r: Option<String>)
    ensures
        r.deep_view() == rating_in_from(results@, us_only, 0),
{
    let mut i: usize = 0;
    while i < results.len()
        invariant
            i <= results@.len(),
            rating_in_from(results@, us_only, 0) == rating_in_from(results@, us_only, i as int),
        decreases results@.len() - i,
    {
        if !us_only || str_eq(results[i].iso_3166_1.as_str(), "US") {
            let rating = trim(results[i].rating.as_str());
            if !rating.as_str().is_empty() {
                return Some(rating);
            }
        }
        i += 1;
    }
    None
}

/// The rating of a show: that of the United States, else the first one there is.
pub fn us_tv_rating(cr: &Option<TmdbContentRatings>) -> (r: Option<String>)
    ensures
        r.deep_view() == show_rating_of(*cr),
{
    match cr {
        None => None,
        Some(c) => match first_rating(&c.results, true) {
            Some(r) => Some(r),
            None => first_rating(&c.results, false),
        },
    }
}

// ---------------------------------------------------------------------------
// Details
// ---------------------------------------------------------------------------

/// The date in an optional text.
pub open spec fn date_of(s: Option<Seq<char>>) -> Option<Date> {
    match s {
        Some(t) => date_in(t),
        None => None,
    }
}

/// The year that an optional text begins with.
pub open spec fn year_of(s: Option<Seq<char>>) -> Option<i32> {
    match s {
        Some(t) => match leading_year(t) {
            Some(y) => Some(y as i32),
            None => None,
        },
        None => None,
    }
}

/// An optional text, unless it is blank.
pub open spec fn unless_blank(s: Option<Seq<char>>) -> Option<Seq<char>> {
    match s {
        Some(t) => if trimmed(t).len() > 0 {
            Some(t)
        } else {
            None
        },
        None => None,
    }
}

/// The first of a list of names.
pub open spec fn first_name(names: Seq<String>) -> Option<Seq<char>> {
    if names.len() > 0 {
        Some(names[0]@)
    } else {
        None
    }
}

/// The date in an optional text.
fn read_date_of(s: &Option<String>) -> (r: Option<Date>)
    ensures
        r == date_of(s.deep_view()),
        r matches Some(d) ==> valid_date(d),
{
    match s {
        Some(t) => parse_date(t.as_str()),
        None => None,
    }
}

/// The year that an optional text begins with.
fn read_year_of(s: &Option<String>) -> (r: Option<i32>)
    ensures
        r == year_of(s.deep_view()),
{
    match s {
        Some(t) => parse_year(t.as_str()),
        None => None,
    }
}

/// An optional text, unless it is blank.
pub fn drop_blank(s: Option<String>) -> (r: Option<String>)
    ensures
        r.deep_view() == unless_blank(s.deep_view()),
{
    match s {
        Some(t) => {
            let rest = trim(t.as_str());
            if rest.as_str().is_empty() {
                None
            } else {
                Some(t)
            }
        },
        None => None,
    }
}

/// The first of a list of names.
fn take_first(names: &Vec<String>) -> (r: Option<String>)
    ensures
        r.deep_view() == first_name(names@),
{
    if names.len() > 0 {
        Some(names[0].clone())
    } else {
        None
    }
}

/// The crew in optional credits.
pub open spec fn crew_in(c: Option<TmdbCredits>) -> Seq<TmdbCrew> {
    match c {
        Some(x) => x.crew@,
        None => Seq::empty(),
    }
}

/// The cast in optional credits.
pub open spec fn cast_in(c: Option<TmdbCredits>) -> Seq<TmdbCast> {
    match c {
        Some(x) => x.cast@,
        None => Seq::empty(),
    }
}

/// What is known about a movie from its details.
pub open spec fn movie_of(d: TmdbMovieDetail) -> MetadataView {
    MetadataView {
        title: d.title@,
        release_date: date_of(d.release_date.deep_view()),
        summary: summary_of(d.tagline.deep_view(), d.overview.deep_view()),
        overview: d.overview.deep_view(),
        genres: d.genres.deep_view(),
        cast: cast_of(cast_in(d.credits)),
        directors: directors_of(crew_in(d.credits)),
        producers: people_of(crew_in(d.credits), Trade::Producing),
        writers: people_of(crew_in(d.credits), Trade::Writing),
        content_rating: certification_of(d.release_dates),
        studio: first_name(d.production_companies@),
        video_kind: Some(VideoKind::Movie),
        definition: None,
        artwork: gallery(d.poster_path.deep_view(), images_of(d.images)),
        kind: KindView::Movie,
    }
}

/// Optional credits, or empty ones.
fn credits_or_none(c: Option<TmdbCredits>) -> (r: TmdbCredits)
    ensures
        r.cast@ == cast_in(c),
        r.crew@ == crew_in(c),
{
    match c {
        Some(x) => x,
        None => TmdbCredits { cast: Vec::new(), crew: Vec::new() },
    }
}

/// What is known about a movie from its details.
pub fn movie_details(d: TmdbMovieDetail) -> (r: MediaMetadata)
    ensures
        r.deep_view() == movie_of(d),
        r.release_date matches Some(x) ==> valid_date(x),
{
    let credits = credits_or_none(d.credits);
    MediaMetadata {
        title: d.title,
        release_date: read_date_of(&d.release_date),
        summary: pick_summary(&d.tagline, &d.overview),
        overview: d.overview,
        genres: d.genres,
        cast: cast_people(&credits.cast),
        directors: crew_directors(&credits.crew),
        producers: crew_people(&credits.crew, Trade::Producing),
        writers: crew_people(&credits.crew, Trade::Writing),
        content_rating: us_movie_certification(&d.release_dates),
        studio: take_first(&d.production_companies),
        video_kind: Some(VideoKind::Movie),
        definition: None,
        artwork: collect_artwork(&d.poster_path, &d.images),
        kind: MediaKindMeta::Movie,
    }
}

/// `first`, and behind it those of the first `n` pictures of `more` that are not among them
/// already.
pub open spec fn merged_artwork(
    first: Seq<ArtworkView>,
    more: Seq<ArtworkView>,
    n: int,
) -> Seq<ArtworkView>
    decreases n,
{
    if n <= 0 {
        first
    } else {
        let before = merged_artwork(first, more, n - 1);
        if has_url(before, more[n - 1].url) {
            before
        } else {
            before.push(more[n - 1])
        }
    }
}

proof fn lemma_merged_artwork(first: Seq<ArtworkView>, more: Seq<ArtworkView>, n: int)
    requires
        urls_distinct(first),
        0 <= n <= more.len(),
    ensures
        urls_distinct(merged_artwork(first, more, n)),
        merged_artwork(first, more, n).len() >= first.len(),
        merged_artwork(first, more, n).take(first.len() as int) == first,
        forall|k: int|
            0 <= k < n ==> has_url(merged_artwork(first, more, n), (#[trigger] more[k]).url),
    decreases n,
{
    let all = merged_artwork(first, more, n);
    if n <= 0 {
        assert(first.take(first.len() as int) =~= first);
    } else {
        let before = merged_artwork(first, more, n - 1);
        lemma_merged_artwork(first, more, n - 1);
        if !has_url(before, more[n - 1].url) {
            assert(all == before.push(more[n - 1]));
            assert(all.take(first.len() as int) =~= before.take(first.len() as int));
            assert(all[all.len() - 1].url == more[n - 1].url);
        }
        assert forall|k: int| 0 <= k < n implies has_url(all, (#[trigger] more[k]).url) by {
            if k < n - 1 {
                assert(has_url(before, more[k].url));
                let i = choose|i: int|
                    0 <= i < before.len() && (#[trigger] before[i]).url == more[k].url;
                assert(all[i] == before[i]);
            }
        }
    }
}

/// No picture of an episode or of its show is offered twice: those of the episode come first, in
/// their order, and every one of the show is offered.
pub proof fn law_episode_offers_each_picture_once(
    d: TmdbTvDetail,
    id: ProviderIdView,
    ep: Option<TmdbEpisodeDetail>,
)
    ensures
        ({
            let offered = episode_of(d, id, ep).artwork;
            let posters = gallery(d.poster_path.deep_view(), images_of(d.images));
            let own = parts_of_episode(
                if id.season is Some && id.episode is Some {
                    ep
                } else {
                    None
                },
            ).stills;
            &&& urls_distinct(offered)
            &&& own.len() <= offered.len() && offered.take(own.len() as int) == own
            &&& forall|k: int|
                0 <= k < posters.len() ==> has_url(offered, (#[trigger] posters[k]).url)
        }),
{
    let offered = episode_of(d, id, ep).artwork;
    let posters = gallery(d.poster_path.deep_view(), images_of(d.images));
    let e = if id.season is Some && id.episode is Some {
        ep
    } else {
        None
    };
    let own = parts_of_episode(e).stills;
    law_gallery_offers_each_picture_once(d.poster_path.deep_view(), images_of(d.images));
    if let Some(x) = e {
        law_gallery_offers_each_picture_once(x.still_path.deep_view(), images_of(x.stills));
    }
    if own.len() > 0 {
        lemma_merged_artwork(own, posters, posters.len() as int);
    } else {
        assert(offered.take(0) =~= own);
        assert forall|k: int| 0 <= k < posters.len() implies has_url(
            offered,
            (#[trigger] posters[k]).url,
        ) by {
            assert(offered[k] == posters[k]);
        }
    }
}

/// What an episode adds to its show.
pub struct EpisodeParts {
    pub title: Option<Seq<char>>,
    pub air_date: Option<Date>,
    pub overview: Option<Seq<char>>,
    pub stills: Seq<ArtworkView>,
    pub directors: Seq<PersonView>,
    pub writers: Seq<PersonView>,
    pub guests: Seq<PersonView>,
}

/// What an episode adds to its show; nothing where there are no details of it.
pub open spec fn parts_of_episode(ep: Option<TmdbEpisodeDetail>) -> EpisodeParts {
    match ep {
        Some(e) => EpisodeParts {
            title: unless_blank(e.name.deep_view()),
            air_date: date_of(e.air_date.deep_view()),
            overview: unless_blank(e.overview.deep_view()),
            stills: gallery(e.still_path.deep_view(), images_of(e.stills)),
            directors: match e.crew {
                Some(c) => directors_of(c@),
                None => Seq::empty(),
            },
            writers: match e.crew {
                Some(c) => people_of(c@, Trade::Writing),
                None => Seq::empty(),
            },
            guests: cast_of(e.guest_stars@),
        },
        None => EpisodeParts {
            title: None,
            air_date: None,
            overview: None,
            stills: Seq::empty(),
            directors: Seq::empty(),
            writers: Seq::empty(),
            guests: Seq::empty(),
        },
    }
}

/// What is known about an episode, or about a show where no episode is given: what the episode has
/// of its own takes the place of what the show has.
pub open spec fn episode_of(
    d: TmdbTvDetail,
    id: ProviderIdView,
    ep: Option<TmdbEpisodeDetail>,
) -> MetadataView {
    let e = parts_of_episode(
        if id.season is Some && id.episode is Some {
            ep
        } else {
            None
        },
    );
    let posters = gallery(d.poster_path.deep_view(), images_of(d.images));
    let network = first_name(d.networks@);
    MetadataView {
        title: match e.title {
            Some(t) => t,
            None => d.name@,
        },
        release_date: match e.air_date {
            Some(a) => Some(a),
            None => date_of(d.first_air_date.deep_view()),
        },
        summary: match e.overview {
            Some(o) => summary_of(None, Some(o)),
            None => summary_of(d.tagline.deep_view(), d.overview.deep_view()),
        },
        overview: match e.overview {
            Some(o) => Some(o),
            None => d.overview.deep_view(),
        },
        genres: d.genres.deep_view(),
        cast: if e.guests.len() > 0 {
            e.guests
        } else {
            cast_of(cast_in(d.credits))
        },
        directors: e.directors,
        producers: Seq::empty(),
        writers: e.writers,
        content_rating: show_rating_of(d.content_ratings),
        studio: network,
        video_kind: Some(VideoKind::TvShow),
        definition: None,
        artwork: if e.stills.len() > 0 {
            merged_artwork(e.stills, posters, posters.len() as int)
        } else {
            posters
        },
        kind: KindView::Episode(
            EpisodeView {
                show_name: d.name@,
                season: match id.season {
                    Some(s) => s,
                    None => 0,
                },
                episode: match id.episode {
                    Some(n) => n,
                    None => 0,
                },
                episode_title: e.title,
                network,
                episode_id: None,
            },
        ),
    }
}

/// `first`, and behind it those of `more` that are not among them already.
fn merge_artwork(first: Vec<Artwork>, more: &Vec<Artwork>) -> (r: Vec<Artwork>)
    ensures
        r.deep_view() == merged_artwork(first.deep_view(), more.deep_view(), more@.len() as int),
{
    let ghost start = first.deep_view();
    let ghost all = more.deep_view();
    let mut out = first;
    let mut i: usize = 0;
    while i < more.len()
        invariant
            i <= more@.len(),
            all == more.deep_view(),
            out.deep_view() == merged_artwork(start, all, i as int),
        decreases more@.len() - i,
    {
        let ghost before = out.deep_view();
        assert(all[i as int] == more@[i as int].deep_view());
        if !contains_url(&out, more[i].url.as_str()) {
            let art = more[i].copy();
            out.push(art);
            assert(out.deep_view() =~= before.push(all[i as int]));
        }
        i += 1;
    }
    out
}

/// What is known about an episode, or about a show where no episode is given, from the details of
/// the show and those of the episode. What the episode has of its own takes the place of what the
/// show has; its stills come in front of the show's posters.
pub fn episode_details(
    d: TmdbTvDetail,
    id: &ProviderId,
    ep: Option<TmdbEpisodeDetail>,
) -> (r: MediaMetadata)
    ensures
        r.deep_view() == episode_of(d, id.deep_view(), ep),
        r.release_date matches Some(x) ==> valid_date(x),
{
    let posters = collect_artwork(&d.poster_path, &d.images);
    let network = take_first(&d.networks);
    let credits = credits_or_none(d.credits);
    let mut title = d.name.clone();
    let mut release_date = read_date_of(&d.first_air_date);
    let mut summary = pick_summary(&d.tagline, &d.overview);
    let mut overview = copy_opt(&d.overview);
    let mut artwork = copy_artwork(&posters);
    let mut directors: Vec<Person> = Vec::new();
    let mut writers: Vec<Person> = Vec::new();
    let mut guests: Vec<Person> = Vec::new();
    let mut episode_title: Option<String> = None;
    let ghost e = parts_of_episode(
        if id.season is Some && id.episode is Some {
            ep
        } else {
            None
        },
    );
    assert(directors.deep_view() =~= Seq::<PersonView>::empty());
    assert(writers.deep_view() =~= Seq::<PersonView>::empty());
    assert(guests.deep_view() =~= Seq::<PersonView>::empty());
    if id.season.is_some() && id.episode.is_some() {
        if let Some(x) = ep {
            if let Some(name) = drop_blank(x.name) {
                episode_title = Some(name.clone());
                title = name;
            }
            if let Some(air) = read_date_of(&x.air_date) {
                release_date = Some(air);
            }
            if let Some(text) = drop_blank(x.overview) {
                let own = Some(text);
                summary = pick_summary(&None, &own);
                overview = own;
            }
            let stills = collect_still_artwork(&x.still_path, &x.stills);
            assert(stills.deep_view().len() == stills@.len());
            if stills.len() > 0 {
                artwork = merge_artwork(stills, &posters);
            }
            if let Some(crew) = &x.crew {
                directors = crew_directors(crew);
                writers = crew_people(crew, Trade::Writing);
            }
            guests = cast_people(&x.guest_stars);
        }
    }
    assert(guests.deep_view().len() == guests@.len());
    let cast = if guests.len() > 0 {
        guests
    } else {
        cast_people(&credits.cast)
    };
    let producers: Vec<Person> = Vec::new();
    assert(producers.deep_view() =~= Seq::<PersonView>::empty());
    let season: u32 = match id.season {
        Some(s) => s,
        None => 0,
    };
    let episode: u32 = match id.episode {
        Some(n) => n,
        None => 0,
    };
    MediaMetadata {
        title,
        release_date,
        summary,
        overview,
        genres: d.genres,
        cast,
        directors,
        producers,
        writers,
        content_rating: us_tv_rating(&d.content_ratings),
        studio: copy_opt(&network),
        video_kind: Some(VideoKind::TvShow),
        definition: None,
        artwork,
        kind: MediaKindMeta::Episode(
            EpisodeInfo {
                show_name: d.name,
                season,
                episode,
                episode_title,
                network,
                episode_id: None,
            },
        ),
    }
}

// ---------------------------------------------------------------------------
// Results of searches
// ---------------------------------------------------------------------------

/// The address of a picture in some size, if there is a picture.
pub open spec fn optional_url(path: Option<Seq<char>>, size: Seq<char>) -> Option<Seq<char>> {
    match path {
        Some(p) => Some(picture_url(size, p)),
        None => None,
    }
}

/// How the service names a title.
pub open spec fn tmdb_id(
    id: Seq<char>,
    kind: MediaKind,
    season: Option<u32>,
    episode: Option<u32>,
) -> ProviderIdView {
    ProviderIdView { provider: "tmdb"@, id, kind, season, episode }
}

/// A movie of a search as a result.
pub open spec fn movie_result(m: TmdbMovieHit) -> SearchResultView {
    SearchResultView {
        id: tmdb_id(signed_decimal(m.id as int), MediaKind::Movie, None, None),
        title: m.title@,
        year: year_of(m.release_date.deep_view()),
        overview: m.overview.deep_view(),
        poster_thumb_url: optional_url(m.poster_path.deep_view(), THUMB_SIZE@),
        episode_name: None,
    }
}

/// A show of a search as a result.
pub open spec fn show_result(t: TmdbTvHit) -> SearchResultView {
    SearchResultView {
        id: tmdb_id(signed_decimal(t.id as int), MediaKind::TvShow, None, None),
        title: t.name@,
        year: year_of(t.first_air_date.deep_view()),
        overview: t.overview.deep_view(),
        poster_thumb_url: optional_url(t.poster_path.deep_view(), THUMB_SIZE@),
        episode_name: None,
    }
}

/// An episode in the list of a season as a result.
pub open spec fn episode_result(
    series_id: Seq<char>,
    show_name: Seq<char>,
    season: u32,
    e: TmdbSeasonEpisode,
) -> SearchResultView {
    SearchResultView {
        id: tmdb_id(series_id, MediaKind::TvShow, Some(season), Some(e.episode_number)),
        title: show_name,
        year: year_of(e.air_date.deep_view()),
        overview: e.overview.deep_view(),
        poster_thumb_url: optional_url(e.still_path.deep_view(), THUMB_SIZE@),
        episode_name: unless_blank(e.name.deep_view()),
    }
}

/// The movies of a search as results, in order.
pub fn movie_hits(hits: &Vec<TmdbMovieHit>) -> (r: Vec<SearchResult>)
    ensures
        r.deep_view() == hits@.map_values(|m: TmdbMovieHit| movie_result(m)),
{
    let ghost all = hits@.map_values(|m: TmdbMovieHit| movie_result(m));
    let mut out: Vec<SearchResult> = Vec::new();
    let mut i: usize = 0;
    while i < hits.len()
        invariant
            i <= hits@.len(),
            all == hits@.map_values(|m: TmdbMovieHit| movie_result(m)),
            out.deep_view() == all.take(i as int),
        decreases hits@.len() - i,
    {
        let ghost before = out.deep_view();
        let m = &hits[i];
        out.push(
            SearchResult {
                id: ProviderId {
                    provider: "tmdb".to_string(),
                    id: show_signed(m.id),
                    kind: MediaKind::Movie,
                    season: None,
                    episode: None,
                },
                title: m.title.clone(),
                year: read_year_of(&m.release_date),
                overview: copy_opt(&m.overview),
                poster_thumb_url: TmdbProvider::image_url(&m.poster_path, THUMB_SIZE),
                episode_name: None,
            },
        );
        assert(out.deep_view() =~= before.push(all[i as int]));
        assert(all.take(i + 1) =~= all.take(i as int).push(all[i as int]));
        i += 1;
    }
    assert(all.take(all.len() as int) =~= all);
    out
}

/// The shows of a search as results, in order.
pub fn tv_hits(hits: &Vec<TmdbTvHit>) -> (r: Vec<SearchResult>)
    ensures
        r.deep_view() == hits@.map_values(|t: TmdbTvHit| show_result(t)),
{
    let ghost all = hits@.map_values(|t: TmdbTvHit| show_result(t));
    let mut out: Vec<SearchResult> = Vec::new();
    let mut i: usize = 0;
    while i < hits.len()
        invariant
            i <= hits@.len(),
            all == hits@.map_values(|t: TmdbTvHit| show_result(t)),
            out.deep_view() == all.take(i as int),
        decreases hits@.len() - i,
    {
        let ghost before = out.deep_view();
        let t = &hits[i];
        out.push(
            SearchResult {
                id: ProviderId {
                    provider: "tmdb".to_string(),
                    id: show_signed(t.id),
                    kind: MediaKind::TvShow,
                    season: None,
                    episode: None,
                },
                title: t.name.clone(),
                year: read_year_of(&t.first_air_date),
                overview: copy_opt(&t.overview),
                poster_thumb_url: TmdbProvider::image_url(&t.poster_path, THUMB_SIZE),
                episode_name: None,
            },
        );
        assert(out.deep_view() =~= before.push(all[i as int]));
        assert(all.take(i + 1) =~= all.take(i as int).push(all[i as int]));
        i += 1;
    }
    assert(all.take(all.len() as int) =~= all);
    out
}

/// A season of a show's list as a summary; the name falls back to the number.
pub open spec fn season_summary(s: TmdbSeasonEntry) -> TvSeasonSummaryView {
    TvSeasonSummaryView {
        season_number: s.season_number,
        name: match unless_blank(s.name.deep_view()) {
            Some(n) => n,
            None => "Season "@ + decimal(s.season_number as nat),
        },
        episode_count: s.episode_count,
    }
}

/// `list` with `x` behind the last season whose number is not larger.
pub open spec fn insert_season(
    list: Seq<TvSeasonSummaryView>,
    x: TvSeasonSummaryView,
) -> Seq<TvSeasonSummaryView>
    decreases list.len(),
{
    if list.len() > 0 && list.last().season_number > x.season_number {
        insert_season(list.drop_last(), x).push(list.last())
    } else {
        list.push(x)
    }
}

/// The seasons that have episodes, by number; those of one number stay in their order.
pub open spec fn seasons_of(entries: Seq<TmdbSeasonEntry>) -> Seq<TvSeasonSummaryView>
    decreases entries.len(),
{
    if entries.len() == 0 {
        Seq::empty()
    } else {
        let before = seasons_of(entries.drop_last());
        if entries.last().episode_count > 0 {
            insert_season(before, season_summary(entries.last()))
        } else {
            before
        }
    }
}

/// Inserts a season behind the last one whose number is not larger.
fn insert_by_number(list: &mut Vec<TvSeasonSummary>, x: TvSeasonSummary)
    ensures
        final(list).deep_view() == insert_season(old(list).deep_view(), x.deep_view()),
{
    let ghost start = list.deep_view();
    let mut at: usize = list.len();
    assert(start.take(start.len() as int) =~= start);
    assert(start.skip(start.len() as int) =~= Seq::<TvSeasonSummaryView>::empty());
    assert(insert_season(start, x.deep_view()) + Seq::<TvSeasonSummaryView>::empty()
        =~= insert_season(start, x.deep_view()));
    while at > 0 && list[at - 1].season_number > x.season_number
        invariant
            at <= list@.len(),
            start == list.deep_view(),
            insert_season(start, x.deep_view()) == insert_season(
                start.take(at as int),
                x.deep_view(),
            ) + start.skip(at as int),
        decreases at,
    {
        proof {
            let head = start.take(at as int);
            assert(head.last() == list@[at - 1].deep_view());
            assert(head.drop_last() =~= start.take(at - 1));
            assert(insert_season(start.take(at - 1), x.deep_view()).push(head.last()) + start.skip(
                at as int,
            ) =~= insert_season(start.take(at - 1), x.deep_view()) + start.skip(at - 1));
        }
        at -= 1;
    }
    let ghost item = x.deep_view();
    proof {
        let head = start.take(at as int);
        if at > 0 {
            assert(head.last() == list@[at - 1].deep_view());
        }
        assert(insert_season(head, item) == head.push(item));
        assert(head.push(item) + start.skip(at as int) =~= start.insert(at as int, item));
    }
    let ghost before = list@;
    list.insert(at, x);
    assert(list@ == before.insert(at as int, x));
    assert(list.deep_view() =~= start.insert(at as int, item));
}

/// Whether the seasons come in the order of their numbers.
pub open spec fn by_number(list: Seq<TvSeasonSummaryView>) -> bool {
    forall|i: int, j: int|
        0 <= i < j < list.len() ==> (#[trigger] list[i]).season_number <= (
        #[trigger] list[j]).season_number
}

proof fn lemma_insert_season(list: Seq<TvSeasonSummaryView>, x: TvSeasonSummaryView)
    requires
        by_number(list),
    ensures
        by_number(insert_season(list, x)),
        insert_season(list, x).to_multiset() == list.to_multiset().insert(x),
        insert_season(list, x).len() == list.len() + 1,
        insert_season(list, x).last() == x || (list.len() > 0 && insert_season(list, x).last()
            == list.last() && list.last().season_number > x.season_number),
    decreases list.len(),
{
    broadcast use vstd::seq_lib::group_to_multiset_ensures;

    if list.len() > 0 && list.last().season_number > x.season_number {
        let init = list.drop_last();
        let last = list.last();
        assert(by_number(init)) by {
            assert forall|i: int, j: int| 0 <= i < j < init.len() implies (
            #[trigger] init[i]).season_number <= (#[trigger] init[j]).season_number by {
                assert(init[i] == list[i] && init[j] == list[j]);
            }
        }
        lemma_insert_season(init, x);
        let part = insert_season(init, x);
        let all = part.push(last);
        assert(list =~= init.push(last));
        assert forall|i: int, j: int| 0 <= i < j < all.len() implies (
        #[trigger] all[i]).season_number <= (#[trigger] all[j]).season_number by {
            if j < part.len() {
                assert(all[i] == part[i] && all[j] == part[j]);
            } else {
                assert(all[i] == part[i]);
                if i < part.len() - 1 {
                    assert(part[i].season_number <= part[part.len() - 1].season_number);
                }
                if init.len() > 0 {
                    assert(list[list.len() - 2].season_number <= list[list.len() - 1].season_number);
                }
            }
        }
        assert(all.to_multiset() =~= list.to_multiset().insert(x));
    } else {
        let all = list.push(x);
        assert forall|i: int, j: int| 0 <= i < j < all.len() implies (
        #[trigger] all[i]).season_number <= (#[trigger] all[j]).season_number by {
            if j < list.len() {
                assert(all[i] == list[i] && all[j] == list[j]);
            } else if i < list.len() - 1 {
                assert(list[i].season_number <= list[list.len() - 1].season_number);
            }
        }
        assert(all.to_multiset() =~= list.to_multiset().insert(x));
    }
}

/// The seasons come in the order of their numbers, and none of them is without episodes.
pub proof fn law_seasons_are_in_order(entries: Seq<TmdbSeasonEntry>)
    ensures
        by_number(seasons_of(entries)),
        forall|i: int|
            0 <= i < seasons_of(entries).len() ==> (#[trigger] seasons_of(entries)[i]).episode_count
                > 0,
    decreases entries.len(),
{
    if entries.len() > 0 {
        let init = entries.drop_last();
        let before = seasons_of(init);
        law_seasons_are_in_order(init);
        let x = season_summary(entries.last());
        lemma_insert_season(before, x);
        if entries.last().episode_count > 0 {
            let all = insert_season(before, x);
            assert forall|i: int| 0 <= i < all.len() implies (#[trigger] all[i]).episode_count
                > 0 by {
                broadcast use vstd::seq_lib::group_to_multiset_ensures;

                assert(all.contains(all[i]));
                assert(all.to_multiset().count(all[i]) > 0);
                if all[i] != x {
                    assert(before.to_multiset().count(all[i]) > 0);
                    assert(before.contains(all[i]));
                }
            }
        }
    }
}

/// The number and the name of an episode; the name falls back to the number.
pub open spec fn numbered_name(e: TmdbSeasonEpisode) -> (u32, Seq<char>) {
    (
        e.episode_number,
        match unless_blank(e.name.deep_view()) {
            Some(n) => n,
            None => "Episode "@ + decimal(e.episode_number as nat),
        },
    )
}

// ---------------------------------------------------------------------------
// Episodes by title
// ---------------------------------------------------------------------------

/// Whether an episode's name matches a needle in lower case: an empty needle matches anything, a
/// missing name nothing else.
pub open spec fn title_matches(name: Option<Seq<char>>, needle: Seq<char>) -> bool {
    needle.len() == 0 || (match name {
        Some(n) => holds(lowered(n), needle),
        None => false,
    })
}

/// Whether an episode's name matches a needle in lower case: an empty needle matches anything, a
/// missing name nothing else.
pub fn episode_title_matches(name: Option<&str>, needle_lower: &str) -> (r: bool)
    ensures
        r == title_matches(
            match name {
                Some(n) => Some(n@),
                None => None,
            },
            needle_lower@,
        ),
{
    if needle_lower.is_empty() {
        return true;
    }
    match name {
        Some(n) => contains_lowered(to_lowercase(n).as_str(), needle_lower),
        None => false,
    }
}

/// Whether a name in lower case has the needle in it.
pub fn contains_lowered(name_lower: &str, needle_lower: &str) -> (r: bool)
    ensures
        r == holds(name_lower@, needle_lower@),
{
    contains(name_lower, needle_lower)
}

/// The episodes whose names match, in order.
pub open spec fn matching(episodes: Seq<(u32, Seq<char>)>, needle: Seq<char>) -> Seq<
    TvEpisodeHitView,
>
    decreases episodes.len(),
{
    if episodes.len() == 0 {
        Seq::empty()
    } else {
        let before = matching(episodes.drop_last(), needle);
        let (number, name) = episodes.last();
        if title_matches(Some(name), needle) {
            before.push(TvEpisodeHitView { number, name })
        } else {
            before
        }
    }
}

/// The episodes whose names match a needle in lower case, in order.
pub fn filter_matching_episodes(episodes: &Vec<(u32, String)>, needle_lower: &str) -> (r: Vec<
    TvEpisodeHit,
>)
    ensures
        r.deep_view() == matching(episodes.deep_view(), needle_lower@),
{
    let ghost all = episodes.deep_view();
    let mut out: Vec<TvEpisodeHit> = Vec::new();
    let mut i: usize = 0;
    assert(all.take(0) =~= Seq::<(u32, Seq<char>)>::empty());
    assert(out.deep_view() =~= Seq::<TvEpisodeHitView>::empty());
    while i < episodes.len()
        invariant
            i <= episodes@.len(),
            all == episodes.deep_view(),
            out.deep_view() == matching(all.take(i as int), needle_lower@),
        decreases episodes@.len() - i,
    {
        let ghost before = out.deep_view();
        let number: u32 = episodes[i].0;
        let name = episodes[i].1.as_str();
        proof {
            assert(all.take(i + 1).drop_last() =~= all.take(i as int));
            assert(all.take(i + 1).last() == (number, name@));
        }
        if episode_title_matches(Some(name), needle_lower) {
            out.push(TvEpisodeHit { number, name: name.to_string() });
            assert(out.deep_view() =~= before.push(TvEpisodeHitView { number, name: name@ }));
        }
        i += 1;
    }
    assert(all.take(all.len() as int) =~= all);
    out
}

/// The needle for a title: trimmed and in lower case.
pub open spec fn needle_of(title: Seq<char>) -> Seq<char> {
    lowered(trimmed(title))
}

/// The needle for a title: trimmed and in lower case.
pub fn needle(title: &str) -> (r: String)
    ensures
        r@ == needle_of(title@),
{
    to_lowercase(trim(title).as_str())
}

/// Letter case and white space around it make no difference to the title that is searched for, and
/// letter case none to the names it is held against, as far as they are ASCII. An empty title
/// matches every name.
pub proof fn law_title_search_ignores_case(name: Seq<char>, title: Seq<char>)
    requires
        is_ascii_text(name),
        is_ascii_text(title),
    ensures
        needle_of(ascii_lowered(title)) == needle_of(title),
        needle_of(trimmed(title)) == needle_of(title),
        title_matches(Some(ascii_lowered(name)), needle_of(title)) == title_matches(
            Some(name),
            needle_of(title),
        ),
        trimmed(title).len() == 0 ==> title_matches(Some(name), needle_of(title)),
{
    lemma_trim_and_lower(name);
    lemma_trim_and_lower(title);
    lemma_trim_and_lower(trimmed(title));
    law_trim_is_idempotent(title);
}

/// The results whose episode names match, in order.
pub open spec fn matching_results(list: Seq<SearchResultView>, needle: Seq<char>) -> Seq<
    SearchResultView,
>
    decreases list.len(),
{
    if list.len() == 0 {
        Seq::empty()
    } else {
        let before = matching_results(list.drop_last(), needle);
        if title_matches(list.last().episode_name, needle) {
            before.push(list.last())
        } else {
            before
        }
    }
}

/// The matching results of several lists, one list behind the other.
pub open spec fn matching_lists(lists: Seq<Seq<SearchResultView>>, needle: Seq<char>) -> Seq<
    SearchResultView,
>
    decreases lists.len(),
{
    if lists.len() == 0 {
        Seq::empty()
    } else {
        matching_lists(lists.drop_last(), needle) + matching_results(lists.last(), needle)
    }
}

/// Appends the results whose episode names match.
fn push_matching(out: &mut Vec<SearchResult>, list: &Vec<SearchResult>, needle_lower: &str)
    ensures
        final(out).deep_view() == old(out).deep_view() + matching_results(
            list.deep_view(),
            needle_lower@,
        ),
{
    let ghost start = out.deep_view();
    let ghost all = list.deep_view();
    let mut i: usize = 0;
    assert(all.take(0) =~= Seq::<SearchResultView>::empty());
    assert(start + Seq::<SearchResultView>::empty() =~= start);
    while i < list.len()
        invariant
            i <= list@.len(),
            all == list.deep_view(),
            out.deep_view() == start + matching_results(all.take(i as int), needle_lower@),
        decreases list@.len() - i,
    {
        let ghost before = out.deep_view();
        proof {
            assert(all.take(i + 1).drop_last() =~= all.take(i as int));
            assert(all.take(i + 1).last() == list@[i as int].deep_view());
        }
        let name: Option<&str> = match &list[i].episode_name {
            Some(n) => Some(n.as_str()),
            None => None,
        };
        if episode_title_matches(name, needle_lower) {
            out.push(list[i].copy());
            assert(out.deep_view() =~= before.push(all[i as int]));
            assert(start + matching_results(all.take(i as int), needle_lower@).push(all[i as int])
                =~= out.deep_view());
        }
        i += 1;
    }
    assert(all.take(all.len() as int) =~= all);
}

/// A season of a show, with the numbers and names of its episodes.
#[derive(Debug)]
pub struct SeasonListing {
    pub summary: TvSeasonSummary,
    pub episodes: Vec<(u32, String)>,
}

/// A show of a search, with its own name and its seasons where they could be fetched.
#[derive(Debug)]
pub struct ShowListing {
    pub hit: SearchResult,
    pub fetched: Option<(String, Vec<SeasonListing>)>,
}

/// A season of a show with its episodes, as text and numbers.
pub struct SeasonListingView {
    pub summary: TvSeasonSummaryView,
    pub episodes: Seq<(u32, Seq<char>)>,
}

/// A show of a search, as text and numbers.
pub struct ShowListingView {
    pub hit: SearchResultView,
    pub fetched: Option<(Seq<char>, Seq<SeasonListingView>)>,
}

impl DeepView for SeasonListing {
    type V = SeasonListingView;

    open spec fn deep_view(&self) -> SeasonListingView {
        SeasonListingView {
            summary: self.summary.deep_view(),
            episodes: self.episodes.deep_view(),
        }
    }
}

impl DeepView for ShowListing {
    type V = ShowListingView;

    open spec fn deep_view(&self) -> ShowListingView {
        ShowListingView { hit: self.hit.deep_view(), fetched: self.fetched.deep_view() }
    }
}

/// A season with its matching episodes, if it has any.
pub open spec fn season_match(s: SeasonListingView, needle: Seq<char>) -> Option<
    TvSeasonMatchView,
> {
    let episodes = matching(s.episodes, needle);
    if episodes.len() == 0 {
        None
    } else {
        Some(
            TvSeasonMatchView {
                season_number: s.summary.season_number,
                name: s.summary.name,
                episodes,
            },
        )
    }
}

/// The seasons among the first `n` that have matching episodes.
pub open spec fn season_matches(
    seasons: Seq<SeasonListingView>,
    n: int,
    needle: Seq<char>,
) -> Seq<TvSeasonMatchView>
    decreases n,
{
    if n <= 0 {
        Seq::empty()
    } else {
        let before = season_matches(seasons, n - 1, needle);
        match season_match(seasons[n - 1], needle) {
            Some(m) => before.push(m),
            None => before,
        }
    }
}

/// The smaller of a length and a limit.
pub open spec fn at_most(len: nat, limit: usize) -> int {
    if len < limit {
        len as int
    } else {
        limit as int
    }
}

/// A show with its matching seasons, if it has any: under the name from the search, or its own
/// where that is blank.
pub open spec fn show_match(s: ShowListingView, needle: Seq<char>) -> Option<TvShowMatchView> {
    match s.fetched {
        None => None,
        Some((name, seasons)) => {
            let found = season_matches(seasons, at_most(seasons.len(), MAX_SEASONS), needle);
            if found.len() == 0 {
                None
            } else {
                Some(
                    TvShowMatchView {
                        series_id: s.hit.id.id,
                        show_name: if trimmed(s.hit.title).len() == 0 {
                            name
                        } else {
                            s.hit.title
                        },
                        year: s.hit.year,
                        seasons: found,
                    },
                )
            }
        },
    }
}

/// The shows among the first `n` that have matching episodes.
pub open spec fn show_matches(shows: Seq<ShowListingView>, n: int, needle: Seq<char>) -> Seq<
    TvShowMatchView,
>
    decreases n,
{
    if n <= 0 {
        Seq::empty()
    } else {
        let before = show_matches(shows, n - 1, needle);
        match show_match(shows[n - 1], needle) {
            Some(m) => before.push(m),
            None => before,
        }
    }
}

/// The seasons that have matching episodes, up to a limit.
fn find_season_matches(seasons: &Vec<SeasonListing>, needle_lower: &str) -> (r: Vec<TvSeasonMatch>)
    ensures
        r.deep_view() == season_matches(
            seasons.deep_view(),
            at_most(seasons@.len(), MAX_SEASONS),
            needle_lower@,
        ),
{
    let ghost all = seasons.deep_view();
    let n: usize = if seasons.len() < MAX_SEASONS {
        seasons.len()
    } else {
        MAX_SEASONS
    };
    let mut out: Vec<TvSeasonMatch> = Vec::new();
    let mut i: usize = 0;
    assert(out.deep_view() =~= Seq::<TvSeasonMatchView>::empty());
    while i < n
        invariant
            i <= n <= seasons@.len(),
            all == seasons.deep_view(),
            out.deep_view() == season_matches(all, i as int, needle_lower@),
        decreases n - i,
    {
        assert(all[i as int] == seasons@[i as int].deep_view());
        let ghost before = out.deep_view();
        let s = &seasons[i];
        let episodes = filter_matching_episodes(&s.episodes, needle_lower);
        assert(episodes.deep_view().len() == episodes@.len());
        if episodes.len() > 0 {
            let m = TvSeasonMatch {
                season_number: s.summary.season_number,
                name: s.summary.name.clone(),
                episodes,
            };
            let ghost new = m.deep_view();
            out.push(m);
            assert(out.deep_view() =~= before.push(new));
        }
        i += 1;
    }
    out
}

/// Whether every season of a match has episodes, and each of them matches.
pub open spec fn all_match(seasons: Seq<TvSeasonMatchView>, needle: Seq<char>) -> bool {
    forall|i: int|
        0 <= i < seasons.len() ==> (#[trigger] seasons[i]).episodes.len() > 0 && forall|k: int|
            0 <= k < seasons[i].episodes.len() ==> title_matches(
                Some((#[trigger] seasons[i].episodes[k]).name),
                needle,
            )
}

proof fn lemma_matching_match(episodes: Seq<(u32, Seq<char>)>, needle: Seq<char>)
    ensures
        forall|k: int|
            0 <= k < matching(episodes, needle).len() ==> title_matches(
                Some((#[trigger] matching(episodes, needle)[k]).name),
                needle,
            ),
    decreases episodes.len(),
{
    if episodes.len() > 0 {
        lemma_matching_match(episodes.drop_last(), needle);
        let before = matching(episodes.drop_last(), needle);
        let all = matching(episodes, needle);
        assert forall|k: int| 0 <= k < all.len() implies title_matches(
            Some((#[trigger] all[k]).name),
            needle,
        ) by {
            if k < before.len() {
                assert(all[k] == before[k]);
            }
        }
    }
}

proof fn lemma_season_matches_match(seasons: Seq<SeasonListingView>, n: int, needle: Seq<char>)
    requires
        n <= seasons.len(),
    ensures
        all_match(season_matches(seasons, n, needle), needle),
    decreases n,
{
    if n > 0 {
        lemma_season_matches_match(seasons, n - 1, needle);
        lemma_matching_match(seasons[n - 1].episodes, needle);
    }
}

/// The tree of a search through episodes holds matches only: every show in it has seasons, every
/// season has episodes, and every episode's name matches.
pub proof fn law_tree_holds_matches_only(shows: Seq<ShowListingView>, n: int, needle: Seq<char>)
    requires
        n <= shows.len(),
    ensures
        forall|i: int|
            0 <= i < show_matches(shows, n, needle).len() ==> (#[trigger] show_matches(
                shows,
                n,
                needle,
            )[i]).seasons.len() > 0 && all_match(
                show_matches(shows, n, needle)[i].seasons,
                needle,
            ),
    decreases n,
{
    if n > 0 {
        law_tree_holds_matches_only(shows, n - 1, needle);
        if let Some((_, seasons)) = shows[n - 1].fetched {
            lemma_season_matches_match(seasons, at_most(seasons.len(), MAX_SEASONS), needle);
        }
    }
}

// ---------------------------------------------------------------------------
// Requests
// ---------------------------------------------------------------------------

/// A request: the address, the parameters in order, and the token for the header, if any.
#[derive(Debug)]
pub struct HttpRequest {
    pub url: String,
    pub query: Vec<(String, String)>,
    pub bearer: Option<String>,
}

/// A request, as text.
pub struct HttpRequestView {
    pub url: Seq<char>,
    pub query: Seq<(Seq<char>, Seq<char>)>,
    pub bearer: Option<Seq<char>>,
}

impl DeepView for HttpRequest {
    type V = HttpRequestView;

    open spec fn deep_view(&self) -> HttpRequestView {
        HttpRequestView {
            url: self.url@,
            query: self.query.deep_view(),
            bearer: self.bearer.deep_view(),
        }
    }
}

/// The request for a path of the service, by someone who may ask.
pub open spec fn asked(
    auth: AuthView,
    path: Seq<char>,
    params: Seq<(Seq<char>, Seq<char>)>,
) -> HttpRequestView {
    match auth {
        AuthView::Bearer(t) => HttpRequestView {
            url: API_BASE@ + path,
            query: params,
            bearer: Some(t),
        },
        AuthView::ApiKey(k) => HttpRequestView {
            url: API_BASE@ + path,
            query: seq![("api_key"@, k)] + params,
            bearer: None,
        },
    }
}

/// The parameters of a request that wants parts of a reply added to it.
pub open spec fn adding(parts: Seq<char>) -> Seq<(Seq<char>, Seq<char>)> {
    seq![("append_to_response"@, parts)]
}

/// The parameters of a search.
pub open spec fn search_params(q: QueryView) -> Seq<(Seq<char>, Seq<char>)> {
    match (q.kind, q.year) {
        (MediaKind::Movie, Some(y)) => seq![
            ("query"@, q.title),
            ("year"@, signed_decimal(y as int)),
        ],
        _ => seq![("query"@, q.title)],
    }
}

/// The path of a season.
pub open spec fn season_path(series_id: Seq<char>, season: u32) -> Seq<char> {
    "/tv/"@ + series_id + "/season/"@ + decimal(season as nat)
}

/// The path of an episode.
pub open spec fn episode_path(series_id: Seq<char>, season: u32, episode: u32) -> Seq<char> {
    season_path(series_id, season) + "/episode/"@ + decimal(episode as nat)
}

impl HttpRequest {
    /// The request with one more parameter.
    fn with_param(self, key: &str, value: &str) -> (r: HttpRequest)
        ensures
            r.url == self.url,
            r.bearer == self.bearer,
            r.query.deep_view() == self.query.deep_view().push((key@, value@)),
    {
        let mut query = self.query;
        let ghost before = query.deep_view();
        query.push((key.to_string(), value.to_string()));
        assert(query.deep_view() =~= before.push((key@, value@)));
        HttpRequest { url: self.url, query, bearer: self.bearer }
    }
}

impl TmdbProvider {
    /// The request for a path, without parameters of its own.
    fn authed_get(&self, path: &str) -> (r: HttpRequest)
        ensures
            r.deep_view() == asked(self.auth.deep_view(), path@, Seq::empty()),
    {
        let url = API_BASE.to_string().concat(path);
        let mut query: Vec<(String, String)> = Vec::new();
        match &self.auth {
            Auth::Bearer(t) => {
                assert(query.deep_view() =~= Seq::<(Seq<char>, Seq<char>)>::empty());
                HttpRequest { url, query, bearer: Some(t.clone()) }
            },
            Auth::ApiKey(k) => {
                query.push(("api_key".to_string(), k.clone()));
                let ghost none = Seq::<(Seq<char>, Seq<char>)>::empty();
                assert(query.deep_view() =~= seq![("api_key"@, k@)] + none);
                HttpRequest { url, query, bearer: None }
            },
        }
    }

    /// The request for a path that wants parts of the reply added to it.
    fn get_with(&self, path: &str, parts: &str) -> (r: HttpRequest)
        ensures
            r.deep_view() == asked(self.auth.deep_view(), path@, adding(parts@)),
    {
        let r = self.authed_get(path).with_param("append_to_response", parts);
        assert(r.query.deep_view() =~= asked(self.auth.deep_view(), path@, adding(parts@)).query);
        r
    }

    /// The request of a search.
    pub fn search_request(&self, query: &MediaQuery) -> (r: HttpRequest)
        ensures
            r.deep_view() == asked(
                self.auth.deep_view(),
                match query.kind {
                    MediaKind::Movie => "/search/movie"@,
                    MediaKind::TvShow => "/search/tv"@,
                },
                search_params(query.deep_view()),
            ),
    {
        let ghost q = query.deep_view();
        match query.kind {
            MediaKind::Movie => {
                let r = self.authed_get("/search/movie").with_param("query", query.title.as_str());
                let out = match query.year {
                    Some(y) => r.with_param("year", show_signed(y as i64).as_str()),
                    None => r,
                };
                assert(out.query.deep_view() =~= asked(
                    self.auth.deep_view(),
                    "/search/movie"@,
                    search_params(q),
                ).query);
                out
            },
            MediaKind::TvShow => {
                let out = self.authed_get("/search/tv").with_param("query", query.title.as_str());
                assert(out.query.deep_view() =~= asked(
                    self.auth.deep_view(),
                    "/search/tv"@,
                    search_params(q),
                ).query);
                out
            },
        }
    }

    /// The request for the details of a title.
    pub fn details_request(&self, id: &ProviderId) -> (r: HttpRequest)
        ensures
            r.deep_view() == (match id.kind {
                MediaKind::Movie => asked(
                    self.auth.deep_view(),
                    "/movie/"@ + id.id@,
                    adding("credits,images,release_dates"@),
                ),
                MediaKind::TvShow => asked(
                    self.auth.deep_view(),
                    "/tv/"@ + id.id@,
                    adding("credits,images,content_ratings"@),
                ),
            }),
    {
        match id.kind {
            MediaKind::Movie => {
                let path = "/movie/".to_string().concat(id.id.as_str());
                self.get_with(path.as_str(), "credits,images,release_dates")
            },
            MediaKind::TvShow => {
                let path = "/tv/".to_string().concat(id.id.as_str());
                self.get_with(path.as_str(), "credits,images,content_ratings")
            },
        }
    }

    /// The request for the details of an episode, where the title is one: a show with a season and
    /// an episode.
    pub fn episode_request(&self, id: &ProviderId) -> (r: Option<HttpRequest>)
        ensures
            match (id.kind, id.season, id.episode) {
                (MediaKind::TvShow, Some(s), Some(e)) => r matches Some(x) && x.deep_view()
                    == asked(self.auth.deep_view(), episode_path(id.id@, s, e), adding("images"@)),
                _ => r is None,
            },
    {
        match (id.kind, id.season, id.episode) {
            (MediaKind::TvShow, Some(s), Some(e)) => {
                let path = build_episode_path(id.id.as_str(), s, e);
                Some(self.get_with(path.as_str(), "images"))
            },
            _ => None,
        }
    }

    /// The request for the name of an episode.
    pub fn episode_name_request(&self, series_id: &str, season: u32, episode: u32) -> (r:
        HttpRequest)
        ensures
            r.deep_view() == asked(
                self.auth.deep_view(),
                episode_path(series_id@, season, episode),
                Seq::empty(),
            ),
    {
        let path = build_episode_path(series_id, season, episode);
        self.authed_get(path.as_str())
    }

    /// The request for the episodes of a season.
    pub fn season_request(&self, series_id: &str, season: u32) -> (r: HttpRequest)
        ensures
            r.deep_view() == asked(self.auth.deep_view(), season_path(series_id@, season), Seq::empty()),
    {
        let path = build_season_path(series_id, season);
        self.authed_get(path.as_str())
    }

    /// The request for the seasons of a show.
    pub fn seasons_request(&self, series_id: &str) -> (r: HttpRequest)
        ensures
            r.deep_view() == asked(self.auth.deep_view(), "/tv/"@ + series_id@, Seq::empty()),
    {
        let path = "/tv/".to_string().concat(series_id);
        self.authed_get(path.as_str())
    }

    /// The request for the posters of a show.
    pub fn posters_request(&self, series_id: &str) -> (r: HttpRequest)
        ensures
            r.deep_view() == asked(self.auth.deep_view(), "/tv/"@ + series_id@, adding("images"@)),
    {
        let path = "/tv/".to_string().concat(series_id);
        self.get_with(path.as_str(), "images")
    }

    /// The name of an episode in the reply, unless it is blank.
    pub fn episode_name(name: Option<String>) -> (r: Option<String>)
        ensures
            r.deep_view() == unless_blank(name.deep_view()),
    {
        drop_blank(name)
    }

    /// The episodes of a season as results, in order. Each carries its season and number, so that
    /// choosing it leads to that episode; the title is the show's name.
    pub fn list_season_episodes(
        series_id: &str,
        show_name: &str,
        season: u32,
        episodes: &Vec<TmdbSeasonEpisode>,
    ) -> (r: Vec<SearchResult>)
        ensures
            r.deep_view() == episodes@.map_values(
                |e: TmdbSeasonEpisode| episode_result(series_id@, show_name@, season, e),
            ),
    {
        let ghost all = episodes@.map_values(
            |e: TmdbSeasonEpisode| episode_result(series_id@, show_name@, season, e),
        );
        let mut out: Vec<SearchResult> = Vec::new();
        let mut i: usize = 0;
        while i < episodes.len()
            invariant
                i <= episodes@.len(),
                all == episodes@.map_values(
                    |e: TmdbSeasonEpisode| episode_result(series_id@, show_name@, season, e),
                ),
                out.deep_view() == all.take(i as int),
            decreases episodes@.len() - i,
        {
            let ghost before = out.deep_view();
            let e = &episodes[i];
            out.push(
                SearchResult {
                    id: ProviderId {
                        provider: "tmdb".to_string(),
                        id: series_id.to_string(),
                        kind: MediaKind::TvShow,
                        season: Some(season),
                        episode: Some(e.episode_number),
                    },
                    title: show_name.to_string(),
                    year: read_year_of(&e.air_date),
                    overview: copy_opt(&e.overview),
                    poster_thumb_url: TmdbProvider::image_url(&e.still_path, THUMB_SIZE),
                    episode_name: drop_blank(copy_opt(&e.name)),
                },
            );
            assert(out.deep_view() =~= before.push(all[i as int]));
            assert(all.take(i + 1) =~= all.take(i as int).push(all[i as int]));
            i += 1;
        }
        assert(all.take(all.len() as int) =~= all);
        out
    }

    /// The seasons of a show that have episodes, by number.
    pub fn tv_seasons(entries: &Vec<TmdbSeasonEntry>) -> (r: Vec<TvSeasonSummary>)
        ensures
            r.deep_view() == seasons_of(entries@),
    {
        let mut out: Vec<TvSeasonSummary> = Vec::new();
        let mut i: usize = 0;
        assert(entries@.take(0) =~= Seq::<TmdbSeasonEntry>::empty());
        assert(out.deep_view() =~= Seq::<TvSeasonSummaryView>::empty());
        while i < entries.len()
            invariant
                i <= entries@.len(),
                out.deep_view() == seasons_of(entries@.take(i as int)),
            decreases entries@.len() - i,
        {
            let s = &entries[i];
            proof {
                assert(entries@.take(i + 1).drop_last() =~= entries@.take(i as int));
                assert(entries@.take(i + 1).last() == entries@[i as int]);
            }
            if s.episode_count > 0 {
                let name = match drop_blank(copy_opt(&s.name)) {
                    Some(n) => n,
                    None => "Season ".to_string().concat(show(s.season_number as u64).as_str()),
                };
                insert_by_number(
                    &mut out,
                    TvSeasonSummary {
                        season_number: s.season_number,
                        name,
                        episode_count: s.episode_count,
                    },
                );
            }
            i += 1;
        }
        assert(entries@.take(entries@.len() as int) =~= entries@);
        out
    }

    /// The posters of a show. They are the same for all its seasons and episodes.
    pub fn tv_show_posters(detail: &TmdbTvDetail) -> (r: Vec<Artwork>)
        ensures
            r.deep_view() == gallery(detail.poster_path.deep_view(), images_of(detail.images)),
    {
        collect_artwork(&detail.poster_path, &detail.images)
    }

    /// The numbers and names of a season's episodes, in order; a missing name falls back to the
    /// number.
    pub fn season_episode_names(episodes: &Vec<TmdbSeasonEpisode>) -> (r: Vec<(u32, String)>)
        ensures
            r.deep_view() == episodes@.map_values(|e: TmdbSeasonEpisode| numbered_name(e)),
    {
        let ghost all = episodes@.map_values(|e: TmdbSeasonEpisode| numbered_name(e));
        let mut out: Vec<(u32, String)> = Vec::new();
        let mut i: usize = 0;
        while i < episodes.len()
            invariant
                i <= episodes@.len(),
                all == episodes@.map_values(|e: TmdbSeasonEpisode| numbered_name(e)),
                out.deep_view() == all.take(i as int),
            decreases episodes@.len() - i,
        {
            let ghost before = out.deep_view();
            let e = &episodes[i];
            let name = match drop_blank(copy_opt(&e.name)) {
                Some(n) => n,
                None => "Episode ".to_string().concat(show(e.episode_number as u64).as_str()),
            };
            out.push((e.episode_number, name));
            assert(out.deep_view() =~= before.push(all[i as int]));
            assert(all.take(i + 1) =~= all.take(i as int).push(all[i as int]));
            i += 1;
        }
        assert(all.take(all.len() as int) =~= all);
        out
    }

    /// The query that finds a show by its name.
    pub fn show_query(name: &str) -> (r: MediaQuery)
        ensures
            r.deep_view() == (QueryView {
                title: name@,
                year: None,
                kind: MediaKind::TvShow,
                season: None,
                episode: None,
            }),
    {
        MediaQuery {
            title: name.to_string(),
            year: None,
            kind: MediaKind::TvShow,
            season: None,
            episode: None,
        }
    }

    /// The seasons to look through for an episode: the one that was asked for, or the first ones
    /// up to a limit.
    pub fn seasons_to_scan(season: Option<u32>, seasons: &Vec<TvSeasonSummary>) -> (r: Vec<u32>)
        ensures
            match season {
                Some(s) => r@ == seq![s],
                None => r@.len() == at_most(seasons@.len(), MAX_SEASONS) && forall|i: int|
                    0 <= i < r@.len() ==> #[trigger] r@[i] == seasons@[i].season_number,
            },
    {
        let mut out: Vec<u32> = Vec::new();
        match season {
            Some(s) => {
                out.push(s);
            },
            None => {
                let n: usize = if seasons.len() < MAX_SEASONS {
                    seasons.len()
                } else {
                    MAX_SEASONS
                };
                let mut i: usize = 0;
                while i < n
                    invariant
                        i <= n <= seasons@.len(),
                        out@.len() == i,
                        forall|k: int|
                            0 <= k < i ==> #[trigger] out@[k] == seasons@[k].season_number,
                    decreases n - i,
                {
                    out.push(seasons[i].season_number);
                    i += 1;
                }
            },
        }
        out
    }

    /// The episodes of several seasons whose names hold a title in any letter case, in order; all
    /// of them where the title is blank.
    pub fn search_episodes_by_title(seasons: &Vec<Vec<SearchResult>>, title: &str) -> (r: Vec<
        SearchResult,
    >)
        ensures
            r.deep_view() == matching_lists(seasons.deep_view(), needle_of(title@)),
    {
        let needle_lower = needle(title);
        let ghost all = seasons.deep_view();
        let mut out: Vec<SearchResult> = Vec::new();
        let mut i: usize = 0;
        assert(all.take(0) =~= Seq::<Seq<SearchResultView>>::empty());
        assert(out.deep_view() =~= Seq::<SearchResultView>::empty());
        while i < seasons.len()
            invariant
                i <= seasons@.len(),
                all == seasons.deep_view(),
                needle_lower@ == needle_of(title@),
                out.deep_view() == matching_lists(all.take(i as int), needle_of(title@)),
            decreases seasons@.len() - i,
        {
            proof {
                assert(all.take(i + 1).drop_last() =~= all.take(i as int));
                assert(all.take(i + 1).last() == seasons@[i as int].deep_view());
            }
            push_matching(&mut out, &seasons[i], needle_lower.as_str());
            i += 1;
        }
        assert(all.take(all.len() as int) =~= all);
        out
    }

    /// The tree of shows, seasons and episodes in which the names hold a title in any letter case,
    /// or of all episodes where the title is blank. Only the first shows and the first seasons of
    /// each are looked through, up to a limit; shows whose seasons could not be fetched are left
    /// out.
    pub fn search_episode_tree_by_title(shows: &Vec<ShowListing>, title: &str) -> (r: Vec<
        TvShowMatch,
    >)
        ensures
            r.deep_view() == show_matches(
                shows.deep_view(),
                at_most(shows@.len(), MAX_SHOWS),
                needle_of(title@),
            ),
    {
        let ghost all = shows.deep_view();
        let needle_lower = needle(title);
        let n: usize = if shows.len() < MAX_SHOWS {
            shows.len()
        } else {
            MAX_SHOWS
        };
        let mut out: Vec<TvShowMatch> = Vec::new();
        let mut i: usize = 0;
        assert(out.deep_view() =~= Seq::<TvShowMatchView>::empty());
        while i < n
            invariant
                i <= n <= shows@.len(),
                all == shows.deep_view(),
                needle_lower@ == needle_of(title@),
                out.deep_view() == show_matches(all, i as int, needle_of(title@)),
            decreases n - i,
        {
            assert(all[i as int] == shows@[i as int].deep_view());
            let ghost before = out.deep_view();
            let s = &shows[i];
            if let Some((own_name, seasons)) = &s.fetched {
                let found = find_season_matches(seasons, needle_lower.as_str());
                assert(found.deep_view().len() == found@.len());
                if found.len() > 0 {
                    let rest = trim(s.hit.title.as_str());
                    let show_name = if rest.as_str().is_empty() {
                        own_name.clone()
                    } else {
                        s.hit.title.clone()
                    };
                    let m = TvShowMatch {
                        series_id: s.hit.id.id.clone(),
                        show_name,
                        year: s.hit.year,
                        seasons: found,
                    };
                    let ghost new = m.deep_view();
                    out.push(m);
                    assert(out.deep_view() =~= before.push(new));
                }
            }
            i += 1;
        }
        out
    }
}

/// The path of a season.
fn build_season_path(series_id: &str, season: u32) -> (r: String)
    ensures
        r@ == season_path(series_id@, season),
{
    "/tv/".to_string().concat(series_id).concat("/season/").concat(show(season as u64).as_str())
}

/// The path of an episode.
fn build_episode_path(series_id: &str, season: u32, episode: u32) -> (r: String)
    ensures
        r@ == episode_path(series_id@, season, episode),
{
    build_season_path(series_id, season).concat("/episode/").concat(show(episode as u64).as_str())
}

// ---------------------------------------------------------------------------
// Laws of the replies
// ---------------------------------------------------------------------------

/// Whether an optional text is there and not blank.
pub open spec fn says_something(s: Option<String>) -> bool {
    s matches Some(t) && has_solid(t@)
}

/// The details that belong to the id: those of the episode, where the id names a season and an
/// episode.
pub open spec fn own_details(id: ProviderIdView, ep: Option<TmdbEpisodeDetail>) -> Option<
    TmdbEpisodeDetail,
> {
    if id.season is Some && id.episode is Some {
        ep
    } else {
        None
    }
}

/// Where the id names a season and an episode and the reply has a name for the episode that is not
/// blank, that name is the title, and also the title of the episode. Only otherwise is the title
/// the name of the show, and then there is no title of an episode. The show keeps its own name in
/// either case, and the numbers are those of the id.
pub proof fn law_episode_has_its_own_title(
    d: TmdbTvDetail,
    id: ProviderIdView,
    ep: Option<TmdbEpisodeDetail>,
)
    ensures
        ({
            let r = episode_of(d, id, ep);
            let named = id.season is Some && id.episode is Some && (ep matches Some(e)
                && says_something(e.name));
            &&& named ==> r.title == ep.unwrap().name.unwrap()@
            &&& !named ==> r.title == d.name@
            &&& r.kind matches KindView::Episode(e) && {
                &&& e.show_name == d.name@
                &&& named ==> e.episode_title == Some(r.title)
                &&& !named ==> e.episode_title is None
                &&& e.season == (if id.season is Some {
                    id.season.unwrap()
                } else {
                    0
                })
                &&& e.episode == (if id.episode is Some {
                    id.episode.unwrap()
                } else {
                    0
                })
                &&& e.episode_id is None
            }
        }),
{
    if let Some(e) = ep {
        if let Some(n) = e.name {
            law_trim_cuts_white_space_only(n@);
        }
    }
}

/// The date of an episode is the day on which it was first shown, or else that of the show. Its
/// description is its own where it is not blank, or else that of the show. Its genres, network and
/// rating are those of the show, and it has no producers.
pub proof fn law_episode_falls_back_to_its_show(
    d: TmdbTvDetail,
    id: ProviderIdView,
    ep: Option<TmdbEpisodeDetail>,
)
    ensures
        ({
            let r = episode_of(d, id, ep);
            let own = own_details(id, ep);
            let aired = own matches Some(e) && e.air_date is Some && date_in(
                e.air_date.unwrap()@,
            ) is Some;
            let told = own matches Some(e) && says_something(e.overview);
            &&& aired ==> r.release_date == date_in(own.unwrap().air_date.unwrap()@)
            &&& !aired ==> (match d.first_air_date {
                Some(t) => r.release_date == date_in(t@),
                None => r.release_date is None,
            })
            &&& told ==> r.overview == Some(own.unwrap().overview.unwrap()@)
            &&& !told ==> r.overview == d.overview.deep_view()
            &&& r.genres == d.genres.deep_view()
            &&& d.networks@.len() > 0 ==> r.studio == Some(d.networks@[0]@)
            &&& d.networks@.len() == 0 ==> r.studio is None
            &&& r.kind matches KindView::Episode(e) && e.network == r.studio
            &&& r.producers.len() == 0
            &&& r.video_kind == Some(VideoKind::TvShow)
            &&& r.definition is None
        }),
{
    if let Some(e) = ep {
        if let Some(o) = e.overview {
            law_trim_cuts_white_space_only(o@);
        }
    }
}

/// The cast of an episode is that of its guests, where there are any, or else that of the show; at
/// most twenty, from the front, each with the role. Its directors and writers are those of its own
/// crew, never those of the show.
pub proof fn law_episode_has_its_own_people(
    d: TmdbTvDetail,
    id: ProviderIdView,
    ep: Option<TmdbEpisodeDetail>,
)
    ensures
        ({
            let r = episode_of(d, id, ep);
            let own = own_details(id, ep);
            let guests = own matches Some(e) && e.guest_stars@.len() > 0;
            let crew = own matches Some(e) && e.crew is Some;
            &&& guests ==> is_cast(r.cast, own.unwrap().guest_stars@)
            &&& !guests && d.credits is Some ==> is_cast(r.cast, d.credits.unwrap().cast@)
            &&& !guests && d.credits is None ==> r.cast.len() == 0
            &&& crew ==> r.directors == directors_of(own.unwrap().crew.unwrap()@)
            &&& crew ==> r.writers == people_of(own.unwrap().crew.unwrap()@, Trade::Writing)
            &&& !crew ==> r.directors.len() == 0 && r.writers.len() == 0
        }),
{
    if let Some(e) = ep {
        lemma_cast(e.guest_stars@);
    }
    lemma_cast(cast_in(d.credits));
}

/// Whether people are the first twenty of a cast, or all where there are fewer, in order and each
/// with the role.
pub open spec fn is_cast(people: Seq<PersonView>, cast: Seq<TmdbCast>) -> bool {
    &&& people.len() == (if cast.len() < 20 {
        cast.len()
    } else {
        20
    })
    &&& forall|i: int|
        0 <= i < people.len() ==> (#[trigger] people[i]).name == cast[i].name@ && people[i].role
            == cast[i].character.deep_view()
}

proof fn lemma_cast(cast: Seq<TmdbCast>)
    ensures
        is_cast(cast_of(cast), cast),
{
}

/// The parts of a movie's reply, each where it belongs. The studio is the first company that
/// produced it, and a movie is filed as a movie.
pub proof fn law_movie_details_stand_in_their_places(d: TmdbMovieDetail)
    ensures
        ({
            let r = movie_of(d);
            &&& r.title == d.title@
            &&& r.overview == d.overview.deep_view()
            &&& r.genres == d.genres.deep_view()
            &&& d.release_date matches Some(t) ==> r.release_date == date_in(t@)
            &&& d.release_date is None ==> r.release_date is None
            &&& d.production_companies@.len() > 0 ==> r.studio == Some(
                d.production_companies@[0]@,
            )
            &&& d.production_companies@.len() == 0 ==> r.studio is None
            &&& d.credits matches Some(c) ==> is_cast(r.cast, c.cast@) && r.directors
                == directors_of(c.crew@) && r.producers == people_of(c.crew@, Trade::Producing)
                && r.writers == people_of(c.crew@, Trade::Writing)
            &&& d.credits is None ==> r.cast.len() == 0 && r.directors.len() == 0
                && r.producers.len() == 0 && r.writers.len() == 0
            &&& r.video_kind == Some(VideoKind::Movie)
            &&& r.kind is Movie
            &&& r.definition is None
        }),
{
    lemma_cast(cast_in(d.credits));
}

/// Whether a short description is at most the first 255 characters of a text.
pub open spec fn is_beginning(short: Seq<char>, text: Seq<char>) -> bool {
    &&& short.len() <= text.len()
    &&& short == text.take(short.len() as int)
    &&& short.len() == text.len() || short.len() == 255
    &&& short.len() <= 255
}

/// The short description is the beginning of the tagline without the white space around it, where
/// that is not blank; else the beginning of the long description as it is, unless that is blank;
/// else there is none.
pub proof fn law_tagline_comes_before_the_overview(
    tagline: Option<Seq<char>>,
    overview: Option<Seq<char>>,
)
    ensures
        ({
            let r = summary_of(tagline, overview);
            let lined = tagline is Some && has_solid(tagline.unwrap());
            &&& lined ==> r is Some && is_beginning(r.unwrap(), trimmed(tagline.unwrap()))
            &&& !lined && r is Some ==> overview is Some && is_beginning(
                r.unwrap(),
                overview.unwrap(),
            ) && has_solid(r.unwrap())
            &&& !lined && r is None && overview is Some ==> forall|i: int|
                0 <= i < overview.unwrap().len() && i < 255 ==> is_white(
                    #[trigger] overview.unwrap()[i],
                )
        }),
{
    if let Some(t) = tagline {
        law_trim_cuts_white_space_only(t);
    }
    if let Some(o) = overview {
        let short = shortened(o);
        law_trim_cuts_white_space_only(short);
        if !has_solid(short) {
            assert forall|i: int| 0 <= i < o.len() && i < 255 implies is_white(
                #[trigger] o[i],
            ) by {
                assert(short[i] == o[i]);
            }
        }
        assert(o.take(o.len() as int) =~= o);
    }
    let line = match tagline {
        Some(t) => trimmed(t),
        None => Seq::empty(),
    };
    assert(line.take(line.len() as int) =~= line);
}

/// The short description of a movie and of a show is made of their own taglines; that of an episode
/// with a description of its own is made of that description alone.
pub proof fn law_summary_belongs_to_the_title(
    m: TmdbMovieDetail,
    d: TmdbTvDetail,
    id: ProviderIdView,
    ep: Option<TmdbEpisodeDetail>,
)
    ensures
        movie_of(m).summary == summary_of(m.tagline.deep_view(), m.overview.deep_view()),
        ({
            let own = own_details(id, ep);
            let told = own matches Some(e) && says_something(e.overview);
            &&& told ==> episode_of(d, id, ep).summary == summary_of(
                None,
                Some(own.unwrap().overview.unwrap()@),
            )
            &&& !told ==> episode_of(d, id, ep).summary == summary_of(
                d.tagline.deep_view(),
                d.overview.deep_view(),
            )
        }),
{
    if let Some(e) = ep {
        if let Some(o) = e.overview {
            law_trim_cuts_white_space_only(o@);
        }
    }
}

/// Someone directs who has the job of a director, and only then.
pub proof fn law_directors_have_the_job(a: Seq<TmdbCrew>, b: Seq<TmdbCrew>, c: TmdbCrew)
    ensures
        directors_of(a + b) == directors_of(a) + directors_of(b),
        c.job.deep_view() == Some("Director"@) ==> directors_of(seq![c]) == seq![
            PersonView { name: c.name@, role: None },
        ],
        c.job.deep_view() != Some("Director"@) ==> directors_of(seq![c]).len() == 0,
    decreases b.len(),
{
    let one = seq![c];
    assert(one.drop_last() =~= Seq::<TmdbCrew>::empty());
    assert(directors_of(one.drop_last()) =~= Seq::<PersonView>::empty());
    assert(one.last() == c);
    if b.len() == 0 {
        assert(a + b =~= a);
        assert(directors_of(a) + directors_of(b) =~= directors_of(a));
    } else {
        law_directors_have_the_job(a, b.drop_last(), c);
        assert((a + b).drop_last() =~= a + b.drop_last());
        assert(directors_of(a + b) =~= directors_of(a) + directors_of(b));
    }
}

/// The department says who produces and who writes; the job does so only where no department is
/// given. A producer is then anyone whose job has the word in it, a writer one with one of five
/// jobs.
pub proof fn law_department_comes_before_the_job(c: TmdbCrew)
    ensures
        c.department matches Some(d) ==> is_of(c, Trade::Producing) == (d@ == "Production"@),
        c.department matches Some(d) ==> is_of(c, Trade::Writing) == (d@ == "Writing"@),
        c.department is None && c.job is None ==> !is_of(c, Trade::Producing) && !is_of(
            c,
            Trade::Writing,
        ),
        c.department is None && c.job is Some ==> is_of(c, Trade::Producing) == exists|i: int|
            #[trigger] stands_at(c.job.unwrap()@, "Producer"@, i),
        c.department is None && c.job is Some ==> is_of(c, Trade::Writing) == {
            let job = c.job.unwrap()@;
            job == "Screenplay"@ || job == "Writer"@ || job == "Story"@ || job == "Author"@ || job
                == "Novel"@
        },
{
    if let Some(job) = c.job {
        lemma_find_from(job@, "Producer"@, 0);
        if exists|i: int| #[trigger] stands_at(job@, "Producer"@, i) {
            let i = choose|i: int| #[trigger] stands_at(job@, "Producer"@, i);
            assert(stands_at(job@, "Producer"@, i));
        }
    }
}

/// Those who come later in a crew are listed behind those who came before, and nobody of the crew
/// has a role.
pub proof fn law_crew_keeps_its_order(a: Seq<TmdbCrew>, b: Seq<TmdbCrew>, trade: Trade)
    ensures
        people_of(a, trade).len() <= people_of(a + b, trade).len(),
        people_of(a + b, trade).take(people_of(a, trade).len() as int) == people_of(a, trade),
        forall|i: int|
            0 <= i < people_of(a + b, trade).len() ==> (#[trigger] people_of(
                a + b,
                trade,
            )[i]).role is None,
    decreases a.len() + b.len(),
{
    if b.len() > 0 {
        law_crew_keeps_its_order(a, b.drop_last(), trade);
        assert((a + b).drop_last() =~= a + b.drop_last());
        assert(people_of(a + b, trade).take(people_of(a, trade).len() as int) =~= people_of(
            a,
            trade,
        ));
    } else {
        assert(a + b =~= a);
        assert(people_of(a, trade).take(people_of(a, trade).len() as int) =~= people_of(a, trade));
        if a.len() > 0 {
            let none = Seq::<TmdbCrew>::empty();
            law_crew_keeps_its_order(a.drop_last(), none, trade);
            assert(a.drop_last() + none =~= a.drop_last());
        }
    }
}

proof fn lemma_certification_from(entries: Seq<TmdbReleaseDateEntry>, i: int)
    requires
        0 <= i <= entries.len(),
    ensures
        match certification_from(entries, i) {
            Some(c) => exists|k: int|
                i <= k < entries.len() && has_solid((#[trigger] entries[k]).certification@) && c
                    == trimmed(entries[k].certification@) && forall|j: int|
                    i <= j < k ==> !has_solid((#[trigger] entries[j]).certification@),
            None => forall|j: int|
                i <= j < entries.len() ==> !has_solid((#[trigger] entries[j]).certification@),
        },
    decreases entries.len() - i,
{
    if i < entries.len() {
        law_trim_cuts_white_space_only(entries[i].certification@);
        if trimmed(entries[i].certification@).len() == 0 {
            lemma_certification_from(entries, i + 1);
            if let Some(c) = certification_from(entries, i + 1) {
                let k = choose|k: int|
                    i + 1 <= k < entries.len() && has_solid((#[trigger] entries[k]).certification@)
                        && c == trimmed(entries[k].certification@) && forall|j: int|
                        i + 1 <= j < k ==> !has_solid((#[trigger] entries[j]).certification@);
                assert(has_solid(entries[k].certification@));
            }
        } else {
            assert(has_solid(entries[i].certification@));
        }
    }
}

proof fn lemma_any_certification(results: Seq<TmdbReleaseDatesCountry>, i: int)
    requires
        0 <= i <= results.len(),
    ensures
        match any_certification(results, i) {
            Some(c) => exists|k: int|
                i <= k < results.len() && #[trigger] certified(results[k]) && certification_from(
                    results[k].release_dates@,
                    0,
                ) == Some(c) && forall|j: int| i <= j < k ==> !#[trigger] certified(results[j]),
            None => forall|j: int| i <= j < results.len() ==> !#[trigger] certified(results[j]),
        },
    decreases results.len() - i,
{
    if i < results.len() {
        let here = certification_from(results[i].release_dates@, 0);
        lemma_certification_from(results[i].release_dates@, 0);
        if here is None {
            lemma_any_certification(results, i + 1);
            if let Some(c) = any_certification(results, i + 1) {
                let k = choose|k: int|
                    i + 1 <= k < results.len() && #[trigger] certified(results[k])
                        && certification_from(results[k].release_dates@, 0) == Some(c)
                        && forall|j: int| i + 1 <= j < k ==> !#[trigger] certified(results[j]);
                assert(certified(results[k]));
            }
        } else {
            assert(certified(results[i]));
        }
    }
}

proof fn lemma_us_from(results: Seq<TmdbReleaseDatesCountry>, i: int)
    requires
        0 <= i <= results.len(),
    ensures
        match us_from(results, i) {
            Some(k) => i <= k < results.len() && results[k].iso_3166_1@ == "US"@ && forall|j: int|
                i <= j < k ==> (#[trigger] results[j]).iso_3166_1@ != "US"@,
            None => forall|j: int|
                i <= j < results.len() ==> (#[trigger] results[j]).iso_3166_1@ != "US"@,
        },
    decreases results.len() - i,
{
    if i < results.len() && results[i].iso_3166_1@ != "US"@ {
        lemma_us_from(results, i + 1);
    }
}

/// Whether one of the releases in a country has a certification that is not blank.
pub open spec fn certified(country: TmdbReleaseDatesCountry) -> bool {
    exists|k: int|
        0 <= k < country.release_dates@.len() && has_solid(
            (#[trigger] country.release_dates@[k]).certification@,
        )
}

/// Whether `c` is the first certification in a country that is not blank, without the white space
/// around it.
pub open spec fn certifies(country: TmdbReleaseDatesCountry, c: Seq<char>) -> bool {
    exists|k: int|
        0 <= k < country.release_dates@.len() && has_solid(
            (#[trigger] country.release_dates@[k]).certification@,
        ) && c == trimmed(country.release_dates@[k].certification@) && forall|j: int|
            0 <= j < k ==> !has_solid((#[trigger] country.release_dates@[j]).certification@)
}

/// The certification of a movie is the first one of the United States, whatever comes in front of
/// them in the list; only where they have none is it the first one of the first country that has
/// one, and there is none only where no country has one.
pub proof fn law_home_certification_comes_first(rd: TmdbReleaseDates, u: int)
    requires
        0 <= u < rd.results@.len(),
        rd.results@[u].iso_3166_1@ == "US"@,
        forall|j: int| 0 <= j < u ==> (#[trigger] rd.results@[j]).iso_3166_1@ != "US"@,
    ensures
        certified(rd.results@[u]) ==> certification_of(Some(rd)) is Some && certifies(
            rd.results@[u],
            certification_of(Some(rd)).unwrap(),
        ),
{
    lemma_us_from(rd.results@, 0);
    lemma_certification_from(rd.results@[u].release_dates@, 0);
}

/// The certification of a movie is one that some country gave, and there is one wherever a country
/// gave one. Where the United States gave none, it is that of the first country which did.
pub proof fn law_some_certification_is_found(rd: TmdbReleaseDates)
    ensures
        certification_of(None) is None,
        (certification_of(Some(rd)) is Some) == (exists|k: int|
            0 <= k < rd.results@.len() && #[trigger] certified(rd.results@[k])),
        (forall|j: int|
            0 <= j < rd.results@.len() && (#[trigger] rd.results@[j]).iso_3166_1@ == "US"@
                ==> !certified(rd.results@[j])) ==> (certification_of(Some(rd)) matches Some(c)
            ==> exists|k: int|
            0 <= k < rd.results@.len() && #[trigger] certifies(rd.results@[k], c) && forall|j: int|
                0 <= j < k ==> !certified(#[trigger] rd.results@[j])),
{
    let results = rd.results@;
    lemma_us_from(results, 0);
    lemma_any_certification(results, 0);
    if let Some(u) = us_from(results, 0) {
        lemma_certification_from(results[u].release_dates@, 0);
        if certification_from(results[u].release_dates@, 0) is Some {
            assert(certified(results[u]));
        }
    }
    if let Some(c) = any_certification(results, 0) {
        let k = choose|k: int|
            0 <= k < results.len() && #[trigger] certified(results[k]) && certification_from(
                results[k].release_dates@,
                0,
            ) == Some(c) && forall|j: int| 0 <= j < k ==> !#[trigger] certified(results[j]);
        lemma_certification_from(results[k].release_dates@, 0);
        assert(certifies(results[k], c));
        assert(certified(results[k]));
    }
}

proof fn lemma_rating_in_from(results: Seq<TmdbContentRatingCountry>, us_only: bool, i: int)
    requires
        0 <= i <= results.len(),
    ensures
        match rating_in_from(results, us_only, i) {
            Some(c) => exists|k: int|
                i <= k < results.len() && rates(#[trigger] results[k], us_only) && c == trimmed(
                    results[k].rating@,
                ) && forall|j: int| i <= j < k ==> !rates(#[trigger] results[j], us_only),
            None => forall|j: int| i <= j < results.len() ==> !rates(#[trigger] results[j], us_only),
        },
    decreases results.len() - i,
{
    if i < results.len() {
        law_trim_cuts_white_space_only(results[i].rating@);
        if rates(results[i], us_only) {
        } else {
            lemma_rating_in_from(results, us_only, i + 1);
            if let Some(c) = rating_in_from(results, us_only, i + 1) {
                let k = choose|k: int|
                    i + 1 <= k < results.len() && rates(#[trigger] results[k], us_only) && c
                        == trimmed(results[k].rating@) && forall|j: int|
                        i + 1 <= j < k ==> !rates(#[trigger] results[j], us_only);
                assert(rates(results[k], us_only));
            }
        }
    }
}

/// Whether a country, or only the United States, has a rating that is not blank.
pub open spec fn rates(country: TmdbContentRatingCountry, us_only: bool) -> bool {
    has_solid(country.rating@) && (us_only ==> country.iso_3166_1@ == "US"@)
}

/// The rating of a show is the first one of the United States that is not blank, without the white
/// space around it; only where there is none is it the first one of any country.
pub proof fn law_home_rating_comes_first(cr: TmdbContentRatings)
    ensures
        show_rating_of(None) is None,
        ({
            let results = cr.results@;
            let at_home = exists|k: int|
                0 <= k < results.len() && rates(#[trigger] results[k], true);
            let anywhere = exists|k: int|
                0 <= k < results.len() && rates(#[trigger] results[k], false);
            &&& (show_rating_of(Some(cr)) is Some) == anywhere
            &&& show_rating_of(Some(cr)) matches Some(r) ==> exists|k: int|
                0 <= k < results.len() && rates(#[trigger] results[k], at_home) && r == trimmed(
                    results[k].rating@,
                ) && forall|j: int| 0 <= j < k ==> !rates(#[trigger] results[j], at_home)
        }),
{
    let results = cr.results@;
    lemma_rating_in_from(results, true, 0);
    lemma_rating_in_from(results, false, 0);
    if exists|k: int| 0 <= k < results.len() && rates(#[trigger] results[k], true) {
        let k = choose|k: int| 0 <= k < results.len() && rates(#[trigger] results[k], true);
        assert(rates(results[k], false));
    }
}

/// The rating of a movie and of an episode is the one that its reply has.
pub proof fn law_rating_belongs_to_the_reply(
    m: TmdbMovieDetail,
    d: TmdbTvDetail,
    id: ProviderIdView,
    ep: Option<TmdbEpisodeDetail>,
)
    ensures
        movie_of(m).content_rating == certification_of(m.release_dates),
        episode_of(d, id, ep).content_rating == show_rating_of(d.content_ratings),
{
}

/// Whether a picture is offered in full and small under the addresses of a path.
pub open spec fn is_offer(a: ArtworkView, path: Seq<char>) -> bool {
    &&& a.url == "https://image.tmdb.org/t/p"@ + "/"@ + "original"@ + path
    &&& a.thumb_url == Some("https://image.tmdb.org/t/p"@ + "/"@ + "w342"@ + path)
}

proof fn lemma_pictures_are_offers(start: Seq<ArtworkView>, images: Seq<TmdbImage>, n: int)
    requires
        0 <= n <= images.len(),
    ensures
        ({
            let all = with_pictures(start, images, n);
            &&& start.len() <= all.len() <= start.len() + n
            &&& forall|i: int|
                start.len() <= i < all.len() ==> exists|k: int|
                    0 <= k < n && is_offer(#[trigger] all[i], (#[trigger] images[k]).file_path@)
                        && all[i].width == images[k].width && all[i].height == images[k].height
        }),
    decreases n,
{
    if n > 0 {
        lemma_pictures_are_offers(start, images, n - 1);
        let before = with_pictures(start, images, n - 1);
        let all = with_pictures(start, images, n);
        assert forall|i: int| start.len() <= i < all.len() implies exists|k: int|
            0 <= k < n && is_offer(#[trigger] all[i], (#[trigger] images[k]).file_path@)
                && all[i].width == images[k].width && all[i].height == images[k].height by {
            if i < before.len() {
                assert(all[i] == before[i]);
                let k = choose|k: int|
                    0 <= k < n - 1 && is_offer(before[i], (#[trigger] images[k]).file_path@)
                        && before[i].width == images[k].width && before[i].height
                        == images[k].height;
                assert(is_offer(all[i], images[k].file_path@));
            } else {
                assert(is_offer(all[i], images[n - 1].file_path@));
            }
        }
    }
}

proof fn lemma_picture_from(images: Seq<TmdbImage>, path: Seq<char>, i: int)
    requires
        0 <= i,
    ensures
        picture_from(images, path, i) matches Some(k) ==> i <= k < images.len()
            && images[k].file_path@ == path,
        picture_from(images, path, i) is None ==> forall|j: int|
            i <= j < images.len() ==> (#[trigger] images[j]).file_path@ != path,
    decreases images.len() - i,
{
    if i < images.len() && images[i].file_path@ != path {
        lemma_picture_from(images, path, i + 1);
    }
}

/// The main picture is offered first, in the original size and small in a width of 342. Its width
/// and height are those that the list has for it, and unknown where it is not in the list.
pub proof fn law_main_picture_is_offered_in_two_sizes(
    p: Seq<char>,
    images: Option<Seq<TmdbImage>>,
)
    ensures
        gallery(Some(p), images).len() > 0,
        is_offer(gallery(Some(p), images)[0], p),
        forall|k: int|
            images is Some && 0 <= k < images.unwrap().len() && (
            #[trigger] images.unwrap()[k]).file_path@ == p && (forall|j: int|
                0 <= j < k ==> (#[trigger] images.unwrap()[j]).file_path@ != p) ==> gallery(
                Some(p),
                images,
            )[0].width == images.unwrap()[k].width && gallery(Some(p), images)[0].height
                == images.unwrap()[k].height,
        images is None || (forall|j: int|
            0 <= j < images.unwrap().len() ==> (#[trigger] images.unwrap()[j]).file_path@ != p)
            ==> gallery(Some(p), images)[0].width is None && gallery(
            Some(p),
            images,
        )[0].height is None,
{
    let all = gallery(Some(p), images);
    let start = seq![main_picture(p, images)];
    if let Some(l) = images {
        lemma_with_pictures(start, l, l.len() as int);
        lemma_first_picture(l, p, 0);
        lemma_picture_from(l, p, 0);
        assert(all == with_pictures(start, l, l.len() as int));
    } else {
        assert(all == start);
    }
    assert(start[0] == main_picture(p, images));
    assert(all[0] == start[0]);
}

/// Every other picture is one of the list, in the original size and small in a width of 342, with
/// the width and height that the list has for it.
pub proof fn law_pictures_are_offered_in_two_sizes(path: Option<Seq<char>>, list: Seq<TmdbImage>)
    ensures
        ({
            let all = gallery(path, Some(list));
            let first = if path is Some {
                1int
            } else {
                0int
            };
            &&& first <= all.len() <= first + list.len()
            &&& forall|i: int|
                first <= i < all.len() ==> exists|k: int|
                    0 <= k < list.len() && is_offer(
                        #[trigger] all[i],
                        (#[trigger] list[k]).file_path@,
                    ) && all[i].width == list[k].width && all[i].height == list[k].height
        }),
        path is None ==> gallery(path, None).len() == 0,
        path is Some ==> gallery(path, None).len() == 1,
{
    let start = match path {
        Some(p) => seq![main_picture(p, Some(list))],
        None => Seq::empty(),
    };
    lemma_pictures_are_offers(start, list, list.len() as int);
}

proof fn lemma_first_picture(images: Seq<TmdbImage>, path: Seq<char>, i: int)
    requires
        0 <= i,
    ensures
        forall|k: int|
            i <= k < images.len() && (#[trigger] images[k]).file_path@ == path && (forall|j: int|
                i <= j < k ==> (#[trigger] images[j]).file_path@ != path) ==> picture_from(
                images,
                path,
                i,
            ) == Some(k),
    decreases images.len() - i,
{
    if i < images.len() {
        lemma_first_picture(images, path, i + 1);
        assert forall|k: int|
            i <= k < images.len() && (#[trigger] images[k]).file_path@ == path && (forall|j: int|
                i <= j < k ==> (#[trigger] images[j]).file_path@ != path) implies picture_from(
            images,
            path,
            i,
        ) == Some(k) by {
            if k > i {
                assert(images[i].file_path@ != path);
            }
        }
    }
}

/// The pictures of a movie are its posters; those of an episode are its own stills, and behind them
/// the posters of the show.
pub proof fn law_pictures_belong_to_the_title(
    m: TmdbMovieDetail,
    d: TmdbTvDetail,
    id: ProviderIdView,
    ep: Option<TmdbEpisodeDetail>,
)
    ensures
        movie_of(m).artwork == gallery(m.poster_path.deep_view(), images_of(m.images)),
        ({
            let all = episode_of(d, id, ep).artwork;
            let posters = gallery(d.poster_path.deep_view(), images_of(d.images));
            match own_details(id, ep) {
                Some(e) => {
                    let stills = gallery(e.still_path.deep_view(), images_of(e.stills));
                    &&& stills.len() <= all.len()
                    &&& all.take(stills.len() as int) == stills
                    &&& forall|i: int|
                        stills.len() <= i < all.len() ==> posters.contains(#[trigger] all[i])
                    &&& stills.len() == 0 ==> all == posters
                },
                None => all == posters,
            }
        }),
{
    law_episode_offers_each_picture_once(d, id, ep);
    let posters = gallery(d.poster_path.deep_view(), images_of(d.images));
    if let Some(e) = own_details(id, ep) {
        let stills = gallery(e.still_path.deep_view(), images_of(e.stills));
        let all = episode_of(d, id, ep).artwork;
        if stills.len() > 0 {
            lemma_merged_from(stills, posters, posters.len() as int);
        } else {
            assert forall|i: int| 0 <= i < all.len() implies posters.contains(
                #[trigger] all[i],
            ) by {
                assert(all[i] == posters[i]);
            }
        }
    }
}

proof fn lemma_merged_from(first: Seq<ArtworkView>, more: Seq<ArtworkView>, n: int)
    requires
        0 <= n <= more.len(),
    ensures
        first.len() <= merged_artwork(first, more, n).len(),
        forall|i: int|
            first.len() <= i < merged_artwork(first, more, n).len() ==> more.contains(
                #[trigger] merged_artwork(first, more, n)[i],
            ),
    decreases n,
{
    if n > 0 {
        lemma_merged_from(first, more, n - 1);
        let before = merged_artwork(first, more, n - 1);
        let all = merged_artwork(first, more, n);
        assert forall|i: int| first.len() <= i < all.len() implies more.contains(
            #[trigger] all[i],
        ) by {
            if i < before.len() {
                assert(all[i] == before[i]);
            } else {
                assert(all[i] == more[n - 1]);
            }
        }
    }
}

/// A result of a search carries what its hit says: the title and the description as they are, the
/// year that the date begins with, a small picture, and an id of the right kind from which the
/// number reads back.
pub proof fn law_results_carry_their_hits(m: TmdbMovieHit, t: TmdbTvHit)
    ensures
        ({
            let r = movie_result(m);
            &&& r.id.provider == "tmdb"@
            &&& r.id.kind == MediaKind::Movie
            &&& r.id.season is None && r.id.episode is None && r.episode_name is None
            &&& m.id >= 0 ==> all_digits(r.id.id) && digits_value(r.id.id) == m.id
            &&& m.id < 0 ==> r.id.id.len() > 0 && r.id.id[0] == '-' && digits_value(
                r.id.id.drop_first(),
            ) == -m.id
            &&& r.title == m.title@
            &&& r.overview == m.overview.deep_view()
            &&& m.release_date is None ==> r.year is None
            &&& m.poster_path is None ==> r.poster_thumb_url is None
            &&& m.poster_path matches Some(p) ==> r.poster_thumb_url == Some(
                "https://image.tmdb.org/t/p"@ + "/"@ + "w342"@ + p@,
            )
        }),
        ({
            let r = show_result(t);
            &&& r.id.provider == "tmdb"@
            &&& r.id.kind == MediaKind::TvShow
            &&& r.id.season is None && r.id.episode is None && r.episode_name is None
            &&& t.id >= 0 ==> all_digits(r.id.id) && digits_value(r.id.id) == t.id
            &&& t.id < 0 ==> r.id.id.len() > 0 && r.id.id[0] == '-' && digits_value(
                r.id.id.drop_first(),
            ) == -t.id
            &&& r.title == t.name@
            &&& r.overview == t.overview.deep_view()
            &&& t.first_air_date is None ==> r.year is None
            &&& t.poster_path is None ==> r.poster_thumb_url is None
            &&& t.poster_path matches Some(p) ==> r.poster_thumb_url == Some(
                "https://image.tmdb.org/t/p"@ + "/"@ + "w342"@ + p@,
            )
        }),
{
    lemma_signed_digits(m.id as int);
    lemma_signed_digits(t.id as int);
}

proof fn lemma_signed_digits(n: int)
    ensures
        n >= 0 ==> all_digits(signed_decimal(n)) && digits_value(signed_decimal(n)) == n,
        n < 0 ==> signed_decimal(n).len() > 0 && signed_decimal(n)[0] == '-' && digits_value(
            signed_decimal(n).drop_first(),
        ) == -n,
{
    if n >= 0 {
        lemma_decimal_value(n as nat);
    } else {
        lemma_decimal_value((-n) as nat);
        assert(signed_decimal(n).drop_first() =~= decimal((-n) as nat));
    }
}

/// The year of a result is the one that its date begins with, for every date with a year of four
/// digits, and there is none where there is no date.
pub proof fn law_year_is_that_of_the_date(d: Date, rest: Seq<char>)
    requires
        0 <= d.year <= 9999,
    ensures
        year_of(Some(iso_text(d) + rest)) == Some(d.year),
        year_of(None) is None,
{
    let s = iso_text(d) + rest;
    let year = year_text(d.year as int);
    lemma_year_value(d.year as nat);
    assert(s.take(4) =~= year);
    assert(is_digit(year[0]));
}

/// An episode in a list leads to itself: its id names the show, the season that was asked for and
/// its own number. The title is the name of the show, and its own name is there unless it is blank.
pub proof fn law_listed_episode_leads_to_itself(
    series_id: Seq<char>,
    show_name: Seq<char>,
    season: u32,
    e: TmdbSeasonEpisode,
)
    ensures
        ({
            let r = episode_result(series_id, show_name, season, e);
            &&& r.id.provider == "tmdb"@
            &&& r.id.id == series_id
            &&& r.id.kind == MediaKind::TvShow
            &&& r.id.season == Some(season)
            &&& r.id.episode == Some(e.episode_number)
            &&& r.title == show_name
            &&& r.overview == e.overview.deep_view()
            &&& r.year == year_of(e.air_date.deep_view())
            &&& says_something(e.name) ==> r.episode_name == Some(e.name.unwrap()@)
            &&& !says_something(e.name) ==> r.episode_name is None
            &&& e.still_path is None ==> r.poster_thumb_url is None
            &&& e.still_path matches Some(p) ==> r.poster_thumb_url == Some(
                "https://image.tmdb.org/t/p"@ + "/"@ + "w342"@ + p@,
            )
        }),
{
    if let Some(n) = e.name {
        law_trim_cuts_white_space_only(n@);
    }
}

/// A season and an episode keep their numbers, and their names unless these are blank; then they
/// are called by their numbers.
pub proof fn law_nameless_are_called_by_number(s: TmdbSeasonEntry, e: TmdbSeasonEpisode)
    ensures
        season_summary(s).season_number == s.season_number,
        season_summary(s).episode_count == s.episode_count,
        says_something(s.name) ==> season_summary(s).name == s.name.unwrap()@,
        !says_something(s.name) ==> season_summary(s).name == "Season "@ + decimal(
            s.season_number as nat,
        ),
        numbered_name(e).0 == e.episode_number,
        says_something(e.name) ==> numbered_name(e).1 == e.name.unwrap()@,
        !says_something(e.name) ==> numbered_name(e).1 == "Episode "@ + decimal(
            e.episode_number as nat,
        ),
{
    if let Some(n) = s.name {
        law_trim_cuts_white_space_only(n@);
    }
    if let Some(n) = e.name {
        law_trim_cuts_white_space_only(n@);
    }
}

/// Every season that has episodes is listed, as often as it is in the reply, and no other is.
pub proof fn law_seasons_with_episodes_are_all_listed(entries: Seq<TmdbSeasonEntry>)
    ensures
        forall|k: int|
            0 <= k < entries.len() && (#[trigger] entries[k]).episode_count > 0 ==> seasons_of(
                entries,
            ).contains(season_summary(entries[k])),
        forall|i: int|
            0 <= i < seasons_of(entries).len() ==> exists|k: int|
                0 <= k < entries.len() && (#[trigger] entries[k]).episode_count > 0
                    && season_summary(entries[k]) == #[trigger] seasons_of(entries)[i],
        seasons_of(entries).len() == entries.filter(
            |s: TmdbSeasonEntry| s.episode_count > 0,
        ).len(),
    decreases entries.len(),
{
    broadcast use vstd::seq_lib::group_to_multiset_ensures;

    let keep = |s: TmdbSeasonEntry| s.episode_count > 0;
    reveal(Seq::filter);
    if entries.len() > 0 {
        let init = entries.drop_last();
        let last = entries.last();
        let before = seasons_of(init);
        let all = seasons_of(entries);
        law_seasons_with_episodes_are_all_listed(init);
        law_seasons_are_in_order(init);
        lemma_insert_season(before, season_summary(last));
        assert(last == entries[entries.len() - 1]);
        assert forall|k: int|
            0 <= k < entries.len() && (
            #[trigger] entries[k]).episode_count > 0 implies all.contains(
            season_summary(entries[k]),
        ) by {
            let x = season_summary(entries[k]);
            if k < init.len() {
                assert(entries[k] == init[k]);
                assert(before.contains(x));
                assert(before.to_multiset().count(x) > 0);
            }
            assert(all.to_multiset().count(x) > 0);
        }
        assert forall|i: int| 0 <= i < all.len() implies exists|k: int|
            0 <= k < entries.len() && (#[trigger] entries[k]).episode_count > 0 && season_summary(
                entries[k],
            ) == #[trigger] all[i] by {
            assert(all.contains(all[i]));
            assert(all.to_multiset().count(all[i]) > 0);
            if last.episode_count > 0 && all[i] == season_summary(last) {
                assert(entries[entries.len() - 1].episode_count > 0);
            } else {
                assert(before.to_multiset().count(all[i]) > 0);
                assert(before.contains(all[i]));
                let q = choose|q: int| 0 <= q < before.len() && before[q] == all[i];
                assert(before[q] == all[i]);
                let k = choose|k: int|
                    0 <= k < init.len() && (#[trigger] init[k]).episode_count > 0
                        && season_summary(init[k]) == before[q];
                assert(entries[k] == init[k]);
            }
        }
        assert(entries.filter(keep).len() == init.filter(keep).len() + if keep(last) {
            1int
        } else {
            0int
        });
    }
}

/// Episodes match one by one and stay in order: those of two lists, one behind the other, are those
/// of the first and behind them those of the second. One episode matches where the needle is empty
/// or stands in its name in lower case, and keeps its number and its name.
pub proof fn law_episodes_match_one_by_one(
    a: Seq<(u32, Seq<char>)>,
    b: Seq<(u32, Seq<char>)>,
    one: (u32, Seq<char>),
    needle: Seq<char>,
)
    ensures
        matching(a + b, needle) == matching(a, needle) + matching(b, needle),
        ({
            let found = needle.len() == 0 || exists|i: int|
                #[trigger] stands_at(lowered(one.1), needle, i);
            &&& found ==> matching(seq![one], needle) == seq![
                TvEpisodeHitView { number: one.0, name: one.1 },
            ]
            &&& !found ==> matching(seq![one], needle).len() == 0
        }),
    decreases b.len(),
{
    let single = seq![one];
    assert(single.drop_last() =~= Seq::<(u32, Seq<char>)>::empty());
    assert(matching(single.drop_last(), needle) =~= Seq::<TvEpisodeHitView>::empty());
    assert(single.last() == one);
    lemma_find_from(lowered(one.1), needle, 0);
    if exists|i: int| #[trigger] stands_at(lowered(one.1), needle, i) {
        let i = choose|i: int| #[trigger] stands_at(lowered(one.1), needle, i);
        assert(stands_at(lowered(one.1), needle, i));
    }
    if b.len() == 0 {
        assert(a + b =~= a);
        assert(matching(a, needle) + matching(b, needle) =~= matching(a, needle));
    } else {
        law_episodes_match_one_by_one(a, b.drop_last(), one, needle);
        assert((a + b).drop_last() =~= a + b.drop_last());
        assert(matching(a + b, needle) =~= matching(a, needle) + matching(b, needle));
    }
}

/// Results match one by one and stay in order, by the names of their episodes alone. One without a
/// name matches only where the needle is empty.
pub proof fn law_results_match_one_by_one(
    a: Seq<SearchResultView>,
    b: Seq<SearchResultView>,
    one: SearchResultView,
    needle: Seq<char>,
)
    ensures
        matching_results(a + b, needle) == matching_results(a, needle) + matching_results(b, needle),
        ({
            let found = needle.len() == 0 || (one.episode_name is Some && exists|i: int|
                #[trigger] stands_at(lowered(one.episode_name.unwrap()), needle, i));
            &&& found ==> matching_results(seq![one], needle) == seq![one]
            &&& !found ==> matching_results(seq![one], needle).len() == 0
        }),
{
    let single = seq![one];
    assert(single.drop_last() =~= Seq::<SearchResultView>::empty());
    assert(matching_results(single.drop_last(), needle) =~= Seq::<SearchResultView>::empty());
    assert(single.last() == one);
    if let Some(name) = one.episode_name {
        lemma_find_from(lowered(name), needle, 0);
        if exists|i: int| #[trigger] stands_at(lowered(name), needle, i) {
            let i = choose|i: int| #[trigger] stands_at(lowered(name), needle, i);
            assert(stands_at(lowered(name), needle, i));
        }
    }
    lemma_matching_results_concat(a, b, needle);
}

proof fn lemma_matching_results_concat(
    a: Seq<SearchResultView>,
    b: Seq<SearchResultView>,
    needle: Seq<char>,
)
    ensures
        matching_results(a + b, needle) == matching_results(a, needle) + matching_results(b, needle),
    decreases b.len(),
{
    if b.len() == 0 {
        assert(a + b =~= a);
        assert(matching_results(a, needle) + matching_results(b, needle) =~= matching_results(
            a,
            needle,
        ));
    } else {
        lemma_matching_results_concat(a, b.drop_last(), needle);
        assert((a + b).drop_last() =~= a + b.drop_last());
        assert(matching_results(a + b, needle) =~= matching_results(a, needle) + matching_results(
            b,
            needle,
        ));
    }
}

/// Searching season by season gives what searching all episodes in one list gives.
pub proof fn law_seasons_are_searched_in_turn(lists: Seq<Seq<SearchResultView>>, needle: Seq<char>)
    ensures
        matching_lists(lists, needle) == matching_results(lists.flatten(), needle),
    decreases lists.len(),
{
    lists.lemma_flatten_and_flatten_alt_are_equivalent();
    if lists.len() > 0 {
        let init = lists.drop_last();
        init.lemma_flatten_and_flatten_alt_are_equivalent();
        law_seasons_are_searched_in_turn(init, needle);
        lemma_matching_results_concat(init.flatten(), lists.last(), needle);
        assert(lists.flatten() =~= init.flatten() + lists.last());
    } else {
        assert(lists.flatten().len() == 0);
    }
}

proof fn lemma_matching_has(episodes: Seq<(u32, Seq<char>)>, k: int, needle: Seq<char>)
    requires
        0 <= k < episodes.len(),
        title_matches(Some(episodes[k].1), needle),
    ensures
        matching(episodes, needle).contains(
            TvEpisodeHitView { number: episodes[k].0, name: episodes[k].1 },
        ),
    decreases episodes.len(),
{
    let init = episodes.drop_last();
    let all = matching(episodes, needle);
    let hit = TvEpisodeHitView { number: episodes[k].0, name: episodes[k].1 };
    if k < init.len() {
        lemma_matching_has(init, k, needle);
        let before = matching(init, needle);
        let i = choose|i: int| 0 <= i < before.len() && before[i] == hit;
        assert(all[i] == hit);
    } else {
        assert(all.last() == hit);
    }
}

/// Whether a season of a match is this one, with an episode in it.
pub open spec fn season_has(
    m: TvSeasonMatchView,
    summary: TvSeasonSummaryView,
    number: u32,
    name: Seq<char>,
) -> bool {
    &&& m.season_number == summary.season_number
    &&& m.name == summary.name
    &&& m.episodes.contains(TvEpisodeHitView { number, name })
}

proof fn lemma_season_matches_has(
    seasons: Seq<SeasonListingView>,
    n: int,
    j: int,
    k: int,
    needle: Seq<char>,
)
    requires
        0 <= j < n <= seasons.len(),
        0 <= k < seasons[j].episodes.len(),
        title_matches(Some(seasons[j].episodes[k].1), needle),
    ensures
        exists|i: int|
            0 <= i < season_matches(seasons, n, needle).len() && season_has(
                #[trigger] season_matches(seasons, n, needle)[i],
                seasons[j].summary,
                seasons[j].episodes[k].0,
                seasons[j].episodes[k].1,
            ),
    decreases n,
{
    let all = season_matches(seasons, n, needle);
    let e = seasons[j].episodes[k];
    if j < n - 1 {
        lemma_season_matches_has(seasons, n - 1, j, k, needle);
        let before = season_matches(seasons, n - 1, needle);
        let i = choose|i: int|
            0 <= i < before.len() && season_has(
                #[trigger] before[i],
                seasons[j].summary,
                e.0,
                e.1,
            );
        assert(all[i] == before[i]);
    } else {
        lemma_matching_has(seasons[j].episodes, k, needle);
        assert(season_has(all.last(), seasons[j].summary, e.0, e.1));
    }
}

/// Whether a show of a match is this one, with an episode in one of its seasons.
pub open spec fn show_has(
    m: TvShowMatchView,
    hit: SearchResultView,
    summary: TvSeasonSummaryView,
    number: u32,
    name: Seq<char>,
) -> bool {
    &&& m.series_id == hit.id.id
    &&& m.year == hit.year
    &&& has_solid(hit.title) ==> m.show_name == hit.title
    &&& exists|i: int|
        0 <= i < m.seasons.len() && season_has(#[trigger] m.seasons[i], summary, number, name)
}

/// Nothing is missing in the tree of a search through episodes: each episode that matches is there,
/// under its season and its show, if the season is among the first fifty of the show and the show
/// among the first eight.
pub proof fn law_tree_holds_all_matches(
    shows: Seq<ShowListingView>,
    s: int,
    j: int,
    k: int,
    needle: Seq<char>,
)
    requires
        0 <= s < shows.len() && s < 8,
        shows[s].fetched is Some,
        0 <= j < shows[s].fetched.unwrap().1.len() && j < 50,
        0 <= k < shows[s].fetched.unwrap().1[j].episodes.len(),
        title_matches(Some(shows[s].fetched.unwrap().1[j].episodes[k].1), needle),
    ensures
        ({
            let tree = show_matches(shows, at_most(shows.len(), MAX_SHOWS), needle);
            let season = shows[s].fetched.unwrap().1[j];
            exists|i: int|
                0 <= i < tree.len() && show_has(
                    #[trigger] tree[i],
                    shows[s].hit,
                    season.summary,
                    season.episodes[k].0,
                    season.episodes[k].1,
                )
        }),
{
    lemma_show_matches_has(shows, at_most(shows.len(), MAX_SHOWS), s, j, k, needle);
}

proof fn lemma_show_matches_has(
    shows: Seq<ShowListingView>,
    n: int,
    s: int,
    j: int,
    k: int,
    needle: Seq<char>,
)
    requires
        0 <= s < n <= shows.len(),
        shows[s].fetched is Some,
        0 <= j < shows[s].fetched.unwrap().1.len() && j < 50,
        0 <= k < shows[s].fetched.unwrap().1[j].episodes.len(),
        title_matches(Some(shows[s].fetched.unwrap().1[j].episodes[k].1), needle),
    ensures
        ({
            let tree = show_matches(shows, n, needle);
            let season = shows[s].fetched.unwrap().1[j];
            exists|i: int|
                0 <= i < tree.len() && show_has(
                    #[trigger] tree[i],
                    shows[s].hit,
                    season.summary,
                    season.episodes[k].0,
                    season.episodes[k].1,
                )
        }),
    decreases n,
{
    let tree = show_matches(shows, n, needle);
    let seasons = shows[s].fetched.unwrap().1;
    let e = seasons[j].episodes[k];
    if s < n - 1 {
        lemma_show_matches_has(shows, n - 1, s, j, k, needle);
        let before = show_matches(shows, n - 1, needle);
        let i = choose|i: int|
            0 <= i < before.len() && show_has(
                #[trigger] before[i],
                shows[s].hit,
                seasons[j].summary,
                e.0,
                e.1,
            );
        assert(tree[i] == before[i]);
    } else {
        lemma_season_matches_has(seasons, at_most(seasons.len(), MAX_SEASONS), j, k, needle);
        law_trim_cuts_white_space_only(shows[s].hit.title);
        let found = season_matches(seasons, at_most(seasons.len(), MAX_SEASONS), needle);
        assert(shows[n - 1].fetched == Some((shows[s].fetched.unwrap().0, seasons)));
        let m = show_match(shows[s], needle);
        assert(m is Some && m.unwrap().seasons == found);
        assert(tree.last() == m.unwrap());
        assert(show_has(tree.last(), shows[s].hit, seasons[j].summary, e.0, e.1));
    }
}

/// Only the first eight shows and the first fifty seasons of each are looked through.
pub proof fn law_search_stops_at_its_limits(len: nat)
    ensures
        at_most(len, MAX_SHOWS) == (if len < 8 {
            len
        } else {
            8
        }),
        at_most(len, MAX_SEASONS) == (if len < 50 {
            len
        } else {
            50
        }),
{
}

/// A token that is not blank comes before a key; a blank one counts as none.
pub proof fn law_token_comes_before_the_key(
    token: Option<Seq<char>>,
    api_key: Option<Seq<char>>,
)
    ensures
        token matches Some(t) && has_solid(t) ==> env_auth(token, api_key) == Some(
            AuthView::Bearer(token.unwrap()),
        ),
        !(token matches Some(t) && has_solid(t)) ==> (match api_key {
            Some(k) => env_auth(token, api_key) == Some(AuthView::ApiKey(k)),
            None => env_auth(token, api_key) is None,
        }),
{
    if let Some(t) = token {
        law_trim_cuts_white_space_only(t);
    }
}

/// A request goes to the service, and says who asks in one way only: a token goes with the request
/// and not among its parameters, a key is its first parameter. The other parameters stay as they
/// are.
pub proof fn law_request_says_who_asks(
    auth: AuthView,
    path: Seq<char>,
    params: Seq<(Seq<char>, Seq<char>)>,
)
    ensures
        asked(auth, path, params).url == "https://api.themoviedb.org/3"@ + path,
        auth matches AuthView::Bearer(t) ==> asked(auth, path, params).bearer == Some(t) && asked(
            auth,
            path,
            params,
        ).query == params,
        auth matches AuthView::ApiKey(k) ==> asked(auth, path, params).bearer is None && asked(
            auth,
            path,
            params,
        ).query.len() == params.len() + 1 && asked(auth, path, params).query[0] == ("api_key"@, k)
            && asked(auth, path, params).query.drop_first() == params,
{
    if let AuthView::ApiKey(k) = auth {
        assert(asked(auth, path, params).query.drop_first() =~= params);
    }
}

/// A search asks for the title as it is. The year goes with it for a movie only, and is the only
/// other parameter.
pub proof fn law_search_asks_for_the_title(q: QueryView)
    ensures
        search_params(q).len() > 0,
        search_params(q)[0] == ("query"@, q.title),
        q.kind == MediaKind::Movie && q.year is Some ==> search_params(q) == seq![
            ("query"@, q.title),
            ("year"@, signed_decimal(q.year.unwrap() as int)),
        ],
        q.kind != MediaKind::Movie || q.year is None ==> search_params(q).len() == 1,
{
}

/// A season is asked for under its show, and an episode under its season.
pub proof fn law_paths_name_show_season_and_episode(series_id: Seq<char>, season: u32, episode: u32)
    ensures
        season_path(series_id, season) == "/tv/"@ + series_id + "/season/"@ + decimal(
            season as nat,
        ),
        episode_path(series_id, season, episode) == "/tv/"@ + series_id + "/season/"@ + decimal(
            season as nat,
        ) + "/episode/"@ + decimal(episode as nat),
        digits_value(decimal(season as nat)) == season,
        digits_value(decimal(episode as nat)) == episode,
        adding("images"@) == seq![("append_to_response"@, "images"@)],
{
    lemma_decimal_value(season as nat);
    lemma_decimal_value(episode as nat);
}

/// A show that is found keeps its id and its year. It goes by the name from the search, or by its
/// own where that is blank; one whose seasons could not be fetched is not found.
pub proof fn law_found_show_goes_by_its_name(s: ShowListingView, needle: Seq<char>)
    ensures
        s.fetched is None ==> show_match(s, needle) is None,
        show_match(s, needle) matches Some(m) ==> {
            &&& m.series_id == s.hit.id.id && m.year == s.hit.year
            &&& has_solid(s.hit.title) ==> m.show_name == s.hit.title
            &&& !has_solid(s.hit.title) ==> m.show_name == s.fetched.unwrap().0
        },
{
    law_trim_cuts_white_space_only(s.hit.title);
}

proof fn lemma_pictures_in_order(start: Seq<ArtworkView>, images: Seq<TmdbImage>, n: int)
    requires
        0 <= n <= images.len(),
        forall|i: int, j: int|
            0 <= i < j < images.len() ==> (#[trigger] images[i]).file_path@ != (
            #[trigger] images[j]).file_path@,
        forall|i: int, k: int|
            0 <= i < start.len() && 0 <= k < images.len() ==> (#[trigger] start[i]).url
                != picture_url(FULL_SIZE@, (#[trigger] images[k]).file_path@),
    ensures
        ({
            let all = with_pictures(start, images, n);
            &&& all.len() == start.len() + n
            &&& forall|i: int| 0 <= i < start.len() ==> #[trigger] all[i] == start[i]
            &&& forall|k: int|
                0 <= k < n ==> all[start.len() + k] == offered(
                    (#[trigger] images[k]).file_path@,
                    images[k].width,
                    images[k].height,
                )
        }),
    decreases n,
{
    if n > 0 {
        lemma_pictures_in_order(start, images, n - 1);
        let before = with_pictures(start, images, n - 1);
        let path = images[n - 1].file_path@;
        let url = picture_url(FULL_SIZE@, path);
        if has_url(before, url) {
            let i = choose|i: int| 0 <= i < before.len() && (#[trigger] before[i]).url == url;
            if i < start.len() {
                assert(before[i] == start[i]);
            } else {
                let other = images[i - start.len()];
                assert(before[start.len() + (i - start.len())].url == picture_url(
                    FULL_SIZE@,
                    other.file_path@,
                ));
                let front = IMG_BASE@ + "/"@ + FULL_SIZE@;
                assert((front + path).skip(front.len() as int) =~= path);
                assert((front + other.file_path@).skip(front.len() as int) =~= other.file_path@);
            }
        }
    }
}

/// Pictures are offered in the order of the list: where the list names none twice and there is no
/// main picture, each is offered in its own place.
pub proof fn law_pictures_keep_the_order_of_the_list(list: Seq<TmdbImage>, k: int)
    requires
        forall|i: int, j: int|
            0 <= i < j < list.len() ==> (#[trigger] list[i]).file_path@ != (
            #[trigger] list[j]).file_path@,
        0 <= k < list.len(),
    ensures
        gallery(None, Some(list)).len() == list.len(),
        is_offer(gallery(None, Some(list))[k], list[k].file_path@),
        gallery(None, Some(list))[k].width == list[k].width,
        gallery(None, Some(list))[k].height == list[k].height,
{
    lemma_pictures_in_order(Seq::empty(), list, list.len() as int);
    assert(is_offer(
        offered(list[k].file_path@, list[k].width, list[k].height),
        list[k].file_path@,
    ));
}

/// The posters of a show follow the stills of an episode in their own order: where none of them is
/// among the stills, all of them stand behind these as they are.
pub proof fn law_posters_follow_the_stills(stills: Seq<ArtworkView>, posters: Seq<ArtworkView>, n: int)
    requires
        0 <= n <= posters.len(),
        urls_distinct(posters),
        forall|i: int, k: int|
            0 <= i < stills.len() && 0 <= k < posters.len() ==> (#[trigger] stills[i]).url != (
            #[trigger] posters[k]).url,
    ensures
        merged_artwork(stills, posters, n) == stills + posters.take(n),
    decreases n,
{
    if n == 0 {
        assert(stills + posters.take(0) =~= stills);
    } else {
        law_posters_follow_the_stills(stills, posters, n - 1);
        let before = merged_artwork(stills, posters, n - 1);
        let url = posters[n - 1].url;
        if has_url(before, url) {
            let i = choose|i: int| 0 <= i < before.len() && (#[trigger] before[i]).url == url;
            if i < stills.len() {
                assert(before[i] == stills[i]);
            } else {
                assert(before[i] == posters[i - stills.len()]);
            }
        }
        assert(merged_artwork(stills, posters, n) =~= stills + posters.take(n));
    }
}

/// Seasons that come in the order of their numbers, all with episodes, stay in their places.
pub proof fn law_ordered_seasons_keep_their_places(entries: Seq<TmdbSeasonEntry>)
    requires
        forall|i: int| 0 <= i < entries.len() ==> (#[trigger] entries[i]).episode_count > 0,
        forall|i: int, j: int|
            0 <= i < j < entries.len() ==> (#[trigger] entries[i]).season_number <= (
            #[trigger] entries[j]).season_number,
    ensures
        seasons_of(entries) == entries.map_values(|s: TmdbSeasonEntry| season_summary(s)),
    decreases entries.len(),
{
    if entries.len() > 0 {
        let init = entries.drop_last();
        law_ordered_seasons_keep_their_places(init);
        let before = seasons_of(init);
        assert(entries.last() == entries[entries.len() - 1]);
        if init.len() > 0 {
            assert(before.last() == season_summary(init.last()));
            assert(init.last() == entries[entries.len() - 2]);
        }
        assert(seasons_of(entries) =~= before.push(season_summary(entries.last())));
        assert(seasons_of(entries) =~= entries.map_values(
            |s: TmdbSeasonEntry| season_summary(s),
        ));
    } else {
        assert(seasons_of(entries) =~= entries.map_values(
            |s: TmdbSeasonEntry| season_summary(s),
        ));
    }
}

/// A request is seen part by part, each in its own place.
pub proof fn law_request_is_seen_part_by_part(r: HttpRequest, token: String, key: String)
    ensures
        r.deep_view().url == r.url@,
        r.deep_view().query == r.query.deep_view(),
        r.deep_view().bearer == r.bearer.deep_view(),
        Auth::Bearer(token).deep_view() == AuthView::Bearer(token@),
        Auth::ApiKey(key).deep_view() == AuthView::ApiKey(key@),
{
}

} // verus!
