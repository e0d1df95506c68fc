//! The work behind the editor: what each request asks of the disk and of the service, and what the
//! editor is told when it is done.

use crate::artwork::{
    dimensions, picture_size, scaled_picture, thumbnail, DecodedImage, PixelsView,
};
use crate::error::{Error, Result};
use crate::model::{
    blank_metadata, Artwork, ArtworkView, EpisodeInfo, EpisodeView, KindView, MediaKind, MediaKindMeta,
    MediaMetadata, MediaQuery, MetadataView, ProviderId, ProviderIdView, QueryView, SearchResult,
    SearchResultView, TvSeasonSummary, TvSeasonSummaryView, TvShowMatch, TvShowMatchView,
    VideoKind,
};
use crate::naming::{file_stem, parse, parsed, stem_of};
use crate::tag::WritePhase;
use crate::text::{
    copy_opt, decimal, has_solid, law_trim_cuts_white_space_only, text_in, trim, trimmed,
};
use crate::tmdb::{
    adding, asked, env_auth, search_params, season_path, AuthView, HttpRequest, HttpRequestView,
    TmdbProvider,
};
use vstd::prelude::*;

verus! {

/// The side of the square that a poster in the grid fits.
pub const THUMB_SIDE: u32 = 200;

/// The side of the square that the current cover fits on the screen.
pub const COVER_SIDE: u32 = 1000;

/// The side of the square that an enlarged poster fits.
pub const FULL_SIDE: u32 = 1200;

/// How many shows get the name of an episode looked up.
pub const MAX_ENRICH: usize = 12;

// ---------------------------------------------------------------------------
// Requests and events
// ---------------------------------------------------------------------------

/// A show among the roots of the tree of matches.
#[derive(Debug)]
pub struct TvShowHit {
    pub series_id: String,
    pub name: String,
    pub year: Option<i32>,
}

/// A show among the roots of the tree of matches, as text and numbers.
pub struct TvShowHitView {
    pub series_id: Seq<char>,
    pub name: Seq<char>,
    pub year: Option<i32>,
}

impl DeepView for TvShowHit {
    type V = TvShowHitView;

    open spec fn deep_view(&self) -> TvShowHitView {
        TvShowHitView { series_id: self.series_id@, name: self.name@, year: self.year }
    }
}

/// What the editor asks for.
#[derive(Debug)]
pub enum Request {
    /// To let the user pick a file, and to load it.
    PickFile,
    /// To load a file.
    OpenFile { path: String },
    /// To look for a movie.
    Search { query: String },
    /// To look for a show, or for the episodes of a season of it, or for one episode.
    SearchTvEpisodes { show: String, season: Option<u32>, episode: Option<u32> },
    /// To look for episodes of a show by their title.
    SearchEpisodeByTitle { show: String, season: Option<u32>, title: String },
    /// To look for episodes by their title through all shows of a name.
    SearchEpisodeTreeByTitle { show: String, title: String },
    /// To look for shows by their name.
    SearchShows { show: String, season_filter: Option<u32> },
    /// To fetch the seasons of a show.
    FetchShowSeasons { series_id: String, season_filter: Option<u32> },
    /// To fetch the posters of a show.
    FetchShowPosters { series_id: String },
    /// To fetch the episodes of a season.
    FetchSeasonEpisodes { series_id: String, season: u32 },
    /// To fetch the details of a title, for a file.
    FetchDetails { id: ProviderId, file: String },
    /// To fetch a poster for the grid.
    FetchThumb { index: usize, url: String },
    /// To fetch a poster to be shown enlarged.
    FetchFullImage { index: usize, url: String },
    /// To fetch a poster and make it the current cover.
    SetCoverFromUrl { url: String },
    /// To fetch a poster for the clipboard.
    CopyPosterToClipboard { url: String },
    /// To write tags to a file. A cover of the user's own goes before one that is to be fetched.
    WriteTags {
        file: String,
        meta: MediaMetadata,
        artwork_url: Option<String>,
        cover_override: Option<Vec<u8>>,
        fast_start: bool,
    },
    /// To use another token for the service.
    SetBearerToken { token: String },
}

/// What the editor asks for, as text and numbers.
pub enum RequestView {
    PickFile,
    OpenFile { path: Seq<char> },
    Search { query: Seq<char> },
    SearchTvEpisodes { show: Seq<char>, season: Option<u32>, episode: Option<u32> },
    SearchEpisodeByTitle { show: Seq<char>, season: Option<u32>, title: Seq<char> },
    SearchEpisodeTreeByTitle { show: Seq<char>, title: Seq<char> },
    SearchShows { show: Seq<char>, season_filter: Option<u32> },
    FetchShowSeasons { series_id: Seq<char>, season_filter: Option<u32> },
    FetchShowPosters { series_id: Seq<char> },
    FetchSeasonEpisodes { series_id: Seq<char>, season: u32 },
    FetchDetails { id: ProviderIdView, file: Seq<char> },
    FetchThumb { index: usize, url: Seq<char> },
    FetchFullImage { index: usize, url: Seq<char> },
    SetCoverFromUrl { url: Seq<char> },
    CopyPosterToClipboard { url: Seq<char> },
    WriteTags {
        file: Seq<char>,
        meta: MetadataView,
        artwork_url: Option<Seq<char>>,
        cover_override: Option<Seq<u8>>,
        fast_start: bool,
    },
    SetBearerToken { token: Seq<char> },
}

/// The bytes of an optional list.
pub open spec fn bytes_of(b: Option<Vec<u8>>) -> Option<Seq<u8>> {
    match b {
        Some(v) => Some(v@),
        None => None,
    }
}

/// The pixels of an optional picture.
pub open spec fn pixels(p: Option<DecodedImage>) -> Option<PixelsView> {
    match p {
        Some(d) => Some(d@),
        None => None,
    }
}

impl DeepView for Request {
    type V = RequestView;

    open spec fn deep_view(&self) -> RequestView {
        match *self {
            Request::PickFile => RequestView::PickFile,
            Request::OpenFile { path } => RequestView::OpenFile { path: path@ },
            Request::Search { query } => RequestView::Search { query: query@ },
            Request::SearchTvEpisodes { show, season, episode } => RequestView::SearchTvEpisodes {
                show: show@,
                season,
                episode,
            },
            Request::SearchEpisodeByTitle { show, season, title } =>
                RequestView::SearchEpisodeByTitle { show: show@, season, title: title@ },
            Request::SearchEpisodeTreeByTitle { show, title } =>
                RequestView::SearchEpisodeTreeByTitle { show: show@, title: title@ },
            Request::SearchShows { show, season_filter } => RequestView::SearchShows {
                show: show@,
                season_filter,
            },
            Request::FetchShowSeasons { series_id, season_filter } =>
                RequestView::FetchShowSeasons { series_id: series_id@, season_filter },
            Request::FetchShowPosters { series_id } => RequestView::FetchShowPosters {
                series_id: series_id@,
            },
            Request::FetchSeasonEpisodes { series_id, season } =>
                RequestView::FetchSeasonEpisodes { series_id: series_id@, season },
            Request::FetchDetails { id, file } => RequestView::FetchDetails {
                id: id.deep_view(),
                file: file@,
            },
            Request::FetchThumb { index, url } => RequestView::FetchThumb { index, url: url@ },
            Request::FetchFullImage { index, url } => RequestView::FetchFullImage {
                index,
                url: url@,
            },
            Request::SetCoverFromUrl { url } => RequestView::SetCoverFromUrl { url: url@ },
            Request::CopyPosterToClipboard { url } => RequestView::CopyPosterToClipboard {
                url: url@,
            },
            Request::WriteTags { file, meta, artwork_url, cover_override, fast_start } =>
                RequestView::WriteTags {
                    file: file@,
                    meta: meta.deep_view(),
                    artwork_url: artwork_url.deep_view(),
                    cover_override: bytes_of(cover_override),
                    fast_start,
                },
            Request::SetBearerToken { token } => RequestView::SetBearerToken { token: token@ },
        }
    }
}

/// What the editor is told.
#[derive(Debug)]
pub enum Event {
    /// A file was loaded.
    FileLoaded {
        file: String,
        meta: MediaMetadata,
        /// What to search for: the title, or else the file's name.
        suggested_query: String,
        /// The cover, for display.
        cover: Option<DecodedImage>,
        /// The size of the cover in the file.
        cover_size: Option<(u32, u32)>,
        /// The cover as the file holds it.
        cover_bytes: Option<Vec<u8>>,
        video_dimensions: Option<(u32, u32)>,
        fast_start: bool,
    },
    SearchDone { results: Vec<SearchResult> },
    TvShowsReady { shows: Vec<TvShowHit>, season_filter: Option<u32> },
    TvTreeFilteredReady { shows: Vec<TvShowMatch> },
    ShowSeasonsReady {
        series_id: String,
        seasons: Vec<TvSeasonSummary>,
        season_filter: Option<u32>,
    },
    ShowPostersReady { series_id: String, artwork: Vec<Artwork> },
    SeasonEpisodesReady { series_id: String, season: u32, episodes: Vec<(u32, String)> },
    DetailsDone { meta: MediaMetadata },
    ThumbDone { index: usize, image: DecodedImage },
    FullImageDone { index: usize, image: DecodedImage },
    /// A poster was chosen as the cover: for display, its own size, and its bytes.
    CoverSet { image: DecodedImage, orig_size: (u32, u32), bytes: Vec<u8> },
    CopyToClipboard { bytes: Vec<u8> },
    /// The tags were written to the file of this name.
    WriteDone { file_name: String },
    WriteStarted,
    WriteProgress { phase: WritePhase, done: u64, total: u64 },
    /// Something failed, with the reason.
    Failed { message: String },
}

/// What the editor is told, as text and numbers.
pub enum EventView {
    FileLoaded {
        file: Seq<char>,
        meta: MetadataView,
        suggested_query: Seq<char>,
        cover: Option<PixelsView>,
        cover_size: Option<(u32, u32)>,
        cover_bytes: Option<Seq<u8>>,
        video_dimensions: Option<(u32, u32)>,
        fast_start: bool,
    },
    SearchDone { results: Seq<SearchResultView> },
    TvShowsReady { shows: Seq<TvShowHitView>, season_filter: Option<u32> },
    TvTreeFilteredReady { shows: Seq<TvShowMatchView> },
    ShowSeasonsReady {
        series_id: Seq<char>,
        seasons: Seq<TvSeasonSummaryView>,
        season_filter: Option<u32>,
    },
    ShowPostersReady { series_id: Seq<char>, artwork: Seq<ArtworkView> },
    SeasonEpisodesReady { series_id: Seq<char>, season: u32, episodes: Seq<(u32, Seq<char>)> },
    DetailsDone { meta: MetadataView },
    ThumbDone { index: usize, image: PixelsView },
    FullImageDone { index: usize, image: PixelsView },
    CoverSet { image: PixelsView, orig_size: (u32, u32), bytes: Seq<u8> },
    CopyToClipboard { bytes: Seq<u8> },
    WriteDone { file_name: Seq<char> },
    WriteStarted,
    WriteProgress { phase: WritePhase, done: u64, total: u64 },
    Failed { message: Seq<char> },
}

impl DeepView for Event {
    type V = EventView;

    open spec fn deep_view(&self) -> EventView {
        match *self {
            Event::FileLoaded {
                file,
                meta,
                suggested_query,
                cover,
                cover_size,
                cover_bytes,
                video_dimensions,
                fast_start,
            } => EventView::FileLoaded {
                file: file@,
                meta: meta.deep_view(),
                suggested_query: suggested_query@,
                cover: pixels(cover),
                cover_size,
                cover_bytes: bytes_of(cover_bytes),
                video_dimensions,
                fast_start,
            },
            Event::SearchDone { results } => EventView::SearchDone {
                results: results.deep_view(),
            },
            Event::TvShowsReady { shows, season_filter } => EventView::TvShowsReady {
                shows: shows.deep_view(),
                season_filter,
            },
            Event::TvTreeFilteredReady { shows } => EventView::TvTreeFilteredReady {
                shows: shows.deep_view(),
            },
            Event::ShowSeasonsReady { series_id, seasons, season_filter } =>
                EventView::ShowSeasonsReady {
                    series_id: series_id@,
                    seasons: seasons.deep_view(),
                    season_filter,
                },
            Event::ShowPostersReady { series_id, artwork } => EventView::ShowPostersReady {
                series_id: series_id@,
                artwork: artwork.deep_view(),
            },
            Event::SeasonEpisodesReady { series_id, season, episodes } =>
                EventView::SeasonEpisodesReady {
                    series_id: series_id@,
                    season,
                    episodes: episodes.deep_view(),
                },
            Event::DetailsDone { meta } => EventView::DetailsDone { meta: meta.deep_view() },
            Event::ThumbDone { index, image } => EventView::ThumbDone { index, image: image@ },
            Event::FullImageDone { index, image } => EventView::FullImageDone {
                index,
                image: image@,
            },
            Event::CoverSet { image, orig_size, bytes } => EventView::CoverSet {
                image: image@,
                orig_size,
                bytes: bytes@,
            },
            Event::CopyToClipboard { bytes } => EventView::CopyToClipboard { bytes: bytes@ },
            Event::WriteDone { file_name } => EventView::WriteDone { file_name: file_name@ },
            Event::WriteStarted => EventView::WriteStarted,
            Event::WriteProgress { phase, done, total } => EventView::WriteProgress {
                phase,
                done,
                total,
            },
            Event::Failed { message } => EventView::Failed { message: message@ },
        }
    }
}

// ---------------------------------------------------------------------------
// Credentials
// ---------------------------------------------------------------------------

/// Who asks the service: by the given token where it is not blank, else as the environment has it.
pub open spec fn chosen_auth(
    token: Seq<char>,
    env_token: Option<Seq<char>>,
    env_key: Option<Seq<char>>,
) -> Option<AuthView> {
    if trimmed(token).len() > 0 {
        Some(AuthView::Bearer(trimmed(token)))
    } else {
        env_auth(env_token, env_key)
    }
}

/// The service's view of a provider.
pub open spec fn auth_of(provider: Option<TmdbProvider>) -> Option<AuthView> {
    match provider {
        Some(p) => Some(p.auth.deep_view()),
        None => None,
    }
}

/// The service for someone with a token: the given one where it is not blank, else what the
/// environment has.
pub fn build_provider(token: &str, env_token: Option<&str>, env_key: Option<&str>) -> (r: Option<
    TmdbProvider,
>)
    ensures
        auth_of(r) == chosen_auth(token@, text_in(env_token), text_in(env_key)),
{
    let given = trim(token);
    if !given.as_str().is_empty() {
        return Some(TmdbProvider::with_bearer(given.as_str()));
    }
    match TmdbProvider::from_env(env_token, env_key) {
        Ok(p) => Some(p),
        Err(_) => None,
    }
}

/// Whether a text is there and not blank.
pub open spec fn is_set(s: Option<Seq<char>>) -> bool {
    s matches Some(t) && trimmed(t).len() > 0
}

/// Whether a text is there and not blank.
fn is_given(s: Option<&str>) -> (r: bool)
    ensures
        r == is_set(text_in(s)),
{
    match s {
        Some(t) => {
            let rest = trim(t);
            !rest.as_str().is_empty()
        },
        None => false,
    }
}

/// Whether there is a credential for the service: a saved token, or a token or a key in the
/// environment, that is not blank.
pub fn has_tmdb_credential(token: &str, env_token: Option<&str>, env_key: Option<&str>) -> (r: bool)
    ensures
        r == (is_set(Some(token@)) || is_set(text_in(env_token)) || is_set(text_in(env_key))),
{
    is_given(Some(token)) || is_given(env_token) || is_given(env_key)
}

/// Whoever has a credential can ask the service.
pub proof fn law_credential_gives_provider(
    token: Seq<char>,
    env_token: Option<Seq<char>>,
    env_key: Option<Seq<char>>,
)
    requires
        is_set(Some(token)) || is_set(env_token) || is_set(env_key),
    ensures
        chosen_auth(token, env_token, env_key) is Some,
{
}

// ---------------------------------------------------------------------------
// Jobs
// ---------------------------------------------------------------------------

/// Where a cover comes from.
#[derive(Debug)]
pub enum CoverSource {
    /// It is given.
    Own(Vec<u8>),
    /// It is to be fetched.
    Fetched(String),
    /// There is none.
    Nowhere,
}

/// Where a cover comes from, in mathematical terms.
pub enum CoverSourceView {
    Own(Seq<u8>),
    Fetched(Seq<char>),
    Nowhere,
}

impl DeepView for CoverSource {
    type V = CoverSourceView;

    open spec fn deep_view(&self) -> CoverSourceView {
        match self {
            CoverSource::Own(b) => CoverSourceView::Own(b@),
            CoverSource::Fetched(u) => CoverSourceView::Fetched(u@),
            CoverSource::Nowhere => CoverSourceView::Nowhere,
        }
    }
}

/// What has to be done for a request.
#[derive(Debug)]
pub enum Job {
    /// Let the user pick a file, and load it.
    Pick,
    /// Load a file.
    Load { path: String },
    /// Search for movies.
    FindMovies { search: HttpRequest },
    /// Search for a show, then for episodes of it by their title.
    FindEpisodes { search: HttpRequest, season: Option<u32>, title: String },
    /// Search for shows, then for episodes of them by their title.
    FindTree { search: HttpRequest, title: String },
    /// Search for shows.
    FindShows { search: HttpRequest, season_filter: Option<u32> },
    /// Fetch seasons.
    Seasons { ask: HttpRequest, series_id: String, season_filter: Option<u32> },
    /// Fetch posters; where that fails there are none.
    Posters { ask: HttpRequest, series_id: String },
    /// Fetch the episodes of a season.
    Episodes { ask: HttpRequest, series_id: String, season: u32 },
    /// Search for shows, then for a season or an episode of them.
    FindTv { search: HttpRequest, season: Option<u32>, episode: Option<u32> },
    /// Fetch details.
    Details { id: ProviderId, file: String },
    /// Fetch a picture for the grid.
    Thumb { index: usize, url: String },
    /// Fetch a picture to be shown enlarged.
    Full { index: usize, url: String },
    /// Fetch a picture to be the cover.
    Cover { url: String },
    /// Fetch a picture for the clipboard.
    Copy { url: String },
    /// Write tags.
    Write { file: String, meta: MediaMetadata, cover: CoverSource, fast_start: bool },
    /// Use another token.
    UseToken { token: String },
    /// Nothing can be done, for this reason.
    Refuse { message: String },
}

/// What has to be done for a request, as text and numbers.
pub enum JobView {
    Pick,
    Load { path: Seq<char> },
    FindMovies { search: HttpRequestView },
    FindEpisodes { search: HttpRequestView, season: Option<u32>, title: Seq<char> },
    FindTree { search: HttpRequestView, title: Seq<char> },
    FindShows { search: HttpRequestView, season_filter: Option<u32> },
    Seasons { ask: HttpRequestView, series_id: Seq<char>, season_filter: Option<u32> },
    Posters { ask: HttpRequestView, series_id: Seq<char> },
    Episodes { ask: HttpRequestView, series_id: Seq<char>, season: u32 },
    FindTv { search: HttpRequestView, season: Option<u32>, episode: Option<u32> },
    Details { id: ProviderIdView, file: Seq<char> },
    Thumb { index: usize, url: Seq<char> },
    Full { index: usize, url: Seq<char> },
    Cover { url: Seq<char> },
    Copy { url: Seq<char> },
    Write { file: Seq<char>, meta: MetadataView, cover: CoverSourceView, fast_start: bool },
    UseToken { token: Seq<char> },
    Refuse { message: Seq<char> },
}

impl DeepView for Job {
    type V = JobView;

    open spec fn deep_view(&self) -> JobView {
        match *self {
            Job::Pick => JobView::Pick,
            Job::Load { path } => JobView::Load { path: path@ },
            Job::FindMovies { search } => JobView::FindMovies { search: search.deep_view() },
            Job::FindEpisodes { search, season, title } => JobView::FindEpisodes {
                search: search.deep_view(),
                season,
                title: title@,
            },
            Job::FindTree { search, title } => JobView::FindTree {
                search: search.deep_view(),
                title: title@,
            },
            Job::FindShows { search, season_filter } => JobView::FindShows {
                search: search.deep_view(),
                season_filter,
            },
            Job::Seasons { ask, series_id, season_filter } => JobView::Seasons {
                ask: ask.deep_view(),
                series_id: series_id@,
                season_filter,
            },
            Job::Posters { ask, series_id } => JobView::Posters {
                ask: ask.deep_view(),
                series_id: series_id@,
            },
            Job::Episodes { ask, series_id, season } => JobView::Episodes {
                ask: ask.deep_view(),
                series_id: series_id@,
                season,
            },
            Job::FindTv { search, season, episode } => JobView::FindTv {
                search: search.deep_view(),
                season,
                episode,
            },
            Job::Details { id, file } => JobView::Details { id: id.deep_view(), file: file@ },
            Job::Thumb { index, url } => JobView::Thumb { index, url: url@ },
            Job::Full { index, url } => JobView::Full { index, url: url@ },
            Job::Cover { url } => JobView::Cover { url: url@ },
            Job::Copy { url } => JobView::Copy { url: url@ },
            Job::Write { file, meta, cover, fast_start } => JobView::Write {
                file: file@,
                meta: meta.deep_view(),
                cover: cover.deep_view(),
                fast_start,
            },
            Job::UseToken { token } => JobView::UseToken { token: token@ },
            Job::Refuse { message } => JobView::Refuse { message: message@ },
        }
    }
}

/// The query for a title of some kind.
pub open spec fn title_query(title: Seq<char>, kind: MediaKind) -> QueryView {
    QueryView { title, year: None, kind, season: None, episode: None }
}

/// The request that searches for a title of some kind.
pub open spec fn title_search(auth: AuthView, title: Seq<char>, kind: MediaKind) -> HttpRequestView {
    asked(
        auth,
        match kind {
            MediaKind::Movie => "/search/movie"@,
            MediaKind::TvShow => "/search/tv"@,
        },
        search_params(title_query(title, kind)),
    )
}

/// Where a cover comes from: one of the user's own goes before one that is to be fetched.
pub open spec fn cover_source(own: Option<Seq<u8>>, url: Option<Seq<char>>) -> CoverSourceView {
    match own {
        Some(b) => CoverSourceView::Own(b),
        None => match url {
            Some(u) => CoverSourceView::Fetched(u),
            None => CoverSourceView::Nowhere,
        },
    }
}

/// Whether a request can only be answered by the service.
pub open spec fn needs_service(req: RequestView) -> bool {
    match req {
        RequestView::Search { .. } => true,
        RequestView::SearchTvEpisodes { .. } => true,
        RequestView::SearchEpisodeByTitle { .. } => true,
        RequestView::SearchEpisodeTreeByTitle { .. } => true,
        RequestView::SearchShows { .. } => true,
        RequestView::FetchShowSeasons { .. } => true,
        RequestView::FetchShowPosters { .. } => true,
        RequestView::FetchSeasonEpisodes { .. } => true,
        RequestView::FetchDetails { .. } => true,
        _ => false,
    }
}

/// What has to be done for a request that the service answers.
pub open spec fn service_job(req: RequestView, auth: AuthView) -> JobView {
    match req {
        RequestView::Search { query } => JobView::FindMovies {
            search: title_search(auth, query, MediaKind::Movie),
        },
        RequestView::SearchTvEpisodes { show, season, episode } => JobView::FindTv {
            search: title_search(auth, show, MediaKind::TvShow),
            season,
            episode,
        },
        RequestView::SearchEpisodeByTitle { show, season, title } => JobView::FindEpisodes {
            search: title_search(auth, show, MediaKind::TvShow),
            season,
            title,
        },
        RequestView::SearchEpisodeTreeByTitle { show, title } => JobView::FindTree {
            search: title_search(auth, show, MediaKind::TvShow),
            title,
        },
        RequestView::SearchShows { show, season_filter } => JobView::FindShows {
            search: title_search(auth, show, MediaKind::TvShow),
            season_filter,
        },
        RequestView::FetchShowSeasons { series_id, season_filter } => JobView::Seasons {
            ask: asked(auth, "/tv/"@ + series_id, Seq::empty()),
            series_id,
            season_filter,
        },
        RequestView::FetchShowPosters { series_id } => JobView::Posters {
            ask: asked(auth, "/tv/"@ + series_id, adding("images"@)),
            series_id,
        },
        RequestView::FetchSeasonEpisodes { series_id, season } => JobView::Episodes {
            ask: asked(auth, season_path(series_id, season), Seq::empty()),
            series_id,
            season,
        },
        RequestView::FetchDetails { id, file } => JobView::Details { id, file },
        _ => JobView::Pick,
    }
}

/// What has to be done for a request, given who may ask the service, if anyone may.
pub open spec fn planned(req: RequestView, auth: Option<AuthView>) -> JobView {
    match req {
        RequestView::PickFile => JobView::Pick,
        RequestView::OpenFile { path } => JobView::Load { path },
        RequestView::FetchThumb { index, url } => JobView::Thumb { index, url },
        RequestView::FetchFullImage { index, url } => JobView::Full { index, url },
        RequestView::SetCoverFromUrl { url } => JobView::Cover { url },
        RequestView::CopyPosterToClipboard { url } => JobView::Copy { url },
        RequestView::WriteTags { file, meta, artwork_url, cover_override, fast_start } =>
            JobView::Write {
                file,
                meta,
                cover: cover_source(cover_override, artwork_url),
                fast_start,
            },
        RequestView::SetBearerToken { token } => JobView::UseToken { token },
        _ => match auth {
            Some(a) => service_job(req, a),
            None => JobView::Refuse { message: "Set TMDB_BEARER_TOKEN or TMDB_API_KEY"@ },
        },
    }
}

/// The query for a title of some kind.
fn build_title_query(title: String, kind: MediaKind) -> (r: MediaQuery)
    ensures
        r.deep_view() == title_query(title@, kind),
{
    MediaQuery { title, year: None, kind, season: None, episode: None }
}

/// What has to be done for a request, given the service if anyone may ask it.
pub fn plan(req: Request, provider: Option<&TmdbProvider>) -> (r: Job)
    ensures
        r.deep_view() == planned(
            req.deep_view(),
            match provider {
                Some(p) => Some(p.auth.deep_view()),
                None => None,
            },
        ),
{
    match req {
        Request::PickFile => return Job::Pick,
        Request::OpenFile { path } => return Job::Load { path },
        Request::FetchThumb { index, url } => return Job::Thumb { index, url },
        Request::FetchFullImage { index, url } => return Job::Full { index, url },
        Request::SetCoverFromUrl { url } => return Job::Cover { url },
        Request::CopyPosterToClipboard { url } => return Job::Copy { url },
        Request::WriteTags { file, meta, artwork_url, cover_override, fast_start } => {
            let cover = match cover_override {
                Some(b) => CoverSource::Own(b),
                None => match artwork_url {
                    Some(u) => CoverSource::Fetched(u),
                    None => CoverSource::Nowhere,
                },
            };
            return Job::Write { file, meta, cover, fast_start };
        },
        Request::SetBearerToken { token } => return Job::UseToken { token },
        _ => {},
    }
    let p = match provider {
        Some(p) => p,
        None => return Job::Refuse { message: "Set TMDB_BEARER_TOKEN or TMDB_API_KEY".to_string() },
    };
    match req {
        Request::Search { query } => Job::FindMovies {
            search: p.search_request(&build_title_query(query, MediaKind::Movie)),
        },
        Request::SearchTvEpisodes { show, season, episode } => Job::FindTv {
            search: p.search_request(&build_title_query(show, MediaKind::TvShow)),
            season,
            episode,
        },
        Request::SearchEpisodeByTitle { show, season, title } => Job::FindEpisodes {
            search: p.search_request(&build_title_query(show, MediaKind::TvShow)),
            season,
            title,
        },
        Request::SearchEpisodeTreeByTitle { show, title } => Job::FindTree {
            search: p.search_request(&build_title_query(show, MediaKind::TvShow)),
            title,
        },
        Request::SearchShows { show, season_filter } => Job::FindShows {
            search: p.search_request(&build_title_query(show, MediaKind::TvShow)),
            season_filter,
        },
        Request::FetchShowSeasons { series_id, season_filter } => Job::Seasons {
            ask: p.seasons_request(series_id.as_str()),
            series_id,
            season_filter,
        },
        Request::FetchShowPosters { series_id } => Job::Posters {
            ask: p.posters_request(series_id.as_str()),
            series_id,
        },
        Request::FetchSeasonEpisodes { series_id, season } => Job::Episodes {
            ask: p.season_request(series_id.as_str(), season),
            series_id,
            season,
        },
        Request::FetchDetails { id, file } => Job::Details { id, file },
        _ => Job::Pick,
    }
}

/// Without a credential, every request that the service answers is refused, and no other is.
pub proof fn law_service_needs_credential(req: RequestView)
    ensures
        needs_service(req) <==> planned(req, None) is Refuse,
{
}

// ---------------------------------------------------------------------------
// Replies of the service
// ---------------------------------------------------------------------------

/// The shows that a search found, as roots of the tree of matches.
pub open spec fn show_roots(hits: Seq<SearchResultView>) -> Seq<TvShowHitView> {
    hits.map_values(
        |h: SearchResultView|
            TvShowHitView { series_id: h.id.id, name: h.title, year: h.year },
    )
}

/// The shows that a search found, as roots of the tree of matches.
pub fn shows_ready(hits: &Vec<SearchResult>, season_filter: Option<u32>) -> (r: Event)
    ensures
        r.deep_view() == (EventView::TvShowsReady {
            shows: show_roots(hits.deep_view()),
            season_filter,
        }),
{
    let ghost all = show_roots(hits.deep_view());
    let mut shows: Vec<TvShowHit> = Vec::new();
    let mut i: usize = 0;
    while i < hits.len()
        invariant
            i <= hits@.len(),
            all == show_roots(hits.deep_view()),
            shows.deep_view() == all.take(i as int),
        decreases hits@.len() - i,
    {
        let ghost before = shows.deep_view();
        let h = &hits[i];
        assert(hits.deep_view()[i as int] == h.deep_view());
        shows.push(TvShowHit { series_id: h.id.id.clone(), name: h.title.clone(), year: h.year });
        assert(shows.deep_view() =~= before.push(all[i as int]));
        assert(all.take(i + 1) =~= all.take(i as int).push(all[i as int]));
        i += 1;
    }
    assert(all.take(all.len() as int) =~= all);
    Event::TvShowsReady { shows, season_filter }
}

/// The seasons of one number, or all of them.
pub open spec fn seasons_kept(seasons: Seq<TvSeasonSummaryView>, filter: Option<u32>) -> Seq<
    TvSeasonSummaryView,
>
    decreases seasons.len(),
{
    if seasons.len() == 0 {
        Seq::empty()
    } else {
        let before = seasons_kept(seasons.drop_last(), filter);
        if filter is None || filter == Some(seasons.last().season_number) {
            before.push(seasons.last())
        } else {
            before
        }
    }
}

/// The seasons of a show: those of the number that is asked for, or all of them.
pub fn seasons_ready(
    series_id: String,
    seasons: &Vec<TvSeasonSummary>,
    season_filter: Option<u32>,
) -> (r: Event)
    ensures
        r.deep_view() == (EventView::ShowSeasonsReady {
            series_id: series_id@,
            seasons: seasons_kept(seasons.deep_view(), season_filter),
            season_filter,
        }),
{
    let ghost all = seasons.deep_view();
    let mut kept: Vec<TvSeasonSummary> = Vec::new();
    let mut i: usize = 0;
    assert(all.take(0) =~= Seq::<TvSeasonSummaryView>::empty());
    assert(kept.deep_view() =~= Seq::<TvSeasonSummaryView>::empty());
    while i < seasons.len()
        invariant
            i <= seasons@.len(),
            all == seasons.deep_view(),
            kept.deep_view() == seasons_kept(all.take(i as int), season_filter),
        decreases seasons@.len() - i,
    {
        let ghost before = kept.deep_view();
        let s = &seasons[i];
        proof {
            assert(all.take(i + 1).drop_last() =~= all.take(i as int));
            assert(all.take(i + 1).last() == s.deep_view());
        }
        let wanted = match season_filter {
            Some(n) => n == s.season_number,
            None => true,
        };
        if wanted {
            kept.push(
                TvSeasonSummary {
                    season_number: s.season_number,
                    name: s.name.clone(),
                    episode_count: s.episode_count,
                },
            );
            assert(kept.deep_view() =~= before.push(s.deep_view()));
        }
        i += 1;
    }
    assert(all.take(all.len() as int) =~= all);
    Event::ShowSeasonsReady { series_id, seasons: kept, season_filter }
}

/// What is asked next when shows were searched for with a season or an episode in mind.
#[derive(Debug)]
pub enum TvStep {
    /// The episodes of a season of a show.
    ListSeason { series_id: String, show_name: String, season: u32 },
    /// The name of an episode of each of these shows.
    NameEpisodes { series_ids: Vec<String>, season: u32, episode: u32 },
    /// Nothing more.
    Done,
}

/// What is asked next, as text and numbers.
pub enum TvStepView {
    ListSeason { series_id: Seq<char>, show_name: Seq<char>, season: u32 },
    NameEpisodes { series_ids: Seq<Seq<char>>, season: u32, episode: u32 },
    Done,
}

impl DeepView for TvStep {
    type V = TvStepView;

    open spec fn deep_view(&self) -> TvStepView {
        match *self {
            TvStep::ListSeason { series_id, show_name, season } => TvStepView::ListSeason {
                series_id: series_id@,
                show_name: show_name@,
                season,
            },
            TvStep::NameEpisodes { series_ids, season, episode } => TvStepView::NameEpisodes {
                series_ids: series_ids.deep_view(),
                season,
                episode,
            },
            TvStep::Done => TvStepView::Done,
        }
    }
}

/// How many of the shows get the name of an episode looked up.
pub open spec fn enriched_count(len: nat) -> int {
    if len < MAX_ENRICH {
        len as int
    } else {
        MAX_ENRICH as int
    }
}

/// What is asked next: with a season alone, the episodes of it in the first show; with an episode
/// too, its name in each of the first shows.
pub open spec fn tv_step(
    results: Seq<SearchResultView>,
    season: Option<u32>,
    episode: Option<u32>,
) -> TvStepView {
    match (season, episode) {
        (Some(s), None) => if results.len() > 0 {
            TvStepView::ListSeason {
                series_id: results[0].id.id,
                show_name: results[0].title,
                season: s,
            }
        } else {
            TvStepView::Done
        },
        (Some(s), Some(e)) => TvStepView::NameEpisodes {
            series_ids: Seq::new(
                enriched_count(results.len()) as nat,
                |i: int| results[i].id.id,
            ),
            season: s,
            episode: e,
        },
        _ => TvStepView::Done,
    }
}

/// What is asked next when shows were searched for.
pub fn next_tv_step(results: &Vec<SearchResult>, season: Option<u32>, episode: Option<u32>) -> (r:
    TvStep)
    ensures
        r.deep_view() == tv_step(results.deep_view(), season, episode),
{
    match (season, episode) {
        (Some(s), None) => if results.len() > 0 {
            assert(results.deep_view()[0] == results@[0].deep_view());
            TvStep::ListSeason {
                series_id: results[0].id.id.clone(),
                show_name: results[0].title.clone(),
                season: s,
            }
        } else {
            TvStep::Done
        },
        (Some(s), Some(e)) => {
            let n: usize = if results.len() < MAX_ENRICH {
                results.len()
            } else {
                MAX_ENRICH
            };
            let ghost all = Seq::new(n as nat, |i: int| results.deep_view()[i].id.id);
            let mut series_ids: Vec<String> = Vec::new();
            let mut i: usize = 0;
            while i < n
                invariant
                    i <= n <= results@.len(),
                    all == Seq::new(n as nat, |i: int| results.deep_view()[i].id.id),
                    series_ids.deep_view() == all.take(i as int),
                decreases n - i,
            {
                let ghost before = series_ids.deep_view();
                assert(results.deep_view()[i as int] == results@[i as int].deep_view());
                series_ids.push(results[i].id.id.clone());
                assert(series_ids.deep_view() =~= before.push(all[i as int]));
                assert(all.take(i + 1) =~= all.take(i as int).push(all[i as int]));
                i += 1;
            }
            assert(all.take(n as int) =~= all);
            assert(series_ids.deep_view() =~= Seq::new(
                enriched_count(results.deep_view().len()) as nat,
                |i: int| results.deep_view()[i].id.id,
            ));
            TvStep::NameEpisodes { series_ids, season: s, episode: e }
        },
        _ => TvStep::Done,
    }
}

/// A result with a season.
pub open spec fn with_season(r: SearchResultView, season: u32) -> SearchResultView {
    SearchResultView { id: ProviderIdView { season: Some(season), ..r.id }, ..r }
}

/// A result with a season, an episode and its name.
pub open spec fn with_episode(
    r: SearchResultView,
    season: u32,
    episode: u32,
    name: Option<Seq<char>>,
) -> SearchResultView {
    SearchResultView {
        id: ProviderIdView { season: Some(season), episode: Some(episode), ..r.id },
        episode_name: name,
        ..r
    }
}

/// The results of a search with a season in mind: its episodes where they could be fetched and
/// there are any, else the shows with the season.
pub open spec fn season_results(
    results: Seq<SearchResultView>,
    episodes: Option<Seq<SearchResultView>>,
    season: u32,
) -> Seq<SearchResultView> {
    match episodes {
        Some(list) => if list.len() > 0 {
            list
        } else {
            results.map_values(|r: SearchResultView| with_season(r, season))
        },
        None => results.map_values(|r: SearchResultView| with_season(r, season)),
    }
}

/// The results of a search with an episode in mind: the shows of which it was looked up carry the
/// season, the episode and its name.
pub open spec fn episode_results(
    results: Seq<SearchResultView>,
    names: Seq<Option<Seq<char>>>,
    season: u32,
    episode: u32,
) -> Seq<SearchResultView> {
    Seq::new(
        results.len(),
        |i: int|
            if i < names.len() {
                with_episode(results[i], season, episode, names[i])
            } else {
                results[i]
            },
    )
}

/// The results of a search with a season in mind.
pub fn season_listed(
    results: Vec<SearchResult>,
    episodes: Option<Vec<SearchResult>>,
    season: u32,
) -> (r: Event)
    ensures
        r.deep_view() == (EventView::SearchDone {
            results: season_results(results.deep_view(), episodes.deep_view(), season),
        }),
{
    if let Some(list) = episodes {
        assert(list.deep_view().len() == list@.len());
        if list.len() > 0 {
            return Event::SearchDone { results: list };
        }
    }
    let ghost all = results.deep_view().map_values(|r: SearchResultView| with_season(r, season));
    let mut out: Vec<SearchResult> = Vec::new();
    let mut i: usize = 0;
    while i < results.len()
        invariant
            i <= results@.len(),
            all == results.deep_view().map_values(|r: SearchResultView| with_season(r, season)),
            out.deep_view() == all.take(i as int),
        decreases results@.len() - i,
    {
        let ghost before = out.deep_view();
        assert(results.deep_view()[i as int] == results@[i as int].deep_view());
        let mut one = results[i].copy();
        one.id.season = Some(season);
        assert(one.deep_view() == all[i as int]);
        out.push(one);
        assert(out.deep_view() =~= before.push(all[i as int]));
        assert(all.take(i + 1) =~= all.take(i as int).push(all[i as int]));
        i += 1;
    }
    assert(all.take(all.len() as int) =~= all);
    Event::SearchDone { results: out }
}

/// The results of a search with an episode in mind.
pub fn episodes_named(
    results: &Vec<SearchResult>,
    names: &Vec<Option<String>>,
    season: u32,
    episode: u32,
) -> (r: Event)
    ensures
        r.deep_view() == (EventView::SearchDone {
            results: episode_results(results.deep_view(), names.deep_view(), season, episode),
        }),
{
    let ghost all = episode_results(results.deep_view(), names.deep_view(), season, episode);
    let mut out: Vec<SearchResult> = Vec::new();
    let mut i: usize = 0;
    while i < results.len()
        invariant
            i <= results@.len(),
            all == episode_results(results.deep_view(), names.deep_view(), season, episode),
            out.deep_view() == all.take(i as int),
        decreases results@.len() - i,
    {
        let ghost before = out.deep_view();
        assert(results.deep_view()[i as int] == results@[i as int].deep_view());
        let mut one = results[i].copy();
        if i < names.len() {
            assert(names.deep_view()[i as int] == names@[i as int].deep_view());
            one.id.season = Some(season);
            one.id.episode = Some(episode);
            one.episode_name = copy_opt(&names[i]);
        }
        assert(one.deep_view() == all[i as int]);
        out.push(one);
        assert(out.deep_view() =~= before.push(all[i as int]));
        assert(all.take(i + 1) =~= all.take(i as int).push(all[i as int]));
        i += 1;
    }
    assert(all.take(all.len() as int) =~= all);
    Event::SearchDone { results: out }
}

// ---------------------------------------------------------------------------
// Details
// ---------------------------------------------------------------------------

/// One number, or else another.
pub open spec fn or_else(a: Option<u32>, b: Option<u32>) -> Option<u32> {
    match a {
        Some(n) => Some(n),
        None => b,
    }
}

/// What names a title, with the season and the episode of a file's name where it is a show and
/// lacks them.
pub open spec fn completed_id(id: ProviderIdView, query: Option<QueryView>) -> ProviderIdView {
    if id.kind == MediaKind::TvShow && (id.season is None || id.episode is None) {
        match query {
            Some(q) => ProviderIdView {
                season: or_else(id.season, q.season),
                episode: or_else(id.episode, q.episode),
                ..id
            },
            None => id,
        }
    } else {
        id
    }
}

/// What names a title, with the season and the episode of a file's name where it is a show and
/// lacks them.
pub fn complete_id(id: ProviderId, file_name: &str, folder: Option<&str>) -> (r: ProviderId)
    ensures
        r.deep_view() == completed_id(id.deep_view(), parsed(file_name@, text_in(folder))),
{
    let mut out = id;
    if out.kind == MediaKind::TvShow && (out.season.is_none() || out.episode.is_none()) {
        if let Ok(q) = parse(file_name, folder) {
            if out.season.is_none() {
                out.season = q.season;
            }
            if out.episode.is_none() {
                out.episode = q.episode;
            }
        }
    }
    out
}

/// One number, unless it is 0.
pub open spec fn unless_zero(n: u32, other: Option<u32>) -> u32 {
    if n != 0 {
        n
    } else {
        match other {
            Some(m) => m,
            None => 0,
        }
    }
}

/// Details with the season and the episode that were asked for, where an episode has none.
pub open spec fn numbered(
    meta: MetadataView,
    season: Option<u32>,
    episode: Option<u32>,
) -> MetadataView {
    match meta.kind {
        KindView::Episode(e) => MetadataView {
            kind: KindView::Episode(
                EpisodeView {
                    season: unless_zero(e.season, season),
                    episode: unless_zero(e.episode, episode),
                    ..e
                },
            ),
            ..meta
        },
        KindView::Movie => meta,
    }
}

/// Gives an episode the season and the number that were asked for, where it has none.
pub fn fill_episode_numbers(meta: &mut MediaMetadata, season: Option<u32>, episode: Option<u32>)
    ensures
        final(meta).deep_view() == numbered(old(meta).deep_view(), season, episode),
{
    if let MediaKindMeta::Episode(e) = &meta.kind {
        let mut e = e.copy();
        if e.season == 0 {
            e.season = match season {
                Some(n) => n,
                None => 0,
            };
        }
        if e.episode == 0 {
            e.episode = match episode {
                Some(n) => n,
                None => 0,
            };
        }
        meta.kind = MediaKindMeta::Episode(e);
    }
}

// ---------------------------------------------------------------------------
// Files
// ---------------------------------------------------------------------------

/// An episode of which nothing is known.
pub open spec fn blank_episode() -> EpisodeView {
    EpisodeView {
        show_name: Seq::empty(),
        season: 0,
        episode: 0,
        episode_title: None,
        network: None,
        episode_id: None,
    }
}

/// Metadata with the show, the season and the episode of a file's name, where the name is that of
/// an episode and the file does not say. The kind of video is that of a show where the file has
/// none.
pub open spec fn prefilled(meta: MetadataView, query: Option<QueryView>) -> MetadataView {
    match query {
        None => meta,
        Some(q) => if q.kind != MediaKind::TvShow {
            meta
        } else {
            let e = match meta.kind {
                KindView::Episode(e) => e,
                KindView::Movie => blank_episode(),
            };
            MetadataView {
                kind: KindView::Episode(
                    EpisodeView {
                        show_name: if trimmed(e.show_name).len() == 0 && trimmed(q.title).len()
                            > 0 {
                            q.title
                        } else {
                            e.show_name
                        },
                        season: unless_zero(e.season, q.season),
                        episode: unless_zero(e.episode, q.episode),
                        ..e
                    },
                ),
                video_kind: match meta.video_kind {
                    Some(k) => Some(k),
                    None => Some(VideoKind::TvShow),
                },
                ..meta
            }
        },
    }
}

/// Fills in what a query says of an episode, where the metadata does not.
pub fn prefill_episode(meta: &mut MediaMetadata, query: Option<MediaQuery>)
    ensures
        final(meta).deep_view() == prefilled(old(meta).deep_view(), query.deep_view()),
{
    let q = match query {
        Some(q) => q,
        None => return ,
    };
    if q.kind != MediaKind::TvShow {
        return ;
    }
    let mut e = match &meta.kind {
        MediaKindMeta::Episode(e) => e.copy(),
        MediaKindMeta::Movie => EpisodeInfo {
            show_name: String::new(),
            season: 0,
            episode: 0,
            episode_title: None,
            network: None,
            episode_id: None,
        },
    };
    proof {
        if meta.kind is Movie {
            assert(e.show_name@ =~= Seq::<char>::empty());
        }
    }
    let known = trim(e.show_name.as_str());
    let title = trim(q.title.as_str());
    if known.as_str().is_empty() && !title.as_str().is_empty() {
        e.show_name = q.title;
    }
    if e.season == 0 {
        if let Some(n) = q.season {
            e.season = n;
        }
    }
    if e.episode == 0 {
        if let Some(n) = q.episode {
            e.episode = n;
        }
    }
    meta.kind = MediaKindMeta::Episode(e);
    if meta.video_kind.is_none() {
        meta.video_kind = Some(VideoKind::TvShow);
    }
}

/// Fills in the show, the season and the episode of a file's name, where the name is that of an
/// episode and the metadata does not say.
pub fn prefill_episode_from_filename(
    meta: &mut MediaMetadata,
    file_name: &str,
    folder: Option<&str>,
)
    ensures
        final(meta).deep_view() == prefilled(
            old(meta).deep_view(),
            parsed(file_name@, text_in(folder)),
        ),
{
    let query: Option<MediaQuery> = match parse(file_name, folder) {
        Ok(q) => Some(q),
        Err(_) => None,
    };
    prefill_episode(meta, query);
}

/// What a file's own tags say of an episode is never overwritten by its name.
pub proof fn law_tags_win_over_file_name(meta: MetadataView, query: Option<QueryView>)
    ensures
        meta.kind matches KindView::Episode(e) ==> (prefilled(meta, query).kind matches
            KindView::Episode(f) && (trimmed(e.show_name).len() > 0 ==> f.show_name == e.show_name)
            && (e.season != 0 ==> f.season == e.season) && (e.episode != 0 ==> f.episode
            == e.episode) && f.episode_title == e.episode_title && f.network == e.network
            && f.episode_id == e.episode_id),
        meta.video_kind is Some ==> prefilled(meta, query).video_kind == meta.video_kind,
        prefilled(meta, query).title == meta.title,
        prefilled(prefilled(meta, query), query) == prefilled(meta, query),
{
}

/// A file as it was found on the disk. The tags are missing where they could not be read.
#[derive(Debug)]
pub struct FoundFile {
    pub path: String,
    pub file_name: String,
    pub folder: Option<String>,
    pub tags: Option<(MediaMetadata, Option<Vec<u8>>)>,
    pub video_dimensions: Option<(u32, u32)>,
    pub fast_start: bool,
}

/// The metadata of a file, with what its name says.
pub open spec fn found_metadata(file: FoundFile) -> MetadataView {
    let read = match file.tags {
        Some((meta, _)) => meta.deep_view(),
        None => blank_metadata(),
    };
    prefilled(read, parsed(file.file_name@, file.folder.deep_view()))
}

/// The cover in a file.
pub open spec fn found_cover(file: FoundFile) -> Option<Seq<u8>> {
    match file.tags {
        Some((_, cover)) => bytes_of(cover),
        None => None,
    }
}

/// What to search for: a title, or else a file's name.
pub open spec fn suggested(title: Seq<char>, file_name: Seq<char>) -> Seq<char> {
    if trimmed(title).len() > 0 {
        title
    } else {
        stem_of(file_name)
    }
}

/// What the editor is told of a file.
pub open spec fn loaded_view(file: FoundFile) -> EventView {
    let meta = found_metadata(file);
    let cover = found_cover(file);
    EventView::FileLoaded {
        file: file.path@,
        meta,
        suggested_query: suggested(meta.title, file.file_name@),
        cover: match cover {
            Some(b) => scaled_picture(b, COVER_SIDE),
            None => None,
        },
        cover_size: match cover {
            Some(b) => picture_size(b),
            None => None,
        },
        cover_bytes: cover,
        video_dimensions: file.video_dimensions,
        fast_start: file.fast_start,
    }
}

/// What the editor is told of a file.
pub fn load_file(file: FoundFile) -> (r: Event)
    ensures
        r.deep_view() == loaded_view(file),
{
    let FoundFile { path, file_name, folder, tags, video_dimensions, fast_start } = file;
    let (mut meta, cover_bytes): (MediaMetadata, Option<Vec<u8>>) = match tags {
        Some((m, c)) => (m, c),
        None => (MediaMetadata::default(), None),
    };
    let folder_name: Option<&str> = match &folder {
        Some(f) => Some(f.as_str()),
        None => None,
    };
    prefill_episode_from_filename(&mut meta, file_name.as_str(), folder_name);
    let title = trim(meta.title.as_str());
    let suggested_query = if !title.as_str().is_empty() {
        meta.title.clone()
    } else {
        file_stem(file_name.as_str())
    };
    let cover: Option<DecodedImage> = match &cover_bytes {
        Some(b) => match thumbnail(b.as_slice(), COVER_SIDE) {
            Ok(img) => Some(img),
            Err(_) => None,
        },
        None => None,
    };
    let cover_size: Option<(u32, u32)> = match &cover_bytes {
        Some(b) => match dimensions(b.as_slice()) {
            Ok(size) => Some(size),
            Err(_) => None,
        },
        None => None,
    };
    Event::FileLoaded {
        file: path,
        meta,
        suggested_query,
        cover,
        cover_size,
        cover_bytes,
        video_dimensions,
        fast_start,
    }
}

// ---------------------------------------------------------------------------
// Pictures and progress
// ---------------------------------------------------------------------------

/// What the editor is told of a poster for the grid; an error where it cannot be decoded.
pub fn thumb_ready(index: usize, bytes: &[u8]) -> (r: Result<Event>)
    ensures
        match scaled_picture(bytes@, THUMB_SIDE) {
            Some(p) => r matches Ok(e) && e.deep_view() == (EventView::ThumbDone {
                index,
                image: p,
            }),
            None => r matches Err(Error::Image(_)),
        },
{
    match thumbnail(bytes, THUMB_SIDE) {
        Ok(image) => Ok(Event::ThumbDone { index, image }),
        Err(e) => Err(e),
    }
}

/// What the editor is told of an enlarged poster; an error where it cannot be decoded.
pub fn full_ready(index: usize, bytes: &[u8]) -> (r: Result<Event>)
    ensures
        match scaled_picture(bytes@, FULL_SIDE) {
            Some(p) => r matches Ok(e) && e.deep_view() == (EventView::FullImageDone {
                index,
                image: p,
            }),
            None => r matches Err(Error::Image(_)),
        },
{
    match thumbnail(bytes, FULL_SIDE) {
        Ok(image) => Ok(Event::FullImageDone { index, image }),
        Err(e) => Err(e),
    }
}

/// What the editor is told of a poster that is to be the cover; an error where it cannot be
/// decoded. A size that cannot be read counts as 0 by 0.
pub fn cover_ready(bytes: Vec<u8>) -> (r: Result<Event>)
    ensures
        match scaled_picture(bytes@, COVER_SIDE) {
            Some(p) => r matches Ok(e) && e.deep_view() == (EventView::CoverSet {
                image: p,
                orig_size: match picture_size(bytes@) {
                    Some(size) => size,
                    None => (0, 0),
                },
                bytes: bytes@,
            }),
            None => r matches Err(Error::Image(_)),
        },
{
    let orig_size: (u32, u32) = match dimensions(bytes.as_slice()) {
        Ok(size) => size,
        Err(_) => (0, 0),
    };
    match thumbnail(bytes.as_slice(), COVER_SIDE) {
        Ok(image) => Ok(Event::CoverSet { image, orig_size, bytes }),
        Err(e) => Err(e),
    }
}

/// What the editor is told while a file is written: of the start, once, and of each step.
pub fn progress_events(announced: &mut bool, phase: WritePhase, done: u64, total: u64) -> (r: Vec<
    Event,
>)
    ensures
        *final(announced),
        r.deep_view() == (if *old(announced) {
            seq![EventView::WriteProgress { phase, done, total }]
        } else {
            seq![EventView::WriteStarted, EventView::WriteProgress { phase, done, total }]
        }),
{
    let mut out: Vec<Event> = Vec::new();
    let ghost first = !*announced;
    if !*announced {
        *announced = true;
        out.push(Event::WriteStarted);
    }
    out.push(Event::WriteProgress { phase, done, total });
    proof {
        let step = EventView::WriteProgress { phase, done, total };
        if first {
            assert(out.deep_view() =~= seq![EventView::WriteStarted, step]);
        } else {
            assert(out.deep_view() =~= seq![step]);
        }
    }
    out
}

/// A token that the user gave comes first, without the white space around it; then a token of the
/// environment, then a key of the environment.
pub proof fn law_own_token_comes_first(
    token: Seq<char>,
    env_token: Option<Seq<char>>,
    env_key: Option<Seq<char>>,
)
    ensures
        has_solid(token) ==> chosen_auth(token, env_token, env_key) == Some(
            AuthView::Bearer(trimmed(token)),
        ),
        !has_solid(token) && (env_token matches Some(t) && has_solid(t)) ==> chosen_auth(
            token,
            env_token,
            env_key,
        ) == Some(AuthView::Bearer(env_token.unwrap())),
        !has_solid(token) && !(env_token matches Some(t) && has_solid(t)) ==> (match env_key {
            Some(k) => chosen_auth(token, env_token, env_key) == Some(AuthView::ApiKey(k)),
            None => chosen_auth(token, env_token, env_key) is None,
        }),
{
    law_trim_cuts_white_space_only(token);
    if let Some(t) = env_token {
        law_trim_cuts_white_space_only(t);
    }
}

/// What needs no service is done with or without a credential, in the same way, on what the request
/// names.
pub proof fn law_local_requests_need_no_credential(req: RequestView, auth: Option<AuthView>)
    ensures
        !needs_service(req) ==> planned(req, auth) == planned(req, None),
        req matches RequestView::OpenFile { path } ==> planned(req, auth) == (JobView::Load { path }),
        req matches RequestView::FetchThumb { index, url } ==> planned(req, auth) == (
        JobView::Thumb { index, url }),
        req matches RequestView::FetchFullImage { index, url } ==> planned(req, auth) == (
        JobView::Full { index, url }),
        req matches RequestView::SetCoverFromUrl { url } ==> planned(req, auth) == (
        JobView::Cover { url }),
        req matches RequestView::CopyPosterToClipboard { url } ==> planned(req, auth) == (
        JobView::Copy { url }),
        req matches RequestView::SetBearerToken { token } ==> planned(req, auth) == (
        JobView::UseToken { token }),
        req is PickFile ==> planned(req, auth) is Pick,
        needs_service(req) && auth is None ==> planned(req, auth) == (JobView::Refuse {
            message: "Set TMDB_BEARER_TOKEN or TMDB_API_KEY"@,
        }),
{
}

/// Tags are written to the file of the request as they are. The cover is the user's own where there
/// is one, else the one to be fetched, else there is none.
pub proof fn law_own_cover_comes_first(
    file: Seq<char>,
    meta: MetadataView,
    artwork_url: Option<Seq<char>>,
    cover_override: Option<Seq<u8>>,
    fast_start: bool,
    auth: Option<AuthView>,
)
    ensures
        planned(
            RequestView::WriteTags { file, meta, artwork_url, cover_override, fast_start },
            auth,
        ) == (JobView::Write {
            file,
            meta,
            cover: if cover_override is Some {
                CoverSourceView::Own(cover_override.unwrap())
            } else if artwork_url is Some {
                CoverSourceView::Fetched(artwork_url.unwrap())
            } else {
                CoverSourceView::Nowhere
            },
            fast_start,
        }),
{
}

/// A movie is searched for among movies and a show among shows, by the title as it is and without
/// a year. What a request says of seasons, episodes and titles goes on to the next step.
pub proof fn law_searches_ask_for_their_kind(req: RequestView, auth: AuthView)
    ensures
        req matches RequestView::Search { query } ==> planned(req, Some(auth)) == (
        JobView::FindMovies {
            search: asked(auth, "/search/movie"@, seq![("query"@, query)]),
        }),
        req matches RequestView::SearchTvEpisodes { show, season, episode } ==> planned(
            req,
            Some(auth),
        ) == (JobView::FindTv {
            search: asked(auth, "/search/tv"@, seq![("query"@, show)]),
            season,
            episode,
        }),
        req matches RequestView::SearchEpisodeByTitle { show, season, title } ==> planned(
            req,
            Some(auth),
        ) == (JobView::FindEpisodes {
            search: asked(auth, "/search/tv"@, seq![("query"@, show)]),
            season,
            title,
        }),
        req matches RequestView::SearchEpisodeTreeByTitle { show, title } ==> planned(
            req,
            Some(auth),
        ) == (JobView::FindTree {
            search: asked(auth, "/search/tv"@, seq![("query"@, show)]),
            title,
        }),
        req matches RequestView::SearchShows { show, season_filter } ==> planned(req, Some(auth))
            == (JobView::FindShows {
            search: asked(auth, "/search/tv"@, seq![("query"@, show)]),
            season_filter,
        }),
{
}

/// Seasons, posters and episodes are asked for under the id of their show.
pub proof fn law_parts_of_a_show_are_asked_for_under_it(req: RequestView, auth: AuthView)
    ensures
        req matches RequestView::FetchShowSeasons { series_id, season_filter } ==> planned(
            req,
            Some(auth),
        ) == (JobView::Seasons {
            ask: asked(auth, "/tv/"@ + series_id, Seq::empty()),
            series_id,
            season_filter,
        }),
        req matches RequestView::FetchShowPosters { series_id } ==> planned(req, Some(auth)) == (
        JobView::Posters {
            ask: asked(auth, "/tv/"@ + series_id, seq![("append_to_response"@, "images"@)]),
            series_id,
        }),
        req matches RequestView::FetchSeasonEpisodes { series_id, season } ==> planned(
            req,
            Some(auth),
        ) == (JobView::Episodes {
            ask: asked(
                auth,
                "/tv/"@ + series_id + "/season/"@ + decimal(season as nat),
                Seq::empty(),
            ),
            series_id,
            season,
        }),
        req matches RequestView::FetchDetails { id, file } ==> planned(req, Some(auth)) == (
        JobView::Details { id, file }),
{
}

/// Seasons are kept one by one, in order: all of them without a filter, else those of that number.
pub proof fn law_seasons_are_filtered_by_number(
    a: Seq<TvSeasonSummaryView>,
    b: Seq<TvSeasonSummaryView>,
    s: TvSeasonSummaryView,
    n: u32,
)
    ensures
        seasons_kept(a + b, Some(n)) == seasons_kept(a, Some(n)) + seasons_kept(b, Some(n)),
        s.season_number == n ==> seasons_kept(seq![s], Some(n)) == seq![s],
        s.season_number != n ==> seasons_kept(seq![s], Some(n)).len() == 0,
        seasons_kept(b, None) == b,
    decreases b.len(),
{
    let one = seq![s];
    assert(one.drop_last() =~= Seq::<TvSeasonSummaryView>::empty());
    assert(seasons_kept(one.drop_last(), Some(n)) =~= Seq::<TvSeasonSummaryView>::empty());
    assert(one.last() == s);
    if b.len() == 0 {
        assert(a + b =~= a);
        assert(seasons_kept(a, Some(n)) + seasons_kept(b, Some(n)) =~= seasons_kept(a, Some(n)));
        assert(seasons_kept(b, None) =~= b);
    } else {
        law_seasons_are_filtered_by_number(a, b.drop_last(), s, n);
        assert((a + b).drop_last() =~= a + b.drop_last());
        assert(seasons_kept(a + b, Some(n)) =~= seasons_kept(a, Some(n)) + seasons_kept(
            b,
            Some(n),
        ));
        assert(seasons_kept(b, None) =~= b);
    }
}

/// A show in a list keeps its id, its name and its year, and its place.
pub proof fn law_shows_keep_their_places(hits: Seq<SearchResultView>, i: int)
    requires
        0 <= i < hits.len(),
    ensures
        show_roots(hits).len() == hits.len(),
        show_roots(hits)[i].series_id == hits[i].id.id,
        show_roots(hits)[i].name == hits[i].title,
        show_roots(hits)[i].year == hits[i].year,
{
}

/// With a season alone, the episodes of that season of the first show are listed. With an episode
/// too, its name is looked up in the first twelve shows, in order. Else the shows are all there is.
pub proof fn law_season_and_episode_lead_on(
    results: Seq<SearchResultView>,
    season: Option<u32>,
    episode: Option<u32>,
    i: int,
)
    ensures
        season is None ==> tv_step(results, season, episode) is Done,
        season is Some && episode is None && results.len() == 0 ==> tv_step(
            results,
            season,
            episode,
        ) is Done,
        season is Some && episode is None && results.len() > 0 ==> tv_step(results, season, episode)
            == (TvStepView::ListSeason {
            series_id: results[0].id.id,
            show_name: results[0].title,
            season: season.unwrap(),
        }),
        season is Some && episode is Some ==> (tv_step(results, season, episode) matches
            TvStepView::NameEpisodes { series_ids, season: s, episode: e } && s == season.unwrap()
            && e == episode.unwrap() && series_ids.len() == (if results.len() < 12 {
            results.len()
        } else {
            12
        }) && (0 <= i < series_ids.len() ==> series_ids[i] == results[i].id.id)),
{
}

/// A result that is given a season or an episode leads there, and is otherwise the same show. Shows
/// behind those whose names were looked up stay as they are.
pub proof fn law_numbered_results_lead_to_the_episode(
    results: Seq<SearchResultView>,
    names: Seq<Option<Seq<char>>>,
    season: u32,
    episode: u32,
    i: int,
)
    requires
        0 <= i < results.len(),
    ensures
        ({
            let r = episode_results(results, names, season, episode);
            &&& r.len() == results.len()
            &&& r[i].id.id == results[i].id.id && r[i].id.provider == results[i].id.provider
            &&& r[i].id.kind == results[i].id.kind && r[i].title == results[i].title
            &&& r[i].year == results[i].year && r[i].overview == results[i].overview
            &&& r[i].poster_thumb_url == results[i].poster_thumb_url
            &&& i < names.len() ==> r[i].id.season == Some(season) && r[i].id.episode == Some(episode)
                && r[i].episode_name == names[i]
            &&& i >= names.len() ==> r[i] == results[i]
        }),
        ({
            let r = season_results(results, None, season);
            &&& r.len() == results.len()
            &&& r[i].id.season == Some(season) && r[i].id.episode == results[i].id.episode
            &&& r[i].id.id == results[i].id.id && r[i].title == results[i].title
            &&& r[i].year == results[i].year && r[i].episode_name == results[i].episode_name
        }),
{
}

/// The episodes of a season take the place of the shows, where there are any.
pub proof fn law_episodes_take_the_place_of_shows(
    results: Seq<SearchResultView>,
    list: Seq<SearchResultView>,
    season: u32,
)
    ensures
        list.len() > 0 ==> season_results(results, Some(list), season) == list,
        list.len() == 0 ==> season_results(results, Some(list), season) == season_results(
            results,
            None,
            season,
        ),
{
}

/// The name of a file completes the id of a show where it lacks a number: a number that is there
/// stays, and the id of a movie stays as it is.
pub proof fn law_file_name_completes_the_id(id: ProviderIdView, query: Option<QueryView>)
    ensures
        ({
            let r = completed_id(id, query);
            &&& r.id == id.id && r.provider == id.provider && r.kind == id.kind
            &&& id.kind == MediaKind::Movie ==> r == id
            &&& query is None ==> r == id
            &&& id.season is Some ==> r.season == id.season
            &&& id.episode is Some ==> r.episode == id.episode
            &&& id.kind == MediaKind::TvShow && id.season is None && query is Some ==> r.season
                == query.unwrap().season
            &&& id.kind == MediaKind::TvShow && id.episode is None && query is Some ==> r.episode
                == query.unwrap().episode
        }),
{
}

/// An episode without a season or a number takes the one that is given; one that it has stays.
/// Movies have none.
pub proof fn law_missing_numbers_are_filled(
    meta: MetadataView,
    season: Option<u32>,
    episode: Option<u32>,
)
    ensures
        meta.kind is Movie ==> numbered(meta, season, episode) == meta,
        meta.kind matches KindView::Episode(e) ==> (numbered(meta, season, episode).kind matches
            KindView::Episode(f) && (e.season != 0 ==> f.season == e.season) && (e.episode != 0
            ==> f.episode == e.episode) && (e.season == 0 ==> f.season == (if season is Some {
            season.unwrap()
        } else {
            0
        })) && (e.episode == 0 ==> f.episode == (if episode is Some {
            episode.unwrap()
        } else {
            0
        })) && f.show_name == e.show_name && f.episode_title == e.episode_title && f.network
            == e.network && f.episode_id == e.episode_id),
        numbered(meta, season, episode).title == meta.title,
        numbered(meta, season, episode).artwork == meta.artwork,
{
}

/// A file whose name is that of an episode is one: where its tags say nothing, the show, the season
/// and the number come from the name, and it is filed as a show. The name of a movie changes
/// nothing.
pub proof fn law_file_name_fills_in_the_episode(meta: MetadataView, q: QueryView)
    ensures
        q.kind == MediaKind::Movie ==> prefilled(meta, Some(q)) == meta,
        prefilled(meta, None) == meta,
        q.kind == MediaKind::TvShow ==> {
            let r = prefilled(meta, Some(q));
            &&& r.video_kind is Some
            &&& meta.video_kind is None ==> r.video_kind == Some(VideoKind::TvShow)
            &&& r.kind matches KindView::Episode(f) && {
                let bare = meta.kind is Movie;
                &&& (bare || (meta.kind matches KindView::Episode(e) && !has_solid(e.show_name)))
                    && has_solid(q.title) ==> f.show_name == q.title
                &&& (bare || (meta.kind matches KindView::Episode(e) && e.season == 0)) && q.season
                    is Some ==> f.season == q.season.unwrap()
                &&& (bare || (meta.kind matches KindView::Episode(e) && e.episode == 0))
                    && q.episode is Some ==> f.episode == q.episode.unwrap()
            }
            &&& r == (MetadataView { kind: r.kind, video_kind: r.video_kind, ..meta })
        },
{
    law_trim_cuts_white_space_only(q.title);
    if let KindView::Episode(e) = meta.kind {
        law_trim_cuts_white_space_only(e.show_name);
    } else {
        law_trim_cuts_white_space_only(blank_episode().show_name);
    }
}

/// The search begins with the title that the file has, or else with its name without the extension.
pub proof fn law_search_begins_with_the_title(title: Seq<char>, file_name: Seq<char>)
    ensures
        has_solid(title) ==> suggested(title, file_name) == title,
        !has_solid(title) ==> suggested(title, file_name) == stem_of(file_name),
{
    law_trim_cuts_white_space_only(title);
}

/// A file that was loaded is told with its own path, its own cover and its own picture size; where
/// its tags could not be read, there are none, and the name of the file is all there is.
pub proof fn law_loaded_file_is_told_as_it_is(file: FoundFile)
    ensures
        loaded_view(file) matches EventView::FileLoaded {
            file: path,
            meta,
            suggested_query,
            cover,
            cover_size,
            cover_bytes,
            video_dimensions,
            fast_start,
        } && {
            &&& path == file.path@
            &&& file.tags matches Some((m, c)) ==> meta == prefilled(
                m.deep_view(),
                parsed(file.file_name@, file.folder.deep_view()),
            ) && cover_bytes == bytes_of(c)
            &&& file.tags is None ==> cover_bytes is None && cover is None && cover_size is None
            &&& cover_bytes matches Some(b) ==> cover == scaled_picture(b, 1000) && cover_size
                == picture_size(b)
            &&& video_dimensions == file.video_dimensions
            &&& fast_start == file.fast_start
            &&& has_solid(meta.title) ==> suggested_query == meta.title
            &&& !has_solid(meta.title) ==> suggested_query == stem_of(file.file_name@)
        },
{
    law_search_begins_with_the_title(found_metadata(file).title, file.file_name@);
}

} // verus!
