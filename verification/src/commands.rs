//! What the command line prints, and what it makes of its arguments.

use crate::dates::{format_date, iso_text, valid_date};
use crate::model::{
    definition_for, definition_label, names_of, people_names, video_kind_label, Definition,
    EpisodeView, KindView, MediaKind, MediaKindMeta, MediaMetadata, MetadataView, Person,
    ProviderId, ProviderIdView, SearchResult, SearchResultView, TvEpisodeHitView, TvSeasonMatch,
    TvSeasonMatchView, TvShowMatch, TvShowMatchView,
};
use crate::naming::{parse, parsed};
use crate::rating::{is_valid_content_rating, rating_named};
use crate::text::{
    all_digits, chars_of, decimal, digits_value, join, joined, lemma_decimal_value, show,
    show_signed, show_two, signed_decimal, string_range, text_in, trim, trimmed, two_digits,
};
use vstd::prelude::*;

verus! {

// ---------------------------------------------------------------------------
// The tags of a file
// ---------------------------------------------------------------------------

/// A text, or a word for none.
pub open spec fn or_none(s: Option<Seq<char>>) -> Seq<char> {
    match s {
        Some(t) => t,
        None => "(none)"@,
    }
}

/// A text, or a word for none where it is empty.
pub open spec fn unless_empty(s: Seq<char>) -> Seq<char> {
    if s.len() == 0 {
        "(none)"@
    } else {
        s
    }
}

/// A list with commas between, or a word for none.
pub open spec fn listed(list: Seq<Seq<char>>) -> Seq<char> {
    if list.len() == 0 {
        "(none)"@
    } else {
        joined(list, ", "@)
    }
}

/// The number of an episode, where the network gave none: season, `x` and episode.
pub open spec fn own_episode_id(e: EpisodeView) -> Seq<char> {
    decimal(e.season as nat) + "x"@ + two_digits(e.episode as nat)
}

/// The lines about an episode.
pub open spec fn episode_lines(e: EpisodeView) -> Seq<Seq<char>> {
    seq![
        "Show:         "@ + unless_empty(e.show_name),
        "Episode ID:   "@ + (match e.episode_id {
            Some(id) => id,
            None => own_episode_id(e),
        }),
        "Season:       "@ + decimal(e.season as nat),
        "Episode:      "@ + decimal(e.episode as nat),
        "TV Network:   "@ + or_none(e.network),
    ]
}

/// The lines about any title, with the length of its cover in bytes.
pub open spec fn title_lines(m: MetadataView, cover: Option<usize>) -> Seq<Seq<char>> {
    seq![
        "Title:        "@ + unless_empty(m.title),
        "Release date: "@ + (match m.release_date {
            Some(d) => iso_text(d),
            None => "(none)"@,
        }),
        "Media kind:   "@ + (match m.video_kind {
            Some(k) => video_kind_label(k),
            None => "(none)"@,
        }),
        "Definition:   "@ + (match m.definition {
            Some(d) => definition_label(d),
            None => "(none)"@,
        }),
        "Rating:       "@ + or_none(m.content_rating),
        "Genres:       "@ + listed(m.genres),
        "Studio:       "@ + or_none(m.studio),
        "Directors:    "@ + listed(names_of(m.directors)),
        "Cast:         "@ + listed(names_of(m.cast)),
        "Producers:    "@ + listed(names_of(m.producers)),
        "Screenwriters:"@ + listed(names_of(m.writers)),
        "Summary:      "@ + or_none(m.summary),
        "Long desc.:   "@ + or_none(m.overview),
        "Artwork:      "@ + (match cover {
            Some(n) => "yes ("@ + decimal(n as nat) + " bytes)"@,
            None => "(none)"@,
        }),
    ]
}

/// The lines that show the tags of a file.
pub open spec fn inspected(m: MetadataView, cover: Option<usize>) -> Seq<Seq<char>> {
    match m.kind {
        KindView::Episode(e) => title_lines(m, cover) + episode_lines(e),
        KindView::Movie => title_lines(m, cover),
    }
}

/// A heading and what it heads.
fn headed(heading: &str, text: &str) -> (r: String)
    ensures
        r@ == heading@ + text@,
{
    heading.to_string().concat(text)
}

/// A text, or a word for none.
fn show_or_none(s: &Option<String>) -> (r: &str)
    ensures
        r@ == or_none(s.deep_view()),
{
    match s {
        Some(t) => t.as_str(),
        None => "(none)",
    }
}

/// A text, or a word for none where it is empty.
fn show_unless_empty(s: &str) -> (r: &str)
    ensures
        r@ == unless_empty(s@),
{
    if s.is_empty() {
        "(none)"
    } else {
        s
    }
}

/// A list with commas between, or a word for none.
fn show_list(list: &Vec<String>) -> (r: String)
    ensures
        r@ == listed(list.deep_view()),
{
    assert(list.deep_view().len() == list@.len());
    if list.len() == 0 {
        "(none)".to_string()
    } else {
        join(list, ", ")
    }
}

/// The names of people with commas between, or a word for none.
fn show_people(people: &Vec<Person>) -> (r: String)
    ensures
        r@ == listed(names_of(people.deep_view())),
{
    show_list(&people_names(people))
}

/// The lines that show the tags of a file, with the length of its cover in bytes.
pub fn inspect(meta: &MediaMetadata, cover: Option<usize>) -> (r: Vec<String>)
    requires
        meta.release_date matches Some(d) ==> valid_date(d),
    ensures
        r.deep_view() == inspected(meta.deep_view(), cover),
{
    let ghost m = meta.deep_view();
    let mut v: Vec<String> = Vec::new();
    v.push(headed("Title:        ", show_unless_empty(meta.title.as_str())));
    let date = match meta.release_date {
        Some(d) => format_date(d),
        None => "(none)".to_string(),
    };
    v.push(headed("Release date: ", date.as_str()));
    v.push(
        headed(
            "Media kind:   ",
            match meta.video_kind {
                Some(k) => k.label(),
                None => "(none)",
            },
        ),
    );
    v.push(
        headed(
            "Definition:   ",
            match meta.definition {
                Some(d) => d.label(),
                None => "(none)",
            },
        ),
    );
    v.push(headed("Rating:       ", show_or_none(&meta.content_rating)));
    v.push(headed("Genres:       ", show_list(&meta.genres).as_str()));
    v.push(headed("Studio:       ", show_or_none(&meta.studio)));
    v.push(headed("Directors:    ", show_people(&meta.directors).as_str()));
    v.push(headed("Cast:         ", show_people(&meta.cast).as_str()));
    v.push(headed("Producers:    ", show_people(&meta.producers).as_str()));
    v.push(headed("Screenwriters:", show_people(&meta.writers).as_str()));
    v.push(headed("Summary:      ", show_or_none(&meta.summary)));
    v.push(headed("Long desc.:   ", show_or_none(&meta.overview)));
    let art = match cover {
        Some(n) => "yes (".to_string().concat(show(n as u64).as_str()).concat(" bytes)"),
        None => "(none)".to_string(),
    };
    v.push(headed("Artwork:      ", art.as_str()));
    assert(v.deep_view() =~= title_lines(m, cover));
    if let MediaKindMeta::Episode(e) = &meta.kind {
        let ghost ev = e.deep_view();
        let ghost before = v.deep_view();
        v.push(headed("Show:         ", show_unless_empty(e.show_name.as_str())));
        let id = match &e.episode_id {
            Some(id) => id.clone(),
            None => show(e.season as u64).concat("x").concat(show_two(e.episode as u64).as_str()),
        };
        v.push(headed("Episode ID:   ", id.as_str()));
        v.push(headed("Season:       ", show(e.season as u64).as_str()));
        v.push(headed("Episode:      ", show(e.episode as u64).as_str()));
        v.push(headed("TV Network:   ", show_or_none(&e.network)));
        assert(v.deep_view() =~= before + episode_lines(ev));
    }
    v
}

// ---------------------------------------------------------------------------
// Search results
// ---------------------------------------------------------------------------

/// How much of a description is shown.
pub const BRIEF: usize = 80;

/// The first characters of a description.
pub open spec fn brief(s: Seq<char>) -> Seq<char> {
    if s.len() <= BRIEF {
        s
    } else {
        s.take(BRIEF as int)
    }
}

/// The line about a result.
pub open spec fn result_line(r: SearchResultView) -> Seq<char> {
    "  ["@ + r.id.id + "] "@ + r.title + " ("@ + (match r.year {
        Some(y) => signed_decimal(y as int),
        None => "?"@,
    }) + ")  "@ + (match r.overview {
        Some(t) => brief(t),
        None => ""@,
    })
}

/// The lines about the results of a search.
pub open spec fn result_lines(results: Seq<SearchResultView>) -> Seq<Seq<char>> {
    if results.len() == 0 {
        seq!["No matches."@]
    } else {
        seq!["Matches:"@] + results.map_values(|r: SearchResultView| result_line(r))
    }
}

/// The first characters of a description.
fn show_brief(s: &str) -> (r: String)
    ensures
        r@ == brief(s@),
{
    let v = chars_of(s);
    if v.len() <= BRIEF {
        s.to_string()
    } else {
        let out = string_range(&v, 0, BRIEF);
        assert(out@ =~= s@.take(BRIEF as int));
        out
    }
}

/// The line about a result.
fn show_result(r: &SearchResult) -> (out: String)
    ensures
        out@ == result_line(r.deep_view()),
{
    let year = match r.year {
        Some(y) => show_signed(y as i64),
        None => "?".to_string(),
    };
    let overview = match &r.overview {
        Some(t) => show_brief(t.as_str()),
        None => "".to_string(),
    };
    "  [".to_string().concat(r.id.id.as_str()).concat("] ").concat(r.title.as_str()).concat(
        " (",
    ).concat(year.as_str()).concat(")  ").concat(overview.as_str())
}

/// The lines about the results of a search.
pub fn list_results(results: &Vec<SearchResult>) -> (r: Vec<String>)
    ensures
        r.deep_view() == result_lines(results.deep_view()),
{
    let ghost lines = results.deep_view().map_values(|r: SearchResultView| result_line(r));
    let mut out: Vec<String> = Vec::new();
    if results.len() == 0 {
        out.push("No matches.".to_string());
        assert(out.deep_view() =~= seq!["No matches."@]);
        return out;
    }
    out.push("Matches:".to_string());
    let mut i: usize = 0;
    assert(out.deep_view() =~= seq!["Matches:"@] + lines.take(0));
    while i < results.len()
        invariant
            i <= results@.len(),
            lines == results.deep_view().map_values(|r: SearchResultView| result_line(r)),
            out.deep_view() == seq!["Matches:"@] + lines.take(i as int),
        decreases results@.len() - i,
    {
        let ghost before = out.deep_view();
        assert(results.deep_view()[i as int] == results@[i as int].deep_view());
        out.push(show_result(&results[i]));
        assert(out.deep_view() =~= before.push(lines[i as int]));
        assert(out.deep_view() =~= seq!["Matches:"@] + lines.take(i + 1));
        i += 1;
    }
    assert(lines.take(lines.len() as int) =~= lines);
    out
}

/// The line about an episode of the tree.
pub open spec fn hit_line(e: TvEpisodeHitView) -> Seq<char> {
    "    "@ + decimal(e.number as nat) + ": "@ + e.name
}

/// The lines about a season of the tree.
pub open spec fn season_lines(s: TvSeasonMatchView) -> Seq<Seq<char>> {
    seq!["  "@ + s.name + " (season "@ + decimal(s.season_number as nat) + ")"@]
        + s.episodes.map_values(|e: TvEpisodeHitView| hit_line(e))
}

/// The lines about the seasons of a show.
pub open spec fn seasons_lines(list: Seq<TvSeasonMatchView>) -> Seq<Seq<char>>
    decreases list.len(),
{
    if list.len() == 0 {
        Seq::empty()
    } else {
        seasons_lines(list.drop_last()) + season_lines(list.last())
    }
}

/// The lines about a show of the tree.
pub open spec fn show_lines(s: TvShowMatchView) -> Seq<Seq<char>> {
    seq![
        s.show_name + (match s.year {
            Some(y) => " ("@ + signed_decimal(y as int) + ")"@,
            None => ""@,
        }) + "  ["@ + s.series_id + "]"@,
    ] + seasons_lines(s.seasons)
}

/// The lines about the shows of the tree.
pub open spec fn shows_lines(list: Seq<TvShowMatchView>) -> Seq<Seq<char>>
    decreases list.len(),
{
    if list.len() == 0 {
        Seq::empty()
    } else {
        shows_lines(list.drop_last()) + show_lines(list.last())
    }
}

/// The lines about the shows, seasons and episodes that a search found.
pub open spec fn tree_lines(list: Seq<TvShowMatchView>) -> Seq<Seq<char>> {
    if list.len() == 0 {
        seq!["No matching episodes."@]
    } else {
        shows_lines(list)
    }
}

/// Appends the lines about a season.
fn push_season(out: &mut Vec<String>, s: &TvSeasonMatch)
    ensures
        final(out).deep_view() == old(out).deep_view() + season_lines(s.deep_view()),
{
    let ghost start = out.deep_view();
    let ghost head = "  "@ + s.name@ + " (season "@ + decimal(s.season_number as nat) + ")"@;
    let ghost lines = s.episodes.deep_view().map_values(|e: TvEpisodeHitView| hit_line(e));
    out.push(
        "  ".to_string().concat(s.name.as_str()).concat(" (season ").concat(
            show(s.season_number as u64).as_str(),
        ).concat(")"),
    );
    let mut i: usize = 0;
    assert(out.deep_view() =~= start + (seq![head] + lines.take(0)));
    while i < s.episodes.len()
        invariant
            i <= s.episodes@.len(),
            lines == s.episodes.deep_view().map_values(|e: TvEpisodeHitView| hit_line(e)),
            out.deep_view() == start + (seq![head] + lines.take(i as int)),
        decreases s.episodes@.len() - i,
    {
        let ghost before = out.deep_view();
        let e = &s.episodes[i];
        assert(s.episodes.deep_view()[i as int] == e.deep_view());
        out.push(
            "    ".to_string().concat(show(e.number as u64).as_str()).concat(": ").concat(
                e.name.as_str(),
            ),
        );
        assert(out.deep_view() =~= before.push(lines[i as int]));
        assert(out.deep_view() =~= start + (seq![head] + lines.take(i + 1)));
        i += 1;
    }
    assert(lines.take(lines.len() as int) =~= lines);
}

/// Appends the lines about a show.
fn push_show(out: &mut Vec<String>, s: &TvShowMatch)
    ensures
        final(out).deep_view() == old(out).deep_view() + show_lines(s.deep_view()),
{
    let ghost start = out.deep_view();
    let ghost all = s.seasons.deep_view();
    let year = match s.year {
        Some(y) => " (".to_string().concat(show_signed(y as i64).as_str()).concat(")"),
        None => "".to_string(),
    };
    let head = s.show_name.clone().concat(year.as_str()).concat("  [").concat(
        s.series_id.as_str(),
    ).concat("]");
    let ghost first = head@;
    out.push(head);
    let mut i: usize = 0;
    assert(all.take(0) =~= Seq::<TvSeasonMatchView>::empty());
    assert(out.deep_view() =~= start + (seq![first] + seasons_lines(all.take(0))));
    while i < s.seasons.len()
        invariant
            i <= s.seasons@.len(),
            all == s.seasons.deep_view(),
            out.deep_view() == start + (seq![first] + seasons_lines(all.take(i as int))),
        decreases s.seasons@.len() - i,
    {
        let ghost before = out.deep_view();
        proof {
            assert(all.take(i + 1).drop_last() =~= all.take(i as int));
            assert(all.take(i + 1).last() == s.seasons@[i as int].deep_view());
        }
        push_season(out, &s.seasons[i]);
        assert(out.deep_view() =~= start + (seq![first] + seasons_lines(all.take(i + 1))));
        i += 1;
    }
    assert(all.take(all.len() as int) =~= all);
}

/// The lines about the shows, seasons and episodes that a search found.
pub fn list_tree(shows: &Vec<TvShowMatch>) -> (r: Vec<String>)
    ensures
        r.deep_view() == tree_lines(shows.deep_view()),
{
    let ghost all = shows.deep_view();
    let mut out: Vec<String> = Vec::new();
    if shows.len() == 0 {
        out.push("No matching episodes.".to_string());
        assert(out.deep_view() =~= seq!["No matching episodes."@]);
        return out;
    }
    let mut i: usize = 0;
    assert(all.take(0) =~= Seq::<TvShowMatchView>::empty());
    assert(out.deep_view() =~= Seq::<Seq<char>>::empty());
    while i < shows.len()
        invariant
            i <= shows@.len(),
            all == shows.deep_view(),
            out.deep_view() == shows_lines(all.take(i as int)),
        decreases shows@.len() - i,
    {
        proof {
            assert(all.take(i + 1).drop_last() =~= all.take(i as int));
            assert(all.take(i + 1).last() == shows@[i as int].deep_view());
        }
        push_show(&mut out, &shows[i]);
        i += 1;
    }
    assert(all.take(all.len() as int) =~= all);
    out
}

// ---------------------------------------------------------------------------
// Tagging
// ---------------------------------------------------------------------------

/// What the arguments of a tagging ask for.
#[derive(Debug)]
pub enum TagJob {
    /// There is no such rating.
    UnknownRating(String),
    /// Neither a title nor a rating was given.
    Nothing,
    /// To set the rating, and to leave the rest alone.
    SetRating(String),
    /// To fetch a title and write it, with a rating of the user's own where one is given.
    Fetch { id: String, rating: Option<String> },
}

/// What the arguments of a tagging ask for, as text.
pub enum TagJobView {
    UnknownRating(Seq<char>),
    Nothing,
    SetRating(Seq<char>),
    Fetch { id: Seq<char>, rating: Option<Seq<char>> },
}

impl DeepView for TagJob {
    type V = TagJobView;

    open spec fn deep_view(&self) -> TagJobView {
        match *self {
            TagJob::UnknownRating(r) => TagJobView::UnknownRating(r@),
            TagJob::Nothing => TagJobView::Nothing,
            TagJob::SetRating(r) => TagJobView::SetRating(r@),
            TagJob::Fetch { id, rating } => TagJobView::Fetch {
                id: id@,
                rating: rating.deep_view(),
            },
        }
    }
}

/// What the arguments of a tagging ask for. A rating is looked at first, without the white space
/// around it.
pub open spec fn tag_job(id: Option<Seq<char>>, rating: Option<Seq<char>>) -> TagJobView {
    match rating {
        Some(r) => if rating_named(trimmed(r)) is None {
            TagJobView::UnknownRating(trimmed(r))
        } else {
            match id {
                Some(i) => TagJobView::Fetch { id: i, rating: Some(trimmed(r)) },
                None => TagJobView::SetRating(trimmed(r)),
            }
        },
        None => match id {
            Some(i) => TagJobView::Fetch { id: i, rating: None },
            None => TagJobView::Nothing,
        },
    }
}

/// What the arguments of a tagging ask for.
pub fn plan_tagging(id: Option<String>, rating: Option<String>) -> (r: TagJob)
    ensures
        r.deep_view() == tag_job(id.deep_view(), rating.deep_view()),
{
    match rating {
        Some(given) => {
            let label = trim(given.as_str());
            if !is_valid_content_rating(given.as_str()) {
                return TagJob::UnknownRating(label);
            }
            match id {
                Some(i) => TagJob::Fetch { id: i, rating: Some(label) },
                None => TagJob::SetRating(label),
            }
        },
        None => match id {
            Some(i) => TagJob::Fetch { id: i, rating: None },
            None => TagJob::Nothing,
        },
    }
}

/// What names the title to fetch: for a show, with the season and the episode of the file's name.
pub open spec fn title_to_fetch(
    id: Seq<char>,
    tv: bool,
    file_name: Seq<char>,
    folder: Option<Seq<char>>,
) -> ProviderIdView {
    let query = parsed(file_name, folder);
    ProviderIdView {
        provider: "tmdb"@,
        id,
        kind: if tv {
            MediaKind::TvShow
        } else {
            MediaKind::Movie
        },
        season: if tv {
            match query {
                Some(q) => q.season,
                None => None,
            }
        } else {
            None
        },
        episode: if tv {
            match query {
                Some(q) => q.episode,
                None => None,
            }
        } else {
            None
        },
    }
}

/// What names the title to fetch: for a show, with the season and the episode of the file's name.
pub fn fetched_title(id: String, tv: bool, file_name: &str, folder: Option<&str>) -> (r: ProviderId)
    ensures
        r.deep_view() == title_to_fetch(id@, tv, file_name@, text_in(folder)),
{
    let mut out = ProviderId {
        provider: "tmdb".to_string(),
        id,
        kind: if tv {
            MediaKind::TvShow
        } else {
            MediaKind::Movie
        },
        season: None,
        episode: None,
    };
    if tv {
        if let Ok(q) = parse(file_name, folder) {
            out.season = q.season;
            out.episode = q.episode;
        }
    }
    out
}

/// Details as they are written: with the definition of the video track where they have none, and a
/// rating of the user's own where one is given.
pub open spec fn completed_details(
    meta: MetadataView,
    dimensions: Option<(u32, u32)>,
    rating: Option<Seq<char>>,
) -> MetadataView {
    MetadataView {
        definition: match meta.definition {
            Some(d) => Some(d),
            None => match dimensions {
                Some((w, h)) => Some(definition_for(w, h)),
                None => None,
            },
        },
        content_rating: match rating {
            Some(r) => Some(r),
            None => meta.content_rating,
        },
        ..meta
    }
}

/// Makes details ready to be written.
pub fn complete_details(
    meta: &mut MediaMetadata,
    dimensions: Option<(u32, u32)>,
    rating: Option<String>,
)
    ensures
        final(meta).deep_view() == completed_details(
            old(meta).deep_view(),
            dimensions,
            rating.deep_view(),
        ),
{
    if meta.definition.is_none() {
        if let Some((w, h)) = dimensions {
            meta.definition = Some(Definition::from_dimensions(w, h));
        }
    }
    if rating.is_some() {
        meta.content_rating = rating;
    }
}

/// The address of the cover to fetch: that of the first picture, unless no artwork is wanted.
pub fn cover_to_fetch(meta: &MediaMetadata, no_artwork: bool) -> (r: Option<String>)
    ensures
        r.deep_view() == (if no_artwork || meta.deep_view().artwork.len() == 0 {
            None
        } else {
            Some(meta.deep_view().artwork[0].url)
        }),
{
    if no_artwork || meta.artwork.len() == 0 {
        None
    } else {
        assert(meta.artwork.deep_view()[0] == meta.artwork@[0].deep_view());
        Some(meta.artwork[0].url.clone())
    }
}

/// A rating that a tagging is asked to set is one that can be written.
pub proof fn law_only_known_ratings_are_set(id: Option<Seq<char>>, rating: Option<Seq<char>>)
    ensures
        tag_job(id, rating) matches TagJobView::SetRating(r) ==> crate::rating::encoded(r) is Some,
        tag_job(id, rating) matches TagJobView::Fetch { id: _, rating: Some(r) }
            ==> crate::rating::encoded(r) is Some,
{
    if let Some(r) = rating {
        crate::text::law_trim_is_idempotent(r);
    }
}

/// What a file is tagged with is told line by line, each value behind its own name, and "(none)"
/// where there is none. Movies have fourteen lines, episodes five more.
pub proof fn law_tags_are_told_behind_their_names(m: MetadataView, cover: Option<usize>)
    ensures
        ({
            let lines = inspected(m, cover);
            &&& m.kind is Movie ==> lines.len() == 14
            &&& m.kind is Episode ==> lines.len() == 19
            &&& m.title.len() > 0 ==> lines[0] == "Title:        "@ + m.title
            &&& m.title.len() == 0 ==> lines[0] == "Title:        "@ + "(none)"@
            &&& m.release_date matches Some(d) ==> lines[1] == "Release date: "@ + iso_text(d)
            &&& m.release_date is None ==> lines[1] == "Release date: "@ + "(none)"@
            &&& m.video_kind matches Some(k) ==> lines[2] == "Media kind:   "@ + video_kind_label(k)
            &&& m.video_kind is None ==> lines[2] == "Media kind:   "@ + "(none)"@
            &&& m.definition matches Some(d) ==> lines[3] == "Definition:   "@ + definition_label(d)
            &&& m.definition is None ==> lines[3] == "Definition:   "@ + "(none)"@
            &&& m.content_rating matches Some(r) ==> lines[4] == "Rating:       "@ + r
            &&& m.content_rating is None ==> lines[4] == "Rating:       "@ + "(none)"@
            &&& m.studio matches Some(s) ==> lines[6] == "Studio:       "@ + s
            &&& m.studio is None ==> lines[6] == "Studio:       "@ + "(none)"@
            &&& m.summary matches Some(s) ==> lines[11] == "Summary:      "@ + s
            &&& m.summary is None ==> lines[11] == "Summary:      "@ + "(none)"@
            &&& m.overview matches Some(s) ==> lines[12] == "Long desc.:   "@ + s
            &&& m.overview is None ==> lines[12] == "Long desc.:   "@ + "(none)"@
            &&& cover matches Some(n) ==> lines[13] == "Artwork:      "@ + ("yes ("@ + decimal(
                n as nat,
            ) + " bytes)"@)
            &&& cover is None ==> lines[13] == "Artwork:      "@ + "(none)"@
        }),
{
}

/// Lists are told in one line, with a comma and a space between, and "(none)" where they are empty.
pub proof fn law_lists_are_told_in_one_line(m: MetadataView, cover: Option<usize>)
    ensures
        ({
            let lines = inspected(m, cover);
            &&& m.genres.len() > 0 ==> lines[5] == "Genres:       "@ + joined(m.genres, ", "@)
            &&& m.genres.len() == 0 ==> lines[5] == "Genres:       "@ + "(none)"@
            &&& m.directors.len() > 0 ==> lines[7] == "Directors:    "@ + joined(
                names_of(m.directors),
                ", "@,
            )
            &&& m.directors.len() == 0 ==> lines[7] == "Directors:    "@ + "(none)"@
            &&& m.cast.len() > 0 ==> lines[8] == "Cast:         "@ + joined(names_of(m.cast), ", "@)
            &&& m.cast.len() == 0 ==> lines[8] == "Cast:         "@ + "(none)"@
            &&& m.producers.len() > 0 ==> lines[9] == "Producers:    "@ + joined(
                names_of(m.producers),
                ", "@,
            )
            &&& m.producers.len() == 0 ==> lines[9] == "Producers:    "@ + "(none)"@
            &&& m.writers.len() > 0 ==> lines[10] == "Screenwriters:"@ + joined(
                names_of(m.writers),
                ", "@,
            )
            &&& m.writers.len() == 0 ==> lines[10] == "Screenwriters:"@ + "(none)"@
        }),
{
}

/// An episode is told by its show, its id, its season and its number, each in its own line. An id
/// of its own comes first; else it is the season, an x, and the episode in at least two digits, so
/// that the numbers around the x are those in the lines below.
pub proof fn law_episode_is_told_by_its_numbers(m: MetadataView, cover: Option<usize>, e: EpisodeView)
    requires
        m.kind == KindView::Episode(e),
    ensures
        ({
            let lines = inspected(m, cover);
            let season = decimal(e.season as nat);
            let episode = two_digits(e.episode as nat);
            &&& e.show_name.len() > 0 ==> lines[14] == "Show:         "@ + e.show_name
            &&& e.show_name.len() == 0 ==> lines[14] == "Show:         "@ + "(none)"@
            &&& e.episode_id matches Some(id) ==> lines[15] == "Episode ID:   "@ + id
            &&& e.episode_id is None ==> lines[15] == "Episode ID:   "@ + (season + "x"@ + episode)
            &&& lines[16] == "Season:       "@ + decimal(e.season as nat)
            &&& lines[17] == "Episode:      "@ + decimal(e.episode as nat)
            &&& e.network matches Some(n) ==> lines[18] == "TV Network:   "@ + n
            &&& e.network is None ==> lines[18] == "TV Network:   "@ + "(none)"@
            &&& all_digits(season) && digits_value(season) == e.season
            &&& all_digits(episode) && digits_value(episode) == e.episode && episode.len() >= 2
        }),
{
    lemma_decimal_value(e.season as nat);
    lemma_decimal_value(e.episode as nat);
    let n = e.episode as nat;
    if n < 10 {
        let s = two_digits(n);
        reveal_with_fuel(digits_value, 3);
        assert(s.drop_last() =~= seq!['0']);
        assert(s.drop_last().drop_last() =~= Seq::<char>::empty());
    } else {
        assert(decimal(n / 10).len() > 0) by {
            lemma_decimal_value(n / 10);
        }
    }
}

/// Each result of a search is told in a line of its own, in order, behind a heading: the id in
/// brackets, the title, the year or a question mark, and at most eighty characters of the
/// description.
pub proof fn law_results_are_told_in_order(results: Seq<SearchResultView>, i: int)
    requires
        0 <= i < results.len(),
    ensures
        ({
            let r = results[i];
            let lines = result_lines(results);
            let head = "  ["@ + r.id.id + "] "@ + r.title + " ("@;
            &&& lines.len() == results.len() + 1
            &&& lines[0] == "Matches:"@
            &&& r.year is Some && r.overview is None ==> lines[i + 1] == head + signed_decimal(
                r.year.unwrap() as int,
            ) + ")  "@ + ""@
            &&& r.year is None && r.overview is None ==> lines[i + 1] == head + "?"@ + ")  "@ + ""@
            &&& r.year is Some && r.overview is Some ==> lines[i + 1] == head + signed_decimal(
                r.year.unwrap() as int,
            ) + ")  "@ + brief(r.overview.unwrap())
            &&& r.year is None && r.overview is Some ==> lines[i + 1] == head + "?"@ + ")  "@ + brief(
                r.overview.unwrap(),
            )
            &&& r.overview matches Some(t) ==> brief(t) == t.take(
                if t.len() < 80 {
                    t.len() as int
                } else {
                    80
                },
            )
        }),
        result_lines(Seq::empty()) == seq!["No matches."@],
{
    if let Some(t) = results[i].overview {
        assert(t.take(t.len() as int) =~= t);
    }
}

/// The tree is told show by show and season by season, in order, each under its own line.
pub proof fn law_tree_is_told_show_by_show(
    a: Seq<TvShowMatchView>,
    b: Seq<TvShowMatchView>,
    s: TvShowMatchView,
)
    ensures
        shows_lines(a + b) == shows_lines(a) + shows_lines(b),
        shows_lines(seq![s]) == show_lines(s),
        show_lines(s).len() > 0,
        s.year matches Some(y) ==> show_lines(s)[0] == s.show_name + (" ("@ + signed_decimal(
            y as int,
        ) + ")"@) + "  ["@ + s.series_id + "]"@,
        s.year is None ==> show_lines(s)[0] == s.show_name + ""@ + "  ["@ + s.series_id + "]"@,
        show_lines(s).drop_first() == seasons_lines(s.seasons),
        tree_lines(Seq::empty()) == seq!["No matching episodes."@],
        a.len() > 0 ==> tree_lines(a) == shows_lines(a),
    decreases b.len(),
{
    let one = seq![s];
    assert(one.drop_last() =~= Seq::<TvShowMatchView>::empty());
    assert(shows_lines(one.drop_last()) =~= Seq::<Seq<char>>::empty());
    assert(one.last() == s);
    assert(shows_lines(one) =~= show_lines(s));
    assert(show_lines(s).drop_first() =~= seasons_lines(s.seasons));
    if b.len() == 0 {
        assert(a + b =~= a);
        assert(shows_lines(a) + shows_lines(b) =~= shows_lines(a));
    } else {
        law_tree_is_told_show_by_show(a, b.drop_last(), s);
        assert((a + b).drop_last() =~= a + b.drop_last());
        assert(shows_lines(a + b) =~= shows_lines(a) + shows_lines(b));
    }
}

/// A season is told by its name and its number, and each of its episodes below by number and name,
/// in order.
pub proof fn law_season_is_told_with_its_episodes(
    a: Seq<TvSeasonMatchView>,
    b: Seq<TvSeasonMatchView>,
    s: TvSeasonMatchView,
    i: int,
)
    ensures
        seasons_lines(a + b) == seasons_lines(a) + seasons_lines(b),
        seasons_lines(seq![s]) == season_lines(s),
        season_lines(s).len() == s.episodes.len() + 1,
        season_lines(s)[0] == "  "@ + s.name + " (season "@ + decimal(s.season_number as nat)
            + ")"@,
        0 <= i < s.episodes.len() ==> season_lines(s)[i + 1] == "    "@ + decimal(
            s.episodes[i].number as nat,
        ) + ": "@ + s.episodes[i].name,
    decreases b.len(),
{
    let one = seq![s];
    assert(one.drop_last() =~= Seq::<TvSeasonMatchView>::empty());
    assert(seasons_lines(one.drop_last()) =~= Seq::<Seq<char>>::empty());
    assert(one.last() == s);
    assert(seasons_lines(one) =~= season_lines(s));
    if b.len() == 0 {
        assert(a + b =~= a);
        assert(seasons_lines(a) + seasons_lines(b) =~= seasons_lines(a));
    } else {
        law_season_is_told_with_its_episodes(a, b.drop_last(), s, i);
        assert((a + b).drop_last() =~= a + b.drop_last());
        assert(seasons_lines(a + b) =~= seasons_lines(a) + seasons_lines(b));
    }
}

/// A rating that is not one is refused, whatever else is asked for. With a title, the title is
/// fetched and the rating goes with it; without one, the rating alone is set; without either there
/// is nothing to do.
pub proof fn law_rating_is_looked_at_first(id: Option<Seq<char>>, rating: Option<Seq<char>>)
    ensures
        rating matches Some(r) && crate::rating::encoded(r) is None ==> tag_job(id, rating)
            == TagJobView::UnknownRating(trimmed(rating.unwrap())),
        rating is Some && crate::rating::encoded(rating.unwrap()) is Some && id is Some ==> tag_job(
            id,
            rating,
        ) == (TagJobView::Fetch { id: id.unwrap(), rating: Some(trimmed(rating.unwrap())) }),
        rating is Some && crate::rating::encoded(rating.unwrap()) is Some && id is None ==> tag_job(
            id,
            rating,
        ) == TagJobView::SetRating(trimmed(rating.unwrap())),
        rating is None && id is Some ==> tag_job(id, rating) == (TagJobView::Fetch {
            id: id.unwrap(),
            rating: None,
        }),
        rating is None && id is None ==> tag_job(id, rating) is Nothing,
{
}

/// A movie is fetched by its id alone, whatever its file is called; an episode takes its season and
/// its number from the name of the file.
pub proof fn law_file_name_numbers_episodes_only(
    id: Seq<char>,
    file_name: Seq<char>,
    folder: Option<Seq<char>>,
)
    ensures
        title_to_fetch(id, false, file_name, folder) == (ProviderIdView {
            provider: "tmdb"@,
            id,
            kind: MediaKind::Movie,
            season: None,
            episode: None,
        }),
        ({
            let r = title_to_fetch(id, true, file_name, folder);
            &&& r.provider == "tmdb"@ && r.id == id && r.kind == MediaKind::TvShow
            &&& parsed(file_name, folder) matches Some(q) ==> r.season == q.season && r.episode
                == q.episode
            &&& parsed(file_name, folder) is None ==> r.season is None && r.episode is None
        }),
{
}

/// A definition that is known stays, and so does a rating unless one is given; a definition that is
/// not known is that of the picture. Everything else is kept.
pub proof fn law_details_are_completed_not_changed(
    meta: MetadataView,
    dimensions: Option<(u32, u32)>,
    rating: Option<Seq<char>>,
)
    ensures
        ({
            let r = completed_details(meta, dimensions, rating);
            &&& meta.definition is Some ==> r.definition == meta.definition
            &&& meta.definition is None && dimensions is None ==> r.definition is None
            &&& meta.definition is None ==> (dimensions matches Some((w, h)) ==> r.definition
                == Some(definition_for(w, h)))
            &&& rating is Some ==> r.content_rating == rating
            &&& rating is None ==> r.content_rating == meta.content_rating
            &&& r == (MetadataView {
                definition: r.definition,
                content_rating: r.content_rating,
                ..meta
            })
        }),
{
}

} // verus!
