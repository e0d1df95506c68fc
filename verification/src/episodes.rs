//! Searching for episodes by their title: what the service is asked for, one question after the
//! other.

use crate::model::{
    SearchResult, SearchResultView, TvSeasonSummary, TvSeasonSummaryView, TvShowMatch,
};
use crate::text::decimal;
use crate::tmdb::{
    asked, at_most, matching_lists, needle_of, season_path, show_matches, AuthView, HttpRequest,
    HttpRequestView, SeasonListing, SeasonListingView, ShowListing, ShowListingView, TmdbProvider,
    MAX_SEASONS, MAX_SHOWS,
};
use vstd::prelude::*;

verus! {

// ---------------------------------------------------------------------------
// In one show
// ---------------------------------------------------------------------------

/// A search through the seasons of one show.
#[derive(Debug)]
pub struct TitleSearch {
    pub series_id: String,
    pub show_name: String,
    /// The seasons to look through.
    pub seasons: Vec<u32>,
    /// The episodes of the seasons that have been asked for.
    pub lists: Vec<Vec<SearchResult>>,
}

/// A search through the seasons of one show, in mathematical terms.
pub struct TitleSearchView {
    pub series_id: Seq<char>,
    pub show_name: Seq<char>,
    pub seasons: Seq<u32>,
    pub lists: Seq<Seq<SearchResultView>>,
}

impl View for TitleSearch {
    type V = TitleSearchView;

    open spec fn view(&self) -> TitleSearchView {
        TitleSearchView {
            series_id: self.series_id@,
            show_name: self.show_name@,
            seasons: self.seasons@,
            lists: self.lists.deep_view(),
        }
    }
}

/// The numbers of the seasons to look through: the given one, else the first there are, up to a
/// limit.
pub open spec fn scanned(season: Option<u32>, seasons: Seq<TvSeasonSummaryView>) -> Seq<u32> {
    match season {
        Some(s) => seq![s],
        None => Seq::new(
            at_most(seasons.len(), MAX_SEASONS) as nat,
            |i: int| seasons[i].season_number,
        ),
    }
}

/// The show to look through: the first that was found, if any was.
pub fn first_show(hits: &Vec<SearchResult>) -> (r: Option<String>)
    ensures
        r.deep_view() == (if hits.deep_view().len() == 0 {
            None
        } else {
            Some(hits.deep_view()[0].id.id)
        }),
{
    if hits.len() == 0 {
        None
    } else {
        assert(hits.deep_view()[0] == hits@[0].deep_view());
        Some(hits[0].id.id.clone())
    }
}

impl TitleSearch {
    /// A search through a show with these seasons.
    pub fn start(
        series_id: String,
        show_name: String,
        season: Option<u32>,
        seasons: &Vec<TvSeasonSummary>,
    ) -> (r: TitleSearch)
        ensures
            r@ == (TitleSearchView {
                series_id: series_id@,
                show_name: show_name@,
                seasons: scanned(season, seasons.deep_view()),
                lists: Seq::empty(),
            }),
    {
        let numbers = TmdbProvider::seasons_to_scan(season, seasons);
        let r = TitleSearch { series_id, show_name, seasons: numbers, lists: Vec::new() };
        proof {
            assert(r@.seasons =~= scanned(season, seasons.deep_view()));
            assert(r@.lists =~= Seq::empty());
        }
        r
    }

    /// The season to ask for next, and the request; none when all have been asked for.
    pub fn question(&self, provider: &TmdbProvider) -> (r: Option<(u32, HttpRequest)>)
        ensures
            ({
                let n = self@.lists.len() as int;
                match r {
                    Some((season, ask)) => n < self@.seasons.len() && season == self@.seasons[n]
                        && ask.deep_view() == asked(
                        provider.auth.deep_view(),
                        season_path(self@.series_id, season),
                        Seq::empty(),
                    ),
                    None => n >= self@.seasons.len(),
                }
            }),
    {
        if self.lists.len() < self.seasons.len() {
            let season: u32 = self.seasons[self.lists.len()];
            Some((season, provider.season_request(self.series_id.as_str(), season)))
        } else {
            None
        }
    }

    /// The episodes of the season that was asked for came. Where they could not be had, there are
    /// none.
    pub fn season_came(&mut self, episodes: Option<Vec<SearchResult>>)
        ensures
            final(self)@ == (TitleSearchView {
                lists: old(self)@.lists.push(
                    match episodes.deep_view() {
                        Some(list) => list,
                        None => Seq::empty(),
                    },
                ),
                ..old(self)@
            }),
    {
        let ghost before = self.lists.deep_view();
        let list = match episodes {
            Some(list) => list,
            None => Vec::new(),
        };
        let ghost new = list.deep_view();
        proof {
            if episodes is None {
                assert(new =~= Seq::empty());
            }
        }
        self.lists.push(list);
        assert(self.lists.deep_view() =~= before.push(new));
    }

    /// The episodes whose names hold a title in any letter case, season by season; all of them
    /// where the title is blank.
    pub fn found(&self, title: &str) -> (r: Vec<SearchResult>)
        ensures
            r.deep_view() == matching_lists(self@.lists, needle_of(title@)),
    {
        TmdbProvider::search_episodes_by_title(&self.lists, title)
    }
}

// ---------------------------------------------------------------------------
// In all shows of a name
// ---------------------------------------------------------------------------

/// A search through the shows of a name and all of their seasons.
#[derive(Debug)]
pub struct TreeSearch {
    pub hits: Vec<SearchResult>,
    /// The shows that are done.
    pub shows: Vec<ShowListing>,
    /// The name and the seasons of the show that is being looked through.
    pub current: Option<(String, Vec<TvSeasonSummary>)>,
    /// The seasons of it that are done.
    pub listed: Vec<SeasonListing>,
}

/// A search through the shows of a name, in mathematical terms.
pub struct TreeSearchView {
    pub hits: Seq<SearchResultView>,
    pub shows: Seq<ShowListingView>,
    pub current: Option<(Seq<char>, Seq<TvSeasonSummaryView>)>,
    pub listed: Seq<SeasonListingView>,
}

impl View for TreeSearch {
    type V = TreeSearchView;

    open spec fn view(&self) -> TreeSearchView {
        TreeSearchView {
            hits: self.hits.deep_view(),
            shows: self.shows.deep_view(),
            current: self.current.deep_view(),
            listed: self.listed.deep_view(),
        }
    }
}

/// How many of the shows are looked through.
pub open spec fn show_limit(t: TreeSearchView) -> int {
    at_most(t.hits.len(), MAX_SHOWS)
}

/// Whether a search is within its limits: no more shows are done than are looked through, and of
/// the show that is being looked through at least one season is still to be asked for.
pub open spec fn within_limits(t: TreeSearchView) -> bool {
    match t.current {
        None => t.shows.len() <= show_limit(t) && t.listed.len() == 0,
        Some((_, seasons)) => t.shows.len() < show_limit(t) && t.listed.len() < at_most(
            seasons.len(),
            MAX_SEASONS,
        ),
    }
}

/// Whether there is nothing more to ask.
pub open spec fn is_over(t: TreeSearchView) -> bool {
    t.current is None && t.shows.len() >= show_limit(t)
}

/// What is asked next.
#[derive(Debug)]
pub enum Question {
    /// The seasons of a show.
    Seasons(HttpRequest),
    /// The episodes of a season.
    Episodes(HttpRequest),
    /// Nothing.
    Nothing,
}

/// What is asked next, as text.
pub enum QuestionView {
    Seasons(HttpRequestView),
    Episodes(HttpRequestView),
    Nothing,
}

impl DeepView for Question {
    type V = QuestionView;

    open spec fn deep_view(&self) -> QuestionView {
        match self {
            Question::Seasons(r) => QuestionView::Seasons(r.deep_view()),
            Question::Episodes(r) => QuestionView::Episodes(r.deep_view()),
            Question::Nothing => QuestionView::Nothing,
        }
    }
}

/// How the service names the show that is next or is being looked through.
pub open spec fn current_id(t: TreeSearchView) -> Seq<char> {
    t.hits[t.shows.len() as int].id.id
}

/// What is asked next: the seasons of a show, then the episodes of each of them.
pub open spec fn next_question(t: TreeSearchView, auth: AuthView) -> QuestionView {
    match t.current {
        Some((_, seasons)) => QuestionView::Episodes(
            asked(
                auth,
                season_path(current_id(t), seasons[t.listed.len() as int].season_number),
                Seq::empty(),
            ),
        ),
        None => if is_over(t) {
            QuestionView::Nothing
        } else {
            QuestionView::Seasons(asked(auth, "/tv/"@ + current_id(t), Seq::empty()))
        },
    }
}

/// The search with one more show done.
pub open spec fn show_done(
    t: TreeSearchView,
    fetched: Option<(Seq<char>, Seq<SeasonListingView>)>,
) -> TreeSearchView {
    TreeSearchView {
        shows: t.shows.push(ShowListingView { hit: t.hits[t.shows.len() as int], fetched }),
        current: None,
        listed: Seq::empty(),
        ..t
    }
}

/// The search after the seasons of a show came, or could not be had.
pub open spec fn after_seasons(
    t: TreeSearchView,
    reply: Option<(Seq<char>, Seq<TvSeasonSummaryView>)>,
) -> TreeSearchView {
    match reply {
        None => show_done(t, None),
        Some((name, seasons)) => if seasons.len() == 0 {
            show_done(t, Some((name, Seq::empty())))
        } else {
            TreeSearchView { current: reply, ..t }
        },
    }
}

/// The search after the episodes of a season came; none where they could not be had.
pub open spec fn after_episodes(
    t: TreeSearchView,
    reply: Option<Seq<(u32, Seq<char>)>>,
) -> TreeSearchView {
    let (name, seasons) = t.current.unwrap();
    let listed = t.listed.push(
        SeasonListingView {
            summary: seasons[t.listed.len() as int],
            episodes: match reply {
                Some(list) => list,
                None => Seq::empty(),
            },
        },
    );
    if listed.len() < at_most(seasons.len(), MAX_SEASONS) {
        TreeSearchView { listed, ..t }
    } else {
        show_done(t, Some((name, listed)))
    }
}

/// A summary with the same name and numbers.
fn copy_summary(s: &TvSeasonSummary) -> (r: TvSeasonSummary)
    ensures
        r.deep_view() == s.deep_view(),
{
    TvSeasonSummary {
        season_number: s.season_number,
        name: s.name.clone(),
        episode_count: s.episode_count,
    }
}

impl TreeSearch {
    /// A search through these shows.
    pub fn start(hits: Vec<SearchResult>) -> (r: TreeSearch)
        ensures
            within_limits(r@),
            r@ == (TreeSearchView {
                hits: hits.deep_view(),
                shows: Seq::empty(),
                current: None,
                listed: Seq::empty(),
            }),
    {
        let r = TreeSearch { hits, shows: Vec::new(), current: None, listed: Vec::new() };
        assert(r@.shows =~= Seq::empty());
        assert(r@.listed =~= Seq::empty());
        r
    }

    /// What is asked next.
    pub fn question(&self, provider: &TmdbProvider) -> (r: Question)
        requires
            within_limits(self@),
        ensures
            r.deep_view() == next_question(self@, provider.auth.deep_view()),
    {
        let n: usize = self.shows.len();
        assert(self@.hits.len() == self.hits@.len() && self@.shows.len() == self.shows@.len());
        if let Some((_, seasons)) = &self.current {
            let k: usize = self.listed.len();
            assert(self@.listed.len() == k);
            assert(seasons.deep_view()[k as int] == seasons@[k as int].deep_view());
            assert(self@.hits[n as int] == self.hits@[n as int].deep_view());
            return Question::Episodes(
                provider.season_request(self.hits[n].id.id.as_str(), seasons[k].season_number),
            );
        }
        if n >= MAX_SHOWS || n >= self.hits.len() {
            return Question::Nothing;
        }
        assert(self@.hits[n as int] == self.hits@[n as int].deep_view());
        Question::Seasons(provider.seasons_request(self.hits[n].id.id.as_str()))
    }

    /// One more show is done.
    fn end_show(&mut self, fetched: Option<(String, Vec<SeasonListing>)>)
        requires
            old(self)@.shows.len() < old(self)@.hits.len(),
        ensures
            final(self)@ == show_done(old(self)@, fetched.deep_view()),
    {
        let ghost before = self@;
        let n: usize = self.shows.len();
        assert(before.shows.len() == n);
        assert(before.hits[n as int] == self.hits@[n as int].deep_view());
        let show = ShowListing { hit: self.hits[n].copy(), fetched };
        let ghost new = show.deep_view();
        self.shows.push(show);
        self.current = None;
        self.listed = Vec::new();
        assert(self@.shows =~= before.shows.push(new));
        assert(self@.listed =~= Seq::empty());
    }

    /// The seasons of the show that was asked for came, or could not be had.
    pub fn seasons_came(&mut self, reply: Option<(String, Vec<TvSeasonSummary>)>)
        requires
            within_limits(old(self)@),
            old(self)@.current is None,
            !is_over(old(self)@),
        ensures
            within_limits(final(self)@),
            final(self)@ == after_seasons(old(self)@, reply.deep_view()),
    {
        match reply {
            None => self.end_show(None),
            Some((name, seasons)) => {
                assert(seasons.deep_view().len() == seasons@.len());
                if seasons.len() == 0 {
                    let none: Vec<SeasonListing> = Vec::new();
                    assert(none.deep_view() =~= Seq::empty());
                    self.end_show(Some((name, none)));
                } else {
                    self.current = Some((name, seasons));
                }
            },
        }
    }

    /// The episodes of the season that was asked for came, or could not be had.
    pub fn episodes_came(&mut self, reply: Option<Vec<(u32, String)>>)
        requires
            within_limits(old(self)@),
            old(self)@.current is Some,
        ensures
            within_limits(final(self)@),
            final(self)@ == after_episodes(old(self)@, reply.deep_view()),
    {
        let ghost t = self@;
        let ghost answer = reply.deep_view();
        let episodes = match reply {
            Some(list) => list,
            None => Vec::new(),
        };
        proof {
            if answer is None {
                assert(episodes.deep_view() =~= Seq::empty());
            }
        }
        let k: usize = self.listed.len();
        assert(t.listed.len() == k);
        let current = self.current.take();
        if let Some((name, seasons)) = current {
            assert(seasons.deep_view().len() == seasons@.len());
            assert(seasons.deep_view()[k as int] == seasons@[k as int].deep_view());
            let season = SeasonListing { summary: copy_summary(&seasons[k]), episodes };
            let ghost new = season.deep_view();
            self.listed.push(season);
            assert(self.listed.deep_view() =~= t.listed.push(new));
            if self.listed.len() < MAX_SEASONS && self.listed.len() < seasons.len() {
                self.current = Some((name, seasons));
            } else {
                let mut listed: Vec<SeasonListing> = Vec::new();
                std::mem::swap(&mut listed, &mut self.listed);
                assert(listed.deep_view() == t.listed.push(new));
                self.end_show(Some((name, listed)));
            }
        }
    }

    /// The tree of the shows, seasons and episodes whose names hold a title in any letter case; of
    /// all episodes where the title is blank.
    pub fn found(&self, title: &str) -> (r: Vec<TvShowMatch>)
        ensures
            r.deep_view() == show_matches(
                self@.shows,
                at_most(self@.shows.len(), MAX_SHOWS),
                needle_of(title@),
            ),
    {
        TmdbProvider::search_episode_tree_by_title(&self.shows, title)
    }
}

// ---------------------------------------------------------------------------
// Laws
// ---------------------------------------------------------------------------

/// What a service answers: the seasons of a show, and the episodes of a season. Either may be
/// missing.
pub struct Service {
    pub seasons: spec_fn(Seq<char>) -> Option<(Seq<char>, Seq<TvSeasonSummaryView>)>,
    pub episodes: spec_fn(Seq<char>, u32) -> Option<Seq<(u32, Seq<char>)>>,
}

/// The first seasons of a show with the episodes that the service has of them.
pub open spec fn seasons_listed(
    service: Service,
    id: Seq<char>,
    seasons: Seq<TvSeasonSummaryView>,
    n: nat,
) -> Seq<SeasonListingView> {
    Seq::new(
        n,
        |k: int|
            SeasonListingView {
                summary: seasons[k],
                episodes: match (service.episodes)(id, seasons[k].season_number) {
                    Some(list) => list,
                    None => Seq::empty(),
                },
            },
    )
}

/// A show with what the service has of it, up to the limit of seasons.
pub open spec fn show_listed(service: Service, hit: SearchResultView) -> ShowListingView {
    ShowListingView {
        hit,
        fetched: match (service.seasons)(hit.id.id) {
            None => None,
            Some((name, seasons)) => Some(
                (
                    name,
                    seasons_listed(
                        service,
                        hit.id.id,
                        seasons,
                        at_most(seasons.len(), MAX_SEASONS) as nat,
                    ),
                ),
            ),
        },
    }
}

/// The first shows with what the service has of them.
pub open spec fn shows_listed(service: Service, hits: Seq<SearchResultView>, n: nat) -> Seq<
    ShowListingView,
> {
    Seq::new(n, |i: int| show_listed(service, hits[i]))
}

/// Whether all that a search holds is what the service has.
pub open spec fn is_faithful(t: TreeSearchView, service: Service) -> bool {
    &&& t.shows == shows_listed(service, t.hits, t.shows.len())
    &&& t.current matches Some((name, seasons)) ==> (service.seasons)(current_id(t)) == Some(
        (name, seasons),
    ) && t.listed == seasons_listed(service, current_id(t), seasons, t.listed.len())
}

/// The search after the next question was answered.
pub open spec fn answered(t: TreeSearchView, service: Service) -> TreeSearchView {
    match t.current {
        None => after_seasons(t, (service.seasons)(current_id(t))),
        Some((_, seasons)) => after_episodes(
            t,
            (service.episodes)(current_id(t), seasons[t.listed.len() as int].season_number),
        ),
    }
}

/// How many questions may still be asked at most: one for each show, and one for each season up to
/// the limit.
pub open spec fn questions_left(t: TreeSearchView) -> int {
    (show_limit(t) - t.shows.len()) * (1 + MAX_SEASONS) - (match t.current {
        Some(_) => 1 + t.listed.len() as int,
        None => 0,
    })
}

/// A search through the shows of a name asks for the seasons of eight shows and for the episodes of
/// fifty seasons of each at most. As long as it goes on, every answer brings it closer to its end,
/// keeps it within its limits, and leaves it with nothing but what the service has.
pub proof fn law_tree_search_comes_to_an_end(t: TreeSearchView, service: Service)
    requires
        within_limits(t),
        is_faithful(t, service),
    ensures
        0 <= questions_left(t) <= MAX_SHOWS * (1 + MAX_SEASONS),
        !is_over(t) ==> {
            let next = answered(t, service);
            &&& next.hits == t.hits
            &&& within_limits(next)
            &&& is_faithful(next, service)
            &&& questions_left(next) < questions_left(t)
        },
{
    let left = show_limit(t) - t.shows.len();
    let each = 1 + MAX_SEASONS;
    assert(left * each == 51 * left) by (nonlinear_arith)
        requires
            each == 51,
    ;
    if !is_over(t) {
        let next = answered(t, service);
        assert((left - 1) * each == 51 * left - 51) by (nonlinear_arith)
            requires
                each == 51,
        ;
        if next.shows.len() > t.shows.len() {
            if let Some((name, seasons)) = t.current {
                let fetched = next.shows.last().fetched->0;
                assert(fetched.1 =~= seasons_listed(
                    service,
                    current_id(t),
                    seasons,
                    at_most(seasons.len(), MAX_SEASONS) as nat,
                ));
            } else if let Some((name, seasons)) = (service.seasons)(current_id(t)) {
                assert(seasons_listed(service, current_id(t), seasons, 0) =~= Seq::empty());
            }
            assert(next.shows =~= shows_listed(service, next.hits, next.shows.len()));
        } else if let Some((name, seasons)) = t.current {
            assert(next.listed =~= seasons_listed(
                service,
                current_id(t),
                seasons,
                next.listed.len(),
            ));
        } else {
            assert(next.listed =~= seasons_listed(
                service,
                current_id(t),
                next.current.unwrap().1,
                0,
            ));
        }
    }
}

/// A search through the shows of a name that is over has looked through all of them, up to the
/// limits, and holds what the service has of each.
pub proof fn law_tree_search_looks_through_all(t: TreeSearchView, service: Service)
    requires
        within_limits(t),
        is_faithful(t, service),
        is_over(t),
    ensures
        t.shows == shows_listed(service, t.hits, show_limit(t) as nat),
        at_most(t.shows.len(), MAX_SHOWS) == t.shows.len(),
{
}

/// A search in one season looks through that season alone; else it looks through the first fifty,
/// or all where there are fewer, in their order.
pub proof fn law_asked_season_is_the_only_one(
    season: Option<u32>,
    seasons: Seq<TvSeasonSummaryView>,
    i: int,
)
    ensures
        season is Some ==> scanned(season, seasons) == seq![season.unwrap()],
        season is None ==> scanned(season, seasons).len() == (if seasons.len() < 50 {
            seasons.len()
        } else {
            50
        }),
        season is None && 0 <= i < seasons.len() && i < 50 ==> scanned(season, seasons)[i]
            == seasons[i].season_number,
{
}

/// The questions go through the shows in the order of the hits, and through the seasons of a show
/// in theirs: the next one is for the first show that is not done, or for the first of its seasons
/// that is not.
pub proof fn law_questions_follow_the_order(t: TreeSearchView, auth: AuthView)
    requires
        within_limits(t),
    ensures
        t.current matches Some((_, seasons)) ==> next_question(t, auth) == QuestionView::Episodes(
            asked(
                auth,
                "/tv/"@ + t.hits[t.shows.len() as int].id.id + "/season/"@ + decimal(
                    seasons[t.listed.len() as int].season_number as nat,
                ),
                Seq::empty(),
            ),
        ),
        t.current is None && t.shows.len() < t.hits.len() && t.shows.len() < 8 ==> next_question(
            t,
            auth,
        ) == QuestionView::Seasons(
            asked(auth, "/tv/"@ + t.hits[t.shows.len() as int].id.id, Seq::empty()),
        ),
        (next_question(t, auth) is Nothing) == (t.current is None && (t.shows.len()
            == t.hits.len() || t.shows.len() == 8)),
{
}

/// A show whose seasons could not be fetched is done without any, and so is one that has none; the
/// search goes on with the next. A season whose episodes could not be fetched counts as empty, and
/// keeps its place.
pub proof fn law_failed_replies_are_passed_over(t: TreeSearchView, name: Seq<char>)
    requires
        within_limits(t),
        t.shows.len() < t.hits.len(),
    ensures
        t.current is None ==> {
            &&& after_seasons(t, None).shows == t.shows.push(
                ShowListingView { hit: t.hits[t.shows.len() as int], fetched: None },
            )
            &&& after_seasons(t, None).current is None
            &&& after_seasons(t, Some((name, Seq::empty()))).shows == t.shows.push(
                ShowListingView {
                    hit: t.hits[t.shows.len() as int],
                    fetched: Some((name, Seq::empty())),
                },
            )
        },
        t.current is Some ==> after_episodes(t, None) == after_episodes(t, Some(Seq::empty())),
{
}

} // verus!
