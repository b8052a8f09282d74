//! The decisions of a synchronization run, as a state machine.
//!
//! A run fetches every Alamo market and each market's schedule, keeps the distinct titles of
//! eligible presentations, searches Radarr for each title and adds a unique exact match. The
//! requests themselves are made by the caller: each step takes the response to the last
//! requested action and returns the next action.
use vstd::prelude::*;

use crate::alamo_movies;
use crate::alamo_movies::{Market, Presentation};
use crate::matching::{match_indices, match_order, ordered_matches};
use crate::radarr;
use crate::radarr::{already_added, payload_for, AddMoviePayload, RootFolder, SearchResult};
use crate::text::{is_blank, is_blank_text};
use crate::titles::{unique_title_views, unique_titles, MovieTitle};

verus! {

/// Runtime settings controlling how movies are added to Radarr.
#[derive(Clone, Debug)]
pub struct SyncOptions {
    /// The Radarr quality profile assigned to newly added movies.
    pub quality_profile_id: u32,
    /// The destination root folder, or `None` to use Radarr's first configured root.
    pub root_folder_path: Option<String>,
    /// Whether to report additions without sending add-movie requests.
    pub dry_run: bool,
}

/// Counts the outcomes of a completed synchronization run.
#[derive(Clone, Copy, Debug, PartialEq, Eq, Structural)]
pub struct SyncReport {
    /// The number of Alamo markets discovered.
    pub markets: usize,
    /// The total presentations returned by successfully fetched market schedules.
    pub presentations: usize,
    /// The number of distinct eligible movie titles processed.
    pub unique_titles: usize,
    /// The number of movies successfully added to Radarr.
    pub added: usize,
    /// The number of matching movies already present in Radarr.
    pub already_added: usize,
    /// The number of titles without an exact Radarr match.
    pub no_match: usize,
    /// The number of titles skipped because multiple Radarr movies matched.
    pub ambiguous: usize,
    /// The number of market, search, or add operations that failed.
    pub failed: usize,
}

/// The report with every count zero.
pub open spec fn empty_report() -> SyncReport {
    SyncReport {
        markets: 0,
        presentations: 0,
        unique_titles: 0,
        added: 0,
        already_added: 0,
        no_match: 0,
        ambiguous: 0,
        failed: 0,
    }
}

impl Default for SyncReport {
    fn default() -> (r: Self)
        ensures
            r == empty_report(),
    {
        SyncReport {
            markets: 0,
            presentations: 0,
            unique_titles: 0,
            added: 0,
            already_added: 0,
            no_match: 0,
            ambiguous: 0,
            failed: 0,
        }
    }
}

/// An error that prevents a synchronization from completing successfully.
#[derive(Debug)]
pub enum Error {
    /// An Alamo API operation failed.
    Alamo(alamo_movies::Error),
    /// A Radarr API operation failed.
    Radarr(radarr::Error),
    /// No explicit or Radarr-configured root folder was available.
    NoRootFolder,
    /// One or more independent operations failed during an otherwise completed run.
    PartialFailure(usize),
}

/// The outcome of a run that got through every title: a partial failure when any market,
/// search or add operation failed, the report otherwise.
pub open spec fn final_result(report: SyncReport) -> Result<SyncReport, Error> {
    if report.failed > 0 {
        Err(Error::PartialFailure(report.failed))
    } else {
        Ok(report)
    }
}

/// Ends a run that got through every title.
pub fn finish(report: SyncReport) -> (r: Result<SyncReport, Error>)
    ensures
        r == final_result(report),
{
    if report.failed > 0 {
        Err(Error::PartialFailure(report.failed))
    } else {
        Ok(report)
    }
}

/// A failure count after one more failure; the count stops at `usize::MAX`.
pub open spec fn one_more(n: usize) -> usize {
    if n < usize::MAX {
        (n + 1) as usize
    } else {
        n
    }
}

/// What the caller does next.
#[derive(Debug)]
pub enum SyncAction {
    /// Fetch every Alamo market.
    FetchMarkets,
    /// Fetch the schedule of the market with this slug.
    FetchPresentations {
        /// The market's slug.
        market_slug: String,
    },
    /// Search Radarr for this title.
    Search {
        /// The normalized title.
        title: String,
    },
    /// Fetch the root folders configured in Radarr.
    FetchRootFolders,
    /// Add a movie to Radarr.
    AddMovie {
        /// The request body.
        payload: AddMoviePayload,
    },
    /// The run is over, with this outcome.
    Finish(Result<SyncReport, Error>),
}

/// The response to the last requested action.
#[derive(Debug)]
pub enum SyncEvent {
    /// The Alamo markets, or why they could not be fetched.
    Markets(Result<Vec<Market>, alamo_movies::Error>),
    /// A market's presentations, or why they could not be fetched.
    Presentations(Result<Vec<Presentation>, alamo_movies::Error>),
    /// Radarr's lookup results for a title, or why the search failed.
    SearchResults(Result<Vec<SearchResult>, radarr::Error>),
    /// Radarr's root folders, or why they could not be fetched.
    RootFolders(Result<Vec<RootFolder>, radarr::Error>),
    /// Whether a movie was added.
    MovieAdded(Result<(), radarr::Error>),
}

/// Something worth reporting about a title.
#[derive(Debug)]
pub enum SyncNotice {
    /// Nothing to report.
    Quiet,
    /// No Radarr result matched the title exactly.
    NoExactMatch {
        /// The normalized title.
        title: String,
    },
    /// Several Radarr movies matched the title; none is added.
    AmbiguousMatch {
        /// The normalized title.
        title: String,
        /// The title and year of each matching movie.
        candidates: Vec<(String, u32)>,
    },
    /// A dry run would add this movie.
    WouldAdd {
        /// The movie's title.
        title: String,
        /// The movie's year.
        year: u32,
    },
    /// The movie was added.
    Added {
        /// The movie's title.
        title: String,
        /// The movie's year.
        year: u32,
    },
}

/// The next action and what to report.
#[derive(Debug)]
pub struct SyncStep {
    /// What the caller does next.
    pub action: SyncAction,
    /// What is worth reporting.
    pub notice: SyncNotice,
}

/// Which response a run waits for.
#[derive(Clone, Copy, Debug, PartialEq, Eq, Structural)]
pub enum SyncStage {
    /// The market list.
    AwaitMarkets,
    /// A market's schedule.
    AwaitPresentations,
    /// Radarr's lookup results for a title.
    AwaitSearch,
    /// Radarr's root folders.
    AwaitRootFolders,
    /// The outcome of adding a movie.
    AwaitAdd,
    /// Nothing: the run is over.
    Done,
}

/// The state of a synchronization run.
pub struct SyncState {
    options: SyncOptions,
    report: SyncReport,
    stage: SyncStage,
    markets: Vec<Market>,
    next_market: usize,
    presentations: Vec<Presentation>,
    titles: Vec<MovieTitle>,
    next_title: usize,
    root_folder: Option<String>,
    candidate: Option<SearchResult>,
    title_failures: Ghost<nat>,
    dry_run_skips: Ghost<nat>,
}

/// The configured root folder, unless it is blank.
pub open spec fn configured_root(options: SyncOptions) -> Option<Seq<char>> {
    match options.root_folder_path {
        Some(p) => if is_blank(p@) {
            None
        } else {
            Some(p@)
        },
        None => None,
    }
}

impl SyncState {
    /// The settings of the run.
    pub closed spec fn spec_options(&self) -> SyncOptions {
        self.options
    }

    /// The counts so far.
    pub closed spec fn spec_report(&self) -> SyncReport {
        self.report
    }

    /// Which response the run waits for.
    pub closed spec fn spec_stage(&self) -> SyncStage {
        self.stage
    }

    /// The markets fetched.
    pub closed spec fn spec_markets(&self) -> Seq<Market> {
        self.markets@
    }

    /// How many markets' schedules have been answered.
    pub closed spec fn spec_next_market(&self) -> int {
        self.next_market as int
    }

    /// The presentations of every schedule fetched, in order.
    pub closed spec fn spec_presentations(&self) -> Seq<Presentation> {
        self.presentations@
    }

    /// The distinct normalized titles to look up.
    pub closed spec fn spec_titles(&self) -> Seq<(Seq<char>, Option<u32>)> {
        self.titles@.map_values(|m: MovieTitle| m@)
    }

    /// How many titles have been dealt with.
    pub closed spec fn spec_next_title(&self) -> int {
        self.next_title as int
    }

    /// The root folder that movies are added to, once known.
    pub closed spec fn spec_root_folder(&self) -> Option<Seq<char>> {
        match self.root_folder {
            Some(p) => Some(p@),
            None => None,
        }
    }

    /// The unique match that waits for a root folder or for being added.
    pub closed spec fn spec_candidate(&self) -> Option<SearchResult> {
        self.candidate
    }

    /// How many title searches and additions failed.
    pub closed spec fn spec_title_failures(&self) -> nat {
        self.title_failures@
    }

    /// How many unique matches a dry run passed over.
    pub closed spec fn spec_dry_run_skips(&self) -> nat {
        self.dry_run_skips@
    }

    /// The internal consistency of a run.
    pub closed spec fn wf(&self) -> bool {
        &&& self.next_market <= self.markets@.len()
        &&& self.report.markets == self.markets@.len()
        &&& self.next_title <= self.titles@.len()
        &&& self.stage == SyncStage::AwaitPresentations ==> self.next_market < self.markets@.len()
        &&& (self.stage == SyncStage::AwaitSearch || self.stage == SyncStage::AwaitRootFolders
            || self.stage == SyncStage::AwaitAdd) ==> self.next_title < self.titles@.len()
        &&& (self.stage == SyncStage::AwaitRootFolders || self.stage == SyncStage::AwaitAdd)
            ==> self.candidate is Some
        &&& self.report.added + self.report.already_added + self.report.no_match
            + self.report.ambiguous + self.title_failures@ + self.dry_run_skips@ == self.next_title
        &&& (self.stage == SyncStage::AwaitMarkets || self.stage == SyncStage::AwaitPresentations)
            ==> self.titles@.len() == 0 && self.next_title == 0 && self.report.presentations
            == self.presentations@.len()
        &&& self.report.unique_titles == self.titles@.len()
        &&& self.options.dry_run ==> self.stage != SyncStage::AwaitRootFolders && self.stage
            != SyncStage::AwaitAdd
        &&& self.title_failures@ <= self.report.failed
    }

    /// Whether `event` answers the action the run waits for.
    pub open spec fn awaits(&self, event: SyncEvent) -> bool {
        match self.spec_stage() {
            SyncStage::AwaitMarkets => event is Markets,
            SyncStage::AwaitPresentations => event is Presentations,
            SyncStage::AwaitSearch => event is SearchResults,
            SyncStage::AwaitRootFolders => event is RootFolders,
            SyncStage::AwaitAdd => event is MovieAdded,
            SyncStage::Done => false,
        }
    }

    /// Starts a run; its first action is [`SyncAction::FetchMarkets`].
    pub fn new(options: SyncOptions) -> (s: Self)
        ensures
            s.wf(),
            s.spec_options() == options,
            s.spec_stage() == SyncStage::AwaitMarkets,
            s.spec_report() == empty_report(),
            s.spec_root_folder() == configured_root(options),
            s.spec_presentations().len() == 0,
            s.spec_next_market() == 0,
            s.spec_title_failures() == 0,
            s.spec_dry_run_skips() == 0,
    {
        let root_folder = match &options.root_folder_path {
            Some(p) => if is_blank_text(p.as_str()) {
                None
            } else {
                Some(p.clone())
            },
            None => None,
        };
        SyncState {
            options,
            report: SyncReport::default(),
            stage: SyncStage::AwaitMarkets,
            markets: Vec::new(),
            next_market: 0,
            presentations: Vec::new(),
            titles: Vec::new(),
            next_title: 0,
            root_folder,
            candidate: None,
            title_failures: Ghost(0),
            dry_run_skips: Ghost(0),
        }
    }

    /// Whether `event` answers the action the run waits for.
    pub fn accepts(&self, event: &SyncEvent) -> (r: bool)
        ensures
            r == self.awaits(*event),
    {
        match (self.stage, event) {
            (SyncStage::AwaitMarkets, SyncEvent::Markets(_)) => true,
            (SyncStage::AwaitPresentations, SyncEvent::Presentations(_)) => true,
            (SyncStage::AwaitSearch, SyncEvent::SearchResults(_)) => true,
            (SyncStage::AwaitRootFolders, SyncEvent::RootFolders(_)) => true,
            (SyncStage::AwaitAdd, SyncEvent::MovieAdded(_)) => true,
            _ => false,
        }
    }

    /// The counts so far.
    pub fn report(&self) -> (r: SyncReport)
        ensures
            r == self.spec_report(),
    {
        self.report
    }

    /// Whether the run is over.
    pub fn is_done(&self) -> (r: bool)
        ensures
            r == (self.spec_stage() == SyncStage::Done),
    {
        match self.stage {
            SyncStage::Done => true,
            _ => false,
        }
    }
}

} // verus!

verus! {

/// Whether `a` and `b` agree on everything but the progress through markets and titles.
pub open spec fn keeps_context(a: SyncState, b: SyncState) -> bool {
    &&& b.spec_options() == a.spec_options()
    &&& b.spec_root_folder() == a.spec_root_folder()
    &&& b.spec_title_failures() == a.spec_title_failures()
    &&& b.spec_dry_run_skips() == a.spec_dry_run_skips()
}

/// After `next` of `titles` have been dealt with, with counts `report`: `s` searches for the
/// next title, or the run ends with the final result.
pub open spec fn continues_titles(
    report: SyncReport,
    titles: Seq<(Seq<char>, Option<u32>)>,
    next: int,
    s: SyncState,
    action: SyncAction,
) -> bool {
    &&& s.spec_titles() == titles
    &&& s.spec_next_title() == next
    &&& s.spec_report() == report
    &&& if next < titles.len() {
        &&& s.spec_stage() == SyncStage::AwaitSearch
        &&& action matches SyncAction::Search { title }
        &&& title@ == titles[next].0
    } else {
        &&& s.spec_stage() == SyncStage::Done
        &&& action == SyncAction::Finish(final_result(report))
    }
}

/// After the schedules of `next` of `markets` have been answered, with the presentations
/// `presentations` and counts `report`: `s` fetches the next schedule, or keeps the distinct
/// titles of the eligible presentations and goes on with them.
pub open spec fn continues_markets(
    report: SyncReport,
    markets: Seq<Market>,
    next: int,
    presentations: Seq<Presentation>,
    s: SyncState,
    action: SyncAction,
) -> bool {
    &&& s.spec_markets() == markets
    &&& s.spec_next_market() == next
    &&& if next < markets.len() {
        &&& s.spec_stage() == SyncStage::AwaitPresentations
        &&& s.spec_presentations() == presentations
        &&& s.spec_report() == report
        &&& s.spec_titles().len() == 0
        &&& s.spec_next_title() == 0
        &&& action matches SyncAction::FetchPresentations { market_slug }
        &&& market_slug@ == markets[next].slug@
    } else {
        let titles = unique_title_views(presentations);
        continues_titles(
            SyncReport { unique_titles: titles.len() as usize, ..report },
            titles,
            0,
            s,
            action,
        )
    }
}

impl SyncState {
    /// The consistency that holds between steps, whatever the stage.
    closed spec fn base_wf(&self) -> bool {
        &&& self.next_market <= self.markets@.len()
        &&& self.report.markets == self.markets@.len()
        &&& self.next_title <= self.titles@.len()
        &&& self.report.added + self.report.already_added + self.report.no_match
            + self.report.ambiguous + self.title_failures@ + self.dry_run_skips@ == self.next_title
        &&& self.title_failures@ <= self.report.failed
        &&& self.report.unique_titles == self.titles@.len()
    }

    /// Searches for the next title, or ends the run.
    fn advance_titles(&mut self) -> (a: SyncAction)
        requires
            old(self).base_wf(),
            old(self).report.unique_titles == old(self).titles@.len(),
        ensures
            final(self).wf(),
            keeps_context(*old(self), *final(self)),
            final(self).spec_markets() == old(self).spec_markets(),
            final(self).spec_next_market() == old(self).spec_next_market(),
            continues_titles(
                old(self).spec_report(),
                old(self).spec_titles(),
                old(self).spec_next_title(),
                *final(self),
                a,
            ),
    {
        if self.next_title < self.titles.len() {
            self.stage = SyncStage::AwaitSearch;
            let title = self.titles[self.next_title].title.clone();
            SyncAction::Search { title }
        } else {
            self.stage = SyncStage::Done;
            SyncAction::Finish(finish(self.report))
        }
    }

    /// Fetches the next schedule, or turns the presentations into titles and goes on with them.
    fn advance_markets(&mut self) -> (a: SyncAction)
        requires
            old(self).base_wf(),
            old(self).titles@.len() == 0,
            old(self).report.presentations == old(self).presentations@.len(),
        ensures
            final(self).wf(),
            keeps_context(*old(self), *final(self)),
            continues_markets(
                old(self).spec_report(),
                old(self).spec_markets(),
                old(self).spec_next_market(),
                old(self).spec_presentations(),
                *final(self),
                a,
            ),
    {
        if self.next_market < self.markets.len() {
            self.stage = SyncStage::AwaitPresentations;
            let market_slug = self.markets[self.next_market].slug.clone();
            SyncAction::FetchPresentations { market_slug }
        } else {
            let mut presentations: Vec<Presentation> = Vec::new();
            std::mem::swap(&mut presentations, &mut self.presentations);
            let titles = unique_titles(presentations);
            self.report.unique_titles = titles.len();
            self.titles = titles;
            self.next_title = 0;
            self.advance_titles()
        }
    }
}

} // verus!

verus! {

/// `s` adds `movie` to the root folder `p`, unless `p` is blank, which ends the run.
pub open spec fn adds_with_root(
    options: SyncOptions,
    movie: SearchResult,
    p: Seq<char>,
    s: SyncState,
    action: SyncAction,
) -> bool {
    if is_blank(p) {
        &&& s.spec_stage() == SyncStage::Done
        &&& action == SyncAction::Finish(Err(Error::Radarr(radarr::Error::MissingRootFolder)))
    } else {
        &&& s.spec_stage() == SyncStage::AwaitAdd
        &&& s.spec_candidate() == Some(movie)
        &&& action matches SyncAction::AddMovie { payload }
        &&& payload_for(payload, movie, options.quality_profile_id, p, true, true)
    }
}

/// `s` goes on to add `movie`: to the known root folder, or first fetches Radarr's root folders.
pub open spec fn offers(old: SyncState, movie: SearchResult, s: SyncState, action: SyncAction) -> bool {
    &&& s.spec_root_folder() == old.spec_root_folder()
    &&& match old.spec_root_folder() {
        None => {
            &&& s.spec_stage() == SyncStage::AwaitRootFolders
            &&& s.spec_candidate() == Some(movie)
            &&& action is FetchRootFolders
        },
        Some(p) => adds_with_root(old.spec_options(), movie, p, s, action),
    }
}

/// A report with one more title without a match, one more ambiguous title, or one more
/// title already in Radarr.
pub open spec fn with_no_match(r: SyncReport) -> SyncReport {
    SyncReport { no_match: (r.no_match + 1) as usize, ..r }
}

/// A report with one more ambiguous title.
pub open spec fn with_ambiguous(r: SyncReport) -> SyncReport {
    SyncReport { ambiguous: (r.ambiguous + 1) as usize, ..r }
}

/// A report with one more title already in Radarr.
pub open spec fn with_already_added(r: SyncReport) -> SyncReport {
    SyncReport { already_added: (r.already_added + 1) as usize, ..r }
}

/// A report with one more movie added.
pub open spec fn with_added(r: SyncReport) -> SyncReport {
    SyncReport { added: (r.added + 1) as usize, ..r }
}

/// A report with one more failed operation.
pub open spec fn with_failure(r: SyncReport) -> SyncReport {
    SyncReport { failed: one_more(r.failed), ..r }
}

/// What a step does with Radarr's lookup results `rs` for the title being searched.
pub open spec fn on_search_results(
    old: SyncState,
    rs: Seq<SearchResult>,
    s: SyncState,
    out: SyncStep,
) -> bool {
    let t = old.spec_titles()[old.spec_next_title()];
    let report = old.spec_report();
    let titles = old.spec_titles();
    let next = old.spec_next_title() + 1;
    let ms = ordered_matches(t, rs);
    if ms.len() == 0 {
        &&& continues_titles(with_no_match(report), titles, next, s, out.action)
        &&& keeps_context(old, s)
        &&& out.notice matches SyncNotice::NoExactMatch { title }
        &&& title@ == t.0
    } else if ms.len() >= 2 {
        &&& continues_titles(with_ambiguous(report), titles, next, s, out.action)
        &&& keeps_context(old, s)
        &&& out.notice matches SyncNotice::AmbiguousMatch { title, candidates }
        &&& title@ == t.0
        &&& candidates@.len() == ms.len()
        &&& forall|k: int|
            0 <= k < ms.len() ==> (#[trigger] candidates@[k]).0@ == ms[k].title@
                && candidates@[k].1 == ms[k].year
    } else if already_added(ms[0]) {
        &&& continues_titles(with_already_added(report), titles, next, s, out.action)
        &&& keeps_context(old, s)
        &&& out.notice is Quiet
    } else if old.spec_options().dry_run {
        &&& continues_titles(report, titles, next, s, out.action)
        &&& s.spec_options() == old.spec_options()
        &&& s.spec_root_folder() == old.spec_root_folder()
        &&& s.spec_title_failures() == old.spec_title_failures()
        &&& s.spec_dry_run_skips() == old.spec_dry_run_skips() + 1
        &&& out.notice matches SyncNotice::WouldAdd { title, year }
        &&& title@ == ms[0].title@
        &&& year == ms[0].year
    } else {
        &&& s.spec_titles() == titles
        &&& s.spec_next_title() == old.spec_next_title()
        &&& s.spec_report() == report
        &&& keeps_context(old, s)
        &&& out.notice is Quiet
        &&& offers(old, ms[0], s, out.action)
    }
}

/// What one step does with `event`, the response to the action that `old` waits for.
pub open spec fn step_spec(old: SyncState, event: SyncEvent, s: SyncState, out: SyncStep) -> bool {
    let report = old.spec_report();
    &&& s.spec_options() == old.spec_options()
    &&& match event {
        SyncEvent::Markets(Err(e)) => {
            &&& s.spec_stage() == SyncStage::Done
            &&& out.action == SyncAction::Finish(Err(Error::Alamo(e)))
            &&& out.notice is Quiet
        },
        SyncEvent::Markets(Ok(ms)) => {
            &&& continues_markets(
                SyncReport { markets: ms@.len() as usize, ..report },
                ms@,
                0,
                old.spec_presentations(),
                s,
                out.action,
            )
            &&& keeps_context(old, s)
            &&& out.notice is Quiet
        },
        SyncEvent::Presentations(Ok(ps)) => {
            &&& continues_markets(
                SyncReport {
                    presentations: (report.presentations + ps@.len()) as usize,
                    ..report
                },
                old.spec_markets(),
                old.spec_next_market() + 1,
                old.spec_presentations() + ps@,
                s,
                out.action,
            )
            &&& keeps_context(old, s)
            &&& out.notice is Quiet
            &&& report.presentations + ps@.len() <= usize::MAX
        },
        SyncEvent::Presentations(Err(_)) => {
            &&& continues_markets(
                with_failure(report),
                old.spec_markets(),
                old.spec_next_market() + 1,
                old.spec_presentations(),
                s,
                out.action,
            )
            &&& keeps_context(old, s)
            &&& out.notice is Quiet
        },
        SyncEvent::SearchResults(Ok(rs)) => on_search_results(old, rs@, s, out),
        SyncEvent::SearchResults(Err(_)) => {
            &&& continues_titles(
                with_failure(report),
                old.spec_titles(),
                old.spec_next_title() + 1,
                s,
                out.action,
            )
            &&& s.spec_root_folder() == old.spec_root_folder()
            &&& s.spec_title_failures() == old.spec_title_failures() + 1
            &&& s.spec_dry_run_skips() == old.spec_dry_run_skips()
            &&& out.notice is Quiet
        },
        SyncEvent::RootFolders(Err(e)) => {
            &&& s.spec_stage() == SyncStage::Done
            &&& out.action == SyncAction::Finish(Err(Error::Radarr(e)))
            &&& out.notice is Quiet
        },
        SyncEvent::RootFolders(Ok(fs)) => {
            &&& out.notice is Quiet
            &&& if fs@.len() == 0 {
                &&& s.spec_stage() == SyncStage::Done
                &&& out.action == SyncAction::Finish(Err(Error::NoRootFolder))
            } else {
                &&& s.spec_root_folder() == Some(fs@[0].path@)
                &&& s.spec_title_failures() == old.spec_title_failures()
                &&& s.spec_dry_run_skips() == old.spec_dry_run_skips()
                &&& s.spec_titles() == old.spec_titles()
                &&& s.spec_next_title() == old.spec_next_title()
                &&& s.spec_report() == report
                &&& adds_with_root(
                    old.spec_options(),
                    old.spec_candidate()->0,
                    fs@[0].path@,
                    s,
                    out.action,
                )
            }
        },
        SyncEvent::MovieAdded(Ok(())) => {
            &&& continues_titles(
                with_added(report),
                old.spec_titles(),
                old.spec_next_title() + 1,
                s,
                out.action,
            )
            &&& keeps_context(old, s)
            &&& out.notice matches SyncNotice::Added { title, year }
            &&& title@ == old.spec_candidate()->0.title@
            &&& year == old.spec_candidate()->0.year
        },
        SyncEvent::MovieAdded(Err(_)) => {
            &&& continues_titles(
                with_failure(report),
                old.spec_titles(),
                old.spec_next_title() + 1,
                s,
                out.action,
            )
            &&& s.spec_root_folder() == old.spec_root_folder()
            &&& s.spec_title_failures() == old.spec_title_failures() + 1
            &&& s.spec_dry_run_skips() == old.spec_dry_run_skips()
            &&& out.notice is Quiet
        },
    }
}

} // verus!

verus! {

impl SyncState {
    /// Builds the payload that adds `movie` to `path`, or ends the run where `path` is blank.
    fn add_with_root(&mut self, movie: SearchResult, path: String) -> (a: SyncAction)
        requires
            !old(self).options.dry_run,
            old(self).base_wf(),
            old(self).next_title < old(self).titles@.len(),
            old(self).report.unique_titles == old(self).titles@.len(),
        ensures
            final(self).wf(),
            keeps_context(*old(self), *final(self)),
            final(self).spec_titles() == old(self).spec_titles(),
            final(self).spec_next_title() == old(self).spec_next_title(),
            final(self).spec_report() == old(self).spec_report(),
            adds_with_root(old(self).spec_options(), movie, path@, *final(self), a),
    {
        let built = AddMoviePayload::builder(&movie).quality_profile_id(
            self.options.quality_profile_id,
        ).with_root_folder_path(path).build();
        match built {
            Ok(payload) => {
                self.candidate = Some(movie);
                self.stage = SyncStage::AwaitAdd;
                SyncAction::AddMovie { payload }
            },
            Err(_) => {
                self.stage = SyncStage::Done;
                SyncAction::Finish(Err(Error::Radarr(radarr::Error::MissingRootFolder)))
            },
        }
    }

    /// Goes on to add `movie`, fetching Radarr's root folders first where none is known.
    fn offer(&mut self, movie: SearchResult) -> (a: SyncAction)
        requires
            !old(self).options.dry_run,
            old(self).base_wf(),
            old(self).next_title < old(self).titles@.len(),
            old(self).report.unique_titles == old(self).titles@.len(),
        ensures
            final(self).wf(),
            keeps_context(*old(self), *final(self)),
            final(self).spec_titles() == old(self).spec_titles(),
            final(self).spec_next_title() == old(self).spec_next_title(),
            final(self).spec_report() == old(self).spec_report(),
            offers(*old(self), movie, *final(self), a),
    {
        match &self.root_folder {
            Some(p) => {
                let path = p.clone();
                self.add_with_root(movie, path)
            },
            None => {
                self.candidate = Some(movie);
                self.stage = SyncStage::AwaitRootFolders;
                SyncAction::FetchRootFolders
            },
        }
    }

    /// Deals with Radarr's lookup results for the title being searched.
    fn on_results(&mut self, results: Vec<SearchResult>) -> (out: SyncStep)
        requires
            old(self).wf(),
            old(self).stage == SyncStage::AwaitSearch,
        ensures
            final(self).wf(),
            final(self).spec_options() == old(self).spec_options(),
            on_search_results(*old(self), results@, *final(self), out),
    {
        let ghost rs = results@;
        let ghost t = self.spec_titles()[self.spec_next_title()];
        assert(self.titles@[self.next_title as int]@ == t);
        let ix = match_indices(&self.titles[self.next_title], results.as_slice());
        let ghost ms = ordered_matches(t, rs);
        proof {
            assert forall|k: int| 0 <= k < ix@.len() implies (#[trigger] ix@[k] as int) < rs.len() by {
                crate::matching::lemma_match_order_is(t, rs, ix@);
                assert(crate::matching::first_of_movie(t, rs, ix@[k] as int));
            }
            assert(ms.len() == ix@.len());
        }
        let title = self.titles[self.next_title].title.clone();
        if ix.len() == 0 {
            self.report.no_match = self.report.no_match + 1;
            self.next_title = self.next_title + 1;
            let action = self.advance_titles();
            SyncStep { action, notice: SyncNotice::NoExactMatch { title } }
        } else if ix.len() >= 2 {
            let mut candidates: Vec<(String, u32)> = Vec::new();
            let mut k: usize = 0;
            while k < ix.len()
                invariant
                    k <= ix@.len(),
                    ix@ == match_order(t, rs),
                    results@ == rs,
                    ms == ordered_matches(t, rs),
                    forall|j: int| 0 <= j < ix@.len() ==> (#[trigger] ix@[j] as int) < rs.len(),
                    candidates@.len() == k,
                    forall|j: int|
                        0 <= j < k ==> (#[trigger] candidates@[j]).0@ == ms[j].title@
                            && candidates@[j].1 == ms[j].year,
                decreases ix.len() - k,
            {
                let r = &results[ix[k]];
                candidates.push((r.title.clone(), r.year));
                k = k + 1;
            }
            self.report.ambiguous = self.report.ambiguous + 1;
            self.next_title = self.next_title + 1;
            let action = self.advance_titles();
            SyncStep { action, notice: SyncNotice::AmbiguousMatch { title, candidates } }
        } else {
            let mut results = results;
            let movie = results.swap_remove(ix[0]);
            assert(movie == ms[0]);
            if movie.is_already_added() {
                self.report.already_added = self.report.already_added + 1;
                self.next_title = self.next_title + 1;
                let action = self.advance_titles();
                SyncStep { action, notice: SyncNotice::Quiet }
            } else if self.options.dry_run {
                self.dry_run_skips = Ghost(self.dry_run_skips@ + 1);
                self.next_title = self.next_title + 1;
                let year = movie.year;
                let action = self.advance_titles();
                SyncStep { action, notice: SyncNotice::WouldAdd { title: movie.title, year } }
            } else {
                let action = self.offer(movie);
                SyncStep { action, notice: SyncNotice::Quiet }
            }
        }
    }
}

} // verus!

verus! {

impl SyncState {
    /// Takes the response to the action the run waits for and returns the next action.
    pub fn step(&mut self, event: SyncEvent) -> (out: SyncStep)
        requires
            old(self).wf(),
            old(self).awaits(event),
        ensures
            final(self).wf(),
            step_spec(*old(self), event, *final(self), out),
    {
        match event {
            SyncEvent::Markets(Err(e)) => {
                self.stage = SyncStage::Done;
                SyncStep { action: SyncAction::Finish(Err(Error::Alamo(e))), notice: SyncNotice::Quiet }
            },
            SyncEvent::Markets(Ok(markets)) => {
                self.report.markets = markets.len();
                self.markets = markets;
                self.next_market = 0;
                let action = self.advance_markets();
                SyncStep { action, notice: SyncNotice::Quiet }
            },
            SyncEvent::Presentations(Ok(presentations)) => {
                let mut presentations = presentations;
                self.presentations.append(&mut presentations);
                self.report.presentations = self.presentations.len();
                self.next_market = self.next_market + 1;
                let action = self.advance_markets();
                SyncStep { action, notice: SyncNotice::Quiet }
            },
            SyncEvent::Presentations(Err(_)) => {
                self.report.failed = self.report.failed.saturating_add(1);
                self.next_market = self.next_market + 1;
                let action = self.advance_markets();
                SyncStep { action, notice: SyncNotice::Quiet }
            },
            SyncEvent::SearchResults(Ok(results)) => self.on_results(results),
            SyncEvent::SearchResults(Err(_)) => {
                self.report.failed = self.report.failed.saturating_add(1);
                self.title_failures = Ghost(self.title_failures@ + 1);
                self.next_title = self.next_title + 1;
                let action = self.advance_titles();
                SyncStep { action, notice: SyncNotice::Quiet }
            },
            SyncEvent::RootFolders(Err(e)) => {
                self.stage = SyncStage::Done;
                SyncStep {
                    action: SyncAction::Finish(Err(Error::Radarr(e))),
                    notice: SyncNotice::Quiet,
                }
            },
            SyncEvent::RootFolders(Ok(folders)) => {
                if folders.len() == 0 {
                    self.stage = SyncStage::Done;
                    SyncStep {
                        action: SyncAction::Finish(Err(Error::NoRootFolder)),
                        notice: SyncNotice::Quiet,
                    }
                } else {
                    let mut folders = folders;
                    let first = folders.swap_remove(0);
                    let path = first.path;
                    self.root_folder = Some(path.clone());
                    let movie = self.candidate.take().unwrap();
                    let action = self.add_with_root(movie, path);
                    SyncStep { action, notice: SyncNotice::Quiet }
                }
            },
            SyncEvent::MovieAdded(Ok(())) => {
                let movie = self.candidate.take().unwrap();
                self.report.added = self.report.added + 1;
                self.next_title = self.next_title + 1;
                let action = self.advance_titles();
                SyncStep { action, notice: SyncNotice::Added { title: movie.title, year: movie.year } }
            },
            SyncEvent::MovieAdded(Err(_)) => {
                self.candidate = None;
                self.report.failed = self.report.failed.saturating_add(1);
                self.title_failures = Ghost(self.title_failures@ + 1);
                self.next_title = self.next_title + 1;
                let action = self.advance_titles();
                SyncStep { action, notice: SyncNotice::Quiet }
            },
        }
    }
}

} // verus!

verus! {

/// A dry run never asks for Radarr's root folders and never adds a movie.
pub proof fn lemma_dry_run_never_adds(old: SyncState, event: SyncEvent, s: SyncState, out: SyncStep)
    requires
        old.wf(),
        old.awaits(event),
        step_spec(old, event, s, out),
        old.spec_options().dry_run,
    ensures
        !(out.action is AddMovie),
        !(out.action is FetchRootFolders),
{
}

/// When several different movies match a title, the title counts as ambiguous, is reported
/// with every candidate, and no movie is added: the run goes on with the next title.
pub proof fn lemma_ambiguous_adds_none(
    old: SyncState,
    rs: Vec<SearchResult>,
    s: SyncState,
    out: SyncStep,
)
    requires
        old.wf(),
        old.spec_stage() == SyncStage::AwaitSearch,
        step_spec(old, SyncEvent::SearchResults(Ok(rs)), s, out),
        ordered_matches(old.spec_titles()[old.spec_next_title()], rs@).len() >= 2,
    ensures
        out.action is Search || out.action is Finish,
        s.spec_report().ambiguous == old.spec_report().ambiguous + 1,
        s.spec_report().added == old.spec_report().added,
        out.notice is AmbiguousMatch,
        s.spec_next_title() == old.spec_next_title() + 1,
{
}

/// A failed schedule fetch, search or addition does not stop the run: it is counted, and the
/// run goes on with the next market or title.
pub proof fn lemma_failures_do_not_stop(
    old: SyncState,
    event: SyncEvent,
    s: SyncState,
    out: SyncStep,
)
    requires
        old.wf(),
        old.awaits(event),
        step_spec(old, event, s, out),
        event matches SyncEvent::Presentations(Err(_)) || event matches SyncEvent::SearchResults(
            Err(_),
        ) || event matches SyncEvent::MovieAdded(Err(_)),
    ensures
        s.spec_report().failed == one_more(old.spec_report().failed),
        s.spec_report().failed > 0,
        out.action is FetchPresentations || out.action is Search || out.action == SyncAction::Finish(
            final_result(s.spec_report()),
        ),
{
}

/// No step forgets a failure: the failure count never goes down.
pub proof fn lemma_failures_persist(old: SyncState, event: SyncEvent, s: SyncState, out: SyncStep)
    requires
        old.wf(),
        old.awaits(event),
        step_spec(old, event, s, out),
        s.spec_stage() != SyncStage::Done,
    ensures
        s.spec_report().failed >= old.spec_report().failed,
{
}

/// A run that gets through every title ends unsuccessfully exactly when some market,
/// search or add operation failed.
pub proof fn lemma_final_result(report: SyncReport)
    ensures
        final_result(report) is Err <==> report.failed > 0,
        final_result(report) matches Err(e) ==> e == Error::PartialFailure(report.failed),
        final_result(report) matches Ok(r) ==> r == report,
{
}

/// A run that ends successfully has dealt with every distinct title exactly once: each was
/// added, found already in Radarr, left without a match, found ambiguous, or passed over by
/// a dry run.
pub proof fn lemma_success_accounts_for_every_title(
    old: SyncState,
    event: SyncEvent,
    s: SyncState,
    out: SyncStep,
)
    requires
        old.wf(),
        old.awaits(event),
        s.wf(),
        step_spec(old, event, s, out),
        out.action matches SyncAction::Finish(Ok(_)),
    ensures
        ({
            let r = s.spec_report();
            &&& out.action == SyncAction::Finish(Ok(r))
            &&& r.failed == 0
            &&& r.added + r.already_added + r.no_match + r.ambiguous + s.spec_dry_run_skips()
                == r.unique_titles
            &&& r.unique_titles == s.spec_titles().len()
        }),
{
    lemma_finish_ok_is_end(old, event, s, out);
}

/// A successful finish comes only after the last title, with the current report.
proof fn lemma_finish_ok_is_end(old: SyncState, event: SyncEvent, s: SyncState, out: SyncStep)
    requires
        old.wf(),
        old.awaits(event),
        s.wf(),
        step_spec(old, event, s, out),
        out.action matches SyncAction::Finish(Ok(_)),
    ensures
        out.action == SyncAction::Finish(Ok(s.spec_report())),
        s.spec_next_title() == s.spec_titles().len(),
        s.spec_report().failed == 0,
{
}

} // verus!

verus! {

/// Whether `event` reports a failed schedule fetch, search or addition: the failures that a
/// run counts and goes on after.
pub open spec fn is_counted_failure(event: SyncEvent) -> bool {
    ||| event matches SyncEvent::Presentations(Err(_))
    ||| event matches SyncEvent::SearchResults(Err(_))
    ||| event matches SyncEvent::MovieAdded(Err(_))
}

/// The number of counted failures among `events`.
pub open spec fn failures_in(events: Seq<SyncEvent>) -> nat
    decreases events.len(),
{
    if events.len() == 0 {
        0
    } else {
        failures_in(events.drop_last()) + if is_counted_failure(events.last()) {
            1nat
        } else {
            0nat
        }
    }
}

/// `n`, or `usize::MAX` where `n` is larger: a count that stops at `usize::MAX`.
pub open spec fn capped(n: nat) -> usize {
    if n <= usize::MAX {
        n as usize
    } else {
        usize::MAX
    }
}

/// Whether `r` is the outcome of a run that got through every title: a report, or the count of
/// its failed operations.
pub open spec fn is_completed_outcome(r: Result<SyncReport, Error>) -> bool {
    r is Ok || r matches Err(Error::PartialFailure(_))
}

/// Whether `states`, `events` and `outs` are a run: each state waits for the next event, and
/// steps with it to the next state and output.
pub open spec fn is_run(states: Seq<SyncState>, events: Seq<SyncEvent>, outs: Seq<SyncStep>) -> bool {
    &&& states.len() == events.len() + 1
    &&& outs.len() == events.len()
    &&& forall|i: int|
        0 <= i < events.len() ==> (#[trigger] states[i]).wf() && states[i].awaits(events[i])
            && step_spec(states[i], events[i], states[i + 1], outs[i])
}

/// One step counts the failure it is told of, and no other; a run that got through every
/// title finishes with the final result of its counts.
pub proof fn lemma_step_counts_failure(old: SyncState, event: SyncEvent, s: SyncState, out: SyncStep)
    requires
        old.wf(),
        old.awaits(event),
        step_spec(old, event, s, out),
        s.spec_stage() != SyncStage::Done || (out.action matches SyncAction::Finish(r)
            && is_completed_outcome(r)),
    ensures
        s.spec_report().failed == if is_counted_failure(event) {
            one_more(old.spec_report().failed)
        } else {
            old.spec_report().failed
        },
        out.action matches SyncAction::Finish(r) && is_completed_outcome(r) ==> out.action
            == SyncAction::Finish(final_result(s.spec_report())) && s.spec_next_title()
            == s.spec_titles().len(),
{
}

/// The failures counted after `i` steps of a run that has not ended are those among the first
/// `i` events.
proof fn lemma_run_prefix_failures(
    states: Seq<SyncState>,
    events: Seq<SyncEvent>,
    outs: Seq<SyncStep>,
    i: int,
)
    requires
        is_run(states, events, outs),
        states[0].spec_report().failed == 0,
        0 <= i < events.len(),
    ensures
        states[i].spec_report().failed == capped(failures_in(events.take(i))),
    decreases i,
{
    if i == 0 {
        assert(events.take(0).len() == 0);
    } else {
        lemma_run_prefix_failures(states, events, outs, i - 1);
        assert(states[i - 1].wf() && states[i].wf());
        assert(states[i].awaits(events[i]));
        lemma_step_counts_failure(states[i - 1], events[i - 1], states[i], outs[i - 1]);
        assert(events.take(i).drop_last() =~= events.take(i - 1));
        assert(events.take(i).last() == events[i - 1]);
    }
}

/// Over a whole run, the failure count is the number of failed schedule fetches, searches and
/// additions, and a run that gets through every title ends with `PartialFailure` of that count
/// when it is positive, and with the report otherwise.
pub proof fn lemma_run_failures(states: Seq<SyncState>, events: Seq<SyncEvent>, outs: Seq<SyncStep>)
    requires
        is_run(states, events, outs),
        states[0].spec_report().failed == 0,
    ensures
        forall|i: int|
            0 <= i < events.len() ==> (#[trigger] states[i]).spec_report().failed == capped(
                failures_in(events.take(i)),
            ),
        events.len() > 0 && (outs.last().action matches SyncAction::Finish(r)
            && is_completed_outcome(r)) ==> {
            let report = states.last().spec_report();
            &&& report.failed == capped(failures_in(events))
            &&& outs.last().action == SyncAction::Finish(final_result(report))
            &&& (failures_in(events) > 0 <==> final_result(report) is Err)
            &&& final_result(report) matches Err(e) ==> e == Error::PartialFailure(
                capped(failures_in(events)),
            )
            &&& final_result(report) matches Ok(r) ==> r == report && r.failed == 0
            &&& states.last().spec_next_title() == states.last().spec_titles().len()
        },
{
    assert forall|i: int| 0 <= i < events.len() implies (#[trigger] states[i]).spec_report().failed
        == capped(failures_in(events.take(i))) by {
        lemma_run_prefix_failures(states, events, outs, i);
    }
    let n = events.len() as int;
    if n > 0 && (outs.last().action matches SyncAction::Finish(r) && is_completed_outcome(r)) {
        lemma_run_prefix_failures(states, events, outs, n - 1);
        assert(states[n - 1].wf());
        lemma_step_counts_failure(states[n - 1], events[n - 1], states[n], outs[n - 1]);
        assert(events.take(n - 1) =~= events.drop_last());
        assert(states.last() == states[n]);
        assert(outs.last() == outs[n - 1]);
    }
}

/// Every state of a run has the settings that the run started with.
proof fn lemma_run_keeps_options(
    states: Seq<SyncState>,
    events: Seq<SyncEvent>,
    outs: Seq<SyncStep>,
    i: int,
)
    requires
        is_run(states, events, outs),
        0 <= i <= events.len(),
    ensures
        states[i].spec_options() == states[0].spec_options(),
    decreases i,
{
    if i > 0 {
        lemma_run_keeps_options(states, events, outs, i - 1);
        assert(states[i - 1].wf());
    }
}

/// A dry run never asks for Radarr's root folders and never adds a movie, at any step.
pub proof fn lemma_dry_run_never_adds_in_a_run(
    states: Seq<SyncState>,
    events: Seq<SyncEvent>,
    outs: Seq<SyncStep>,
)
    requires
        is_run(states, events, outs),
        states[0].spec_options().dry_run,
    ensures
        forall|i: int|
            0 <= i < outs.len() ==> !((#[trigger] outs[i]).action is AddMovie) && !(
            outs[i].action is FetchRootFolders),
{
    assert forall|i: int| 0 <= i < outs.len() implies !((#[trigger] outs[i]).action is AddMovie)
        && !(outs[i].action is FetchRootFolders) by {
        lemma_run_keeps_options(states, events, outs, i);
        assert(states[i].wf());
        lemma_dry_run_never_adds(states[i], events[i], states[i + 1], outs[i]);
    }
}

/// The presentations of every schedule fetched among `events`, in order.
pub open spec fn fetched_presentations(events: Seq<SyncEvent>) -> Seq<Presentation>
    decreases events.len(),
{
    if events.len() == 0 {
        Seq::empty()
    } else {
        let prev = fetched_presentations(events.drop_last());
        match events.last() {
            SyncEvent::Presentations(Ok(ps)) => prev + ps@,
            _ => prev,
        }
    }
}

/// Whether `s` still waits for the market list or a schedule.
pub open spec fn in_market_phase(s: SyncState) -> bool {
    s.spec_stage() == SyncStage::AwaitMarkets || s.spec_stage() == SyncStage::AwaitPresentations
}

/// What the counts of `s` say of the `events` of a run so far: the presentations fetched,
/// the markets listed by the first event, and the titles kept of the presentations.
pub open spec fn report_inv(s: SyncState, events: Seq<SyncEvent>) -> bool {
    let ps = fetched_presentations(events);
    let r = s.spec_report();
    &&& r.presentations == ps.len()
    &&& in_market_phase(s) ==> s.spec_presentations() == ps
    &&& !in_market_phase(s) ==> s.spec_titles() == unique_title_views(ps)
    &&& s.spec_stage() == SyncStage::AwaitMarkets <==> events.len() == 0
    &&& events.len() > 0 ==> (events[0] matches SyncEvent::Markets(Ok(ms)) && r.markets
        == ms@.len())
    &&& s.spec_options().dry_run ==> r.added == 0
    &&& !s.spec_options().dry_run ==> s.spec_dry_run_skips() == 0
}

/// One step keeps what the counts say of the run, unless it ends the run on an error that
/// stops it.
proof fn lemma_step_keeps_report(
    old: SyncState,
    event: SyncEvent,
    s: SyncState,
    out: SyncStep,
    events: Seq<SyncEvent>,
)
    requires
        old.wf(),
        old.awaits(event),
        step_spec(old, event, s, out),
        report_inv(old, events),
        s.spec_stage() != SyncStage::Done || (out.action matches SyncAction::Finish(r)
            && is_completed_outcome(r)),
    ensures
        report_inv(s, events.push(event)),
{
    assert(events.push(event).drop_last() =~= events);
    assert(events.push(event).last() == event);
    if events.len() > 0 {
        assert(events.push(event)[0] == events[0]);
    }
    if let SyncEvent::Markets(Ok(ms)) = event {
        assert(ms.len() == ms@.len());
    }
}

/// The counts of a run say, after each step that has not stopped it, what the run fetched.
proof fn lemma_run_prefix_report(
    states: Seq<SyncState>,
    events: Seq<SyncEvent>,
    outs: Seq<SyncStep>,
    i: int,
)
    requires
        is_run(states, events, outs),
        report_inv(states[0], Seq::empty()),
        0 <= i < events.len(),
    ensures
        report_inv(states[i], events.take(i)),
    decreases i,
{
    if i == 0 {
        assert(events.take(0) =~= Seq::<SyncEvent>::empty());
    } else {
        lemma_run_prefix_report(states, events, outs, i - 1);
        assert(states[i - 1].wf());
        assert(states[i].awaits(events[i]));
        lemma_step_keeps_report(states[i - 1], events[i - 1], states[i], outs[i - 1], events.take(i - 1));
        assert(events.take(i - 1).push(events[i - 1]) =~= events.take(i));
    }
}

/// The report of a run that ends successfully: the markets of the market list; the
/// presentations of every schedule fetched, in market order; the distinct titles kept of them;
/// no failure; no movie added by a dry run; and otherwise every title added, found in Radarr
/// already, left without a match or found ambiguous.
pub proof fn lemma_run_report(states: Seq<SyncState>, events: Seq<SyncEvent>, outs: Seq<SyncStep>)
    requires
        is_run(states, events, outs),
        states.last().wf(),
        states[0].spec_stage() == SyncStage::AwaitMarkets,
        states[0].spec_presentations().len() == 0,
        states[0].spec_report() == empty_report(),
        states[0].spec_dry_run_skips() == 0,
        events.len() > 0,
        outs.last().action matches SyncAction::Finish(Ok(rep)),
    ensures
        ({
            let rep = states.last().spec_report();
            let ps = fetched_presentations(events);
            &&& outs.last().action == SyncAction::Finish(Ok(rep))
            &&& events[0] matches SyncEvent::Markets(Ok(ms)) && rep.markets == ms@.len()
            &&& rep.presentations == ps.len()
            &&& rep.unique_titles == unique_title_views(ps).len()
            &&& rep.failed == 0
            &&& states[0].spec_options().dry_run ==> rep.added == 0
            &&& !states[0].spec_options().dry_run ==> rep.added + rep.already_added + rep.no_match
                + rep.ambiguous == rep.unique_titles
        }),
{
    let n = events.len() as int;
    assert(Seq::<SyncEvent>::empty().len() == 0);
    assert(fetched_presentations(Seq::<SyncEvent>::empty()) =~= states[0].spec_presentations());
    lemma_run_failures(states, events, outs);
    lemma_run_prefix_report(states, events, outs, n - 1);
    assert(states[n - 1].wf());
    lemma_step_keeps_report(states[n - 1], events[n - 1], states[n], outs[n - 1], events.take(n - 1));
    assert(events.take(n - 1).push(events[n - 1]) =~= events);
    lemma_run_keeps_options(states, events, outs, n);
    assert(states.last() == states[n]);
    assert(outs.last() == outs[n - 1]);
    lemma_success_accounts_for_every_title(states[n - 1], events[n - 1], states[n], outs[n - 1]);
}

/// The lookup results of the last successful search among `events`, if any.
pub open spec fn last_lookup(events: Seq<SyncEvent>) -> Option<Seq<SearchResult>>
    decreases events.len(),
{
    if events.len() == 0 {
        None
    } else {
        match events.last() {
            SyncEvent::SearchResults(Ok(rs)) => Some(rs@),
            _ => last_lookup(events.drop_last()),
        }
    }
}

/// What holds of a movie that `s` is about to add after `events`: the run is no dry run, and
/// the movie is the only exact match of the current title in the last lookup, and is not in
/// Radarr already; root folders are fetched only where none is known.
pub open spec fn add_inv(s: SyncState, events: Seq<SyncEvent>) -> bool {
    &&& s.spec_stage() == SyncStage::AwaitRootFolders ==> s.spec_root_folder() is None
    &&& (s.spec_stage() == SyncStage::AwaitRootFolders || s.spec_stage() == SyncStage::AwaitAdd)
        ==> {
        &&& !s.spec_options().dry_run
        &&& last_lookup(events) matches Some(rs) && ordered_matches(
            s.spec_titles()[s.spec_next_title()],
            rs,
        ) == seq![s.spec_candidate()->0]
        &&& !already_added(s.spec_candidate()->0)
    }
}

/// One step keeps what holds of a movie about to be added; a movie is added only as that
/// movie, to the known root folder; root folders are fetched only where none is known.
proof fn lemma_step_adds(
    old: SyncState,
    event: SyncEvent,
    s: SyncState,
    out: SyncStep,
    events: Seq<SyncEvent>,
)
    requires
        old.wf(),
        old.awaits(event),
        step_spec(old, event, s, out),
        add_inv(old, events),
    ensures
        s.spec_stage() != SyncStage::Done ==> add_inv(s, events.push(event)),
        s.spec_stage() != SyncStage::Done && old.spec_root_folder() is Some ==> s.spec_root_folder()
            == old.spec_root_folder(),
        out.action is FetchRootFolders ==> !old.spec_options().dry_run
            && old.spec_root_folder() is None,
        out.action matches SyncAction::AddMovie { payload } ==> {
            &&& s.spec_stage() == SyncStage::AwaitAdd
            &&& add_inv(s, events.push(event))
            &&& s.spec_root_folder() matches Some(root) && payload_for(
                payload,
                s.spec_candidate()->0,
                old.spec_options().quality_profile_id,
                root,
                true,
                true,
            )
        },
{
    assert(events.push(event).drop_last() =~= events);
    assert(events.push(event).last() == event);
    if let SyncEvent::SearchResults(Ok(rs)) = event {
        let ms = ordered_matches(old.spec_titles()[old.spec_next_title()], rs@);
        if ms.len() == 1 {
            assert(ms =~= seq![ms[0]]);
        }
    }
}

/// The movies a run adds: never in a dry run; each only as the only exact match, not yet in
/// Radarr, of the title being looked up in the last lookup; each to the known root folder, with
/// the configured quality profile, monitored and searched for. Root folders are fetched only
/// where none is known, so a configured root folder is kept, and used for every movie added.
pub proof fn lemma_run_adds(states: Seq<SyncState>, events: Seq<SyncEvent>, outs: Seq<SyncStep>)
    requires
        is_run(states, events, outs),
        states[0].spec_stage() == SyncStage::AwaitMarkets,
    ensures
        forall|i: int|
            0 <= i < outs.len() ==> ((#[trigger] outs[i]).action is FetchRootFolders
                ==> !states[0].spec_options().dry_run && states[i].spec_root_folder() is None),
        forall|i: int|
            0 <= i < outs.len() ==> ((#[trigger] outs[i]).action matches SyncAction::AddMovie {
                payload,
            } ==> {
                let s = states[i + 1];
                let m = s.spec_candidate()->0;
                &&& !states[0].spec_options().dry_run
                &&& last_lookup(events.take(i + 1)) matches Some(rs) && ordered_matches(
                    s.spec_titles()[s.spec_next_title()],
                    rs,
                ) == seq![m]
                &&& !already_added(m)
                &&& s.spec_root_folder() matches Some(root) && payload_for(
                    payload,
                    m,
                    states[0].spec_options().quality_profile_id,
                    root,
                    true,
                    true,
                )
            }),
        states[0].spec_root_folder() is Some ==> forall|i: int|
            0 <= i < outs.len() ==> !((#[trigger] outs[i]).action is FetchRootFolders)
                && states[i].spec_root_folder() == states[0].spec_root_folder() && (
            outs[i].action is AddMovie ==> states[i + 1].spec_root_folder()
                == states[0].spec_root_folder()),
{
    assert forall|i: int| 0 <= i < outs.len() implies add_inv(#[trigger] states[i], events.take(i))
        && (states[0].spec_root_folder() is Some ==> states[i].spec_root_folder()
        == states[0].spec_root_folder()) by {
        lemma_run_prefix_adds(states, events, outs, i);
    }
    assert forall|i: int| 0 <= i < outs.len() implies ((#[trigger] outs[i]).action
        is FetchRootFolders ==> !states[0].spec_options().dry_run
        && states[i].spec_root_folder() is None) && (outs[i].action matches SyncAction::AddMovie {
        payload,
    } ==> {
        let s = states[i + 1];
        let m = s.spec_candidate()->0;
        &&& !states[0].spec_options().dry_run
        &&& last_lookup(events.take(i + 1)) matches Some(rs) && ordered_matches(
            s.spec_titles()[s.spec_next_title()],
            rs,
        ) == seq![m]
        &&& !already_added(m)
        &&& s.spec_root_folder() matches Some(root) && payload_for(
            payload,
            m,
            states[0].spec_options().quality_profile_id,
            root,
            true,
            true,
        )
    }) by {
        lemma_run_prefix_adds(states, events, outs, i);
        lemma_run_keeps_options(states, events, outs, i);
        lemma_run_keeps_options(states, events, outs, i + 1);
        assert(states[i].wf());
        lemma_step_adds(states[i], events[i], states[i + 1], outs[i], events.take(i));
        assert(events.take(i).push(events[i]) =~= events.take(i + 1));
    }
    assert forall|i: int| 0 <= i < outs.len() && states[0].spec_root_folder() is Some implies !((
    #[trigger] outs[i]).action is FetchRootFolders) && states[i].spec_root_folder()
        == states[0].spec_root_folder() && (outs[i].action is AddMovie ==> states[i
        + 1].spec_root_folder() == states[0].spec_root_folder()) by {
        lemma_run_prefix_adds(states, events, outs, i);
        assert(states[i].wf());
        lemma_step_adds(states[i], events[i], states[i + 1], outs[i], events.take(i));
    }
}

/// After each step of a run that has not ended, what holds of a movie about to be added holds,
/// and a root folder known at the start is still the one known.
proof fn lemma_run_prefix_adds(
    states: Seq<SyncState>,
    events: Seq<SyncEvent>,
    outs: Seq<SyncStep>,
    i: int,
)
    requires
        is_run(states, events, outs),
        states[0].spec_stage() == SyncStage::AwaitMarkets,
        0 <= i < events.len(),
    ensures
        add_inv(states[i], events.take(i)),
        states[0].spec_root_folder() is Some ==> states[i].spec_root_folder()
            == states[0].spec_root_folder(),
    decreases i,
{
    if i > 0 {
        lemma_run_prefix_adds(states, events, outs, i - 1);
        assert(states[i - 1].wf());
        assert(states[i].awaits(events[i]));
        lemma_step_adds(states[i - 1], events[i - 1], states[i], outs[i - 1], events.take(i - 1));
        assert(events.take(i - 1).push(events[i - 1]) =~= events.take(i));
    }
}

/// The market slugs of the schedules that `outs` ask for, in order.
pub open spec fn market_fetches(outs: Seq<SyncStep>) -> Seq<Seq<char>>
    decreases outs.len(),
{
    if outs.len() == 0 {
        Seq::empty()
    } else {
        let prev = market_fetches(outs.drop_last());
        match outs.last().action {
            SyncAction::FetchPresentations { market_slug } => prev.push(market_slug@),
            _ => prev,
        }
    }
}

/// The titles that `outs` ask Radarr to look up, in order.
pub open spec fn title_searches(outs: Seq<SyncStep>) -> Seq<Seq<char>>
    decreases outs.len(),
{
    if outs.len() == 0 {
        Seq::empty()
    } else {
        let prev = title_searches(outs.drop_last());
        match outs.last().action {
            SyncAction::Search { title } => prev.push(title@),
            _ => prev,
        }
    }
}

/// The slugs of `ms`, in order.
pub open spec fn market_slugs(ms: Seq<Market>) -> Seq<Seq<char>> {
    ms.map_values(|m: Market| m.slug@)
}

/// The normalized titles of `ts`, in order.
pub open spec fn title_names(ts: Seq<(Seq<char>, Option<u32>)>) -> Seq<Seq<char>> {
    ts.map_values(|t: (Seq<char>, Option<u32>)| t.0)
}

/// Which requests a run has made after `events`, with outputs `outs`: each market's schedule
/// once, in the order of the market list; then each title once, in the order of the titles.
pub open spec fn order_inv(s: SyncState, events: Seq<SyncEvent>, outs: Seq<SyncStep>) -> bool {
    &&& s.spec_stage() == SyncStage::AwaitMarkets <==> events.len() == 0
    &&& events.len() == 0 ==> market_fetches(outs).len() == 0 && title_searches(outs).len() == 0
    &&& events.len() > 0 ==> (events[0] matches SyncEvent::Markets(Ok(ms)) && {
        let f = market_fetches(outs);
        let t = title_searches(outs);
        &&& s.spec_stage() == SyncStage::AwaitPresentations ==> {
            &&& s.spec_markets() == ms@
            &&& f == market_slugs(ms@).take(s.spec_next_market() + 1)
            &&& t.len() == 0
        }
        &&& !in_market_phase(s) ==> f == market_slugs(ms@)
        &&& s.spec_stage() == SyncStage::Done ==> t == title_names(s.spec_titles())
        &&& (s.spec_stage() == SyncStage::AwaitSearch || s.spec_stage()
            == SyncStage::AwaitRootFolders || s.spec_stage() == SyncStage::AwaitAdd) ==> t
            == title_names(s.spec_titles()).take(s.spec_next_title() + 1)
    })
}

/// One step that does not stop a run keeps which requests the run has made.
proof fn lemma_step_keeps_order(
    old: SyncState,
    event: SyncEvent,
    s: SyncState,
    out: SyncStep,
    events: Seq<SyncEvent>,
    outs: Seq<SyncStep>,
)
    requires
        old.wf(),
        old.awaits(event),
        step_spec(old, event, s, out),
        order_inv(old, events, outs),
        s.spec_stage() != SyncStage::Done || (out.action matches SyncAction::Finish(r)
            && is_completed_outcome(r)),
    ensures
        order_inv(s, events.push(event), outs.push(out)),
{
    let outs2 = outs.push(out);
    assert(outs2.drop_last() =~= outs);
    assert(outs2.last() == out);
    if events.len() > 0 {
        assert(events.push(event)[0] == events[0]);
    }
    let f = market_fetches(outs2);
    let t = title_searches(outs2);
    match event {
        SyncEvent::Markets(Ok(ms)) => {
            assert(events.push(event)[0] == event);
            if ms@.len() > 0 {
                assert(f =~= market_slugs(ms@).take(1));
            } else {
                assert(f =~= market_slugs(ms@));
                let titles = s.spec_titles();
                if titles.len() > 0 {
                    assert(t =~= title_names(titles).take(1));
                } else {
                    assert(t =~= title_names(titles));
                }
            }
        },
        SyncEvent::Presentations(_) => {
            let ms = events[0]->Markets_0->Ok_0;
            let next = old.spec_next_market() + 1;
            if next < ms@.len() {
                assert(f =~= market_slugs(ms@).take(next + 1));
            } else {
                assert(market_slugs(ms@).take(old.spec_next_market() + 1) =~= market_slugs(ms@));
                let titles = s.spec_titles();
                if titles.len() > 0 {
                    assert(t =~= title_names(titles).take(1));
                } else {
                    assert(t =~= title_names(titles));
                }
            }
        },
        _ => {
            let titles = old.spec_titles();
            let next = old.spec_next_title() + 1;
            if s.spec_stage() == SyncStage::AwaitSearch {
                assert(t =~= title_names(titles).take(next + 1));
            } else if s.spec_stage() == SyncStage::Done {
                assert(title_names(titles).take(old.spec_next_title() + 1) =~= title_names(titles));
            }
        },
    }
}

/// After each step of a run that has not ended, the run has made the requests that
/// `order_inv` lists.
proof fn lemma_run_prefix_order(
    states: Seq<SyncState>,
    events: Seq<SyncEvent>,
    outs: Seq<SyncStep>,
    i: int,
)
    requires
        is_run(states, events, outs),
        states[0].spec_stage() == SyncStage::AwaitMarkets,
        0 <= i < events.len(),
    ensures
        order_inv(states[i], events.take(i), outs.take(i)),
    decreases i,
{
    if i == 0 {
        assert(outs.take(0).len() == 0);
    } else {
        lemma_run_prefix_order(states, events, outs, i - 1);
        assert(states[i - 1].wf());
        assert(states[i].awaits(events[i]));
        lemma_step_keeps_order(
            states[i - 1],
            events[i - 1],
            states[i],
            outs[i - 1],
            events.take(i - 1),
            outs.take(i - 1),
        );
        assert(events.take(i - 1).push(events[i - 1]) =~= events.take(i));
        assert(outs.take(i - 1).push(outs[i - 1]) =~= outs.take(i));
    }
}

/// A run that gets through every title has asked for the schedule of each market of the
/// market list once, in the order of the list, and then looked up each distinct title of the
/// presentations fetched once, in order.
#[verifier::rlimit(40)]
pub proof fn lemma_run_request_order(
    states: Seq<SyncState>,
    events: Seq<SyncEvent>,
    outs: Seq<SyncStep>,
)
    requires
        is_run(states, events, outs),
        states[0].spec_stage() == SyncStage::AwaitMarkets,
        states[0].spec_presentations().len() == 0,
        states[0].spec_report() == empty_report(),
        states[0].spec_dry_run_skips() == 0,
        events.len() > 0,
        outs.last().action matches SyncAction::Finish(r) && is_completed_outcome(r),
    ensures
        events[0] matches SyncEvent::Markets(Ok(ms)) && market_fetches(outs) == market_slugs(
            ms@,
        ),
        title_searches(outs) == title_names(unique_title_views(fetched_presentations(events))),
{
    let n = events.len() as int;
    assert(fetched_presentations(Seq::<SyncEvent>::empty()) =~= states[0].spec_presentations());
    lemma_run_prefix_order(states, events, outs, n - 1);
    lemma_run_prefix_report(states, events, outs, n - 1);
    assert(states[n - 1].wf());
    assert(outs.last() == outs[n - 1]);
    lemma_step_keeps_order(
        states[n - 1],
        events[n - 1],
        states[n],
        outs[n - 1],
        events.take(n - 1),
        outs.take(n - 1),
    );
    lemma_step_keeps_report(states[n - 1], events[n - 1], states[n], outs[n - 1], events.take(n - 1));
    lemma_step_counts_failure(states[n - 1], events[n - 1], states[n], outs[n - 1]);
    assert(events.take(n - 1).push(events[n - 1]) =~= events);
    assert(outs.take(n - 1).push(outs[n - 1]) =~= outs);
}

/// Whether `s` deals with titles and has not ended: it waits for a lookup, root folders or an
/// addition.
pub open spec fn in_title_phase(s: SyncState) -> bool {
    ||| s.spec_stage() == SyncStage::AwaitSearch
    ||| s.spec_stage() == SyncStage::AwaitRootFolders
    ||| s.spec_stage() == SyncStage::AwaitAdd
}

/// A step that does not end the run never goes back: in the title phase it keeps the titles
/// and never lowers the count of titles dealt with, and the answer to an addition moves on to
/// the next title.
proof fn lemma_step_title_progress(old: SyncState, event: SyncEvent, s: SyncState, out: SyncStep)
    requires
        old.wf(),
        old.awaits(event),
        step_spec(old, event, s, out),
        s.spec_stage() != SyncStage::Done,
    ensures
        in_title_phase(old) ==> in_title_phase(s) && s.spec_titles() == old.spec_titles()
            && s.spec_next_title() >= old.spec_next_title(),
        old.spec_stage() == SyncStage::AwaitAdd ==> s.spec_next_title() == old.spec_next_title()
            + 1,
        in_market_phase(old) ==> in_market_phase(s) || (in_title_phase(s)
            && s.spec_next_title() == 0),
{
}

/// Along a run, the title phase keeps its titles and the count of titles dealt with never
/// goes down; after an addition is asked for, the count is higher at every later state.
proof fn lemma_run_title_progress(
    states: Seq<SyncState>,
    events: Seq<SyncEvent>,
    outs: Seq<SyncStep>,
    m: int,
    k: int,
)
    requires
        is_run(states, events, outs),
        0 <= m <= k <= events.len(),
        in_title_phase(states[m]),
        k == events.len() ==> states[k].spec_stage() != SyncStage::Done,
    ensures
        in_title_phase(states[k]),
        states[k].spec_titles() == states[m].spec_titles(),
        states[k].spec_next_title() >= states[m].spec_next_title(),
        m < k && states[m].spec_stage() == SyncStage::AwaitAdd ==> states[k].spec_next_title()
            > states[m].spec_next_title(),
    decreases k - m,
{
    if m < k {
        assert(states[m].wf());
        assert(states[m].awaits(events[m]));
        if m + 1 < events.len() {
            assert(states[m + 1].awaits(events[m + 1]));
        }
        lemma_step_title_progress(states[m], events[m], states[m + 1], outs[m]);
        lemma_run_title_progress(states, events, outs, m + 1, k);
    }
}

/// A run asks to add a movie at most once for each distinct title: a later addition is for a
/// later title of the same list.
pub proof fn lemma_run_adds_each_title_once(
    states: Seq<SyncState>,
    events: Seq<SyncEvent>,
    outs: Seq<SyncStep>,
)
    requires
        is_run(states, events, outs),
        states[0].spec_stage() == SyncStage::AwaitMarkets,
    ensures
        forall|i: int, j: int|
            0 <= i < j < outs.len() && (#[trigger] outs[i]).action is AddMovie && (
            #[trigger] outs[j]).action is AddMovie ==> states[i + 1].spec_titles() == states[j
                + 1].spec_titles() && states[i + 1].spec_next_title() < states[j
                + 1].spec_next_title(),
{
    assert forall|i: int, j: int|
        0 <= i < j < outs.len() && (#[trigger] outs[i]).action is AddMovie && (
        #[trigger] outs[j]).action is AddMovie implies states[i + 1].spec_titles() == states[j
        + 1].spec_titles() && states[i + 1].spec_next_title() < states[j + 1].spec_next_title() by {
        lemma_run_prefix_adds(states, events, outs, i);
        lemma_run_prefix_adds(states, events, outs, j);
        assert(states[i].wf() && states[j].wf());
        lemma_step_adds(states[i], events[i], states[i + 1], outs[i], events.take(i));
        lemma_step_adds(states[j], events[j], states[j + 1], outs[j], events.take(j));
        lemma_run_title_progress(states, events, outs, i + 1, j + 1);
    }
}

/// A step that does not end the run keeps a known root folder, and never waits for root
/// folders while one is known.
proof fn lemma_step_keeps_root(old: SyncState, event: SyncEvent, s: SyncState, out: SyncStep)
    requires
        old.wf(),
        old.awaits(event),
        step_spec(old, event, s, out),
        old.spec_root_folder() is Some,
        old.spec_stage() != SyncStage::AwaitRootFolders,
        s.spec_stage() != SyncStage::Done,
    ensures
        s.spec_root_folder() == old.spec_root_folder(),
        s.spec_stage() != SyncStage::AwaitRootFolders,
        !(out.action is FetchRootFolders),
{
}

/// Along a run, a known root folder stays the one known at every later state that has not
/// ended.
proof fn lemma_run_root_persists(
    states: Seq<SyncState>,
    events: Seq<SyncEvent>,
    outs: Seq<SyncStep>,
    m: int,
    k: int,
)
    requires
        is_run(states, events, outs),
        0 <= m <= k <= events.len(),
        states[m].spec_root_folder() is Some,
        states[m].spec_stage() != SyncStage::AwaitRootFolders,
        k == events.len() ==> states[k].spec_stage() != SyncStage::Done,
    ensures
        states[k].spec_root_folder() == states[m].spec_root_folder(),
        states[k].spec_stage() != SyncStage::AwaitRootFolders,
        k < events.len() ==> !(outs[k].action is FetchRootFolders),
    decreases k - m,
{
    if m < k {
        assert(states[m].wf());
        assert(states[m].awaits(events[m]));
        if m + 1 < events.len() {
            assert(states[m + 1].awaits(events[m + 1]));
        }
        lemma_step_keeps_root(states[m], events[m], states[m + 1], outs[m]);
        lemma_run_root_persists(states, events, outs, m + 1, k);
    } else if k < events.len() {
        assert(states[k].wf());
        assert(states[k].awaits(events[k]));
        if k + 1 < events.len() {
            assert(states[k + 1].awaits(events[k + 1]));
        }
        if states[k + 1].spec_stage() != SyncStage::Done {
            lemma_step_keeps_root(states[k], events[k], states[k + 1], outs[k]);
        }
    }
}

/// Asking for root folders waits for them.
proof fn lemma_step_asks_root_folders(old: SyncState, event: SyncEvent, s: SyncState, out: SyncStep)
    requires
        old.wf(),
        old.awaits(event),
        step_spec(old, event, s, out),
        out.action is FetchRootFolders,
    ensures
        s.spec_stage() == SyncStage::AwaitRootFolders,
{
}

/// The answer to a request for root folders never asks for them again; unless it ends the
/// run, it makes the first folder listed the known root and waits for an addition.
proof fn lemma_step_root_answer(old: SyncState, event: SyncEvent, s: SyncState, out: SyncStep)
    requires
        old.wf(),
        old.awaits(event),
        step_spec(old, event, s, out),
        old.spec_stage() == SyncStage::AwaitRootFolders,
    ensures
        !(out.action is FetchRootFolders),
        s.spec_stage() != SyncStage::Done ==> {
            &&& s.spec_stage() == SyncStage::AwaitAdd
            &&& event matches SyncEvent::RootFolders(Ok(fs)) && fs@.len() > 0
                && s.spec_root_folder() == Some(fs@[0].path@)
        },
        event matches SyncEvent::RootFolders(Err(e)) ==> out.action == SyncAction::Finish(
            Err(Error::Radarr(e)),
        ),
        (event matches SyncEvent::RootFolders(Ok(fs)) && fs@.len() == 0) ==> out.action
            == SyncAction::Finish(Err(Error::NoRootFolder)),
{
}

/// Once root folders have been asked for, no later output asks for them again.
proof fn lemma_root_folders_not_again(
    states: Seq<SyncState>,
    events: Seq<SyncEvent>,
    outs: Seq<SyncStep>,
    i: int,
    j: int,
)
    requires
        is_run(states, events, outs),
        0 <= i < j < outs.len(),
        outs[i].action is FetchRootFolders,
    ensures
        !(outs[j].action is FetchRootFolders),
{
    assert(states[i].wf() && states[i].awaits(events[i]));
    lemma_step_asks_root_folders(states[i], events[i], states[i + 1], outs[i]);
    assert(states[i + 1].wf() && states[i + 1].awaits(events[i + 1]));
    lemma_step_root_answer(states[i + 1], events[i + 1], states[i + 2], outs[i + 1]);
    if j > i + 1 {
        assert(states[i + 2].awaits(events[i + 2]));
        lemma_run_root_persists(states, events, outs, i + 2, j);
    }
}

/// Once an addition has been asked for, no later output asks for root folders.
proof fn lemma_no_root_folders_after_add(
    states: Seq<SyncState>,
    events: Seq<SyncEvent>,
    outs: Seq<SyncStep>,
    i: int,
    j: int,
)
    requires
        is_run(states, events, outs),
        states[0].spec_stage() == SyncStage::AwaitMarkets,
        0 <= i < j < outs.len(),
        outs[i].action is AddMovie,
    ensures
        !(outs[j].action is FetchRootFolders),
{
    lemma_run_prefix_adds(states, events, outs, i);
    assert(states[i].wf());
    lemma_step_adds(states[i], events[i], states[i + 1], outs[i], events.take(i));
    assert(states[i + 1].awaits(events[i + 1]));
    lemma_run_root_persists(states, events, outs, i + 1, j);
}

/// Every movie added after a non-empty list of root folders came back goes to the first folder
/// listed.
proof fn lemma_adds_use_fetched_root(
    states: Seq<SyncState>,
    events: Seq<SyncEvent>,
    outs: Seq<SyncStep>,
    i: int,
    j: int,
)
    requires
        is_run(states, events, outs),
        states[0].spec_stage() == SyncStage::AwaitMarkets,
        0 <= i && i + 1 <= j < outs.len(),
        outs[i].action is FetchRootFolders,
        outs[j].action is AddMovie,
    ensures
        events[i + 1] matches SyncEvent::RootFolders(Ok(fs)) && fs@.len() > 0
            && states[j + 1].spec_root_folder() == Some(fs@[0].path@),
{
    assert(states[i].wf() && states[i].awaits(events[i]));
    lemma_step_asks_root_folders(states[i], events[i], states[i + 1], outs[i]);
    assert(states[i + 1].wf() && states[i + 1].awaits(events[i + 1]));
    lemma_run_prefix_adds(states, events, outs, j);
    assert(states[j].wf());
    lemma_step_adds(states[j], events[j], states[j + 1], outs[j], events.take(j));
    if j == i + 1 {
        lemma_step_root_answer(states[i + 1], events[i + 1], states[i + 2], outs[i + 1]);
    } else {
        assert(states[i + 2].awaits(events[i + 2]));
        lemma_step_root_answer(states[i + 1], events[i + 1], states[i + 2], outs[i + 1]);
        lemma_run_root_persists(states, events, outs, i + 2, j + 1);
    }
}

/// A run asks for Radarr's root folders at most once, and never after asking to add a movie;
/// the answer decides: an error ends the run with it, an empty list ends it with
/// `NoRootFolder`, and otherwise every movie added later goes to the first folder listed.
pub proof fn lemma_run_root_folders_once(
    states: Seq<SyncState>,
    events: Seq<SyncEvent>,
    outs: Seq<SyncStep>,
)
    requires
        is_run(states, events, outs),
        states[0].spec_stage() == SyncStage::AwaitMarkets,
    ensures
        forall|i: int, j: int|
            0 <= i < j < outs.len() && (#[trigger] outs[i]).action is FetchRootFolders ==> !((
            #[trigger] outs[j]).action is FetchRootFolders),
        forall|i: int, j: int|
            0 <= i < j < outs.len() && (#[trigger] outs[i]).action is AddMovie ==> !((
            #[trigger] outs[j]).action is FetchRootFolders),
        forall|i: int|
            0 <= i && i + 1 < outs.len() && (#[trigger] outs[i]).action is FetchRootFolders ==> {
                &&& events[i + 1] matches SyncEvent::RootFolders(Err(e)) ==> outs[i + 1].action
                    == SyncAction::Finish(Err(Error::Radarr(e)))
                &&& (events[i + 1] matches SyncEvent::RootFolders(Ok(fs)) && fs@.len() == 0)
                    ==> outs[i + 1].action == SyncAction::Finish(Err(Error::NoRootFolder))
            },
        forall|i: int, j: int|
            0 <= i && i + 1 <= j < outs.len() && (#[trigger] outs[i]).action is FetchRootFolders
                && (#[trigger] outs[j]).action is AddMovie ==> (events[i + 1] matches SyncEvent::RootFolders(
                Ok(fs),
            ) && fs@.len() > 0 && states[j + 1].spec_root_folder() == Some(fs@[0].path@)),
{
    assert forall|i: int, j: int|
        0 <= i < j < outs.len() && (#[trigger] outs[i]).action is FetchRootFolders implies !((
        #[trigger] outs[j]).action is FetchRootFolders) by {
        lemma_root_folders_not_again(states, events, outs, i, j);
    }
    assert forall|i: int, j: int|
        0 <= i < j < outs.len() && (#[trigger] outs[i]).action is AddMovie implies !((
        #[trigger] outs[j]).action is FetchRootFolders) by {
        lemma_no_root_folders_after_add(states, events, outs, i, j);
    }
    assert forall|i: int|
        0 <= i && i + 1 < outs.len() && (#[trigger] outs[i]).action is FetchRootFolders implies {
        &&& events[i + 1] matches SyncEvent::RootFolders(Err(e)) ==> outs[i + 1].action
            == SyncAction::Finish(Err(Error::Radarr(e)))
        &&& (events[i + 1] matches SyncEvent::RootFolders(Ok(fs)) && fs@.len() == 0)
            ==> outs[i + 1].action == SyncAction::Finish(Err(Error::NoRootFolder))
    } by {
        assert(states[i].wf() && states[i].awaits(events[i]));
        lemma_step_asks_root_folders(states[i], events[i], states[i + 1], outs[i]);
        assert(states[i + 1].wf() && states[i + 1].awaits(events[i + 1]));
        lemma_step_root_answer(states[i + 1], events[i + 1], states[i + 2], outs[i + 1]);
    }
    assert forall|i: int, j: int|
        0 <= i && i + 1 <= j < outs.len() && (#[trigger] outs[i]).action is FetchRootFolders
            && (#[trigger] outs[j]).action is AddMovie implies (events[i + 1] matches SyncEvent::RootFolders(
        Ok(fs),
    ) && fs@.len() > 0 && states[j + 1].spec_root_folder() == Some(fs@[0].path@)) by {
        lemma_adds_use_fetched_root(states, events, outs, i, j);
    }
}

/// A unique exact match that Radarr already has (it has a Radarr identifier, is monitored, or
/// has a movie file) is counted as already there, quietly, whether or not the run is a dry
/// run; nothing is added and no dry-run skip is counted for it. Only a unique match that Radarr
/// does not have yet is ever reported as one that a dry run would add.
pub proof fn lemma_already_added_before_dry_run(
    old: SyncState,
    rs: Vec<SearchResult>,
    s: SyncState,
    out: SyncStep,
)
    requires
        old.wf(),
        old.spec_stage() == SyncStage::AwaitSearch,
        step_spec(old, SyncEvent::SearchResults(Ok(rs)), s, out),
    ensures
        ({
            let ms = ordered_matches(old.spec_titles()[old.spec_next_title()], rs@);
            &&& (ms.len() == 1 && (ms[0].id > 0 || ms[0].monitored || ms[0].movie_file is Some))
                ==> {
                &&& s.spec_report().already_added == old.spec_report().already_added + 1
                &&& s.spec_report().added == old.spec_report().added
                &&& s.spec_dry_run_skips() == old.spec_dry_run_skips()
                &&& out.notice is Quiet
                &&& !(out.action is AddMovie)
                &&& !(out.action is FetchRootFolders)
            }
            &&& (out.notice is WouldAdd) ==> {
                &&& old.spec_options().dry_run
                &&& ms.len() == 1
                &&& !(ms[0].id > 0 || ms[0].monitored || ms[0].movie_file is Some)
            }
        }),
{
}

} // verus!
