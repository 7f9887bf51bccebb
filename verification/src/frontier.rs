//! The frontier of a crawl: which URL is fetched next, generation by
//! generation.
//!
//! A session decides and never fetches. Its caller asks for the next
//! action, does the fetch that the action names, and hands back what
//! came of it. Between two URLs the session is `Ready`; while a fetch is
//! under way it waits for the answer; once a generation has ended and no
//! link was found for the next one it is `Exhausted`.

use crate::html::{
    crawl_page, directive_of, lemma_page_links_canonical, meta_pairs, page_links, pairs, tags,
    TagEvent, TagView,
};
use crate::robots::{
    cached, entries, lemma_position_of, policy_permits, robot_cache_position,
    store_in_robot_cache, stored, PolicyView, RobotsPolicy, ROBOTS_CACHE_LIMIT,
};
use crate::text::string_of;
use crate::url_utils::{
    all_canonical, before_fragment, canonical, check_if_is_in_url_list, cut_fragment, fits,
    is_canonical, texts,
};
use crate::web::{
    host_of, parse_url, text_of, url_host, url_parse, url_with_path, with_path, MAX_URL_CHARS,
};
use vstd::prelude::*;
use vstd::string::StrSliceExecFns;

verus! {

/// Where a session stands.
#[derive(Clone, Copy, Debug, PartialEq, Eq, Structural)]
pub enum Phase {
    /// Between two URLs.
    Ready,
    /// A `robots.txt` was asked for and has not been handed in.
    AwaitingRobots,
    /// A page was asked for and has not been handed in.
    AwaitingPage,
    /// The last generation has ended and the next one is empty.
    Exhausted,
}

/// Why a URL is passed over.
#[derive(Clone, Copy, Debug, PartialEq, Eq, Structural)]
pub enum SkipReason {
    /// It was dispatched before in this session.
    AlreadyFetched,
    /// It has no host whose `robots.txt` could be asked for.
    NoHost,
    /// The site's policy does not allow it.
    Denied,
}

/// What the caller of a session is to do next.
#[derive(Clone, Debug, PartialEq, Eq)]
pub enum Action {
    /// Nothing: the crawl has ended.
    Finished,
    /// Nothing: the URL is passed over.
    Skip { url: String, reason: SkipReason },
    /// Fetch `robots_url` and hand the answer to `robots_fetched`.
    FetchRobots { url: String, robots_url: String },
    /// Fetch `url` and hand the page to `page_fetched`.
    FetchPage { url: String },
}

/// An action as plain values.
pub enum ActionView {
    Finished,
    Skip { url: Seq<char>, reason: SkipReason },
    FetchRobots { url: Seq<char>, robots_url: Seq<char> },
    FetchPage { url: Seq<char> },
}

impl View for Action {
    type V = ActionView;

    open spec fn view(&self) -> ActionView {
        match self {
            Action::Finished => ActionView::Finished,
            Action::Skip { url, reason } => ActionView::Skip { url: url@, reason: *reason },
            Action::FetchRobots { url, robots_url } => ActionView::FetchRobots {
                url: url@,
                robots_url: robots_url@,
            },
            Action::FetchPage { url } => ActionView::FetchPage { url: url@ },
        }
    }
}

/// A page as it came back from a fetch.
#[derive(Clone, Debug)]
pub struct FetchedPage {
    /// The status of the answer.
    pub status: u16,
    /// The subtype of the content type, `html` for `text/html`.
    pub content_type: Option<String>,
    /// The tags of the page, where it was tokenized.
    pub events: Vec<TagEvent>,
}

/// A fetched page as plain values.
pub struct FetchedView {
    pub status: u16,
    pub content_type: Option<Seq<char>>,
    pub tags: Seq<TagView>,
}

impl View for FetchedPage {
    type V = FetchedView;

    open spec fn view(&self) -> FetchedView {
        FetchedView {
            status: self.status,
            content_type: text_of(self.content_type),
            tags: tags(self.events@),
        }
    }
}

/// What a session says of a page that was handed in.
#[derive(Clone, Debug, PartialEq, Eq)]
pub struct PageReport {
    /// The URL of the page.
    pub url: String,
    /// Whether the page is to be put out.
    pub print: bool,
    /// The kind of content: `html`, or empty where the page was not read.
    pub kind: String,
    /// The metadata of the page.
    pub metadata: Vec<(String, String)>,
}

/// A report as plain values.
pub struct ReportView {
    pub url: Seq<char>,
    pub print: bool,
    pub kind: Seq<char>,
    pub metadata: Seq<(Seq<char>, Seq<char>)>,
}

impl View for PageReport {
    type V = ReportView;

    open spec fn view(&self) -> ReportView {
        ReportView {
            url: self.url@,
            print: self.print,
            kind: self.kind@,
            metadata: pairs(self.metadata@),
        }
    }
}

/// The state of one crawl.
pub struct CrawlSession {
    current: Vec<String>,
    position: usize,
    next: Vec<String>,
    visited: Vec<String>,
    robots: Vec<(String, RobotsPolicy)>,
    phase: Phase,
    pending_url: String,
    pending_host: String,
    pending_robots: String,
    found: Vec<String>,
}

/// A session as plain values.
pub struct SessionView {
    /// The generation that is being fetched.
    pub current: Seq<Seq<char>>,
    /// How many URLs of it were dispatched.
    pub position: nat,
    /// The generation that is being collected.
    pub next: Seq<Seq<char>>,
    /// The URLs that were dispatched, in order.
    pub visited: Seq<Seq<char>>,
    /// The policies of the hosts that were asked.
    pub robots: Seq<(Seq<char>, PolicyView)>,
    pub phase: Phase,
    /// The URL whose fetch is under way.
    pub pending_url: Seq<char>,
    /// Its host, and the URL of the `robots.txt` that was asked for.
    pub pending_host: Seq<char>,
    pub pending_robots: Seq<char>,
    /// The links found on the pages that were put out.
    pub found: Seq<Seq<char>>,
}

impl SessionView {
    /// What holds of every session: the place in the current generation
    /// lies within it, the cache of policies is bounded, and every URL
    /// that the session holds is absolute, in canonical form and without
    /// a fragment.
    pub open spec fn wf(self) -> bool {
        &&& self.position <= self.current.len()
        &&& self.robots.len() <= ROBOTS_CACHE_LIMIT + 1
        &&& all_canonical(self.current)
        &&& all_canonical(self.next)
        &&& all_canonical(self.visited)
        &&& all_canonical(self.found)
    }

    /// Tells whether a session is between two URLs, or at its end.
    pub open spec fn idle(self) -> bool {
        self.phase == Phase::Ready || self.phase == Phase::Exhausted
    }
}

impl View for CrawlSession {
    type V = SessionView;

    closed spec fn view(&self) -> SessionView {
        SessionView {
            current: texts(self.current@),
            position: self.position as nat,
            next: texts(self.next@),
            visited: texts(self.visited@),
            robots: entries(self.robots@),
            phase: self.phase,
            pending_url: self.pending_url@,
            pending_host: self.pending_host@,
            pending_robots: self.pending_robots@,
            found: texts(self.found@),
        }
    }
}

/// The name under which this crawler asks.
pub open spec fn crawler_name() -> Seq<char> {
    "twentiethbot"@
}

/// The first generation of a session that starts from `seed`: the seed
/// without its fragment, as the parser writes it; nothing where the seed
/// is no URL.
pub open spec fn seeded(seed: Seq<char>) -> Seq<Seq<char>> {
    match url_parse(before_fragment(seed)) {
        Some(text) => if canonical(text) {
            seq![text]
        } else {
            Seq::empty()
        },
        None => Seq::empty(),
    }
}

/// The session after it turned to the next generation, where the current
/// one has ended.
pub open spec fn advanced(s: SessionView) -> SessionView {
    if s.position >= s.current.len() {
        SessionView { current: s.next, position: 0, next: Seq::empty(), ..s }
    } else {
        s
    }
}

/// The URL that is dispatched next, if one is left.
pub open spec fn upcoming(s: SessionView) -> Option<Seq<char>> {
    let a = advanced(s);
    if a.position < a.current.len() {
        Some(a.current[a.position as int])
    } else {
        None
    }
}

/// The URL of the `robots.txt` of the site of `url`.
pub open spec fn robots_location(url: Seq<char>) -> Option<Seq<char>> {
    if fits(url) {
        url_with_path(url, "/robots.txt"@)
    } else {
        None
    }
}

/// What becomes of `url` under `policy`: it is fetched where the policy
/// permits, and passed over where it does not.
pub open spec fn decided(s: SessionView, url: Seq<char>, policy: PolicyView) -> (
    SessionView,
    ActionView,
) {
    if policy_permits(policy, crawler_name(), url) {
        (
            SessionView { phase: Phase::AwaitingPage, pending_url: url, ..s },
            ActionView::FetchPage { url },
        )
    } else {
        (
            SessionView { phase: Phase::Ready, ..s },
            ActionView::Skip { url, reason: SkipReason::Denied },
        )
    }
}

/// The step of a session that is between two URLs, with the action that
/// it gives.
///
/// Where the current generation has ended the next one takes its place;
/// where that is empty the crawl has ended. Else the next URL is taken. A
/// URL that was dispatched before is passed over. Any other is marked as
/// dispatched at once. Then the policy of its host decides; where the
/// host was not asked yet, its `robots.txt` is asked for first.
pub open spec fn dispatched(s: SessionView) -> (SessionView, ActionView) {
    let a = advanced(s);
    if a.current.len() == 0 {
        (SessionView { phase: Phase::Exhausted, ..a }, ActionView::Finished)
    } else {
        let url = a.current[a.position as int];
        let taken = SessionView { position: a.position + 1, phase: Phase::Ready, ..a };
        if a.visited.contains(url) {
            (taken, ActionView::Skip { url, reason: SkipReason::AlreadyFetched })
        } else {
            let marked = SessionView { visited: a.visited.push(url), ..taken };
            match url_host(url) {
                Some(host) => match cached(a.robots, host) {
                    Some(policy) => decided(marked, url, policy),
                    None => match robots_location(url) {
                        Some(robots_url) => (
                            SessionView {
                                phase: Phase::AwaitingRobots,
                                pending_url: url,
                                pending_host: host,
                                pending_robots: robots_url,
                                ..marked
                            },
                            ActionView::FetchRobots { url, robots_url },
                        ),
                        None => (marked, ActionView::Skip { url, reason: SkipReason::NoHost }),
                    },
                },
                None => (marked, ActionView::Skip { url, reason: SkipReason::NoHost }),
            }
        }
    }
}

/// The step of a session that is handed the answer to the `robots.txt`
/// it asked for: the policy is stored for the host, and decides on the
/// URL that waits.
pub open spec fn robots_read(s: SessionView, answer: Option<(u16, Seq<char>)>) -> (
    SessionView,
    ActionView,
) {
    let policy = PolicyView { robots_url: s.pending_robots, answer };
    decided(
        SessionView { robots: stored(s.robots, s.pending_host, policy), ..s },
        s.pending_url,
        policy,
    )
}

/// The step of a session that is handed the page it asked for, with the
/// report on the page; there is none where the fetch failed.
///
/// The links of a page of the type `html` go to the next generation,
/// whether the page is indexed or not. A page is put out where its status
/// is 200 and it does not say `noindex`; a page of another type says
/// nothing.
pub open spec fn page_read(s: SessionView, page: Option<FetchedView>) -> (
    SessionView,
    Option<ReportView>,
) {
    match page {
        Some(p) => {
            let html = p.content_type == Some("html"@);
            let links = if html {
                page_links(s.pending_url, p.tags, s.visited)
            } else {
                Seq::empty()
            };
            let print = p.status == 200 && (!html || directive_of(p.tags).should_index);
            (
                SessionView {
                    phase: Phase::Ready,
                    next: s.next + links,
                    found: if print {
                        s.found + links
                    } else {
                        s.found
                    },
                    ..s
                },
                Some(
                    ReportView {
                        url: s.pending_url,
                        print,
                        kind: if html {
                            "html"@
                        } else {
                            Seq::empty()
                        },
                        metadata: if html {
                            meta_pairs(p.tags)
                        } else {
                            Seq::empty()
                        },
                    },
                ),
            )
        },
        None => (SessionView { phase: Phase::Ready, ..s }, None),
    }
}

/// A copy of a list of URLs.
fn copy_list(list: &Vec<String>) -> (copy: Vec<String>)
    ensures
        texts(copy@) == texts(list@),
{
    let mut copy: Vec<String> = Vec::new();
    let mut i: usize = 0;
    while i < list.len()
        invariant
            i <= list.len(),
            texts(copy@) =~= texts(list@).take(i as int),
        decreases list.len() - i,
    {
        let ghost before = texts(copy@);
        let url = list[i].clone();
        copy.push(url);
        proof {
            assert(texts(copy@) =~= before.push(url@));
            assert(texts(list@).take(i + 1) =~= texts(list@).take(i as int).push(list@[i as int]@));
        }
        i += 1;
    }
    assert(texts(list@).take(list.len() as int) =~= texts(list@));
    copy
}

impl CrawlSession {
    /// A session that starts from `seed`: the first generation holds the
    /// seed alone, in canonical form, and nothing was dispatched or
    /// asked. Of a seed that is no URL the first generation is empty.
    pub fn new(seed: String) -> (session: CrawlSession)
        ensures
            session@ == (SessionView {
                current: seeded(seed@),
                position: 0,
                next: Seq::empty(),
                visited: Seq::empty(),
                robots: Seq::empty(),
                phase: Phase::Ready,
                pending_url: Seq::empty(),
                pending_host: Seq::empty(),
                pending_robots: Seq::empty(),
                found: Seq::empty(),
            }),
            session@.wf(),
    {
        let mut current: Vec<String> = Vec::new();
        let start = string_of(&cut_fragment(seed.as_str()));
        match parse_url(start.as_str()) {
            Some(text) => {
                if is_canonical(text.as_str()) {
                    current.push(text);
                }
            },
            None => {},
        }
        let session = CrawlSession {
            current,
            position: 0,
            next: Vec::new(),
            visited: Vec::new(),
            robots: Vec::new(),
            phase: Phase::Ready,
            pending_url: String::new(),
            pending_host: String::new(),
            pending_robots: String::new(),
            found: Vec::new(),
        };
        proof {
            assert(session@.current =~= seeded(seed@));
            assert(session@.next =~= Seq::empty());
            assert(session@.visited =~= Seq::empty());
            assert(session@.robots =~= Seq::empty());
            assert(session@.found =~= Seq::empty());
        }
        session
    }

    /// Where the session stands.
    pub fn phase(&self) -> (phase: Phase)
        ensures
            phase == self@.phase,
    {
        self.phase
    }

    /// The URLs that were dispatched, in order.
    pub fn visited(&self) -> (list: &Vec<String>)
        ensures
            texts(list@) == self@.visited,
    {
        &self.visited
    }

    /// The generation that is being collected.
    pub fn next_generation(&self) -> (list: &Vec<String>)
        ensures
            texts(list@) == self@.next,
    {
        &self.next
    }

    /// The links found on the pages that were put out.
    pub fn found(&self) -> (list: &Vec<String>)
        ensures
            texts(list@) == self@.found,
    {
        &self.found
    }

    /// Turns to the next generation where the current one has ended.
    fn advance(&mut self)
        requires
            old(self)@.wf(),
        ensures
            final(self)@ == advanced(old(self)@),
            final(self)@.wf(),
    {
        if self.position >= self.current.len() {
            let mut fresh: Vec<String> = Vec::new();
            std::mem::swap(&mut fresh, &mut self.next);
            self.current = fresh;
            self.position = 0;
            proof {
                assert(self@.next =~= Seq::empty());
            }
        }
    }

    /// Fetches `url` where `allowed`, and passes it over where not.
    fn settle(&mut self, url: String, allowed: bool) -> (action: Action)
        ensures
            final(self)@ == (if allowed {
                SessionView { phase: Phase::AwaitingPage, pending_url: url@, ..old(self)@ }
            } else {
                SessionView { phase: Phase::Ready, ..old(self)@ }
            }),
            action@ == (if allowed {
                ActionView::FetchPage { url: url@ }
            } else {
                ActionView::Skip { url: url@, reason: SkipReason::Denied }
            }),
    {
        if allowed {
            self.phase = Phase::AwaitingPage;
            self.pending_url = url.clone();
            Action::FetchPage { url }
        } else {
            self.phase = Phase::Ready;
            Action::Skip { url, reason: SkipReason::Denied }
        }
    }

    /// The URL of the `robots.txt` of the site of `url`.
    fn locate_robots(url: &str) -> (robots_url: Option<String>)
        ensures
            text_of(robots_url) == robots_location(url@),
    {
        if url.unicode_len() > MAX_URL_CHARS {
            return None;
        }
        proof {
            reveal_strlit("/robots.txt");
        }
        with_path(url, "/robots.txt")
    }

    /// Takes the next URL and says what is to be done with it.
    pub fn next_action(&mut self) -> (action: Action)
        requires
            old(self)@.wf(),
            old(self)@.idle(),
        ensures
            final(self)@ == dispatched(old(self)@).0,
            action@ == dispatched(old(self)@).1,
            final(self)@.wf(),
    {
        self.advance();
        if self.current.len() == 0 {
            self.phase = Phase::Exhausted;
            return Action::Finished;
        }
        let ghost a = self@;
        let url = self.current[self.position].clone();
        assert(url@ == a.current[a.position as int]);
        assert(canonical(url@));
        self.position = self.position + 1;
        self.phase = Phase::Ready;
        if !check_if_is_in_url_list(url.as_str(), &self.visited) {
            return Action::Skip { url, reason: SkipReason::AlreadyFetched };
        }
        self.visited.push(url.clone());
        proof {
            assert(self@.visited =~= a.visited.push(url@));
        }
        let host = match host_of(url.as_str()) {
            Some(h) => h,
            None => {
                return Action::Skip { url, reason: SkipReason::NoHost };
            },
        };
        proof {
            lemma_position_of(a.robots, host@);
        }
        match robot_cache_position(host.as_str(), &self.robots) {
            Some(i) => {
                assert(a.robots[i as int].1 == self.robots@[i as int].1@);
                let allowed = self.robots[i].1.permits("twentiethbot", url.as_str());
                self.settle(url, allowed)
            },
            None => match Self::locate_robots(url.as_str()) {
                Some(robots_url) => {
                    self.phase = Phase::AwaitingRobots;
                    self.pending_url = url.clone();
                    self.pending_host = host;
                    self.pending_robots = robots_url.clone();
                    Action::FetchRobots { url, robots_url }
                },
                None => Action::Skip { url, reason: SkipReason::NoHost },
            },
        }
    }

    /// Takes the answer to the `robots.txt` that was asked for, `None`
    /// where none came, and says what is to be done with the URL that
    /// waits.
    pub fn robots_fetched(&mut self, answer: Option<(u16, String)>) -> (action: Action)
        requires
            old(self)@.wf(),
            old(self)@.phase == Phase::AwaitingRobots,
        ensures
            final(self)@ == robots_read(
                old(self)@,
                match answer {
                    Some((status, body)) => Some((status, body@)),
                    None => None,
                },
            ).0,
            action@ == robots_read(
                old(self)@,
                match answer {
                    Some((status, body)) => Some((status, body@)),
                    None => None,
                },
            ).1,
            final(self)@.wf(),
            !(action is FetchRobots),
            !(action is Finished),
    {
        let policy = RobotsPolicy { robots_url: self.pending_robots.clone(), answer };
        let url = self.pending_url.clone();
        let allowed = policy.permits("twentiethbot", url.as_str());
        store_in_robot_cache(&mut self.robots, self.pending_host.clone(), policy);
        self.settle(url, allowed)
    }

    /// Takes the page that was asked for, `None` where the fetch failed,
    /// and reports on it.
    pub fn page_fetched(&mut self, page: Option<FetchedPage>) -> (report: Option<PageReport>)
        requires
            old(self)@.wf(),
            old(self)@.phase == Phase::AwaitingPage,
        ensures
            final(self)@ == page_read(
                old(self)@,
                match page {
                    Some(p) => Some(p@),
                    None => None,
                },
            ).0,
            match report {
                Some(r) => Some(r@),
                None => None,
            } == page_read(
                old(self)@,
                match page {
                    Some(p) => Some(p@),
                    None => None,
                },
            ).1,
            final(self)@.wf(),
    {
        self.phase = Phase::Ready;
        let fetched = match page {
            Some(p) => p,
            None => {
                return None;
            },
        };
        let ghost before = self@;
        let status = fetched.status;
        let kind = match &fetched.content_type {
            Some(k) => Some(k.as_str()),
            None => None,
        };
        let read = crawl_page(
            self.pending_url.as_str(),
            kind,
            fetched.events,
            copy_list(&self.visited),
        );
        let url = self.pending_url.clone();
        match read {
            Some((should_index, links, kind, metadata)) => {
                let print = status == 200 && should_index;
                let mut links = links;
                let ghost added = texts(links@);
                proof {
                    assert(all_canonical(added));
                }
                if print {
                    let mut again = copy_list(&links);
                    self.found.append(&mut again);
                    proof {
                        assert(self@.found =~= before.found + added);
                    }
                }
                self.next.append(&mut links);
                proof {
                    assert(self@.next =~= before.next + added);
                }
                Some(PageReport { url, print, kind, metadata })
            },
            None => {
                proof {
                    assert(self@.next =~= before.next + Seq::<Seq<char>>::empty());
                    assert(self@.found =~= before.found + Seq::<Seq<char>>::empty());
                    assert(pairs(Seq::<(String, String)>::empty()) =~= Seq::empty());
                }
                Some(
                    PageReport {
                        url,
                        print: status == 200,
                        kind: String::new(),
                        metadata: Vec::new(),
                    },
                )
            },
        }
    }
}

/// A URL that was dispatched before is passed over when its turn comes
/// again: no fetch is asked for, and the visited set stays as it is.
pub proof fn law_visited_url_is_passed_over(s: SessionView, url: Seq<char>)
    requires
        upcoming(s) == Some(url),
        s.visited.contains(url),
    ensures
        dispatched(s).1 == (ActionView::Skip { url, reason: SkipReason::AlreadyFetched }),
        dispatched(s).0.visited == s.visited,
        dispatched(s).0.phase == Phase::Ready,
{
}

/// A fetch is asked for only on behalf of the URL whose turn it is, and
/// only where that URL was not dispatched before.
pub proof fn law_fetch_only_of_new_url(s: SessionView)
    ensures
        match dispatched(s).1 {
            ActionView::FetchPage { url } => upcoming(s) == Some(url) && !s.visited.contains(url),
            ActionView::FetchRobots { url, robots_url } => upcoming(s) == Some(url)
                && !s.visited.contains(url),
            _ => true,
        },
{
}

/// A URL is in the visited set from the moment it is taken, whatever
/// becomes of it.
pub proof fn law_dispatch_marks_visited(s: SessionView, url: Seq<char>)
    requires
        upcoming(s) == Some(url),
    ensures
        dispatched(s).0.visited.contains(url),
{
    let a = advanced(s);
    if !a.visited.contains(url) {
        let marked = a.visited.push(url);
        assert(marked[a.visited.len() as int] == url);
        assert(dispatched(s).0.visited == marked);
    }
}

/// No step takes a URL out of the visited set.
pub proof fn law_visited_is_kept(
    s: SessionView,
    answer: Option<(u16, Seq<char>)>,
    page: Option<FetchedView>,
    url: Seq<char>,
)
    requires
        s.visited.contains(url),
    ensures
        dispatched(s).0.visited.contains(url),
        robots_read(s, answer).0.visited.contains(url),
        page_read(s, page).0.visited.contains(url),
{
    let a = advanced(s);
    let i = choose|i: int| 0 <= i < s.visited.len() && s.visited[i] == url;
    if a.current.len() != 0 {
        let taken = a.current[a.position as int];
        if !a.visited.contains(taken) {
            let marked = a.visited.push(taken);
            assert(marked[i] == url);
            assert(dispatched(s).0.visited == marked);
        }
    }
}

/// A URL that comes up twice in a session is fetched at most once: once
/// it was taken, in whatever state, it is passed over in every later
/// state, whether it comes up again in the same generation or in another.
/// A later state is one that holds every URL that was visited after the
/// first turn, as every state does that steps lead to from there.
pub proof fn law_second_occurrence_is_not_fetched(
    first: SessionView,
    later: SessionView,
    url: Seq<char>,
)
    requires
        upcoming(first) == Some(url),
        upcoming(later) == Some(url),
        forall|u: Seq<char>| #[trigger]
            dispatched(first).0.visited.contains(u) ==> later.visited.contains(u),
    ensures
        dispatched(later).1 == (ActionView::Skip { url, reason: SkipReason::AlreadyFetched }),
{
    law_dispatch_marks_visited(first, url);
    law_visited_url_is_passed_over(later, url);
}

/// A page is asked for only after the policy of its host permitted it:
/// the cached policy where the host was asked before, else the policy
/// that was just handed in.
pub proof fn law_fetch_only_where_permitted(s: SessionView, answer: Option<(u16, Seq<char>)>)
    ensures
        dispatched(s).1 matches ActionView::FetchPage { url } ==> url_host(url) matches Some(host)
            && cached(s.robots, host) matches Some(policy) && policy_permits(
            policy,
            crawler_name(),
            url,
        ),
        robots_read(s, answer).1 matches ActionView::FetchPage { url } ==> url == s.pending_url
            && policy_permits(
            PolicyView { robots_url: s.pending_robots, answer },
            crawler_name(),
            url,
        ),
{
}

/// The links of a page wait for the next generation: handing in a page
/// changes neither the generation that is being fetched nor the place in
/// it, and what the next generation held stays at its front.
pub proof fn law_links_wait_for_next_generation(s: SessionView, page: Option<FetchedView>)
    ensures
        page_read(s, page).0.current == s.current,
        page_read(s, page).0.position == s.position,
        s.next.is_prefix_of(page_read(s, page).0.next),
{
    let after = page_read(s, page).0.next;
    if page is Some {
        assert(after.subrange(0, s.next.len() as int) =~= s.next);
    } else {
        assert(after.subrange(0, s.next.len() as int) =~= s.next);
    }
}

/// Every step keeps what holds of every session: a session never holds
/// a URL that is relative, or that has a fragment.
pub proof fn law_session_holds_canonical_urls(
    s: SessionView,
    answer: Option<(u16, Seq<char>)>,
    page: Option<FetchedView>,
)
    requires
        s.wf(),
    ensures
        dispatched(s).0.wf(),
        robots_read(s, answer).0.wf(),
        page_read(s, page).0.wf(),
{
    let a = advanced(s);
    if a.current.len() != 0 {
        let url = a.current[a.position as int];
        assert(canonical(url));
    }
    if let Some(p) = page {
        lemma_page_links_canonical(s.pending_url, p.tags, Seq::empty(), s.visited);
    }
}

} // verus!
