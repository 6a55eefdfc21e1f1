//! A search provider that reads video links off a results page, rendered by the first
//! configured browser backend that can be had.
use vstd::prelude::*;
use std::sync::Arc;
use headless_chrome::{Browser, Tab};
use crate::browser::{element_attributes, initial_tab, navigate, wait_for_elements, BrowserType, ChromeOpener};
use crate::docker::{extends, join_lines, joined_lines, outcome_of, since, views, ContainerRuntime};
use crate::fallback::Attempts;

verus! {

/// The site's origin, which the page's links are relative to.
pub open spec fn origin() -> Seq<char> {
    "https://www.youtube.com"@
}

/// The address of the results page, before the query text.
pub open spec fn results_prefix() -> Seq<char> {
    "https://www.youtube.com/results?search_query="@
}

/// The keywords joined by `+`.
pub open spec fn plus_joined(words: Seq<Seq<char>>) -> Seq<char>
    decreases words.len(),
{
    if words.len() == 0 {
        Seq::empty()
    } else if words.len() == 1 {
        words[0]
    } else {
        plus_joined(words.drop_last()) + seq!['+'] + words.last()
    }
}

/// The absolute links of the page's relative links, in order, elements without one left out.
pub open spec fn watch_links(hrefs: Seq<Option<Seq<char>>>) -> Seq<Seq<char>>
    decreases hrefs.len(),
{
    if hrefs.len() == 0 {
        Seq::empty()
    } else {
        let rest = watch_links(hrefs.drop_last());
        match hrefs.last() {
            Some(h) => rest.push(origin() + h),
            None => rest,
        }
    }
}

/// The value of the first attribute named `name`.
pub open spec fn attribute_lookup(attrs: Seq<(Seq<char>, Seq<char>)>, name: Seq<char>) -> Option<Seq<char>>
    decreases attrs.len(),
{
    if attrs.len() == 0 {
        None
    } else if attrs[0].0 == name {
        Some(attrs[0].1)
    } else {
        attribute_lookup(attrs.drop_first(), name)
    }
}

pub open spec fn pair_views(attrs: Seq<(String, String)>) -> Seq<(Seq<char>, Seq<char>)> {
    attrs.map_values(|p: (String, String)| (p.0@, p.1@))
}

pub open spec fn option_views(v: Seq<Option<String>>) -> Seq<Option<Seq<char>>> {
    v.map_values(|o: Option<String>| match o {
        Some(s) => Some(s@),
        None => None,
    })
}

/// A search query.
#[derive(Debug, Clone, PartialEq)]
pub struct SearchQuery {
    /// Guaranteed to be separated by word with no space
    pub keywords: Vec<String>,
}

/// A backend that needs first-run preparation does it here.
pub trait SelfSetup {
    fn setup(&self) -> Result<(), String>;
}

/// Satisfies a query using keywords: the result is a list of URLs. The scraper's
/// implementation has no container runtime, so through this trait its Docker backends
/// always fail; `YoutubeScraper::search_with` provisions containers with an opener built
/// on a runtime.
pub trait ProvideSearch: SelfSetup {
    fn search(&self, query: SearchQuery) -> Result<Vec<String>, String>;
}

/// Opens a session for a backend.
pub trait BackendOpener {
    type Session;

    fn open(&mut self, backend: &BrowserType) -> Result<Self::Session, String>;
}

/// A backend opener with a record of every attempt: the backend and its outcome.
pub struct OpenerLog<O: BackendOpener> {
    pub opener: O,
    pub attempts: Ghost<Seq<(BrowserType, Option<Seq<char>>)>>,
}

impl<O: BackendOpener> OpenerLog<O> {
    pub fn new(opener: O) -> (r: Self)
        ensures
            r.opener == opener,
            r.attempts@.len() == 0,
    {
        OpenerLog { opener, attempts: Ghost(Seq::empty()) }
    }

    pub fn open(&mut self, backend: &BrowserType) -> (r: Result<O::Session, String>)
        ensures
            final(self).attempts@ == old(self).attempts@.push((*backend, outcome_of(r))),
    {
        let r = self.opener.open(backend);
        self.attempts = Ghost(self.attempts@.push((*backend, outcome_of(r))));
        r
    }
}

/// `log` records attempts on `backends`, in order, each of which failed.
pub open spec fn backends_failed(backends: Seq<BrowserType>, log: Seq<(BrowserType, Option<Seq<char>>)>) -> bool {
    &&& log.len() == backends.len()
    &&& forall|k: int| 0 <= k < log.len() ==> (#[trigger] log[k]).0 == backends[k] && log[k].1 is Some
}

/// `log` records a run over `backends` that opened backend `i`: the ones before it were
/// tried, in order, and failed; `i` was tried last, and opened.
pub open spec fn opened_backend(backends: Seq<BrowserType>, log: Seq<(BrowserType, Option<Seq<char>>)>, i: int) -> bool {
    &&& 0 <= i < backends.len()
    &&& log.len() == i + 1
    &&& backends_failed(backends.take(i), log.take(i))
    &&& log[i] == (backends[i], None::<Seq<char>>)
}

/// The messages of the failed attempts in `log`.
pub open spec fn failure_messages(log: Seq<(BrowserType, Option<Seq<char>>)>) -> Seq<Seq<char>> {
    log.map_values(|a: (BrowserType, Option<Seq<char>>)| a.1->0)
}

/// The message of a search for which no backend worked.
pub open spec fn no_backend_message(messages: Seq<Seq<char>>) -> Seq<char> {
    "no browser backend worked:\n"@ + joined_lines(messages)
}

/// A container runtime for processes that have none: every run fails.
pub struct NoContainerRuntime;

impl ContainerRuntime for NoContainerRuntime {
    fn run(&mut self, _args: &Vec<String>) -> Result<Vec<String>, String> {
        Err("no container runtime is available".to_owned())
    }
}

/// The address of the results page for `query`.
pub fn search_url(query: &SearchQuery) -> (r: String)
    ensures
        r@ == results_prefix() + plus_joined(views(query.keywords@)),
{
    let mut s = "https://www.youtube.com/results?search_query=".to_owned();
    let ghost head = s@;
    let ghost words = views(query.keywords@);
    let mut k: usize = 0;
    while k < query.keywords.len()
        invariant
            k <= words.len(),
            words == views(query.keywords@),
            s@ == head + plus_joined(words.subrange(0, k as int)),
        decreases words.len() - k,
    {
        if k > 0 {
            s.append("+");
        }
        s.append(query.keywords[k].as_str());
        proof {
            reveal_strlit("+");
            let w = words.subrange(0, k + 1);
            assert(w.drop_last() =~= words.subrange(0, k as int));
            if k == 0 {
                assert(plus_joined(w) == w[0]);
            }
        }
        assert(s@ =~= head + plus_joined(words.subrange(0, k + 1)));
        k += 1;
    }
    assert(words.subrange(0, k as int) =~= words);
    s
}

/// The value of the first attribute named `name`.
pub fn attribute_value(attrs: &Vec<(String, String)>, name: &String) -> (r: Option<String>)
    ensures
        option_views(seq![r]) == seq![attribute_lookup(pair_views(attrs@), name@)],
{
    let ghost all = pair_views(attrs@);
    assert(all.subrange(0, all.len() as int) =~= all);
    let mut k: usize = 0;
    while k < attrs.len()
        invariant
            k <= attrs@.len(),
            all == pair_views(attrs@),
            attribute_lookup(all, name@) == attribute_lookup(all.subrange(k as int, all.len() as int), name@),
        decreases attrs@.len() - k,
    {
        let ghost rest = all.subrange(k as int, all.len() as int);
        assert(rest.drop_first() =~= all.subrange(k + 1, all.len() as int));
        if attrs[k].0 == *name {
            return Some(attrs[k].1.clone());
        }
        k += 1;
    }
    None
}

/// The absolute links of the relative links `hrefs`, in order.
pub fn links_from_hrefs(hrefs: &Vec<Option<String>>) -> (r: Vec<String>)
    ensures
        views(r@) == watch_links(option_views(hrefs@)),
{
    let ghost all = option_views(hrefs@);
    let mut links: Vec<String> = Vec::new();
    let mut k: usize = 0;
    while k < hrefs.len()
        invariant
            k <= hrefs@.len(),
            all == option_views(hrefs@),
            views(links@) == watch_links(all.subrange(0, k as int)),
        decreases hrefs@.len() - k,
    {
        assert(all.subrange(0, k + 1).drop_last() =~= all.subrange(0, k as int));
        match &hrefs[k] {
            Some(h) => {
                let mut link = "https://www.youtube.com".to_owned();
                link.append(h.as_str());
                let ghost before = links@;
                links.push(link);
                assert(views(links@) =~= views(before).push(link@));
            },
            None => {},
        }
        k += 1;
    }
    assert(all.subrange(0, k as int) =~= all);
    links
}

/// A search provider that scrapes the results page.
#[derive(Debug, Clone, PartialEq)]
pub struct YoutubeScraper {
    /// The backends to try, most preferred first.
    backends: Vec<BrowserType>,
}

impl Default for YoutubeScraper {
    fn default() -> (r: Self)
        ensures
            r.backends().len() == 1,
            r.backends()[0] matches BrowserType::Local(c) && c.is_default(),
    {
        let mut backends: Vec<BrowserType> = Vec::new();
        backends.push(BrowserType::default());
        YoutubeScraper { backends }
    }
}

impl SelfSetup for YoutubeScraper {
    fn setup(&self) -> Result<(), String> {
        YoutubeScraper::setup(self)
    }
}

impl YoutubeScraper {
    pub closed spec fn backends(&self) -> Seq<BrowserType> {
        self.backends@
    }

    pub fn new(backends: Vec<BrowserType>) -> (r: Self)
        ensures
            r.backends() == backends@,
    {
        YoutubeScraper { backends }
    }

    /// Always succeeds: the scraper needs no preparation.
    pub fn setup(&self) -> (r: Result<(), String>)
        ensures
            r is Ok,
    {
        Ok(())
    }

    /// Tries the backends in order and keeps the first session that opens: the backends
    /// before it were tried and failed, and none after it is tried. Where all fail, every
    /// backend was tried and failed, and the error holds their messages, in order.
    pub fn first_browser<O: BackendOpener>(&self, opener: &mut OpenerLog<O>) -> (r: Result<(O::Session, usize), Vec<String>>)
        ensures
            extends(old(opener).attempts@, final(opener).attempts@),
            r matches Ok((_, i)) ==> opened_backend(self.backends(), since(old(opener).attempts@, final(opener).attempts@), i as int),
            r matches Err(f) ==> ({
                let log = since(old(opener).attempts@, final(opener).attempts@);
                &&& backends_failed(self.backends(), log)
                &&& views(f@) == failure_messages(log)
            }),
    {
        let ghost start = opener.attempts@;
        assert(start.subrange(0, start.len() as int) =~= start);
        assert(since(start, start) =~= Seq::<(BrowserType, Option<Seq<char>>)>::empty());
        assert(self.backends@.take(0) =~= Seq::<BrowserType>::empty());
        assert(failure_messages(since(start, start)) =~= Seq::<Seq<char>>::empty());
        let mut attempts = Attempts::new(self.backends.len());
        loop
            invariant
                attempts.wf(),
                attempts.total == self.backends@.len(),
                start == old(opener).attempts@,
                extends(start, opener.attempts@),
                backends_failed(self.backends@.take(attempts.failures@.len() as int), since(start, opener.attempts@)),
                views(attempts.failures@) == failure_messages(since(start, opener.attempts@)),
            decreases attempts.total - attempts.failures@.len(),
        {
            match attempts.next_index() {
                None => {
                    assert(self.backends@.take(attempts.failures@.len() as int) =~= self.backends@);
                    return Err(attempts.failures);
                },
                Some(i) => {
                    let ghost before = opener.attempts@;
                    let res = opener.open(&self.backends[i]);
                    let ghost log = since(start, opener.attempts@);
                    assert(log =~= since(start, before).push((self.backends@[i as int], outcome_of(res))));
                    assert(log.take(i as int) =~= since(start, before));
                    assert(self.backends@.take(i as int + 1).take(i as int) =~= self.backends@.take(i as int));
                    assert(extends(start, opener.attempts@)) by {
                        assert(opener.attempts@.subrange(0, start.len() as int) =~= before.subrange(0, start.len() as int));
                    }
                    match res {
                        Ok(b) => {
                            return Ok((b, i));
                        },
                        Err(e) => {
                            let ghost fb = attempts.failures@;
                            attempts.record_failure(e);
                            assert(views(attempts.failures@) =~= failure_messages(log)) by {
                                assert(views(fb) == failure_messages(since(start, before)));
                                assert forall|k: int| 0 <= k < log.len() implies #[trigger] views(attempts.failures@)[k] == failure_messages(log)[k] by {
                                    if k < fb.len() {
                                        assert(views(fb)[k] == failure_messages(since(start, before))[k]);
                                    }
                                }
                            }
                            assert forall|k: int| 0 <= k < log.len() implies
                                (#[trigger] log[k]).0 == self.backends@.take(i as int + 1)[k] && log[k].1 is Some by {
                                if k < i {
                                    assert(log[k] == since(start, before)[k]);
                                }
                            }
                        },
                    }
                },
            }
        }
    }

    /// Runs the search with the first backend that `opener` opens. The links come from the
    /// results page in document order. Where no backend opens (none is configured, or all
    /// fail), the search fails with their messages.
    pub fn search_with<O: BackendOpener<Session = Browser>>(
        &self,
        query: &SearchQuery,
        opener: &mut OpenerLog<O>,
    ) -> (r: Result<Vec<String>, String>)
        ensures
            extends(old(opener).attempts@, final(opener).attempts@),
            ({
                let log = since(old(opener).attempts@, final(opener).attempts@);
                backends_failed(self.backends(), log) ==> (r matches Err(m) && m@ == no_backend_message(failure_messages(log)))
            }),
            self.backends().len() == 0 ==> r is Err,
            ({
                let log = since(old(opener).attempts@, final(opener).attempts@);
                backends_failed(self.backends(), log) || exists|i: int| #[trigger] opened_backend(self.backends(), log, i)
            }),
            r is Ok ==> exists|i: int| #[trigger] opened_backend(self.backends(), since(old(opener).attempts@, final(opener).attempts@), i),
            r matches Ok(v) ==> exists|hrefs: Seq<Option<Seq<char>>>| views(v@) == #[trigger] watch_links(hrefs),
    {
        let browser = match self.first_browser(opener) {
            Ok((b, i)) => {
                assert(!backends_failed(self.backends(), since(old(opener).attempts@, opener.attempts@))) by {
                    let log = since(old(opener).attempts@, opener.attempts@);
                    assert(log[i as int].1 is None);
                }
                assert(opened_backend(self.backends(), since(old(opener).attempts@, opener.attempts@), i as int));
                b
            },
            Err(f) => {
                proof {
                    reveal_strlit("no browser backend worked:\n");
                }
                let m = join_lines("no browser backend worked:\n", &f);
                return Err(m);
            },
        };
        let tab: Arc<Tab> = initial_tab(&browser)?;
        navigate(&tab, &search_url(query))?;
        let elements = wait_for_elements(&tab, "a#video-title")?;
        let href = "href".to_owned();
        let mut hrefs: Vec<Option<String>> = Vec::new();
        let mut k: usize = 0;
        while k < elements.len()
            decreases elements@.len() - k,
        {
            let value = match element_attributes(&elements[k]) {
                Ok(Some(attrs)) => attribute_value(&attrs, &href),
                _ => None,
            };
            hrefs.push(value);
            k += 1;
        }
        let links = links_from_hrefs(&hrefs);
        Ok(links)
    }
}

impl ProvideSearch for YoutubeScraper {
    /// Searches with headless_chrome and without a container runtime: through this
    /// method, backends that start a container always fail. To provision containers,
    /// call `search_with` with an opener built on a runtime.
    fn search(&self, query: SearchQuery) -> Result<Vec<String>, String> {
        let mut opener = OpenerLog::new(ChromeOpener::new(NoContainerRuntime));
        self.search_with(&query, &mut opener)
    }
}

/// The search providers.
#[derive(Debug, Clone, PartialEq)]
pub enum SearchProviders {
    YoutubeScraper(YoutubeScraper),
}

impl SelfSetup for SearchProviders {
    fn setup(&self) -> Result<(), String> {
        match self {
            SearchProviders::YoutubeScraper(s) => s.setup(),
        }
    }
}

impl ProvideSearch for SearchProviders {
    fn search(&self, query: SearchQuery) -> Result<Vec<String>, String> {
        match self {
            SearchProviders::YoutubeScraper(s) => s.search(query),
        }
    }
}

impl From<YoutubeScraper> for SearchProviders {
    fn from(s: YoutubeScraper) -> (r: SearchProviders)
        ensures
            r == SearchProviders::YoutubeScraper(s),
    {
        SearchProviders::YoutubeScraper(s)
    }
}

impl vstd::std_specs::convert::FromSpecImpl<YoutubeScraper> for SearchProviders {
    open spec fn obeys_from_spec() -> bool {
        true
    }

    open spec fn from_spec(s: YoutubeScraper) -> SearchProviders {
        SearchProviders::YoutubeScraper(s)
    }
}

} // verus!
