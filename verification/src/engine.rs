//! The crawl-queue engine: indexers, their link backlogs, and the state of
//! one crawl run.
//!
//! A run drains one indexer's backlog in stack order: it pops the last link,
//! asks its caller to fetch the link's page, extracts the page's plain text,
//! and hands the result back for persisting. Fetching and persisting are the
//! caller's outside work; this module holds every decision the run makes, and
//! any failure of that outside work simply ends the run.

use vstd::prelude::*;
use vstd::string::StringExecFns;
use crate::extract::{extract_text, spec_extract_text};
use crate::parser::opt_str_view;

verus! {

/// A fetch target: a stable numeric identity, an immutable URL, and the
/// page's extracted text, present only once the link has been indexed.
#[derive(Debug, PartialEq, Eq)]
pub struct Link {
    pub id: u64,
    pub url: String,
    pub text: Option<String>,
}

/// The mathematical value of a [`Link`].
pub ghost struct LinkView {
    pub id: u64,
    pub url: Seq<char>,
    pub text: Option<Seq<char>>,
}

impl View for Link {
    type V = LinkView;

    open spec fn view(&self) -> LinkView {
        LinkView { id: self.id, url: self.url@, text: opt_str_view(self.text) }
    }
}

/// The views of a link list.
pub open spec fn links_views(ls: Seq<Link>) -> Seq<LinkView> {
    ls.map_values(|l: Link| l@)
}

/// One independent crawl unit: an identity and an ordered backlog of links
/// awaiting fetch.
#[derive(Debug)]
pub struct Indexer {
    pub id: u64,
    pub url_queue: Vec<Link>,
}

/// The mathematical value of an [`Indexer`].
pub ghost struct IndexerView {
    pub id: u64,
    pub url_queue: Seq<LinkView>,
}

impl View for Indexer {
    type V = IndexerView;

    open spec fn view(&self) -> IndexerView {
        IndexerView { id: self.id, url_queue: links_views(self.url_queue@) }
    }
}

/// A link still awaiting fetch: its text is absent.
pub open spec fn link_queued(l: LinkView) -> bool {
    l.text is None
}

/// A link already crawled: its text is present.
pub open spec fn link_indexed(l: LinkView) -> bool {
    l.text is Some
}

/// A well-formed indexer: every backlog entry is still queued, and backlog
/// entries carry pairwise distinct link identities.
pub open spec fn indexer_wf(ix: IndexerView) -> bool {
    &&& forall|i: int| 0 <= i < ix.url_queue.len() ==> link_queued(#[trigger] ix.url_queue[i])
    &&& forall|i: int, j: int|
        0 <= i < j < ix.url_queue.len() ==> (#[trigger] ix.url_queue[i]).id != (
        #[trigger] ix.url_queue[j]).id
}

/// The URL seeded into a bootstrapped indexer's backlog.
pub open spec fn seed_url() -> Seq<char> {
    "https://neovim.io/doc/user/api.html#api"@
}

/// The indexer created when persisted state holds none: exactly one seed
/// link, queued and not yet indexed. The identities come from the caller's
/// persistence layer.
pub fn default_indexer(indexer_id: u64, link_id: u64) -> (r: Indexer)
    ensures
        r@.id == indexer_id,
        r@.url_queue == seq![LinkView { id: link_id, url: seed_url(), text: None }],
        indexer_wf(r@),
{
    let default_url = String::from_str("https://neovim.io/doc/user/api.html#api");
    let r = Indexer {
        id: indexer_id,
        url_queue: vec![Link { text: None, url: default_url, id: link_id }],
    };
    proof {
        assert(r@.url_queue =~= seq![LinkView { id: link_id, url: seed_url(), text: None }]);
    }
    r
}

/// The state of one crawl run over one indexer: the remaining backlog, the
/// link whose fetch is in flight, and the links already indexed during this
/// run.
#[derive(Debug)]
pub struct CrawlRun {
    pub indexer: Indexer,
    pub pending: Option<Link>,
    pub completed: Vec<Link>,
}

/// The mathematical value of a [`CrawlRun`].
pub ghost struct CrawlRunView {
    pub indexer: IndexerView,
    pub pending: Option<LinkView>,
    pub completed: Seq<LinkView>,
}

impl View for CrawlRun {
    type V = CrawlRunView;

    open spec fn view(&self) -> CrawlRunView {
        CrawlRunView {
            indexer: self.indexer@,
            pending: match self.pending {
                Some(l) => Some(l@),
                None => None,
            },
            completed: links_views(self.completed@),
        }
    }
}

/// The run's invariant: a link is either queued (text absent) or indexed
/// (text present), never both — backlog entries and the in-flight link are
/// queued, completed entries are indexed.
pub open spec fn run_wf(r: CrawlRunView) -> bool {
    &&& indexer_wf(r.indexer)
    &&& (r.pending matches Some(l) ==> link_queued(l))
    &&& forall|i: int| 0 <= i < r.completed.len() ==> link_indexed(#[trigger] r.completed[i])
}

/// One pop as [`CrawlRun::next_action`] takes it: the most recently enqueued
/// link moves from the backlog to in-flight, everything else stays.
pub open spec fn popped(pre: CrawlRunView, post: CrawlRunView) -> bool {
    &&& pre.pending is None
    &&& pre.indexer.url_queue.len() > 0
    &&& post.indexer.id == pre.indexer.id
    &&& post.indexer.url_queue == pre.indexer.url_queue.drop_last()
    &&& post.pending == Some(pre.indexer.url_queue.last())
    &&& post.completed == pre.completed
}

/// One fetch completion as [`CrawlRun::finish_fetch`] takes it: the in-flight
/// link joins the completed list, indexed with the extraction of the fetched
/// body; the backlog stays.
pub open spec fn finished(pre: CrawlRunView, post: CrawlRunView, body: Seq<char>) -> bool {
    &&& pre.pending is Some
    &&& post.indexer == pre.indexer
    &&& post.pending is None
    &&& post.completed == pre.completed.push(
        LinkView {
            id: pre.pending->0.id,
            url: pre.pending->0.url,
            text: Some(spec_extract_text(body)),
        },
    )
}

/// One link fully processed during a run: popped, fetched, and completed
/// with the extraction of its fetched `body`.
pub open spec fn link_processed(pre: CrawlRunView, post: CrawlRunView, body: Seq<char>) -> bool {
    exists|mid: CrawlRunView| popped(pre, mid) && finished(mid, post, body)
}

/// The links a drained backlog yields, in pop (stack) order: the `i`-th
/// processed link is the backlog's `i`-th from the back, indexed with the
/// extraction of the `i`-th fetched body.
pub open spec fn indexed_links(queue: Seq<LinkView>, bodies: Seq<Seq<char>>) -> Seq<LinkView> {
    Seq::new(
        bodies.len(),
        |i: int|
            LinkView {
                id: queue[queue.len() - 1 - i].id,
                url: queue[queue.len() - 1 - i].url,
                text: Some(spec_extract_text(bodies[i])),
            },
    )
}

/// A run over one backlog: begun with no fetch in flight, it processes one
/// link per fetched body, and when its backlog has drained to empty it has
/// indexed exactly the links the backlog held — each joins the completed
/// list in pop order with text present, the extraction of its fetched body,
/// and no fetch is left in flight.
pub proof fn lemma_run_indexes_backlog(states: Seq<CrawlRunView>, bodies: Seq<Seq<char>>)
    requires
        states.len() == bodies.len() + 1,
        states[0].pending is None,
        forall|i: int|
            0 <= i < bodies.len() ==> #[trigger] link_processed(states[i], states[i + 1], bodies[i]),
        states.last().indexer.url_queue.len() == 0,
    ensures
        bodies.len() == states[0].indexer.url_queue.len(),
        states.last().pending is None,
        states.last().indexer.id == states[0].indexer.id,
        states.last().completed == states[0].completed + indexed_links(
            states[0].indexer.url_queue,
            bodies,
        ),
    decreases bodies.len(),
{
    if bodies.len() == 0 {
        assert(states.last() == states[0]);
        assert(indexed_links(states[0].indexer.url_queue, bodies) =~= Seq::<LinkView>::empty());
        assert(states[0].completed + indexed_links(states[0].indexer.url_queue, bodies)
            =~= states[0].completed);
    } else {
        assert(link_processed(states[0], states[1], bodies[0]));
        let mid = choose|mid: CrawlRunView| popped(states[0], mid) && finished(
            mid,
            states[1],
            bodies[0],
        );
        let q0 = states[0].indexer.url_queue;
        let first = LinkView {
            id: q0.last().id,
            url: q0.last().url,
            text: Some(spec_extract_text(bodies[0])),
        };
        assert(states[1].completed == states[0].completed.push(first));
        assert(states[1].indexer.url_queue == q0.drop_last());
        let sub_states = states.drop_first();
        let sub_bodies = bodies.drop_first();
        assert forall|i: int| 0 <= i < sub_bodies.len() implies #[trigger] link_processed(
            sub_states[i],
            sub_states[i + 1],
            sub_bodies[i],
        ) by {
            let j = i + 1;
            assert(link_processed(states[j], states[j + 1], bodies[j]));
            assert(sub_states[i] == states[j]);
            assert(sub_states[i + 1] == states[j + 1]);
            assert(sub_bodies[i] == bodies[j]);
        }
        assert(sub_states.last() == states.last());
        lemma_run_indexes_backlog(sub_states, sub_bodies);
        assert(indexed_links(q0, bodies) =~= seq![first] + indexed_links(
            q0.drop_last(),
            sub_bodies,
        ));
        assert(states.last().completed =~= states[0].completed + indexed_links(q0, bodies));
    }
}

impl CrawlRun {
    /// Begins a run over the first loaded indexer; only that one is drained
    /// per invocation.
    pub fn start(indexers: Vec<Indexer>) -> (r: CrawlRun)
        requires
            indexers@.len() > 0,
        ensures
            r@.indexer == indexers@[0]@,
            r@.pending is None,
            r@.completed == Seq::<LinkView>::empty(),
            indexer_wf(indexers@[0]@) ==> run_wf(r@),
    {
        let mut v = indexers;
        let first = v.remove(0);
        let r = CrawlRun { indexer: first, pending: None, completed: Vec::new() };
        proof {
            assert(r@.completed =~= Seq::<LinkView>::empty());
        }
        r
    }

    /// Pops the most recently enqueued link (stack order) and returns its URL
    /// for the caller to fetch; `None` when the backlog is drained and the
    /// run is over.
    pub fn next_action(&mut self) -> (r: Option<String>)
        requires
            old(self)@.pending is None,
        ensures
            match r {
                Some(url) => {
                    &&& popped(old(self)@, final(self)@)
                    &&& url@ == old(self)@.indexer.url_queue.last().url
                },
                None => {
                    &&& old(self)@.indexer.url_queue.len() == 0
                    &&& final(self)@ == old(self)@
                },
            },
            run_wf(old(self)@) ==> run_wf(final(self)@),
    {
        let ghost pre = self@;
        match self.indexer.url_queue.pop() {
            Some(link) => {
                let url = link.url.clone();
                self.pending = Some(link);
                proof {
                    assert(self@.indexer.url_queue =~= pre.indexer.url_queue.drop_last());
                    assert(self@.completed == pre.completed);
                    if run_wf(pre) {
                        assert(link_queued(pre.indexer.url_queue[pre.indexer.url_queue.len() - 1]));
                        assert(run_wf(self@));
                    }
                }
                Some(url)
            },
            None => None,
        }
    }

    /// Takes the fetched page body, extracts its plain text, marks the
    /// in-flight link indexed, and returns the link's identity with the text
    /// so the caller can persist both and delete the queue membership.
    pub fn finish_fetch(&mut self, body: &str) -> (r: (u64, String))
        requires
            old(self)@.pending is Some,
        ensures
            r.0 == old(self)@.pending->0.id,
            r.1@ == spec_extract_text(body@),
            finished(old(self)@, final(self)@, body@),
            run_wf(old(self)@) ==> run_wf(final(self)@),
    {
        let ghost pre = self@;
        let text = extract_text(body);
        let link = self.pending.take().unwrap();
        let id = link.id;
        let stored = text.clone();
        self.completed.push(Link { id, url: link.url, text: Some(stored) });
        proof {
            assert(self@.completed =~= pre.completed.push(
                LinkView {
                    id: pre.pending->0.id,
                    url: pre.pending->0.url,
                    text: Some(spec_extract_text(body@)),
                },
            ));
        }
        (id, text)
    }
}

} // verus!
