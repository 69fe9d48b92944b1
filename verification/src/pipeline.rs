//! The pipeline orchestrator: one run handles exactly one pull-request
//! event, as a state machine.
//!
//! A closed event takes the short path: one delete against the vector
//! store, then done — no content is fetched and no embedding computed. An
//! open or updated event walks the long path: fetch the changed files'
//! content (delivered back in list order, never completion order),
//! assemble and chunk it, embed it, query the store with the freshly
//! computed vector, and only then persist that vector — so a run never
//! matches a stale copy of itself. Any error is fatal: the machine moves
//! to its failed state and nothing is retried or rolled back.
//!
//! The machine decides; the caller performs. Every transition hands back
//! the next action (delete, fetch, embed, query, upsert), and the caller
//! reports each action's outcome through the matching event method.

use crate::chunker::Chunk;
use crate::chunker::chunk;
use crate::chunker::chunk_texts;
use crate::content::FileAction;
use crate::content::FileChange;
use crate::content::assemble;
use crate::content::filter_nonempty;
use crate::content::filter_paths;
use crate::content::kept_paths;
use crate::content::lemma_render_all_push;
use crate::content::nonempty_paths;
use crate::content::raw_url;
use crate::content::raw_url_spec;
use crate::content::render;
use crate::content::render_all;
use crate::content::render_change;
use crate::content::split_commas;
use crate::content::split_csv;
use crate::embedding::EmbedError;
use crate::identity::encode_id;
use crate::identity::uuid;
use crate::store::IdentityDecodeError;
use crate::store::RawMatch;
use crate::store::RemoteStoreError;
use crate::store::SimilarPRs;
use crate::store::filter_query_results;
use crate::store::report_of;
use vstd::prelude::*;

verus! {

/// Everything one run is configured with: the identity of the pull
/// request, the event kind, the query parameters, the chunking budget,
/// and the four comma-separated file lists of the event.
pub struct PipelineConfig {
    pub repo_name: String,
    pub pr_number: String,
    pub commit_sha: String,
    pub closed: bool,
    pub top_k: u8,
    pub min_similarity: u8,
    pub max_tokens: usize,
    pub added: String,
    pub modified: String,
    pub removed: String,
    pub renamed: String,
    pub ignore_suffixes: Vec<String>,
}

/// What the caller must do next.
#[derive(Debug)]
pub enum Action {
    /// Remove the pull request's entry from the vector store.
    Delete { id: String },
    /// Fetch the raw content at these addresses and hand the bodies back
    /// in this same order, a missing body for a failed fetch.
    FetchContent { urls: Vec<String> },
    /// Run the encoder over these chunks.
    Embed { chunks: Vec<Chunk> },
    /// Query the store for the nearest neighbours of the freshly
    /// computed, not yet persisted vector.
    Query { top_k: u8 },
    /// Persist the fresh vector under this id, overwriting any previous
    /// one.
    Upsert { id: String },
}

/// What a transition ended in.
#[derive(Debug)]
pub enum Step {
    /// More to do.
    Next(Action),
    /// The closed path finished: the entry is deleted, nothing else ran.
    Deleted,
    /// The open path finished: the vector is persisted and this is the
    /// filtered report of similar pull requests.
    Reported(SimilarPRs),
    /// A fatal error ended the run.
    Failed(PipelineError),
}

/// The fatal errors a run can end in.
#[derive(Debug)]
pub enum PipelineError {
    /// The remote store answered with a non-success status.
    RemoteStore(RemoteStoreError),
    /// A store response held an id the codec cannot decode.
    IdentityDecode(IdentityDecodeError),
    /// The encoder failed.
    Embedding(EmbedError),
}

/// Where the run stands.
#[derive(Clone, Copy, Debug, PartialEq, Eq, Structural)]
pub enum PipelineState {
    AwaitingDelete,
    AwaitingContent,
    AwaitingEmbedding,
    AwaitingQuery,
    AwaitingUpsert,
    Done,
    Failed,
}

/// The added and modified paths kept for fetching, after dropping empty
/// entries and ignored suffixes.
pub open spec fn kept_added(cfg: &PipelineConfig) -> Seq<Seq<char>> {
    kept_paths(split_commas(cfg.added@), cfg.ignore_suffixes.deep_view())
}

/// See [`kept_added`].
pub open spec fn kept_modified(cfg: &PipelineConfig) -> Seq<Seq<char>> {
    kept_paths(split_commas(cfg.modified@), cfg.ignore_suffixes.deep_view())
}

/// The removed paths kept for rendering: the nonempty ones.
pub open spec fn kept_removed(cfg: &PipelineConfig) -> Seq<Seq<char>> {
    nonempty_paths(split_commas(cfg.removed@))
}

/// See [`kept_removed`].
pub open spec fn kept_renamed(cfg: &PipelineConfig) -> Seq<Seq<char>> {
    nonempty_paths(split_commas(cfg.renamed@))
}

/// Whether the fetch list holds exactly the kept added paths, then the
/// kept modified paths, in order.
pub open spec fn pending_matches(
    p: Seq<(String, FileAction)>,
    a: Seq<Seq<char>>,
    m: Seq<Seq<char>>,
) -> bool {
    &&& p.len() == a.len() + m.len()
    &&& forall|i: int|
        0 <= i < a.len() ==> (#[trigger] p[i]).0@ == a[i] && p[i].1 == FileAction::Added
    &&& forall|i: int|
        a.len() <= i < p.len() ==> (#[trigger] p[i]).0@ == m[i - a.len()] && p[i].1
            == FileAction::Modified
}

/// Whether the tail records hold exactly the kept removed paths, then
/// the kept renamed paths, in order, each without content.
pub open spec fn tail_matches(t: Seq<FileChange>, rm: Seq<Seq<char>>, rn: Seq<Seq<char>>) -> bool {
    &&& t.len() == rm.len() + rn.len()
    &&& forall|i: int|
        0 <= i < rm.len() ==> (#[trigger] t[i]).path@ == rm[i] && t[i].action
            == FileAction::Removed && t[i].content is None
    &&& forall|i: int|
        rm.len() <= i < t.len() ==> (#[trigger] t[i]).path@ == rn[i - rm.len()] && t[i].action
            == FileAction::Renamed && t[i].content is None
}

/// The content a fetched body contributes to a record: the body itself,
/// or — for a failed fetch — empty content, never an aborted run.
pub open spec fn pending_content_view(c: Option<String>) -> Option<Seq<char>> {
    match c {
        Some(s) => Some(s@),
        None => Some(Seq::<char>::empty()),
    }
}

/// The rendering of the fetched records, in fetch-list order.
pub open spec fn rendered_pending(
    pending: Seq<(String, FileAction)>,
    contents: Seq<Option<String>>,
) -> Seq<char>
    recommends
        pending.len() == contents.len(),
    decreases pending.len(),
{
    if pending.len() == 0 {
        Seq::empty()
    } else {
        rendered_pending(pending.drop_last(), contents.drop_last()) + render(
            pending.last().1,
            pending.last().0@,
            pending_content_view(contents.last()),
        )
    }
}

/// Appending one fetched record appends its rendering.
pub proof fn lemma_rendered_pending_push(
    p: Seq<(String, FileAction)>,
    c: Seq<Option<String>>,
    x: (String, FileAction),
    y: Option<String>,
)
    ensures
        rendered_pending(p.push(x), c.push(y)) == rendered_pending(p, c) + render(
            x.1,
            x.0@,
            pending_content_view(y),
        ),
{
    assert(p.push(x).drop_last() =~= p);
    assert(c.push(y).drop_last() =~= c);
    assert(p.push(x).last() == x);
    assert(c.push(y).last() == y);
}

/// The content blob of the open path: the fetched records rendered in
/// order, then the removed and renamed records, or the placeholder blob
/// when the event carries no file at all.
pub open spec fn open_blob_view(
    pending: Seq<(String, FileAction)>,
    contents: Seq<Option<String>>,
    tail: Seq<FileChange>,
) -> Seq<char> {
    if pending.len() == 0 && tail.len() == 0 {
        seq![' ']
    } else {
        rendered_pending(pending, contents) + render_all(tail)
    }
}

/// One run's state machine.
pub struct Pipeline {
    pub cfg: PipelineConfig,
    pub state: PipelineState,
    pub pending: Vec<(String, FileAction)>,
    pub tail: Vec<FileChange>,
    pub matches: Option<SimilarPRs>,
}

impl Pipeline {
    /// The configuration invariant every transition keeps: a usable
    /// chunking budget.
    pub open spec fn wf(&self) -> bool {
        self.cfg.max_tokens >= 1
    }

    /// Starts a run. A closed event asks for exactly one thing, the
    /// deletion of the pull request's entry; any other event asks for
    /// the kept changed files' content, in list order.
    #[verifier::loop_isolation(false)]
    pub fn new(cfg: PipelineConfig) -> (r: (Pipeline, Step))
        requires
            cfg.max_tokens >= 1,
        ensures
            r.0.cfg == cfg,
            r.0.wf(),
            r.0.matches is None,
            cfg.closed ==> (r.0.state is AwaitingDelete && (r.1 matches Step::Next(a)
                && a matches Action::Delete { id } && id@ == encode_id(
                cfg.repo_name@,
                cfg.pr_number@,
            ))),
            !cfg.closed ==> r.0.state is AwaitingContent && pending_matches(
                r.0.pending@,
                kept_added(&cfg),
                kept_modified(&cfg),
            ) && tail_matches(r.0.tail@, kept_removed(&cfg), kept_renamed(&cfg)) && (
            r.1 matches Step::Next(a) && a matches Action::FetchContent { urls } && urls@.len()
                == r.0.pending@.len() && (forall|i: int|
                0 <= i < urls@.len() ==> (#[trigger] urls@[i])@ == raw_url_spec(
                    cfg.repo_name@,
                    cfg.commit_sha@,
                    r.0.pending@[i].0@,
                ))),
    {
        if cfg.closed {
            let id = uuid(cfg.repo_name.as_str(), cfg.pr_number.as_str());
            let p = Pipeline {
                cfg,
                state: PipelineState::AwaitingDelete,
                pending: Vec::new(),
                tail: Vec::new(),
                matches: None,
            };
            return (p, Step::Next(Action::Delete { id }));
        }
        let added = filter_paths(&split_csv(cfg.added.as_str()), &cfg.ignore_suffixes);
        let modified = filter_paths(&split_csv(cfg.modified.as_str()), &cfg.ignore_suffixes);
        let removed = filter_nonempty(&split_csv(cfg.removed.as_str()));
        let renamed = filter_nonempty(&split_csv(cfg.renamed.as_str()));
        let mut pending: Vec<(String, FileAction)> = Vec::new();
        let na = added.len();
        let mut i: usize = 0;
        while i < na
            invariant
                0 <= i <= na,
                pending@.len() == i,
                forall|k: int|
                    0 <= k < i ==> (#[trigger] pending@[k]).0@ == added.deep_view()[k]
                        && pending@[k].1 == FileAction::Added,
            decreases na - i,
        {
            pending.push((added[i].clone(), FileAction::Added));
            i = i + 1;
        }
        let nm = modified.len();
        let mut i: usize = 0;
        while i < nm
            invariant
                0 <= i <= nm,
                pending@.len() == na + i,
                forall|k: int|
                    0 <= k < na ==> (#[trigger] pending@[k]).0@ == added.deep_view()[k]
                        && pending@[k].1 == FileAction::Added,
                forall|k: int|
                    na <= k < na + i ==> (#[trigger] pending@[k]).0@ == modified.deep_view()[k - na]
                        && pending@[k].1 == FileAction::Modified,
            decreases nm - i,
        {
            pending.push((modified[i].clone(), FileAction::Modified));
            i = i + 1;
        }
        let mut tail: Vec<FileChange> = Vec::new();
        let nr = removed.len();
        let mut i: usize = 0;
        while i < nr
            invariant
                0 <= i <= nr,
                tail@.len() == i,
                forall|k: int|
                    0 <= k < i ==> (#[trigger] tail@[k]).path@ == removed.deep_view()[k]
                        && tail@[k].action == FileAction::Removed && tail@[k].content is None,
            decreases nr - i,
        {
            tail.push(
                FileChange { path: removed[i].clone(), action: FileAction::Removed, content: None },
            );
            i = i + 1;
        }
        let nn = renamed.len();
        let mut i: usize = 0;
        while i < nn
            invariant
                0 <= i <= nn,
                tail@.len() == nr + i,
                forall|k: int|
                    0 <= k < nr ==> (#[trigger] tail@[k]).path@ == removed.deep_view()[k]
                        && tail@[k].action == FileAction::Removed && tail@[k].content is None,
                forall|k: int|
                    nr <= k < nr + i ==> (#[trigger] tail@[k]).path@ == renamed.deep_view()[k - nr]
                        && tail@[k].action == FileAction::Renamed && tail@[k].content is None,
            decreases nn - i,
        {
            tail.push(
                FileChange { path: renamed[i].clone(), action: FileAction::Renamed, content: None },
            );
            i = i + 1;
        }
        let mut urls: Vec<String> = Vec::new();
        let np = pending.len();
        let mut i: usize = 0;
        while i < np
            invariant
                0 <= i <= np,
                urls@.len() == i,
                forall|k: int|
                    0 <= k < i ==> (#[trigger] urls@[k])@ == raw_url_spec(
                        cfg.repo_name@,
                        cfg.commit_sha@,
                        pending@[k].0@,
                    ),
            decreases np - i,
        {
            urls.push(raw_url(cfg.repo_name.as_str(), cfg.commit_sha.as_str(), pending[i].0.as_str()));
            i = i + 1;
        }
        let p = Pipeline {
            cfg,
            state: PipelineState::AwaitingContent,
            pending,
            tail,
            matches: None,
        };
        (p, Step::Next(Action::FetchContent { urls }))
    }

    /// Takes the outcome of the deletion. Success ends the run; a store
    /// error ends it as failed.
    pub fn on_deleted(&mut self, r: Result<(), RemoteStoreError>) -> (step: Step)
        requires
            old(self).state is AwaitingDelete,
        ensures
            final(self).cfg == old(self).cfg,
            final(self).wf() == old(self).wf(),
            r is Ok ==> (final(self).state is Done && step is Deleted),
            (r matches Err(e) ==> final(self).state is Failed && (
            step matches Step::Failed(pe) && pe matches PipelineError::RemoteStore(e2) && e2 == e)),
    {
        match r {
            Ok(_) => {
                self.state = PipelineState::Done;
                Step::Deleted
            },
            Err(e) => {
                self.state = PipelineState::Failed;
                Step::Failed(PipelineError::RemoteStore(e))
            },
        }
    }

    /// Takes the fetched file bodies, in fetch-list order — index for
    /// index with the fetch list, whatever order the fetches completed
    /// in — and hands back the chunked content blob to embed. A missing
    /// body stands for one unreadable file and degrades to empty
    /// content; it never aborts the run.
    #[verifier::loop_isolation(false)]
    pub fn on_content(&mut self, contents: &Vec<Option<String>>) -> (step: Step)
        requires
            old(self).wf(),
            old(self).state is AwaitingContent,
            contents@.len() == old(self).pending@.len(),
        ensures
            final(self).cfg == old(self).cfg,
            final(self).wf(),
            final(self).matches == old(self).matches,
            final(self).state is AwaitingEmbedding,
            (step matches Step::Next(a) && a matches Action::Embed { chunks } && ({
                let blobv = open_blob_view(old(self).pending@, contents@, old(self).tail@);
                let texts = chunk_texts(blobv, old(self).cfg.max_tokens as int);
                &&& chunks@.len() == texts.len()
                &&& chunks@.len() >= 1
                &&& forall|i: int|
                    0 <= i < chunks@.len() ==> (#[trigger] chunks@[i]).text@ == texts[i]
                        && chunks@[i].index == i
                &&& forall|i: int|
                    0 <= i < chunks@.len() ==> (#[trigger] chunks@[i]).text@.len() <= old(
                        self,
                    ).cfg.max_tokens
            })),
    {
        let n = self.pending.len();
        let mut all: Vec<FileChange> = Vec::new();
        let mut i: usize = 0;
        while i < n
            invariant
                0 <= i <= n,
                all@.len() == i,
                render_all(all@) == rendered_pending(
                    self.pending@.take(i as int),
                    contents@.take(i as int),
                ),
            decreases n - i,
        {
            let path = self.pending[i].0.clone();
            let action = self.pending[i].1;
            let content = match &contents[i] {
                Some(s) => Some(s.clone()),
                None => Some(String::new()),
            };
            let c = FileChange { path, action, content };
            proof {
                lemma_render_all_push(all@, c);
                lemma_rendered_pending_push(
                    self.pending@.take(i as int),
                    contents@.take(i as int),
                    self.pending@[i as int],
                    contents@[i as int],
                );
                assert(self.pending@.take(i as int + 1) =~= self.pending@.take(i as int).push(
                    self.pending@[i as int],
                ));
                assert(contents@.take(i as int + 1) =~= contents@.take(i as int).push(
                    contents@[i as int],
                ));
                assert(render_change(c) == render(
                    self.pending@[i as int].1,
                    self.pending@[i as int].0@,
                    pending_content_view(contents@[i as int]),
                ));
            }
            all.push(c);
            i = i + 1;
        }
        proof {
            assert(self.pending@.take(n as int) =~= self.pending@);
            assert(contents@.take(n as int) =~= contents@);
        }
        let m = self.tail.len();
        let mut j: usize = 0;
        while j < m
            invariant
                0 <= j <= m,
                all@.len() == n + j,
                render_all(all@) == rendered_pending(self.pending@, contents@) + render_all(
                    self.tail@.take(j as int),
                ),
            decreases m - j,
        {
            let t = &self.tail[j];
            let c = FileChange {
                path: t.path.clone(),
                action: t.action,
                content: match &t.content {
                    Some(s) => Some(s.clone()),
                    None => None,
                },
            };
            proof {
                lemma_render_all_push(all@, c);
                lemma_render_all_push(self.tail@.take(j as int), self.tail@[j as int]);
                assert(self.tail@.take(j as int + 1) =~= self.tail@.take(j as int).push(
                    self.tail@[j as int],
                ));
                assert(render_change(c) == render_change(self.tail@[j as int]));
            }
            all.push(c);
            j = j + 1;
        }
        proof {
            assert(self.tail@.take(m as int) =~= self.tail@);
        }
        let blob = assemble(&all);
        proof {
            assert(blob@ == open_blob_view(self.pending@, contents@, self.tail@));
        }
        let chunks = chunk(blob.as_str(), self.cfg.max_tokens);
        self.state = PipelineState::AwaitingEmbedding;
        Step::Next(Action::Embed { chunks })
    }

    /// Takes the outcome of the embedding. Success moves on to the
    /// query — with the fresh vector, before anything is persisted; an
    /// encoder error ends the run as failed.
    pub fn on_embedded(&mut self, r: Result<(), EmbedError>) -> (step: Step)
        requires
            old(self).state is AwaitingEmbedding,
        ensures
            final(self).cfg == old(self).cfg,
            final(self).wf() == old(self).wf(),
            final(self).matches == old(self).matches,
            (r is Ok ==> final(self).state is AwaitingQuery && (step matches Step::Next(a)
                && a matches Action::Query { top_k } && top_k == old(self).cfg.top_k)),
            (r matches Err(e) ==> final(self).state is Failed && (
            step matches Step::Failed(pe) && pe matches PipelineError::Embedding(e2) && e2 == e)),
    {
        match r {
            Ok(_) => {
                self.state = PipelineState::AwaitingQuery;
                Step::Next(Action::Query { top_k: self.cfg.top_k })
            },
            Err(e) => {
                self.state = PipelineState::Failed;
                Step::Failed(PipelineError::Embedding(e))
            },
        }
    }

    /// Takes the outcome of the query. A successful response is put
    /// through the identity and threshold filter; the filtered report is
    /// kept and the fresh vector is persisted next. A store error, or a
    /// response id that does not decode, ends the run as failed.
    pub fn on_query_response(&mut self, r: Result<Vec<RawMatch>, RemoteStoreError>) -> (step: Step)
        requires
            old(self).state is AwaitingQuery,
        ensures
            final(self).cfg == old(self).cfg,
            final(self).wf() == old(self).wf(),
            (r matches Ok(results) && (forall|j: int|
                0 <= j < results@.len() ==> crate::identity::id_wellformed(
                    (#[trigger] results@[j]).id@,
                ))) ==> (final(self).state is AwaitingUpsert && (
            final(self).matches matches Some(sp) && report_of(
                sp,
                r.unwrap()@,
                old(self).cfg.repo_name@,
                old(self).cfg.pr_number@,
                old(self).cfg.min_similarity as int * 100,
            )) && (step matches Step::Next(a) && a matches Action::Upsert { id } && id@
                == encode_id(old(self).cfg.repo_name@, old(self).cfg.pr_number@))),
            (r matches Ok(results) && !(forall|j: int|
                0 <= j < results@.len() ==> crate::identity::id_wellformed(
                    (#[trigger] results@[j]).id@,
                ))) ==> (final(self).state is Failed && (step matches Step::Failed(pe)
                && pe is IdentityDecode)),
            (r matches Err(e) ==> final(self).state is Failed && (
            step matches Step::Failed(pe) && pe matches PipelineError::RemoteStore(e2) && e2 == e)),
            (final(self).state is Failed ==> step is Failed),
    {
        match r {
            Ok(results) => {
                match filter_query_results(
                    &results,
                    self.cfg.repo_name.as_str(),
                    self.cfg.pr_number.as_str(),
                    self.cfg.min_similarity,
                ) {
                    Ok(sp) => {
                        self.matches = Some(sp);
                        self.state = PipelineState::AwaitingUpsert;
                        let id = uuid(self.cfg.repo_name.as_str(), self.cfg.pr_number.as_str());
                        Step::Next(Action::Upsert { id })
                    },
                    Err(e) => {
                        self.state = PipelineState::Failed;
                        Step::Failed(PipelineError::IdentityDecode(e))
                    },
                }
            },
            Err(e) => {
                self.state = PipelineState::Failed;
                Step::Failed(PipelineError::RemoteStore(e))
            },
        }
    }

    /// Takes the outcome of the upsert. Success ends the run with the
    /// kept report; a store error ends it as failed, but the report is
    /// not discarded — the caller may still read it, the run just does
    /// not count as persisted.
    pub fn on_upserted(&mut self, r: Result<(), RemoteStoreError>) -> (step: Step)
        requires
            old(self).state is AwaitingUpsert,
            old(self).matches is Some,
        ensures
            final(self).cfg == old(self).cfg,
            final(self).wf() == old(self).wf(),
            (r is Ok ==> final(self).state is Done && (step matches Step::Reported(sp) && Some(sp)
                == old(self).matches)),
            (r matches Err(e) ==> final(self).state is Failed && final(self).matches == old(
                self,
            ).matches && (step matches Step::Failed(pe) && pe matches PipelineError::RemoteStore(
                e2,
            ) && e2 == e)),
    {
        match r {
            Ok(_) => {
                self.state = PipelineState::Done;
                let m = self.matches.take();
                match m {
                    Some(sp) => Step::Reported(sp),
                    None => unreached(),
                }
            },
            Err(e) => {
                self.state = PipelineState::Failed;
                Step::Failed(PipelineError::RemoteStore(e))
            },
        }
    }

    /// The report kept from the query, if the run got that far.
    pub fn report(&self) -> (r: &Option<SimilarPRs>)
        ensures
            r == &self.matches,
    {
        &self.matches
    }
}

} // verus!
