//! The content store: a shared, internally synchronized handle to the index.
//!
//! At most one writer runs at a time and readers run freely: the index sits
//! behind a reader/writer lock whose invariant is the index's
//! well-formedness, so every reader sees a wholly consistent index.  A load
//! applies its whole update under one write acquisition: no reader ever
//! observes a new node with old group membership or the other way round.
//! Queries return owned copies.  Handles are cheap to duplicate and all
//! duplicates share the same underlying state.

use std::sync::Arc;

use vstd::prelude::*;
use vstd::rwlock::{RwLock, RwLockPredicate};

use crate::content::{Group, Node, NodeV, Tag};
use crate::index::ContentIndex;
use crate::loader::{
    content_view, plan_entry, spec_plan, EntryKind, LoadContentError, LoadOutcome, PlanV,
};
use crate::names::{fresh_index_id, GroupName, PageName, TagName};

verus! {

/// What the lock guards: every index it ever stores is well formed.
pub struct IndexPred;

impl RwLockPredicate<ContentIndex> for IndexPred {
    open spec fn inv(self, v: ContentIndex) -> bool {
        v.wf()
    }
}

/// Relies on Arc::clone: the new handle refers to the same allocation, so it
/// denotes the same value as the old one.
#[verifier::external_body]
fn share_lock(v: &Arc<RwLock<ContentIndex, IndexPred>>) -> (r: Arc<
    RwLock<ContentIndex, IndexPred>,
>)
    ensures
        r == *v,
{
    v.clone()
}

/// The outcome a plan reports once applied.
pub open spec fn plan_outcome(p: PlanV) -> LoadOutcome {
    match p {
        PlanV::Skip(o) => o,
        PlanV::Register(_) => LoadOutcome::Registered,
        PlanV::PutPage { .. } => LoadOutcome::Loaded,
        PlanV::PutIndex { .. } => LoadOutcome::Loaded,
        PlanV::PutPost { .. } => LoadOutcome::Loaded,
    }
}

/// What `load` returns for the entry, given the identifier an index page
/// would be keyed by: the plan's outcome, or its typed failure.
pub open spec fn load_result(
    root: Seq<char>,
    path: Seq<char>,
    kind: EntryKind,
    content: Result<Seq<char>, Seq<char>>,
    drafts: bool,
    fresh: u128,
    r: Result<LoadOutcome, LoadContentError>,
) -> bool {
    match spec_plan(root, path, kind, content, drafts, fresh) {
        Ok(p) => r == Ok::<LoadOutcome, LoadContentError>(plan_outcome(p)),
        Err(e) => r matches Err(err) && err@ == e,
    }
}

/// An owned node, as a mathematical value.
pub open spec fn opt_node_view(r: Option<Node>) -> Option<NodeV> {
    match r {
        Some(n) => Some(n@),
        None => None,
    }
}

/// The queryable content store.
pub struct Content {
    root: String,
    lock: Arc<RwLock<ContentIndex, IndexPred>>,
}

impl Content {
    /// The content root path this store was built over.
    pub closed spec fn spec_root(self) -> Seq<char> {
        self.root@
    }

    /// An empty store over the given content root.
    pub fn new(root: String) -> (r: Content)
        ensures
            r.spec_root() == root@,
    {
        let index = ContentIndex::new();
        Content { root, lock: Arc::new(RwLock::new(index, Ghost(IndexPred))) }
    }

    /// A second handle to the same store.  Duplication is cheap (a reference
    /// count) and both handles share the same underlying state.
    pub fn duplicate(&self) -> (r: Content)
        ensures
            r == *self,
    {
        Content { root: self.root.clone(), lock: share_lock(&self.lock) }
    }

    /// Loads one filesystem entry: classifies it, parses it and replaces its
    /// node together with the group and tag memberships it derives, all
    /// under one exclusive acquisition of the index.  `content` is the
    /// outcome of reading the file; `drafts` includes draft posts in the
    /// index for this load.  No reader ever observes the update half done.
    pub fn load(&self, path: &str, kind: EntryKind, content: Result<String, String>, drafts: bool) -> (r:
        Result<LoadOutcome, LoadContentError>)
        ensures
            forall|fresh: u128|
                load_result(
                    self.spec_root(),
                    path@,
                    kind,
                    content_view(content),
                    drafts,
                    fresh,
                    r,
                ),
    {
        let fresh = fresh_index_id();
        let root_chars = crate::text::to_chars(self.root.as_str());
        let path_chars = crate::text::to_chars(path);
        let plan = plan_entry(
            root_chars.as_slice(),
            path_chars.as_slice(),
            kind,
            &content,
            drafts,
            fresh,
        );
        match plan {
            Err(e) => {
                proof {
                    assert forall|f: u128|
                        load_result(
                            self.spec_root(),
                            path@,
                            kind,
                            content_view(content),
                            drafts,
                            f,
                            Err(e),
                        ) by {
                        crate::loader::lemma_plan_fresh_independent(
                            self.spec_root(),
                            path@,
                            kind,
                            content_view(content),
                            drafts,
                            fresh,
                            f,
                        );
                    }
                }
                Err(e)
            },
            Ok(plan) => {
                let (mut index, handle) = self.lock.acquire_write();
                let outcome = index.apply(plan);
                handle.release_write(index);
                proof {
                    assert forall|f: u128|
                        load_result(
                            self.spec_root(),
                            path@,
                            kind,
                            content_view(content),
                            drafts,
                            f,
                            Ok(outcome),
                        ) by {
                        crate::loader::lemma_plan_fresh_independent(
                            self.spec_root(),
                            path@,
                            kind,
                            content_view(content),
                            drafts,
                            fresh,
                            f,
                        );
                    }
                }
                Ok(outcome)
            },
        }
    }

    /// The group named `g`, as a snapshot copy out of one consistent index.
    pub fn group(&self, g: &GroupName) -> (r: Option<Group>)
        ensures
            exists|i: ContentIndex|
                #[trigger] i.wf() && match r {
                    Some(gr) => i.groups().contains_key(g@) && i.groups()[g@] == gr@,
                    None => !i.groups().contains_key(g@),
                },
    {
        let handle = self.lock.acquire_read();
        let index = handle.borrow();
        let ghost snapshot = *index;
        let r = match index.group(g) {
            Some(gr) => Some(gr.clone()),
            None => None,
        };
        handle.release_read();
        proof {
            assert(snapshot.wf());
        }
        r
    }

    /// The tag named `t`, as a snapshot copy out of one consistent index.
    pub fn tag(&self, t: &TagName) -> (r: Option<Tag>)
        ensures
            exists|i: ContentIndex|
                #[trigger] i.wf() && match r {
                    Some(tg) => i.tags().contains_key(t@) && i.tags()[t@] == tg@,
                    None => !i.tags().contains_key(t@),
                },
    {
        let handle = self.lock.acquire_read();
        let index = handle.borrow();
        let ghost snapshot = *index;
        let r = match index.tag(t) {
            Some(tg) => Some(tg.clone()),
            None => None,
        };
        handle.release_read();
        proof {
            assert(snapshot.wf());
        }
        r
    }

    /// The node the group serves under `name`, as a snapshot copy out of one
    /// consistent index.
    pub fn page(&self, g: &GroupName, name: &PageName) -> (r: Option<Node>)
        ensures
            exists|i: ContentIndex|
                #[trigger] i.wf() && match opt_node_view(r) {
                    Some(n) => {
                        &&& i.groups().contains_key(g@)
                        &&& i.groups()[g@].members.contains(name@)
                        &&& i.nodes().contains_key(name@)
                        &&& i.nodes()[name@] == n
                    },
                    None => !i.groups().contains_key(g@) || !i.groups()[g@].members.contains(
                        name@,
                    ),
                },
    {
        let handle = self.lock.acquire_read();
        let index = handle.borrow();
        let ghost snapshot = *index;
        let r = match index.page(g, name) {
            Some(n) => Some(n.clone()),
            None => None,
        };
        handle.release_read();
        proof {
            assert(snapshot.wf());
        }
        r
    }

    /// The post the group serves under `name`, as a snapshot copy out of one
    /// consistent index.
    pub fn post(&self, g: &GroupName, name: &PageName) -> (r: Option<Node>)
        ensures
            exists|i: ContentIndex|
                #[trigger] i.wf() && match opt_node_view(r) {
                    Some(n) => {
                        &&& i.groups().contains_key(g@)
                        &&& i.groups()[g@].members.contains(name@)
                        &&& i.nodes().contains_key(name@)
                        &&& i.nodes()[name@] == n
                        &&& n is Post
                    },
                    None => !i.groups().contains_key(g@) || !i.groups()[g@].members.contains(name@)
                        || !(i.nodes().contains_key(name@) && i.nodes()[name@] is Post),
                },
    {
        let handle = self.lock.acquire_read();
        let index = handle.borrow();
        let ghost snapshot = *index;
        let r = match index.post(g, name) {
            Some(n) => Some(n.clone()),
            None => None,
        };
        handle.release_read();
        proof {
            assert(snapshot.wf());
        }
        r
    }

    /// The group's index page, as a snapshot copy out of one consistent
    /// index.
    pub fn index(&self, g: &GroupName) -> (r: Option<Node>)
        ensures
            exists|i: ContentIndex|
                #[trigger] i.wf() && match opt_node_view(r) {
                    Some(n) => {
                        &&& i.groups().contains_key(g@)
                        &&& i.groups()[g@].index matches Some(idx) && i.nodes().contains_key(idx)
                            && i.nodes()[idx] == n
                    },
                    None => !i.groups().contains_key(g@) || i.groups()[g@].index is None,
                },
    {
        let handle = self.lock.acquire_read();
        let index = handle.borrow();
        let ghost snapshot = *index;
        let r = match index.index(g) {
            Some(n) => Some(n.clone()),
            None => None,
        };
        handle.release_read();
        proof {
            assert(snapshot.wf());
        }
        r
    }

    /// How many nodes the store holds: exactly one per key.
    pub fn node_count(&self) -> (r: usize)
        ensures
            exists|i: ContentIndex| #[trigger] i.wf() && r == i.nodes().dom().len(),
    {
        let handle = self.lock.acquire_read();
        let index = handle.borrow();
        let ghost snapshot = *index;
        let r = index.node_count();
        handle.release_read();
        proof {
            assert(snapshot.wf());
        }
        r
    }
}

impl Clone for Content {
    /// The clone is a handle to the same store.
    fn clone(&self) -> (r: Self)
        ensures
            r == *self,
    {
        self.duplicate()
    }
}

} // verus!
