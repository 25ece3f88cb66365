//! The content index: nodes keyed by page name, with derived groups and
//! tags.
//!
//! Keys are unique; a group's members and index page always name keys
//! present in the node map; a tag's members always name post keys.  Every
//! mutation replaces whole nodes and keeps the invariant, so any index a
//! reader sees is internally consistent.

use vstd::prelude::*;

use crate::content::{Group, GroupV, Node, NodeV, Page, Post, Tag, TagV};
use crate::dates::spec_date_prefix;
use crate::maps::{abind, aget, akeys_unique, amap, aset_insert, lemma_amap_len, KeyEq};
use crate::names::{GroupName, GroupNameV, PageName, PageNameV, TagName};

verus! {

/// The key shape that classification gives to posts: a parsed name whose
/// string opens with a date prefix.
pub open spec fn post_key(n: PageNameV) -> bool {
    &&& n is Named
    &&& spec_date_prefix(n->Named_0) is Some
}

/// A group value with no index page and no members.
pub open spec fn empty_group() -> GroupV {
    GroupV { index: None, members: Set::empty() }
}

/// The group value for `g` after `m` joined its members.
pub open spec fn group_with_member(groups: Map<GroupNameV, GroupV>, g: GroupNameV, m: PageNameV) -> GroupV {
    let base = if groups.contains_key(g) {
        groups[g]
    } else {
        empty_group()
    };
    GroupV { index: base.index, members: base.members.insert(m) }
}

/// The group value for `g` after `idx` became its index page.
pub open spec fn group_with_index(groups: Map<GroupNameV, GroupV>, g: GroupNameV, idx: PageNameV) -> GroupV {
    let base = if groups.contains_key(g) {
        groups[g]
    } else {
        empty_group()
    };
    GroupV { index: Some(idx), members: base.members }
}

/// The tag value for `t` after `m` joined its members.
pub open spec fn tag_with_member(tags: Map<Seq<char>, TagV>, t: Seq<char>, m: PageNameV) -> TagV {
    let base = if tags.contains_key(t) {
        tags[t]
    } else {
        TagV { members: Set::empty() }
    };
    TagV { members: base.members.insert(m) }
}

/// The tag map after `m` joined the members of every tag in `ts`, in order.
pub open spec fn tags_with_member(
    tags: Map<Seq<char>, TagV>,
    ts: Seq<Seq<char>>,
    m: PageNameV,
) -> Map<Seq<char>, TagV>
    decreases ts.len(),
{
    if ts.len() == 0 {
        tags
    } else {
        tags_with_member(tags.insert(ts[0], tag_with_member(tags, ts[0], m)), ts.drop_first(), m)
    }
}

/// A group only names keys that the node map holds, and its index page, if
/// any, is a page node under a generated index name.
pub open spec fn group_ok(nodes: Map<PageNameV, NodeV>, gr: GroupV) -> bool {
    &&& (gr.index matches Some(idx) ==> idx is Index && nodes.contains_key(idx) && nodes[idx]
        is Page)
    &&& forall|m: PageNameV| #[trigger] gr.members.contains(m) ==> nodes.contains_key(m)
}

/// A tag only names post keys that the node map holds as posts.
pub open spec fn tag_ok(nodes: Map<PageNameV, NodeV>, tg: TagV) -> bool {
    forall|m: PageNameV| #[trigger]
        tg.members.contains(m) ==> post_key(m) && nodes.contains_key(m) && nodes[m] is Post
}

/// The referential invariant of the index: groups and tags only ever name
/// keys present in the node map, tags only posts.
pub open spec fn inv_maps(
    nodes: Map<PageNameV, NodeV>,
    groups: Map<GroupNameV, GroupV>,
    tags: Map<Seq<char>, TagV>,
) -> bool {
    &&& forall|g: GroupNameV| #[trigger] groups.contains_key(g) ==> group_ok(nodes, groups[g])
    &&& forall|t: Seq<char>| #[trigger] tags.contains_key(t) ==> tag_ok(nodes, tags[t])
}

/// The in-memory content index.
pub struct ContentIndex {
    nodes: Vec<(PageName, Node)>,
    groups: Vec<(GroupName, Group)>,
    tags: Vec<(TagName, Tag)>,
}

impl ContentIndex {
    /// The node map: every loaded page and post, keyed by name.
    pub closed spec fn nodes(self) -> Map<PageNameV, NodeV> {
        amap(self.nodes@)
    }

    /// The group map.
    pub closed spec fn groups(self) -> Map<GroupNameV, GroupV> {
        amap(self.groups@)
    }

    /// The tag map.
    pub closed spec fn tags(self) -> Map<Seq<char>, TagV> {
        amap(self.tags@)
    }

    /// The lists behind the maps carry pairwise distinct keys.
    pub closed spec fn keys_ok(self) -> bool {
        akeys_unique(self.nodes@) && akeys_unique(self.groups@) && akeys_unique(self.tags@)
    }

    /// The index is well formed.
    pub open spec fn wf(self) -> bool {
        self.keys_ok() && inv_maps(self.nodes(), self.groups(), self.tags())
    }

    /// An empty index.
    pub fn new() -> (r: ContentIndex)
        ensures
            r.wf(),
            r.nodes() == Map::<PageNameV, NodeV>::empty(),
            r.groups() == Map::<GroupNameV, GroupV>::empty(),
            r.tags() == Map::<Seq<char>, TagV>::empty(),
    {
        ContentIndex { nodes: Vec::new(), groups: Vec::new(), tags: Vec::new() }
    }

    /// Makes sure the group exists, empty if it is new.  Nothing else
    /// changes.
    pub fn register_group(&mut self, g: GroupName)
        requires
            old(self).wf(),
        ensures
            final(self).wf(),
            final(self).nodes() == old(self).nodes(),
            final(self).tags() == old(self).tags(),
            final(self).groups() == if old(self).groups().contains_key(g@) {
                old(self).groups()
            } else {
                old(self).groups().insert(g@, empty_group())
            },
    {
        let present = aget(&self.groups, &g).is_some();
        if !present {
            let gr = Group::empty();
            proof {
                assert(gr@ =~= empty_group());
            }
            abind(&mut self.groups, g, gr);
        }
    }

    /// Replaces the node at `name` with a page and adds `name` to the
    /// group's members.  The whole update is one step: no state with the
    /// node present but the membership missing ever exists.
    pub fn put_page(&mut self, g: GroupName, name: PageName, page: Page)
        requires
            old(self).wf(),
            !post_key(name@),
        ensures
            final(self).wf(),
            final(self).nodes() == old(self).nodes().insert(name@, NodeV::Page(page@)),
            final(self).tags() == old(self).tags(),
            final(self).groups() == old(self).groups().insert(
                g@,
                group_with_member(old(self).groups(), g@, name@),
            ),
    {
        let ghost old_nodes = self.nodes();
        let ghost old_groups = self.groups();
        let ghost pagev = page@;
        let ghost namev = name@;
        let mut gr = match aget(&self.groups, &g) {
            Some(gr) => gr.clone(),
            None => Group::empty(),
        };
        abind(&mut self.nodes, name.clone(), Node::Page(page));
        aset_insert(&mut gr.members, name);
        proof {
            assert(gr@ =~= group_with_member(old_groups, g@, namev));
        }
        abind(&mut self.groups, g, gr);
        proof {
            self.lemma_wf_after_put(
                *old(self),
                namev,
                NodeV::Page(pagev),
                g@,
                group_with_member(old_groups, g@, namev),
            );
        }
    }

    /// Replaces the node at `name` (an index-page name) with a page and
    /// makes it the group's index page, in one step.
    pub fn put_index(&mut self, g: GroupName, name: PageName, page: Page)
        requires
            old(self).wf(),
            name@ is Index,
        ensures
            final(self).wf(),
            final(self).nodes() == old(self).nodes().insert(name@, NodeV::Page(page@)),
            final(self).tags() == old(self).tags(),
            final(self).groups() == old(self).groups().insert(
                g@,
                group_with_index(old(self).groups(), g@, name@),
            ),
    {
        let ghost old_groups = self.groups();
        let ghost pagev = page@;
        let ghost namev = name@;
        let mut gr = match aget(&self.groups, &g) {
            Some(gr) => gr.clone(),
            None => Group::empty(),
        };
        abind(&mut self.nodes, name.clone(), Node::Page(page));
        gr.index = Some(name);
        proof {
            assert(gr@ =~= group_with_index(old_groups, g@, namev));
        }
        abind(&mut self.groups, g, gr);
        proof {
            self.lemma_wf_after_put(
                *old(self),
                namev,
                NodeV::Page(pagev),
                g@,
                group_with_index(old_groups, g@, namev),
            );
        }
    }

    /// The common well-formedness argument after a node was bound and one
    /// group value replaced: the new group value must itself be in order,
    /// and the new node must not break any tag.
    proof fn lemma_wf_after_put(
        self,
        prev: ContentIndex,
        name: PageNameV,
        node: NodeV,
        g: GroupNameV,
        gr: GroupV,
    )
        requires
            prev.wf(),
            self.keys_ok(),
            self.nodes() == prev.nodes().insert(name, node),
            self.tags() == prev.tags(),
            self.groups() == prev.groups().insert(g, gr),
            group_ok(self.nodes(), gr),
            node is Post || !post_key(name),
            name is Index ==> node is Page,
        ensures
            self.wf(),
    {
        assert forall|g2: GroupNameV| #[trigger] self.groups().contains_key(g2) implies group_ok(
            self.nodes(),
            self.groups()[g2],
        ) by {
            if g2 == g {
            } else {
                assert(prev.groups().contains_key(g2));
                let gr2 = prev.groups()[g2];
                assert(group_ok(prev.nodes(), gr2));
                match gr2.index {
                    Some(idx) => {
                        if idx == name {
                            assert(node is Page);
                        }
                    },
                    None => {},
                }
                assert forall|m: PageNameV| #[trigger] gr2.members.contains(m) implies self.nodes().contains_key(m) by {
                    assert(prev.nodes().contains_key(m));
                }
            }
        }
        assert forall|t: Seq<char>| #[trigger] self.tags().contains_key(t) implies tag_ok(
            self.nodes(),
            self.tags()[t],
        ) by {
            assert(prev.tags().contains_key(t));
            let tg = prev.tags()[t];
            assert(tag_ok(prev.nodes(), tg));
            assert forall|m: PageNameV| #[trigger] tg.members.contains(m) implies post_key(m)
                && self.nodes().contains_key(m) && self.nodes()[m] is Post by {
                if m == name {
                    assert(post_key(name));
                    assert(node is Post);
                }
            }
        }
    }

    /// Replaces the node at `name` with a post, adds `name` to the group's
    /// members and to every named tag, in one step.
    #[verifier::loop_isolation(false)]
    pub fn put_post(&mut self, g: GroupName, name: PageName, post: Post, tag_names: &Vec<TagName>)
        requires
            old(self).wf(),
            post_key(name@),
        ensures
            final(self).wf(),
            final(self).nodes() == old(self).nodes().insert(name@, NodeV::Post(post@)),
            final(self).groups() == old(self).groups().insert(
                g@,
                group_with_member(old(self).groups(), g@, name@),
            ),
            final(self).tags() == tags_with_member(
                old(self).tags(),
                tag_names.deep_view(),
                name@,
            ),
    {
        let ghost old_nodes = self.nodes();
        let ghost old_groups = self.groups();
        let ghost old_tags = self.tags();
        let ghost postv = post@;
        let ghost namev = name@;
        let ghost tagsv = tag_names.deep_view();
        let mut gr = match aget(&self.groups, &g) {
            Some(gr) => gr.clone(),
            None => Group::empty(),
        };
        abind(&mut self.nodes, name.clone(), Node::Post(post));
        aset_insert(&mut gr.members, name.clone());
        proof {
            assert(gr@ =~= group_with_member(old_groups, g@, namev));
        }
        abind(&mut self.groups, g, gr);
        proof {
            self.lemma_wf_after_put(
                *old(self),
                namev,
                NodeV::Post(postv),
                g@,
                group_with_member(old_groups, g@, namev),
            );
        }
        let n = tag_names.len();
        proof {
            assert(tagsv.subrange(0, n as int) =~~= tagsv);
        }
        let mut i: usize = 0;
        while i < n
            invariant
                n == tagsv.len(),
                tagsv == tag_names.deep_view(),
                i <= n,
                self.wf(),
                self.nodes() == old(self).nodes().insert(namev, NodeV::Post(postv)),
                self.groups() == old(self).groups().insert(
                    g@,
                    group_with_member(old_groups, g@, namev),
                ),
                post_key(namev),
                tags_with_member(old_tags, tagsv, namev) == tags_with_member(
                    self.tags(),
                    tagsv.subrange(i as int, n as int),
                    namev,
                ),
            decreases n - i,
        {
            let t = &tag_names[i];
            proof {
                assert(t@ == tagsv[i as int]);
                assert(tagsv.subrange(i as int, n as int)[0] == tagsv[i as int]);
                assert(tagsv.subrange(i as int, n as int).drop_first() =~~= tagsv.subrange(
                    i as int + 1,
                    n as int,
                ));
            }
            let ghost tags_before = self.tags();
            let mut tg = match aget(&self.tags, t) {
                Some(tg) => tg.clone(),
                None => Tag::empty(),
            };
            aset_insert(&mut tg.members, name.clone());
            proof {
                assert(tg@ =~= tag_with_member(tags_before, t@, namev));
            }
            let key = t.clone();
            abind(&mut self.tags, key, tg);
            proof {
                assert(self.tags() == tags_before.insert(
                    t@,
                    tag_with_member(tags_before, t@, namev),
                ));
                assert forall|t2: Seq<char>| #[trigger] self.tags().contains_key(t2) implies tag_ok(
                    self.nodes(),
                    self.tags()[t2],
                ) by {
                    if t2 == t@ {
                        let tgv = self.tags()[t2];
                        assert forall|m: PageNameV| #[trigger] tgv.members.contains(m) implies post_key(m)
                            && self.nodes().contains_key(m) && self.nodes()[m] is Post by {
                            if m != namev {
                                assert(tags_before.contains_key(t2) && tags_before[t2].members.contains(m));
                            }
                        }
                    }
                }
            }
            i = i + 1;
        }
        proof {
            assert(tagsv.subrange(n as int, n as int) =~~= Seq::<Seq<char>>::empty());
        }
    }

    /// Applies one planned update, in one step: the outcome is the plan's
    /// own, the maps change exactly as the plan says, and the index stays
    /// well formed throughout.
    pub fn apply(&mut self, plan: crate::loader::LoadPlan) -> (r: crate::loader::LoadOutcome)
        requires
            old(self).wf(),
            crate::loader::plan_wf(plan@),
        ensures
            final(self).wf(),
            match plan@ {
                crate::loader::PlanV::Skip(o) => {
                    &&& r == o
                    &&& final(self).nodes() == old(self).nodes()
                    &&& final(self).groups() == old(self).groups()
                    &&& final(self).tags() == old(self).tags()
                },
                crate::loader::PlanV::Register(g) => {
                    &&& r == crate::loader::LoadOutcome::Registered
                    &&& final(self).nodes() == old(self).nodes()
                    &&& final(self).tags() == old(self).tags()
                    &&& final(self).groups() == if old(self).groups().contains_key(g) {
                        old(self).groups()
                    } else {
                        old(self).groups().insert(g, empty_group())
                    }
                },
                crate::loader::PlanV::PutPage { group, name, page } => {
                    &&& r == crate::loader::LoadOutcome::Loaded
                    &&& final(self).nodes() == old(self).nodes().insert(name, NodeV::Page(page))
                    &&& final(self).tags() == old(self).tags()
                    &&& final(self).groups() == old(self).groups().insert(
                        group,
                        group_with_member(old(self).groups(), group, name),
                    )
                },
                crate::loader::PlanV::PutIndex { group, name, page } => {
                    &&& r == crate::loader::LoadOutcome::Loaded
                    &&& final(self).nodes() == old(self).nodes().insert(name, NodeV::Page(page))
                    &&& final(self).tags() == old(self).tags()
                    &&& final(self).groups() == old(self).groups().insert(
                        group,
                        group_with_index(old(self).groups(), group, name),
                    )
                },
                crate::loader::PlanV::PutPost { group, name, post } => {
                    &&& r == crate::loader::LoadOutcome::Loaded
                    &&& final(self).nodes() == old(self).nodes().insert(name, NodeV::Post(post))
                    &&& final(self).groups() == old(self).groups().insert(
                        group,
                        group_with_member(old(self).groups(), group, name),
                    )
                    &&& final(self).tags() == tags_with_member(
                        old(self).tags(),
                        crate::content::post_tags(post),
                        name,
                    )
                },
            },
    {
        match plan {
            crate::loader::LoadPlan::Skip(o) => o,
            crate::loader::LoadPlan::Register(g) => {
                self.register_group(g);
                crate::loader::LoadOutcome::Registered
            },
            crate::loader::LoadPlan::PutPage { group, name, page } => {
                self.put_page(group, name, page);
                crate::loader::LoadOutcome::Loaded
            },
            crate::loader::LoadPlan::PutIndex { group, name, page } => {
                self.put_index(group, name, page);
                crate::loader::LoadOutcome::Loaded
            },
            crate::loader::LoadPlan::PutPost { group, name, post } => {
                let tags = post.shared_tags();
                self.put_post(group, name, post, &tags);
                crate::loader::LoadOutcome::Loaded
            },
        }
    }

    /// The group named `g`.
    pub fn group(&self, g: &GroupName) -> (r: Option<&Group>)
        requires
            self.wf(),
        ensures
            match r {
                Some(gr) => self.groups().contains_key(g@) && self.groups()[g@] == gr@,
                None => !self.groups().contains_key(g@),
            },
    {
        aget(&self.groups, g)
    }

    /// The tag named `t`.
    pub fn tag(&self, t: &TagName) -> (r: Option<&Tag>)
        requires
            self.wf(),
        ensures
            match r {
                Some(tg) => self.tags().contains_key(t@) && self.tags()[t@] == tg@,
                None => !self.tags().contains_key(t@),
            },
    {
        aget(&self.tags, t)
    }

    /// The node keyed by `name`.
    pub fn node(&self, name: &PageName) -> (r: Option<&Node>)
        requires
            self.wf(),
        ensures
            match r {
                Some(n) => self.nodes().contains_key(name@) && self.nodes()[name@] == n@,
                None => !self.nodes().contains_key(name@),
            },
    {
        aget(&self.nodes, name)
    }

    /// The node the group serves under `name`: a member of the group, held
    /// in the node map.
    pub fn page(&self, g: &GroupName, name: &PageName) -> (r: Option<&Node>)
        requires
            self.wf(),
        ensures
            match r {
                Some(n) => {
                    &&& self.groups().contains_key(g@)
                    &&& self.groups()[g@].members.contains(name@)
                    &&& self.nodes().contains_key(name@)
                    &&& self.nodes()[name@] == n@
                },
                None => !self.groups().contains_key(g@) || !self.groups()[g@].members.contains(
                    name@,
                ),
            },
    {
        let gr = match aget(&self.groups, g) {
            None => {
                return None;
            },
            Some(gr) => gr,
        };
        if !crate::maps::aset_contains(&gr.members, name) {
            return None;
        }
        proof {
            assert(gr@.members.contains(name@));
            assert(self.groups()[g@].members.contains(name@));
            assert(group_ok(self.nodes(), self.groups()[g@]));
            assert(self.nodes().contains_key(name@));
        }
        match aget(&self.nodes, name) {
            Some(n) => Some(n),
            None => {
                proof {
                    assert(false);
                }
                None
            },
        }
    }

    /// The post the group serves under `name`: a member of the group whose
    /// node is a post.
    pub fn post(&self, g: &GroupName, name: &PageName) -> (r: Option<&Node>)
        requires
            self.wf(),
        ensures
            match r {
                Some(n) => {
                    &&& self.groups().contains_key(g@)
                    &&& self.groups()[g@].members.contains(name@)
                    &&& self.nodes().contains_key(name@)
                    &&& self.nodes()[name@] == n@
                    &&& n@ is Post
                },
                None => !self.groups().contains_key(g@) || !self.groups()[g@].members.contains(
                    name@,
                ) || !(self.nodes().contains_key(name@) && self.nodes()[name@] is Post),
            },
    {
        match self.page(g, name) {
            Some(n) => match n {
                Node::Post(_) => Some(n),
                Node::Page(_) => None,
            },
            None => None,
        }
    }

    /// The group's index page, if it has one.
    pub fn index(&self, g: &GroupName) -> (r: Option<&Node>)
        requires
            self.wf(),
        ensures
            match r {
                Some(n) => {
                    &&& self.groups().contains_key(g@)
                    &&& self.groups()[g@].index matches Some(idx) && self.nodes().contains_key(idx)
                        && self.nodes()[idx] == n@
                },
                None => !self.groups().contains_key(g@) || self.groups()[g@].index is None,
            },
    {
        let gr = match aget(&self.groups, g) {
            None => {
                return None;
            },
            Some(gr) => gr,
        };
        let idx = match &gr.index {
            None => {
                return None;
            },
            Some(idx) => idx,
        };
        proof {
            assert(gr@.index == Some(idx@));
            assert(group_ok(self.nodes(), self.groups()[g@]));
        }
        match aget(&self.nodes, idx) {
            Some(n) => Some(n),
            None => {
                proof {
                    assert(false);
                }
                None
            },
        }
    }

    /// How many nodes the index holds: exactly one per key.
    pub fn node_count(&self) -> (r: usize)
        requires
            self.wf(),
        ensures
            r == self.nodes().dom().len(),
    {
        proof {
            lemma_amap_len(self.nodes@);
        }
        self.nodes.len()
    }
}

/// Loading the same key twice leaves exactly one entry at that key: the
/// later node wins, and the index grows by at most that one key, however
/// often it is reloaded.
pub proof fn lemma_reload_single_entry(
    nodes: Map<PageNameV, NodeV>,
    name: PageNameV,
    n1: NodeV,
    n2: NodeV,
)
    requires
        nodes.dom().finite(),
    ensures
        nodes.insert(name, n1).insert(name, n2) == nodes.insert(name, n2),
        nodes.insert(name, n1).insert(name, n2).dom().len() == nodes.dom().len() + (
        if nodes.contains_key(name) {
            0int
        } else {
            1int
        }),
{
    assert(nodes.insert(name, n1).insert(name, n2) =~= nodes.insert(name, n2));
    assert(nodes.insert(name, n2).dom() =~= nodes.dom().insert(name));
    vstd::set::axiom_set_insert_len(nodes.dom(), name);
}

/// A loaded post is reachable: after its update, the group holds the key
/// among its members and the node map holds the post at it, which is
/// exactly what the post query looks up.
pub proof fn lemma_loaded_post_reachable(
    prev: ContentIndex,
    next: ContentIndex,
    g: GroupNameV,
    name: PageNameV,
    post: crate::content::PostV,
)
    requires
        next.nodes() == prev.nodes().insert(name, NodeV::Post(post)),
        next.groups() == prev.groups().insert(g, group_with_member(prev.groups(), g, name)),
    ensures
        next.groups().contains_key(g),
        next.groups()[g].members.contains(name),
        next.nodes().contains_key(name),
        next.nodes()[name] == NodeV::Post(post),
{
}

/// What a reader sees is wholly consistent.  The lock only ever stores well
/// formed indexes, and in a well formed index a group membership always has
/// its node, a group's index page is a page the node map holds, and a tag
/// member is a post the node map holds.  Since a load replaces a node and
/// the memberships derived from it under one exclusive acquisition, no
/// reader ever observes old membership beside new content or the other way
/// round.
pub proof fn lemma_reader_snapshot_consistent(i: ContentIndex, g: GroupNameV, t: Seq<char>)
    requires
        i.wf(),
    ensures
        i.groups().contains_key(g) ==> group_ok(i.nodes(), i.groups()[g]),
        i.tags().contains_key(t) ==> tag_ok(i.nodes(), i.tags()[t]),
{
}

} // verus!
