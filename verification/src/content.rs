//! The nodes of the content index: posts, pages, groups and tags.
//!
//! A node is either a post (a single dated entry, or a thread of them) or an
//! ordinary page.  Groups collect the nodes of one directory; tags collect
//! posts across groups.  Every type carries a mathematical view, and cloning
//! preserves it: queries hand out owned copies.

use vstd::prelude::*;

use crate::dates::Date;
use crate::maps::aset;
use crate::names::{PageName, PageNameV, TagName};

verus! {

/// An ordinary page: its optional title and its rendered body.
#[derive(Debug)]
pub struct Page {
    pub title: Option<String>,
    pub html_content: String,
}

/// The mathematical value of a [`Page`].
pub struct PageV {
    pub title: Option<Seq<char>>,
    pub html: Seq<char>,
}

impl View for Page {
    type V = PageV;

    open spec fn view(&self) -> PageV {
        PageV { title: self.title.deep_view(), html: self.html_content@ }
    }
}

impl Clone for Page {
    /// The clone denotes the same page.
    fn clone(&self) -> (r: Self)
        ensures
            r@ == self@,
    {
        Page {
            title: match &self.title {
                Some(t) => Some(t.clone()),
                None => None,
            },
            html_content: self.html_content.clone(),
        }
    }
}

/// One entry of a thread post: its draft flag, its date and its rendered
/// body.
#[derive(Debug)]
pub struct ThreadEntry {
    pub draft: bool,
    pub date: Date,
    pub html_content: String,
}

/// The mathematical value of a [`ThreadEntry`].
pub struct ThreadEntryV {
    pub draft: bool,
    pub date: Date,
    pub html: Seq<char>,
}

impl View for ThreadEntry {
    type V = ThreadEntryV;

    open spec fn view(&self) -> ThreadEntryV {
        ThreadEntryV { draft: self.draft, date: self.date, html: self.html_content@ }
    }
}

impl DeepView for ThreadEntry {
    type V = ThreadEntryV;

    open spec fn deep_view(&self) -> ThreadEntryV {
        self.view()
    }
}

impl Clone for ThreadEntry {
    /// The clone denotes the same entry.
    fn clone(&self) -> (r: Self)
        ensures
            r@ == self@,
    {
        ThreadEntry { draft: self.draft, date: self.date, html_content: self.html_content.clone() }
    }
}

/// A post: one dated entry, or an ordered thread of them sharing the tags of
/// the thread's first metadata block.
#[derive(Debug)]
pub enum Post {
    Single { draft: bool, tags: Vec<TagName>, date: Date, html_content: String },
    Thread { tags: Vec<TagName>, entries: Vec<ThreadEntry> },
}

/// The mathematical value of a [`Post`].
pub enum PostV {
    Single { draft: bool, tags: Seq<Seq<char>>, date: Date, html: Seq<char> },
    Thread { tags: Seq<Seq<char>>, entries: Seq<ThreadEntryV> },
}

impl View for Post {
    type V = PostV;

    open spec fn view(&self) -> PostV {
        match self {
            Post::Single { draft, tags, date, html_content } => PostV::Single {
                draft: *draft,
                tags: tags.deep_view(),
                date: *date,
                html: html_content@,
            },
            Post::Thread { tags, entries } => PostV::Thread {
                tags: tags.deep_view(),
                entries: entries.deep_view(),
            },
        }
    }
}

/// Copies a tag list, entry by entry.
pub(crate) fn clone_tags(tags: &Vec<TagName>) -> (r: Vec<TagName>)
    ensures
        r.deep_view() == tags.deep_view(),
{
    let mut r: Vec<TagName> = Vec::new();
    let n = tags.len();
    let mut i: usize = 0;
    while i < n
        invariant
            n == tags@.len(),
            i <= n,
            r.deep_view() =~~= tags.deep_view().subrange(0, i as int),
        decreases n - i,
    {
        let ghost before = r.deep_view();
        r.push(tags[i].clone());
        proof {
            assert(r.deep_view() =~~= before.push(tags.deep_view()[i as int]));
        }
        i = i + 1;
    }
    proof {
        assert(tags.deep_view().subrange(0, n as int) =~~= tags.deep_view());
    }
    r
}

/// Copies a thread's entries, in order.
fn clone_entries(entries: &Vec<ThreadEntry>) -> (r: Vec<ThreadEntry>)
    ensures
        r.deep_view() == entries.deep_view(),
{
    let mut r: Vec<ThreadEntry> = Vec::new();
    let n = entries.len();
    let mut i: usize = 0;
    while i < n
        invariant
            n == entries@.len(),
            i <= n,
            r.deep_view() =~~= entries.deep_view().subrange(0, i as int),
        decreases n - i,
    {
        let ghost before = r.deep_view();
        r.push(entries[i].clone());
        proof {
            assert(r.deep_view() =~~= before.push(entries.deep_view()[i as int]));
        }
        i = i + 1;
    }
    proof {
        assert(entries.deep_view().subrange(0, n as int) =~~= entries.deep_view());
    }
    r
}

impl Clone for Post {
    /// The clone denotes the same post.
    fn clone(&self) -> (r: Self)
        ensures
            r@ == self@,
    {
        match self {
            Post::Single { draft, tags, date, html_content } => Post::Single {
                draft: *draft,
                tags: clone_tags(tags),
                date: *date,
                html_content: html_content.clone(),
            },
            Post::Thread { tags, entries } => Post::Thread {
                tags: clone_tags(tags),
                entries: clone_entries(entries),
            },
        }
    }
}

/// The tags a post carries and shares: its own for a single post, the first
/// block's for a thread.
pub open spec fn post_tags(p: PostV) -> Seq<Seq<char>> {
    match p {
        PostV::Single { tags, .. } => tags,
        PostV::Thread { tags, .. } => tags,
    }
}

impl Post {
    /// The tags the post carries.
    pub fn shared_tags(&self) -> (r: Vec<TagName>)
        ensures
            r.deep_view() == post_tags(self@),
    {
        match self {
            Post::Single { tags, .. } => clone_tags(tags),
            Post::Thread { tags, .. } => clone_tags(tags),
        }
    }
}

/// A node of the index: a post or a page.
#[derive(Debug)]
pub enum Node {
    Post(Post),
    Page(Page),
}

/// The mathematical value of a [`Node`].
pub enum NodeV {
    Post(PostV),
    Page(PageV),
}

impl View for Node {
    type V = NodeV;

    open spec fn view(&self) -> NodeV {
        match self {
            Node::Post(p) => NodeV::Post(p@),
            Node::Page(p) => NodeV::Page(p@),
        }
    }
}

impl Clone for Node {
    /// The clone denotes the same node.
    fn clone(&self) -> (r: Self)
        ensures
            r@ == self@,
    {
        match self {
            Node::Post(p) => Node::Post(p.clone()),
            Node::Page(p) => Node::Page(p.clone()),
        }
    }
}

/// A group: the nodes of one directory, with an optional index page.
#[derive(Debug)]
pub struct Group {
    pub index: Option<PageName>,
    pub members: Vec<PageName>,
}

/// The mathematical value of a [`Group`]: its index page and its member set.
#[verifier::ext_equal]
pub struct GroupV {
    pub index: Option<PageNameV>,
    pub members: Set<PageNameV>,
}

impl View for Group {
    type V = GroupV;

    open spec fn view(&self) -> GroupV {
        GroupV { index: self.index.deep_view(), members: aset(self.members@) }
    }
}

impl Group {
    /// A group with no index page and no members.
    pub fn empty() -> (r: Group)
        ensures
            r@.index is None,
            r@.members == Set::<PageNameV>::empty(),
    {
        let g = Group { index: None, members: Vec::new() };
        proof {
            assert(g@.members =~= Set::<PageNameV>::empty());
        }
        g
    }
}

/// Copies a member list, entry by entry.
fn clone_members(members: &Vec<PageName>) -> (r: Vec<PageName>)
    ensures
        r@.len() == members@.len(),
        forall|i: int| 0 <= i < r@.len() ==> r@[i]@ == members@[i]@,
        aset(r@) == aset(members@),
{
    let mut r: Vec<PageName> = Vec::new();
    let n = members.len();
    let mut i: usize = 0;
    while i < n
        invariant
            n == members@.len(),
            i <= n,
            r@.len() == i,
            forall|j: int| 0 <= j < i ==> r@[j]@ == members@[j]@,
        decreases n - i,
    {
        r.push(members[i].clone());
        i = i + 1;
    }
    proof {
        assert forall|x: PageNameV| aset(r@).contains(x) <==> aset(members@).contains(x) by {
            if aset(r@).contains(x) {
                let i = choose|i: int| 0 <= i < r@.len() && r@[i]@ == x;
                assert(members@[i]@ == x);
            } else if aset(members@).contains(x) {
                let i = choose|i: int| 0 <= i < members@.len() && members@[i]@ == x;
                assert(r@[i]@ == x);
            }
        }
        assert(aset(r@) =~= aset(members@));
    }
    r
}

impl Clone for Group {
    /// The clone denotes the same group.
    fn clone(&self) -> (r: Self)
        ensures
            r@ == self@,
    {
        Group {
            index: match &self.index {
                Some(n) => Some(n.clone()),
                None => None,
            },
            members: clone_members(&self.members),
        }
    }
}

/// A tag: the posts that carry it.
#[derive(Debug)]
pub struct Tag {
    pub members: Vec<PageName>,
}

/// The mathematical value of a [`Tag`]: its member set.
#[verifier::ext_equal]
pub struct TagV {
    pub members: Set<PageNameV>,
}

impl View for Tag {
    type V = TagV;

    open spec fn view(&self) -> TagV {
        TagV { members: aset(self.members@) }
    }
}

impl Tag {
    /// A tag with no members.
    pub fn empty() -> (r: Tag)
        ensures
            r@.members == Set::<PageNameV>::empty(),
    {
        let t = Tag { members: Vec::new() };
        proof {
            assert(t@.members =~= Set::<PageNameV>::empty());
        }
        t
    }
}

impl Clone for Tag {
    /// The clone denotes the same tag.
    fn clone(&self) -> (r: Self)
        ensures
            r@ == self@,
    {
        Tag { members: clone_members(&self.members) }
    }
}

} // verus!
