//! Classification and ingestion planning for one filesystem entry.
//!
//! Given a path under the content root, the entry's kind and the file's
//! text, the loader decides what the index update will be: a node to put, a
//! group to register, a skip, or a typed failure.  The whole decision is a
//! function of its inputs; the store applies the resulting plan under its
//! write lock in one step.
//!
//! Layout rules: files directly under the root belong to the root group;
//! first-level directories are groups; anything deeper is skipped.  Only
//! `.md` and `.markdown` files are considered.  A stem of `_index`
//! designates the group's index page; a stem opening with a date is a post;
//! anything else is an ordinary page.

use vstd::prelude::*;

use crate::content::{Page, PageV, Post, PostV, ThreadEntry, ThreadEntryV};
use crate::dates::{spec_date_prefix, date_prefix, Date};
use crate::frontmatter::{
    spec_page_split, spec_post_segments, split_page_document, split_post_segments, FrontmatterError,
    SegV,
};
use crate::meta::{
    decode_page_metadata, decode_post_frontmatter, scan_tag_ok, spec_decode_page,
    spec_decode_post, spec_scan_tag_ok, DecodeMetaError, MetaErrV, PostFmV,
};
use crate::names::{
    group_chars_ok, page_char_ok, page_chars_ok, GroupName, GroupNameV, PageName, PageNameV,
    ParseGroupNameError, ParsePageNameError,
};
use crate::render::{html_of, render_markdown};
use crate::text::{
    chars_to_string, spec_lines, spec_nonempty, spec_split, split_lines, split_nonempty, to_chars,
};

verus! {

/// What kind of filesystem entry is handed to the loader.
#[derive(Clone, Copy, PartialEq, Eq, Structural, Debug)]
pub enum EntryKind {
    File,
    Directory,
}

/// What a successful load did: a node was loaded, a group directory
/// registered, or the entry skipped (nested too deep, not markdown or not a
/// loadable entry, or a draft while drafts are excluded).
#[derive(Clone, Copy, PartialEq, Eq, Structural, Debug)]
pub enum LoadOutcome {
    Loaded,
    Registered,
    SkippedNested,
    SkippedOther,
    SkippedDraft,
}

/// Why one entry could not be loaded.  A single entry's failure never aborts
/// a directory walk: the caller logs it and goes on.
#[derive(Debug)]
pub enum LoadContentError {
    NotRelativeToRoot(String),
    PathInvalidUtf8(String),
    ReadPageContent(String, String),
    NoFileExt(String),
    InvalidGroupName(ParseGroupNameError),
    InvalidPageName(ParsePageNameError),
    MissingFrontmatter(String),
    MalformedFrontmatter(String),
    DecodeFrontmatter(String, DecodeMetaError),
}

/// The mathematical value of a [`LoadContentError`].
pub enum LoadErrV {
    NotRelativeToRoot(Seq<char>),
    PathInvalidUtf8(Seq<char>),
    ReadPageContent(Seq<char>, Seq<char>),
    NoFileExt(Seq<char>),
    InvalidGroupName(Seq<char>, char),
    InvalidPageName(Seq<char>, char),
    MissingFrontmatter(Seq<char>),
    MalformedFrontmatter(Seq<char>),
    DecodeFrontmatter(Seq<char>, MetaErrV),
}

impl View for LoadContentError {
    type V = LoadErrV;

    open spec fn view(&self) -> LoadErrV {
        match self {
            LoadContentError::NotRelativeToRoot(p) => LoadErrV::NotRelativeToRoot(p@),
            LoadContentError::PathInvalidUtf8(p) => LoadErrV::PathInvalidUtf8(p@),
            LoadContentError::ReadPageContent(p, m) => LoadErrV::ReadPageContent(p@, m@),
            LoadContentError::NoFileExt(p) => LoadErrV::NoFileExt(p@),
            LoadContentError::InvalidGroupName(ParseGroupNameError::InvalidChar(s, c)) => {
                LoadErrV::InvalidGroupName(s@, *c)
            },
            LoadContentError::InvalidPageName(ParsePageNameError::InvalidChar(s, c)) => {
                LoadErrV::InvalidPageName(s@, *c)
            },
            LoadContentError::MissingFrontmatter(p) => LoadErrV::MissingFrontmatter(p@),
            LoadContentError::MalformedFrontmatter(p) => LoadErrV::MalformedFrontmatter(p@),
            LoadContentError::DecodeFrontmatter(p, e) => LoadErrV::DecodeFrontmatter(p@, e@),
        }
    }
}

/// The planned index update for one entry.
pub enum LoadPlan {
    Skip(LoadOutcome),
    Register(GroupName),
    PutPage { group: GroupName, name: PageName, page: Page },
    PutIndex { group: GroupName, name: PageName, page: Page },
    PutPost { group: GroupName, name: PageName, post: Post },
}

/// The mathematical value of a [`LoadPlan`].
pub enum PlanV {
    Skip(LoadOutcome),
    Register(GroupNameV),
    PutPage { group: GroupNameV, name: PageNameV, page: PageV },
    PutIndex { group: GroupNameV, name: PageNameV, page: PageV },
    PutPost { group: GroupNameV, name: PageNameV, post: PostV },
}

impl View for LoadPlan {
    type V = PlanV;

    open spec fn view(&self) -> PlanV {
        match self {
            LoadPlan::Skip(o) => PlanV::Skip(*o),
            LoadPlan::Register(g) => PlanV::Register(g@),
            LoadPlan::PutPage { group, name, page } => PlanV::PutPage {
                group: group@,
                name: name@,
                page: page@,
            },
            LoadPlan::PutIndex { group, name, page } => PlanV::PutIndex {
                group: group@,
                name: name@,
                page: page@,
            },
            LoadPlan::PutPost { group, name, post } => PlanV::PutPost {
                group: group@,
                name: name@,
                post: post@,
            },
        }
    }
}

/// The shape every plan out of [`plan_entry`] has: page keys are parsed
/// names without a date prefix, index keys are generated, post keys open
/// with a date.
pub open spec fn plan_wf(p: PlanV) -> bool {
    match p {
        PlanV::Skip(_) => true,
        PlanV::Register(_) => true,
        PlanV::PutPage { name, .. } => name is Named && !crate::index::post_key(name),
        PlanV::PutIndex { name, .. } => name is Index,
        PlanV::PutPost { name, .. } => crate::index::post_key(name),
    }
}

/// `path` opens with `root`.
pub open spec fn spec_starts_with(path: Seq<char>, root: Seq<char>) -> bool {
    root.len() <= path.len() && path.subrange(0, root.len() as int) == root
}

/// The position of the last dot of a filename.
pub open spec fn spec_last_dot(f: Seq<char>) -> Option<int>
    decreases f.len(),
{
    if f.len() == 0 {
        None
    } else if f.last() == '.' {
        Some(f.len() - 1)
    } else {
        spec_last_dot(f.drop_last())
    }
}

/// A markdown extension.
pub open spec fn is_md_ext(ext: Seq<char>) -> bool {
    ext == seq!['m', 'd'] || ext == seq!['m', 'a', 'r', 'k', 'd', 'o', 'w', 'n']
}

/// The group-index stem.
pub open spec fn is_index_stem(stem: Seq<char>) -> bool {
    stem == seq!['_', 'i', 'n', 'd', 'e', 'x']
}

/// Mirrors [`spec_starts_with`].
#[verifier::loop_isolation(false)]
fn starts_with(path: &[char], root: &[char]) -> (r: bool)
    ensures
        r == spec_starts_with(path@, root@),
{
    if path.len() < root.len() {
        proof {
            assert(!spec_starts_with(path@, root@));
        }
        return false;
    }
    let mut i: usize = 0;
    while i < root.len()
        invariant
            root@.len() <= path@.len(),
            i <= root@.len(),
            forall|j: int| 0 <= j < i ==> path@[j] == root@[j],
        decreases root@.len() - i,
    {
        if path[i] != root[i] {
            proof {
                assert(path@.subrange(0, root@.len() as int)[i as int] == path@[i as int]);
            }
            return false;
        }
        i = i + 1;
    }
    proof {
        assert(path@.subrange(0, root@.len() as int) =~= root@);
    }
    true
}

/// Copies `v[from..]`.
fn copy_from(v: &[char], from: usize) -> (r: Vec<char>)
    requires
        from <= v@.len(),
    ensures
        r@ == v@.subrange(from as int, v@.len() as int),
{
    let mut r: Vec<char> = Vec::new();
    let mut i: usize = from;
    while i < v.len()
        invariant
            from <= i <= v@.len(),
            r@ == v@.subrange(from as int, i as int),
        decreases v@.len() - i,
    {
        r.push(v[i]);
        proof {
            assert(v@.subrange(from as int, i + 1) =~= v@.subrange(from as int, i as int).push(
                v@[i as int],
            ));
        }
        i = i + 1;
    }
    r
}

/// Mirrors [`spec_last_dot`].
fn last_dot(f: &[char]) -> (r: Option<usize>)
    ensures
        match r {
            Some(k) => spec_last_dot(f@) == Some(k as int) && k < f@.len(),
            None => spec_last_dot(f@) is None,
        },
    decreases f@.len(),
{
    let n = f.len();
    let mut i: usize = n;
    proof {
        assert(f@.subrange(0, n as int) =~= f@);
    }
    while i > 0
        invariant
            i <= n,
            n == f@.len(),
            spec_last_dot(f@) == spec_last_dot(f@.subrange(0, i as int)),
        decreases i,
    {
        proof {
            assert(f@.subrange(0, i as int).last() == f@[i - 1]);
            assert(f@.subrange(0, i as int).drop_last() =~= f@.subrange(0, i - 1));
        }
        if f[i - 1] == '.' {
            return Some(i - 1);
        }
        i = i - 1;
    }
    proof {
        assert(f@.subrange(0, 0) =~= Seq::<char>::empty());
    }
    None
}

/// The first position at or after `i` whose character the page-name
/// alphabet refuses, or the end.
pub open spec fn spec_scan_page_ok(l: Seq<char>, i: int) -> int
    decreases l.len() - i
        when 0 <= i <= l.len()
{
    if i == l.len() {
        i
    } else if page_char_ok(l[i]) {
        spec_scan_page_ok(l, i + 1)
    } else {
        i
    }
}

/// What `spec_scan_page_ok` finds: everything before the result is allowed,
/// and the result, if inside the string, is refused.
pub proof fn lemma_scan_page_ok_props(l: Seq<char>, i: int)
    requires
        0 <= i <= l.len(),
    ensures
        i <= spec_scan_page_ok(l, i) <= l.len(),
        forall|j: int| i <= j < spec_scan_page_ok(l, i) ==> page_char_ok(l[j]),
        spec_scan_page_ok(l, i) < l.len() ==> !page_char_ok(l[spec_scan_page_ok(l, i)]),
    decreases l.len() - i,
{
    if i < l.len() && page_char_ok(l[i]) {
        lemma_scan_page_ok_props(l, i + 1);
    }
}

/// Mirrors [`spec_scan_page_ok`].
fn scan_page_ok(l: &[char], i: usize) -> (r: usize)
    requires
        i <= l@.len(),
    ensures
        r == spec_scan_page_ok(l@, i as int),
        i <= r <= l@.len(),
    decreases l@.len() - i,
{
    if i == l.len() {
        i
    } else {
        let c = l[i];
        if ('a' <= c && c <= 'z') || ('0' <= c && c <= '9') || c == '-' {
            scan_page_ok(l, i + 1)
        } else {
            i
        }
    }
}

/// The executable content argument, as a mathematical value.
pub open spec fn content_view(c: Result<String, String>) -> Result<Seq<char>, Seq<char>> {
    match c {
        Ok(s) => Ok(s@),
        Err(m) => Err(m@),
    }
}

/// All of a post's decoded metadata blocks, in order; the first failing
/// block, in document order, decides the failure.
pub open spec fn decode_all(segs: Seq<SegV>) -> Result<Seq<PostFmV>, MetaErrV>
    decreases segs.len(),
{
    if segs.len() == 0 {
        Ok(Seq::empty())
    } else {
        match decode_all(segs.drop_last()) {
            Err(e) => Err(e),
            Ok(r) => match spec_decode_post(segs.last().meta) {
                Err(e) => Err(e),
                Ok(fm) => Ok(r.push(fm)),
            },
        }
    }
}

/// Once a prefix of the segments fails to decode, the whole list fails the
/// same way.
proof fn lemma_decode_all_err(segs: Seq<SegV>, i: int)
    requires
        0 <= i <= segs.len(),
        decode_all(segs.subrange(0, i)) is Err,
    ensures
        decode_all(segs) == decode_all(segs.subrange(0, i)),
    decreases segs.len() - i,
{
    if i == segs.len() {
        assert(segs.subrange(0, i) =~~= segs);
    } else {
        assert(segs.subrange(0, i + 1).drop_last() =~~= segs.subrange(0, i));
        lemma_decode_all_err(segs, i + 1);
    }
}

/// The entries a thread keeps, one per segment in document order: each
/// carries its block's draft flag and the file's date; draft entries are
/// dropped when drafts are excluded.
pub open spec fn thread_entries(
    fms: Seq<PostFmV>,
    segs: Seq<SegV>,
    date: Date,
    drafts: bool,
) -> Seq<ThreadEntryV>
    decreases fms.len(),
{
    if fms.len() == 0 || fms.len() != segs.len() {
        Seq::empty()
    } else {
        let r = thread_entries(fms.drop_last(), segs.drop_last(), date, drafts);
        if fms.last().draft && !drafts {
            r
        } else {
            r.push(
                ThreadEntryV { draft: fms.last().draft, date, html: html_of(segs.last().body) },
            )
        }
    }
}

/// The plan for a post document: its segments in document order, one entry
/// per segment for a thread, tags hoisted from the first block alone, and a
/// draft skip when nothing would remain visible.
pub open spec fn spec_plan_post(
    path: Seq<char>,
    group: GroupNameV,
    stem: Seq<char>,
    date: Date,
    lines: Seq<Seq<char>>,
    drafts: bool,
) -> Result<PlanV, LoadErrV> {
    match spec_post_segments(lines) {
        Err(FrontmatterError::MissingFrontmatter) => Err(LoadErrV::MissingFrontmatter(path)),
        Err(FrontmatterError::MalformedFrontmatter) => Err(LoadErrV::MalformedFrontmatter(path)),
        Ok(segs) => match decode_all(segs) {
            Err(e) => Err(LoadErrV::DecodeFrontmatter(path, e)),
            Ok(fms) => {
                if segs.len() == 1 {
                    if fms[0].draft && !drafts {
                        Ok(PlanV::Skip(LoadOutcome::SkippedDraft))
                    } else {
                        Ok(
                            PlanV::PutPost {
                                group,
                                name: PageNameV::Named(stem),
                                post: PostV::Single {
                                    draft: fms[0].draft,
                                    tags: fms[0].tags,
                                    date,
                                    html: html_of(segs[0].body),
                                },
                            },
                        )
                    }
                } else {
                    let entries = thread_entries(fms, segs, date, drafts);
                    if entries.len() == 0 {
                        Ok(PlanV::Skip(LoadOutcome::SkippedDraft))
                    } else {
                        Ok(
                            PlanV::PutPost {
                                group,
                                name: PageNameV::Named(stem),
                                post: PostV::Thread { tags: fms[0].tags, entries },
                            },
                        )
                    }
                }
            },
        },
    }
}

/// The plan for an ordinary page document: the optional metadata block gives
/// the title, and everything after it is the body.
pub open spec fn spec_plan_page(
    path: Seq<char>,
    group: GroupNameV,
    stem: Seq<char>,
    lines: Seq<Seq<char>>,
) -> Result<PlanV, LoadErrV> {
    match spec_page_split(lines) {
        Err(_) => Err(LoadErrV::MalformedFrontmatter(path)),
        Ok((None, body)) => Ok(
            PlanV::PutPage {
                group,
                name: PageNameV::Named(stem),
                page: PageV { title: None, html: html_of(body) },
            },
        ),
        Ok((Some(meta), body)) => match spec_decode_page(meta) {
            Err(e) => Err(LoadErrV::DecodeFrontmatter(path, e)),
            Ok(pm) => Ok(
                PlanV::PutPage {
                    group,
                    name: PageNameV::Named(stem),
                    page: PageV { title: Some(pm.title), html: html_of(body) },
                },
            ),
        },
    }
}

/// The plan for a group-index document, keyed by a freshly generated index
/// name.
pub open spec fn spec_plan_index(
    path: Seq<char>,
    group: GroupNameV,
    lines: Seq<Seq<char>>,
    fresh: u128,
) -> Result<PlanV, LoadErrV> {
    match spec_page_split(lines) {
        Err(_) => Err(LoadErrV::MalformedFrontmatter(path)),
        Ok((None, body)) => Ok(
            PlanV::PutIndex {
                group,
                name: PageNameV::Index(fresh),
                page: PageV { title: None, html: html_of(body) },
            },
        ),
        Ok((Some(meta), body)) => match spec_decode_page(meta) {
            Err(e) => Err(LoadErrV::DecodeFrontmatter(path, e)),
            Ok(pm) => Ok(
                PlanV::PutIndex {
                    group,
                    name: PageNameV::Index(fresh),
                    page: PageV { title: Some(pm.title), html: html_of(body) },
                },
            ),
        },
    }
}

/// The plan for one markdown file, by its stem: the group-index stem first,
/// then the page-name alphabet, then the date test deciding post against
/// page.  The date test never looks at the content: a dated stem is a post
/// whatever its metadata turns out to be.
pub open spec fn spec_plan_doc(
    path: Seq<char>,
    group: GroupNameV,
    stem: Seq<char>,
    content: Result<Seq<char>, Seq<char>>,
    drafts: bool,
    fresh: u128,
) -> Result<PlanV, LoadErrV> {
    if is_index_stem(stem) {
        match content {
            Err(m) => Err(LoadErrV::ReadPageContent(path, m)),
            Ok(text) => spec_plan_index(path, group, spec_lines(text), fresh),
        }
    } else if !page_chars_ok(stem) {
        Err(LoadErrV::InvalidPageName(stem, stem[spec_scan_page_ok(stem, 0)]))
    } else {
        match content {
            Err(m) => Err(LoadErrV::ReadPageContent(path, m)),
            Ok(text) => match spec_date_prefix(stem) {
                Some(date) => spec_plan_post(path, group, stem, date, spec_lines(text), drafts),
                None => spec_plan_page(path, group, stem, spec_lines(text)),
            },
        }
    }
}

/// Mirrors [`spec_plan_post`].
#[verifier::loop_isolation(false)]
fn plan_post(
    path: &[char],
    group: GroupName,
    stem: &[char],
    date: Date,
    lines: &[Vec<char>],
    drafts: bool,
) -> (r: Result<LoadPlan, LoadContentError>)
    ensures
        match r {
            Ok(p) => spec_plan_post(path@, group@, stem@, date, lines.deep_view(), drafts) == Ok::<
                PlanV,
                LoadErrV,
            >(p@),
            Err(e) => spec_plan_post(path@, group@, stem@, date, lines.deep_view(), drafts)
                == Err::<PlanV, LoadErrV>(e@),
        },
{
    let segs = match split_post_segments(lines) {
        Err(FrontmatterError::MissingFrontmatter) => {
            return Err(LoadContentError::MissingFrontmatter(chars_to_string(path)));
        },
        Err(FrontmatterError::MalformedFrontmatter) => {
            return Err(LoadContentError::MalformedFrontmatter(chars_to_string(path)));
        },
        Ok(segs) => segs,
    };
    let ghost segsv = segs.deep_view();
    let n = segs.len();
    if n == 1 {
        proof {
            assert(segsv.drop_last() =~~= Seq::<SegV>::empty());
            assert(segsv.last() == segsv[0]);
        }
        let meta0 = segs[0].meta.as_slice();
        proof {
            assert(segs[0int]@ == segsv[0]);
            assert(meta0.deep_view() =~~= segsv[0].meta);
            assert(decode_all(Seq::<SegV>::empty()) == Ok::<Seq<PostFmV>, MetaErrV>(
                Seq::<PostFmV>::empty(),
            ));
            assert(decode_all(segsv.drop_last()) == Ok::<Seq<PostFmV>, MetaErrV>(
                Seq::<PostFmV>::empty(),
            ));
        }
        let fm = match decode_post_frontmatter(meta0) {
            Err(e) => {
                return Err(LoadContentError::DecodeFrontmatter(chars_to_string(path), e));
            },
            Ok(fm) => fm,
        };
        proof {
            assert(decode_all(segsv) == Ok::<Seq<PostFmV>, MetaErrV>(
                Seq::<PostFmV>::empty().push(fm@),
            ));
            assert(Seq::<PostFmV>::empty().push(fm@)[0] == fm@);
        }
        if fm.draft && !drafts {
            return Ok(LoadPlan::Skip(LoadOutcome::SkippedDraft));
        }
        let body = chars_to_string(segs[0].body.as_slice());
        let html = render_markdown(body.as_str());
        proof {
            assert(segs[0int].body@ == segsv[0].body);
        }
        return Ok(
            LoadPlan::PutPost {
                group,
                name: PageName::Named(chars_to_string(stem)),
                post: Post::Single { draft: fm.draft, tags: fm.tags, date, html_content: html },
            },
        );
    }
    let mut fms: Vec<crate::meta::PostFrontmatter> = Vec::new();
    let mut i: usize = 0;
    proof {
        assert(segsv.subrange(0, 0) =~~= Seq::<SegV>::empty());
        assert(fms.deep_view() =~~= Seq::<PostFmV>::empty());
    }
    while i < n
        invariant
            n == segsv.len(),
            i <= n,
            decode_all(segsv.subrange(0, i as int)) == Ok::<Seq<PostFmV>, MetaErrV>(
                fms.deep_view(),
            ),
            fms.deep_view().len() == i,
        decreases n - i,
    {
        let metai = segs[i].meta.as_slice();
        proof {
            assert(segsv.subrange(0, i as int + 1).drop_last() =~~= segsv.subrange(0, i as int));
            assert(segsv.subrange(0, i as int + 1).last() == segsv[i as int]);
            assert(segs[i as int]@ == segsv[i as int]);
            assert(metai.deep_view() =~~= segsv[i as int].meta);
        }
        match decode_post_frontmatter(metai) {
            Err(e) => {
                proof {
                    lemma_decode_all_err(segsv, i as int + 1);
                    assert(segsv.subrange(0, segsv.len() as int) =~~= segsv);
                }
                return Err(LoadContentError::DecodeFrontmatter(chars_to_string(path), e));
            },
            Ok(fm) => {
                let ghost before = fms.deep_view();
                let ghost fmv = fm@;
                fms.push(fm);
                proof {
                    assert(fms.deep_view() =~~= before.push(fmv));
                }
            },
        }
        i = i + 1;
    }
    proof {
        assert(segsv.subrange(0, n as int) =~~= segsv);
    }
    let ghost fmsv = fms.deep_view();
    let tags = crate::content::clone_tags(&fms[0].tags);
    proof {
        assert(fms[0int]@ == fmsv[0]);
        assert(tags.deep_view() == fmsv[0].tags);
    }
    let mut entries: Vec<ThreadEntry> = Vec::new();
    let mut i: usize = 0;
    proof {
        assert(fmsv.subrange(0, 0) =~~= Seq::<PostFmV>::empty());
        assert(entries.deep_view() =~~= thread_entries(
            fmsv.subrange(0, 0),
            segsv.subrange(0, 0),
            date,
            drafts,
        ));
    }
    while i < n
        invariant
            n == segsv.len() == fmsv.len(),
            fmsv == fms.deep_view(),
            i <= n,
            entries.deep_view() == thread_entries(
                fmsv.subrange(0, i as int),
                segsv.subrange(0, i as int),
                date,
                drafts,
            ),
        decreases n - i,
    {
        proof {
            assert(fmsv.subrange(0, i as int + 1).drop_last() =~~= fmsv.subrange(0, i as int));
            assert(segsv.subrange(0, i as int + 1).drop_last() =~~= segsv.subrange(0, i as int));
            assert(fmsv.subrange(0, i as int + 1).last() == fmsv[i as int]);
            assert(segsv.subrange(0, i as int + 1).last() == segsv[i as int]);
            assert(fms[i as int]@ == fmsv[i as int]);
            assert(segs[i as int]@ == segsv[i as int]);
        }
        let draft = fms[i].draft;
        if draft && !drafts {
        } else {
            let body = chars_to_string(segs[i].body.as_slice());
            let html = render_markdown(body.as_str());
            let ghost before = entries.deep_view();
            let entry = ThreadEntry { draft, date, html_content: html };
            let ghost entryv = entry@;
            entries.push(entry);
            proof {
                assert(entries.deep_view() =~~= before.push(entryv));
            }
        }
        i = i + 1;
    }
    proof {
        assert(fmsv.subrange(0, n as int) =~~= fmsv);
        assert(segsv.subrange(0, n as int) =~~= segsv);
    }
    if entries.len() == 0 {
        Ok(LoadPlan::Skip(LoadOutcome::SkippedDraft))
    } else {
        Ok(
            LoadPlan::PutPost {
                group,
                name: PageName::Named(chars_to_string(stem)),
                post: Post::Thread { tags, entries },
            },
        )
    }
}

/// Mirrors [`spec_plan_page`] and [`spec_plan_index`]: the split and decode
/// shared by ordinary pages and group-index pages.
fn plan_page_like(path: &[char], lines: &[Vec<char>]) -> (r: Result<Page, LoadContentError>)
    ensures
        match r {
            Ok(page) => {
                &&& spec_page_split(lines.deep_view()) matches Ok((meta, body))
                &&& page@.html == html_of(
                    spec_page_split(lines.deep_view())->Ok_0.1,
                )
                &&& match spec_page_split(lines.deep_view())->Ok_0.0 {
                    None => page@.title is None,
                    Some(meta) => spec_decode_page(meta) matches Ok(pm) && page@.title == Some(
                        pm.title,
                    ),
                }
            },
            Err(e) => match spec_page_split(lines.deep_view()) {
                Err(_) => e@ == LoadErrV::MalformedFrontmatter(path@),
                Ok((meta, body)) => {
                    &&& meta matches Some(m)
                    &&& spec_decode_page(m) matches Err(me) && e@ == LoadErrV::DecodeFrontmatter(
                        path@,
                        me,
                    )
                },
            },
        },
{
    match split_page_document(lines) {
        Err(_) => Err(LoadContentError::MalformedFrontmatter(chars_to_string(path))),
        Ok((None, body)) => {
            let text = chars_to_string(body.as_slice());
            let html = render_markdown(text.as_str());
            Ok(Page { title: None, html_content: html })
        },
        Ok((Some(meta), body)) => match decode_page_metadata(meta.as_slice()) {
            Err(e) => Err(LoadContentError::DecodeFrontmatter(chars_to_string(path), e)),
            Ok(pm) => {
                let text = chars_to_string(body.as_slice());
                let html = render_markdown(text.as_str());
                Ok(Page { title: Some(pm.title), html_content: html })
            },
        },
    }
}

/// Mirrors [`spec_plan_doc`].
fn plan_doc(
    path: &[char],
    group: GroupName,
    stem: &[char],
    content: &Result<String, String>,
    drafts: bool,
    fresh: u128,
) -> (r: Result<LoadPlan, LoadContentError>)
    ensures
        match r {
            Ok(p) => spec_plan_doc(path@, group@, stem@, content_view(*content), drafts, fresh)
                == Ok::<PlanV, LoadErrV>(p@),
            Err(e) => spec_plan_doc(path@, group@, stem@, content_view(*content), drafts, fresh)
                == Err::<PlanV, LoadErrV>(e@),
        },
{
    let index_stem: [char; 6] = ['_', 'i', 'n', 'd', 'e', 'x'];
    proof {
        assert(index_stem@ =~= seq!['_', 'i', 'n', 'd', 'e', 'x']);
    }
    if crate::meta::chars_eq(stem, index_stem.as_slice()) {
        let text = match content {
            Err(m) => {
                return Err(
                    LoadContentError::ReadPageContent(chars_to_string(path), m.clone()),
                );
            },
            Ok(text) => text,
        };
        let chars = to_chars(text.as_str());
        let lines = split_lines(chars.as_slice());
        match plan_page_like(path, lines.as_slice()) {
            Err(e) => Err(e),
            Ok(page) => Ok(
                LoadPlan::PutIndex { group, name: PageName::Index(fresh), page },
            ),
        }
    } else {
        let bad = scan_page_ok(stem, 0);
        if bad < stem.len() {
            proof {
                lemma_scan_page_ok_props(stem@, 0);
                assert(!page_chars_ok(stem@));
            }
            return Err(
                LoadContentError::InvalidPageName(
                    ParsePageNameError::InvalidChar(chars_to_string(stem), stem[bad]),
                ),
            );
        }
        proof {
            lemma_scan_page_ok_props(stem@, 0);
            assert(page_chars_ok(stem@));
        }
        let text = match content {
            Err(m) => {
                return Err(
                    LoadContentError::ReadPageContent(chars_to_string(path), m.clone()),
                );
            },
            Ok(text) => text,
        };
        let chars = to_chars(text.as_str());
        let lines = split_lines(chars.as_slice());
        match date_prefix(stem) {
            Some(date) => plan_post(path, group, stem, date, lines.as_slice(), drafts),
            None => match plan_page_like(path, lines.as_slice()) {
                Err(e) => Err(e),
                Ok(page) => Ok(
                    LoadPlan::PutPage {
                        group,
                        name: PageName::Named(chars_to_string(stem)),
                        page,
                    },
                ),
            },
        }
    }
}

/// The plan for one filesystem entry under the content root.
pub open spec fn spec_plan(
    root: Seq<char>,
    path: Seq<char>,
    kind: EntryKind,
    content: Result<Seq<char>, Seq<char>>,
    drafts: bool,
    fresh: u128,
) -> Result<PlanV, LoadErrV> {
    if !spec_starts_with(path, root) {
        Err(LoadErrV::NotRelativeToRoot(path))
    } else {
        let parts = spec_nonempty(spec_split(path.subrange(root.len() as int, path.len() as int), '/'));
        match kind {
            EntryKind::Directory => {
                if parts.len() == 1 {
                    if group_chars_ok(parts[0]) {
                        Ok(PlanV::Register(GroupNameV::Named(parts[0])))
                    } else {
                        Err(
                            LoadErrV::InvalidGroupName(
                                parts[0],
                                parts[0][spec_scan_tag_ok(parts[0], 0)],
                            ),
                        )
                    }
                } else if parts.len() == 0 {
                    Ok(PlanV::Skip(LoadOutcome::SkippedOther))
                } else {
                    Ok(PlanV::Skip(LoadOutcome::SkippedNested))
                }
            },
            EntryKind::File => {
                if parts.len() == 0 {
                    Ok(PlanV::Skip(LoadOutcome::SkippedOther))
                } else if parts.len() > 2 {
                    Ok(PlanV::Skip(LoadOutcome::SkippedNested))
                } else {
                    let filename = parts.last();
                    match spec_last_dot(filename) {
                        None => Err(LoadErrV::NoFileExt(path)),
                        Some(k) => {
                            if k == 0 {
                                Err(LoadErrV::NoFileExt(path))
                            } else {
                                let stem = filename.subrange(0, k);
                                let ext = filename.subrange(k + 1, filename.len() as int);
                                if !is_md_ext(ext) {
                                    Ok(PlanV::Skip(LoadOutcome::SkippedOther))
                                } else if parts.len() == 1 {
                                    spec_plan_doc(
                                        path,
                                        GroupNameV::Root,
                                        stem,
                                        content,
                                        drafts,
                                        fresh,
                                    )
                                } else if group_chars_ok(parts[0]) {
                                    spec_plan_doc(
                                        path,
                                        GroupNameV::Named(parts[0]),
                                        stem,
                                        content,
                                        drafts,
                                        fresh,
                                    )
                                } else {
                                    Err(
                                        LoadErrV::InvalidGroupName(
                                            parts[0],
                                            parts[0][spec_scan_tag_ok(parts[0], 0)],
                                        ),
                                    )
                                }
                            }
                        },
                    }
                }
            },
        }
    }
}

/// With drafts included, a thread keeps exactly one entry per segment, in
/// document order: the entry's draft flag is its block's, its date the
/// file's, and its body the rendering of its segment's body.
pub proof fn lemma_thread_entries_all(fms: Seq<PostFmV>, segs: Seq<SegV>, date: Date)
    requires
        fms.len() == segs.len(),
    ensures
        thread_entries(fms, segs, date, true).len() == fms.len(),
        forall|i: int|
            0 <= i < fms.len() ==> thread_entries(fms, segs, date, true)[i] == (ThreadEntryV {
                draft: fms[i].draft,
                date,
                html: html_of(segs[i].body),
            }),
    decreases fms.len(),
{
    if fms.len() > 0 {
        lemma_thread_entries_all(fms.drop_last(), segs.drop_last(), date);
        let whole = thread_entries(fms, segs, date, true);
        let rec = thread_entries(fms.drop_last(), segs.drop_last(), date, true);
        assert(whole == rec.push(
            ThreadEntryV { draft: fms.last().draft, date, html: html_of(segs.last().body) },
        ));
        assert forall|i: int| 0 <= i < fms.len() implies whole[i] == (ThreadEntryV {
            draft: fms[i].draft,
            date,
            html: html_of(segs[i].body),
        }) by {
            if i < fms.len() - 1 {
                assert(fms.drop_last()[i] == fms[i]);
                assert(segs.drop_last()[i] == segs[i]);
            }
        }
    }
}

/// A file stem opening with a date is always planned as a post, whatever
/// its content: the plan is a post update, a draft skip, or a failure,
/// never a page or index update.
pub proof fn lemma_date_stem_is_post(
    path: Seq<char>,
    group: GroupNameV,
    stem: Seq<char>,
    content: Result<Seq<char>, Seq<char>>,
    drafts: bool,
    fresh: u128,
)
    requires
        spec_date_prefix(stem) is Some,
    ensures
        spec_plan_doc(path, group, stem, content, drafts, fresh) matches Ok(p) ==> (p matches
        PlanV::PutPost { name, .. } && name == PageNameV::Named(stem)) || p == PlanV::Skip(
            LoadOutcome::SkippedDraft,
        ),
{
    assert(crate::dates::has_date_shape(stem));
    assert(crate::dates::is_digit(stem[0]));
    assert(stem[0] != '_');
    assert(!is_index_stem(stem));
}

/// The generated index-page identifier never decides between success and
/// failure, nor which failure or which kind of plan comes out: two plans for
/// the same entry differ at most in the key an index page is stored under.
pub proof fn lemma_plan_fresh_independent(
    root: Seq<char>,
    path: Seq<char>,
    kind: EntryKind,
    content: Result<Seq<char>, Seq<char>>,
    drafts: bool,
    f1: u128,
    f2: u128,
)
    ensures
        match (
            spec_plan(root, path, kind, content, drafts, f1),
            spec_plan(root, path, kind, content, drafts, f2),
        ) {
            (Ok(p1), Ok(p2)) => {
                &&& (p1 is PutIndex <==> p2 is PutIndex)
                &&& (!(p1 is PutIndex) ==> p1 == p2)
                &&& (p1 is PutIndex ==> p1->PutIndex_group == p2->PutIndex_group
                    && p1->PutIndex_page == p2->PutIndex_page)
            },
            (Err(e1), Err(e2)) => e1 == e2,
            _ => false,
        },
{
}

/// Parses the group name of the first path part, or reports its first
/// refused character.
fn part_group(part: &Vec<char>) -> (r: Result<GroupName, LoadContentError>)
    ensures
        match r {
            Ok(g) => group_chars_ok(part@) && g@ == GroupNameV::Named(part@),
            Err(e) => !group_chars_ok(part@) && e@ == LoadErrV::InvalidGroupName(
                part@,
                part@[spec_scan_tag_ok(part@, 0)],
            ),
        },
{
    proof {
        crate::meta::lemma_scan_tag_ok_props(part@, 0);
    }
    let bad = scan_tag_ok(part.as_slice(), 0);
    if bad < part.len() {
        Err(
            LoadContentError::InvalidGroupName(
                ParseGroupNameError::InvalidChar(chars_to_string(part.as_slice()), part[bad]),
            ),
        )
    } else {
        Ok(GroupName::Named(chars_to_string(part.as_slice())))
    }
}

/// Plans the index update for one filesystem entry: the typed failure, the
/// skip, or the node or group to put, exactly as [`spec_plan`] describes it.
/// `content` is the outcome of reading the file (its text, or the failure
/// message); `fresh` is the generated identifier an index page would be
/// keyed by.
pub fn plan_entry(
    root: &[char],
    path: &[char],
    kind: EntryKind,
    content: &Result<String, String>,
    drafts: bool,
    fresh: u128,
) -> (r: Result<LoadPlan, LoadContentError>)
    ensures
        match r {
            Ok(p) => spec_plan(root@, path@, kind, content_view(*content), drafts, fresh) == Ok::<
                PlanV,
                LoadErrV,
            >(p@) && plan_wf(p@),
            Err(e) => spec_plan(root@, path@, kind, content_view(*content), drafts, fresh)
                == Err::<PlanV, LoadErrV>(e@),
        },
{
    if !starts_with(path, root) {
        return Err(LoadContentError::NotRelativeToRoot(chars_to_string(path)));
    }
    let rest = copy_from(path, root.len());
    let parts = split_nonempty(rest.as_slice(), '/');
    let ghost partsv = parts.deep_view();
    let np = parts.len();
    match kind {
        EntryKind::Directory => {
            if np == 1 {
                proof {
                    assert(parts[0int]@ == partsv[0]);
                }
                match part_group(&parts[0]) {
                    Ok(g) => Ok(LoadPlan::Register(g)),
                    Err(e) => Err(e),
                }
            } else if np == 0 {
                Ok(LoadPlan::Skip(LoadOutcome::SkippedOther))
            } else {
                Ok(LoadPlan::Skip(LoadOutcome::SkippedNested))
            }
        },
        EntryKind::File => {
            if np == 0 {
                return Ok(LoadPlan::Skip(LoadOutcome::SkippedOther));
            }
            if np > 2 {
                return Ok(LoadPlan::Skip(LoadOutcome::SkippedNested));
            }
            let filename = &parts[np - 1];
            proof {
                assert(filename@ == partsv[np - 1]);
                assert(partsv.last() == partsv[np - 1]);
            }
            let k = match last_dot(filename.as_slice()) {
                None => {
                    return Err(LoadContentError::NoFileExt(chars_to_string(path)));
                },
                Some(k) => k,
            };
            if k == 0 {
                return Err(LoadContentError::NoFileExt(chars_to_string(path)));
            }
            let flen = filename.len();
            proof {
                assert(k < flen);
            }
            let stem = crate::meta::copy_range(filename.as_slice(), 0, k);
            let ext = copy_from(filename.as_slice(), k + 1);
            let md: [char; 2] = ['m', 'd'];
            let markdown: [char; 8] = ['m', 'a', 'r', 'k', 'd', 'o', 'w', 'n'];
            proof {
                assert(md@ =~= seq!['m', 'd']);
                assert(markdown@ =~= seq!['m', 'a', 'r', 'k', 'd', 'o', 'w', 'n']);
            }
            if !(crate::meta::chars_eq(ext.as_slice(), md.as_slice()) || crate::meta::chars_eq(
                ext.as_slice(),
                markdown.as_slice(),
            )) {
                return Ok(LoadPlan::Skip(LoadOutcome::SkippedOther));
            }
            if np == 1 {
                plan_doc(path, GroupName::Root, stem.as_slice(), content, drafts, fresh)
            } else {
                proof {
                    assert(parts[0int]@ == partsv[0]);
                }
                match part_group(&parts[0]) {
                    Ok(g) => plan_doc(path, g, stem.as_slice(), content, drafts, fresh),
                    Err(e) => Err(e),
                }
            }
        },
    }
}

} // verus!
