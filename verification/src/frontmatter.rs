//! Splitting a document into frontmatter metadata blocks and markdown bodies.
//!
//! A document must begin with a delimiter line (`---`), followed by a
//! metadata block, the same delimiter, and a body.  For posts, the remaining
//! text is re-scanned: each further delimiter line opens another metadata
//! block, which must be closed by a delimiter of its own, and each block
//! begins a new segment.  One segment makes a single post; two or more make
//! a thread.  For pages, the frontmatter block is optional and only the
//! first is read.

use vstd::prelude::*;

use crate::text::{copy_lines, join_lines, spec_join};

verus! {

/// Why a document's frontmatter was refused.
#[derive(Clone, Copy, PartialEq, Eq, Structural, Debug)]
pub enum FrontmatterError {
    /// The document does not begin with a delimiter line.
    MissingFrontmatter,
    /// An opened metadata block is never closed by a delimiter line.
    MalformedFrontmatter,
}

/// A frontmatter delimiter line.
pub open spec fn is_delim(l: Seq<char>) -> bool {
    l == seq!['-', '-', '-']
}

/// The first delimiter line at or after `from`.
pub open spec fn find_delim(ls: Seq<Seq<char>>, from: int) -> Option<int>
    decreases ls.len() - from
        when 0 <= from
{
    if from >= ls.len() {
        None
    } else if is_delim(ls[from]) {
        Some(from)
    } else {
        find_delim(ls, from + 1)
    }
}

/// One frontmatter/body segment: the metadata block's lines and the joined
/// body text.
pub struct SegV {
    pub meta: Seq<Seq<char>>,
    pub body: Seq<char>,
}

/// The segments of a post document, read from the delimiter line at `open`:
/// each metadata block with the body text that follows it, in document
/// order.
pub open spec fn spec_segments_from(ls: Seq<Seq<char>>, open: int) -> Result<
    Seq<SegV>,
    FrontmatterError,
>
    decreases ls.len() - open
        when 0 <= open <= ls.len()
{
    match find_delim(ls, open + 1) {
        None => Err(FrontmatterError::MalformedFrontmatter),
        Some(close) => {
            let meta = ls.subrange(open + 1, close);
            match find_delim(ls, close + 1) {
                None => Ok(
                    seq![SegV { meta, body: spec_join(ls.subrange(close + 1, ls.len() as int)) }],
                ),
                Some(next) => {
                    if next <= open || next >= ls.len() {
                        Err(FrontmatterError::MalformedFrontmatter)
                    } else {
                        let body = spec_join(ls.subrange(close + 1, next));
                        match spec_segments_from(ls, next) {
                            Err(e) => Err(e),
                            Ok(rest) => Ok(seq![SegV { meta, body }] + rest),
                        }
                    }
                },
            }
        },
    }
}

/// The segments of a post document: the document must open with a delimiter
/// line; each block is delimiter-bounded, and each further delimiter line in
/// the text opens the next segment.
pub open spec fn spec_post_segments(ls: Seq<Seq<char>>) -> Result<Seq<SegV>, FrontmatterError> {
    if ls.len() == 0 || !is_delim(ls[0]) {
        Err(FrontmatterError::MissingFrontmatter)
    } else {
        spec_segments_from(ls, 0)
    }
}

/// A page document: its optional metadata block and its body.  Without a
/// leading delimiter line the whole document is the body; with one, the
/// block must be closed, and everything after the closing delimiter is the
/// body, delimiter lines included.
pub open spec fn spec_page_split(ls: Seq<Seq<char>>) -> Result<
    (Option<Seq<Seq<char>>>, Seq<char>),
    FrontmatterError,
> {
    if ls.len() == 0 || !is_delim(ls[0]) {
        Ok((None, spec_join(ls)))
    } else {
        match find_delim(ls, 1) {
            None => Err(FrontmatterError::MalformedFrontmatter),
            Some(close) => Ok(
                (Some(ls.subrange(1, close)), spec_join(ls.subrange(close + 1, ls.len() as int))),
            ),
        }
    }
}

/// One frontmatter/body segment as executable data.
#[derive(Debug)]
pub struct RawSegment {
    pub meta: Vec<Vec<char>>,
    pub body: Vec<char>,
}

impl View for RawSegment {
    type V = SegV;

    open spec fn view(&self) -> SegV {
        SegV { meta: self.meta.deep_view(), body: self.body@ }
    }
}

impl DeepView for RawSegment {
    type V = SegV;

    open spec fn deep_view(&self) -> SegV {
        self.view()
    }
}

/// Mirrors [`is_delim`].
fn is_delim_line(l: &[char]) -> (r: bool)
    ensures
        r == is_delim(l@),
{
    let r = l.len() == 3 && l[0] == '-' && l[1] == '-' && l[2] == '-';
    proof {
        if r {
            assert(l@ =~= seq!['-', '-', '-']);
        }
    }
    r
}

/// Mirrors [`find_delim`].
#[verifier::loop_isolation(false)]
fn find_delim_line(ls: &[Vec<char>], from: usize) -> (r: Option<usize>)
    requires
        from <= ls@.len(),
    ensures
        match r {
            Some(i) => find_delim(ls.deep_view(), from as int) == Some(i as int) && from <= i
                < ls@.len() && is_delim(ls.deep_view()[i as int]),
            None => find_delim(ls.deep_view(), from as int) is None,
        },
{
    let n = ls.len();
    let mut i: usize = from;
    while i < n
        invariant
            from <= i <= n,
            find_delim(ls.deep_view(), from as int) == find_delim(ls.deep_view(), i as int),
        decreases n - i,
    {
        proof {
            assert(ls[i as int]@ =~= ls.deep_view()[i as int]);
        }
        if is_delim_line(ls[i].as_slice()) {
            return Some(i);
        }
        i = i + 1;
    }
    None
}

/// Prepends already-read segments to the outcome on the rest of the
/// document.
pub open spec fn prepend_segs(pre: Seq<SegV>, r: Result<Seq<SegV>, FrontmatterError>) -> Result<
    Seq<SegV>,
    FrontmatterError,
> {
    match r {
        Err(e) => Err(e),
        Ok(rest) => Ok(pre + rest),
    }
}

/// Splits a post document into its frontmatter/body segments, in document
/// order.  Fails with `MissingFrontmatter` when the document does not open
/// with a delimiter line, and with `MalformedFrontmatter` when an opened
/// metadata block is never closed.
#[verifier::loop_isolation(false)]
pub fn split_post_segments(ls: &[Vec<char>]) -> (r: Result<Vec<RawSegment>, FrontmatterError>)
    ensures
        match r {
            Ok(segs) => spec_post_segments(ls.deep_view()) == Ok::<Seq<SegV>, FrontmatterError>(
                segs.deep_view(),
            ) && segs.len() >= 1,
            Err(e) => spec_post_segments(ls.deep_view()) == Err::<Seq<SegV>, FrontmatterError>(e),
        },
{
    let ghost lsv = ls.deep_view();
    let n = ls.len();
    if n == 0 {
        return Err(FrontmatterError::MissingFrontmatter);
    }
    proof {
        assert(ls[0int]@ =~= lsv[0int]);
    }
    if !is_delim_line(ls[0].as_slice()) {
        return Err(FrontmatterError::MissingFrontmatter);
    }
    let mut segs: Vec<RawSegment> = Vec::new();
    let mut open: usize = 0;
    loop
        invariant
            open < n,
            n == lsv.len(),
            lsv == ls.deep_view(),
            is_delim(lsv[open as int]),
            spec_segments_from(lsv, 0) == prepend_segs(
                segs.deep_view(),
                spec_segments_from(lsv, open as int),
            ),
        decreases n - open,
    {
        let close = match find_delim_line(ls, open + 1) {
            None => {
                return Err(FrontmatterError::MalformedFrontmatter);
            },
            Some(c) => c,
        };
        let meta = copy_lines(ls, open + 1, close);
        match find_delim_line(ls, close + 1) {
            None => {
                let body = join_lines(ls, close + 1, n);
                let ghost before = segs.deep_view();
                let ghost segv = SegV { meta: meta.deep_view(), body: body@ };
                segs.push(RawSegment { meta, body });
                proof {
                    assert(segs.deep_view() =~~= before.push(segv));
                    assert(seq![segv] =~~= Seq::<SegV>::empty().push(segv));
                    assert(before + seq![segv] =~~= segs.deep_view());
                }
                return Ok(segs);
            },
            Some(next) => {
                let body = join_lines(ls, close + 1, next);
                let ghost before = segs.deep_view();
                let ghost segv = SegV { meta: meta.deep_view(), body: body@ };
                segs.push(RawSegment { meta, body });
                proof {
                    assert(segs.deep_view() =~~= before.push(segv));
                    let rest = spec_segments_from(lsv, next as int);
                    assert(spec_segments_from(lsv, open as int) == prepend_segs(seq![segv], rest));
                    if rest is Ok {
                        assert(before + (seq![segv] + rest->Ok_0) =~~= (before + seq![segv])
                            + rest->Ok_0);
                        assert(before.push(segv) =~~= before + seq![segv]);
                    }
                }
                open = next;
            },
        }
    }
}

/// Splits a page document into its optional metadata block and its body.
pub fn split_page_document(ls: &[Vec<char>]) -> (r: Result<
    (Option<Vec<Vec<char>>>, Vec<char>),
    FrontmatterError,
>)
    ensures
        match r {
            Ok((meta, body)) => spec_page_split(ls.deep_view()) == Ok::<
                (Option<Seq<Seq<char>>>, Seq<char>),
                FrontmatterError,
            >((meta.deep_view(), body@)),
            Err(e) => spec_page_split(ls.deep_view()) == Err::<
                (Option<Seq<Seq<char>>>, Seq<char>),
                FrontmatterError,
            >(e),
        },
{
    let ghost lsv = ls.deep_view();
    let n = ls.len();
    if n == 0 {
        let body = join_lines(ls, 0, 0);
        proof {
            assert(lsv.subrange(0, 0) =~~= lsv);
        }
        return Ok((None, body));
    }
    proof {
        assert(ls[0int]@ =~= lsv[0int]);
    }
    if !is_delim_line(ls[0].as_slice()) {
        let body = join_lines(ls, 0, n);
        proof {
            assert(lsv.subrange(0, n as int) =~~= lsv);
        }
        return Ok((None, body));
    }
    match find_delim_line(ls, 1) {
        None => Err(FrontmatterError::MalformedFrontmatter),
        Some(close) => {
            let meta = copy_lines(ls, 1, close);
            let body = join_lines(ls, close + 1, n);
            Ok((Some(meta), body))
        },
    }
}

} // verus!
