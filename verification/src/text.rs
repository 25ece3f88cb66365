//! Plain-text helpers: character buffers, line splitting and joining.
//!
//! Documents are handled as sequences of characters, and most of the parsing
//! works line by line.  [`spec_lines`] is the mathematical splitting of a
//! character sequence at newlines, [`spec_join`] its inverse.

use vstd::prelude::*;

verus! {

/// The lines of `s`: the maximal newline-free pieces between the newline
/// characters.  A text always has at least one line; a trailing newline
/// yields a final empty line.
pub open spec fn spec_lines(s: Seq<char>) -> Seq<Seq<char>>
    decreases s.len(),
{
    if s.len() == 0 {
        seq![Seq::<char>::empty()]
    } else if s.last() == '\n' {
        spec_lines(s.drop_last()).push(Seq::<char>::empty())
    } else {
        let r = spec_lines(s.drop_last());
        r.update(r.len() - 1, r.last().push(s.last()))
    }
}

/// The text whose lines are `ls`: the lines joined with single newlines.
pub open spec fn spec_join(ls: Seq<Seq<char>>) -> Seq<char>
    decreases ls.len(),
{
    if ls.len() == 0 {
        Seq::<char>::empty()
    } else if ls.len() == 1 {
        ls[0]
    } else {
        ls[0] + seq!['\n'] + spec_join(ls.drop_first())
    }
}

/// The characters of `s`, in order.
pub fn to_chars(s: &str) -> (r: Vec<char>)
    ensures
        r@ == s@,
{
    let n = s.unicode_len();
    let mut r: Vec<char> = Vec::new();
    let mut i: usize = 0;
    while i < n
        invariant
            n == s@.len(),
            i <= n,
            r@ == s@.subrange(0, i as int),
        decreases n - i,
    {
        r.push(s.get_char(i));
        i = i + 1;
    }
    proof {
        assert(r@ =~= s@);
    }
    r
}

/// Relies on the standard iterator collection for `String`: the collected
/// string holds exactly the given characters, in order.
#[verifier::external_body]
pub fn chars_to_string(v: &[char]) -> (s: String)
    ensures
        s@ == v@,
{
    v.iter().collect()
}

/// Splits `v` into its lines: the pieces between newline characters.
pub fn split_lines(v: &[char]) -> (r: Vec<Vec<char>>)
    ensures
        r.deep_view() == spec_lines(v@),
        r.len() >= 1,
{
    let mut lines: Vec<Vec<char>> = Vec::new();
    let mut cur: Vec<char> = Vec::new();
    let mut i: usize = 0;
    while i < v.len()
        invariant
            i <= v@.len(),
            spec_lines(v@.subrange(0, i as int)) == lines.deep_view().push(cur@),
        decreases v@.len() - i,
    {
        let ghost pre = v@.subrange(0, i as int);
        let ghost post = v@.subrange(0, i as int + 1);
        proof {
            assert(post.drop_last() =~= pre);
            assert(post.last() == v@[i as int]);
        }
        let c = v[i];
        if c == '\n' {
            proof {
                assert(spec_lines(post) =~~= lines.deep_view().push(cur@).push(
                    Seq::<char>::empty(),
                ));
            }
            lines.push(cur);
            cur = Vec::new();
            proof {
                assert(lines.deep_view().push(cur@) =~~= spec_lines(post));
            }
        } else {
            let ghost old_cur = cur@;
            cur.push(c);
            proof {
                let r = spec_lines(pre);
                assert(r == lines.deep_view().push(old_cur));
                assert(r.last() == old_cur);
                assert(spec_lines(post) == r.update(r.len() - 1, old_cur.push(c)));
                assert(lines.deep_view().push(cur@) =~~= spec_lines(post));
            }
        }
        i = i + 1;
    }
    proof {
        assert(v@.subrange(0, v@.len() as int) =~= v@);
    }
    let ghost done = lines.deep_view();
    lines.push(cur);
    proof {
        assert(lines.deep_view() =~~= done.push(cur@));
    }
    lines
}

/// Joins the lines `ls[from..to]` with single newlines.
#[verifier::loop_isolation(false)]
pub fn join_lines(ls: &[Vec<char>], from: usize, to: usize) -> (r: Vec<char>)
    requires
        from <= to <= ls@.len(),
    ensures
        r@ == spec_join(ls.deep_view().subrange(from as int, to as int)),
{
    let ghost piece = ls.deep_view().subrange(from as int, to as int);
    let mut r: Vec<char> = Vec::new();
    if from == to {
        return r;
    }
    let mut i: usize = from;
    while i < to
        invariant
            from <= i <= to,
            i > from ==> r@ == spec_join(piece.subrange(0, i - from)),
            i == from ==> r@ == Seq::<char>::empty(),
        decreases to - i,
    {
        if i > from {
            r.push('\n');
        }
        let mut j: usize = 0;
        let line = &ls[i];
        let ghost mid = r@;
        while j < line.len()
            invariant
                from <= i < to,
                j <= line@.len(),
                r@ == mid + line@.subrange(0, j as int),
            decreases line@.len() - j,
        {
            r.push(line[j]);
            j = j + 1;
        }
        proof {
            assert(line@.subrange(0, line@.len() as int) =~= line@);
            assert(line@ == piece[i - from]);
            assert(r@ =~= mid + piece[i - from]);
            lemma_join_snoc(piece, i - from);
            if i == from {
                assert(mid =~= Seq::<char>::empty());
                assert(r@ =~= spec_join(piece.subrange(0, 1)));
            } else {
                assert(mid =~= spec_join(piece.subrange(0, i - from)) + seq!['\n']);
                assert(r@ =~= spec_join(piece.subrange(0, i - from + 1)));
            }
        }
        i = i + 1;
    }
    proof {
        assert(piece.subrange(0, piece.len() as int) =~~= piece);
    }
    r
}

/// Copies the lines `ls[from..to]`.
#[verifier::loop_isolation(false)]
pub fn copy_lines(ls: &[Vec<char>], from: usize, to: usize) -> (r: Vec<Vec<char>>)
    requires
        from <= to <= ls@.len(),
    ensures
        r.deep_view() == ls.deep_view().subrange(from as int, to as int),
{
    let mut r: Vec<Vec<char>> = Vec::new();
    let mut i: usize = from;
    while i < to
        invariant
            from <= i <= to,
            r.deep_view() =~~= ls.deep_view().subrange(from as int, i as int),
        decreases to - i,
    {
        let line = &ls[i];
        let mut copy: Vec<char> = Vec::new();
        let mut j: usize = 0;
        while j < line.len()
            invariant
                from <= i < to,
                j <= line@.len(),
                copy@ == line@.subrange(0, j as int),
            decreases line@.len() - j,
        {
            copy.push(line[j]);
            j = j + 1;
        }
        proof {
            assert(copy@ =~= line@);
        }
        let ghost before = r.deep_view();
        r.push(copy);
        proof {
            assert(r.deep_view() =~~= before.push(ls.deep_view()[i as int]));
        }
        i = i + 1;
    }
    r
}

/// The pieces of `s` between occurrences of `sep`, like [`spec_lines`] with
/// an arbitrary separator.
pub open spec fn spec_split(s: Seq<char>, sep: char) -> Seq<Seq<char>>
    decreases s.len(),
{
    if s.len() == 0 {
        seq![Seq::<char>::empty()]
    } else if s.last() == sep {
        spec_split(s.drop_last(), sep).push(Seq::<char>::empty())
    } else {
        let r = spec_split(s.drop_last(), sep);
        r.update(r.len() - 1, r.last().push(s.last()))
    }
}

/// The non-empty pieces of `ls`, in order.
pub open spec fn spec_nonempty(ls: Seq<Seq<char>>) -> Seq<Seq<char>>
    decreases ls.len(),
{
    if ls.len() == 0 {
        Seq::empty()
    } else if ls.last().len() == 0 {
        spec_nonempty(ls.drop_last())
    } else {
        spec_nonempty(ls.drop_last()).push(ls.last())
    }
}

/// Splits `v` at every occurrence of `sep` and keeps the non-empty pieces.
#[verifier::loop_isolation(false)]
pub fn split_nonempty(v: &[char], sep: char) -> (r: Vec<Vec<char>>)
    ensures
        r.deep_view() == spec_nonempty(spec_split(v@, sep)),
{
    let mut pieces: Vec<Vec<char>> = Vec::new();
    let mut cur: Vec<char> = Vec::new();
    let mut i: usize = 0;
    proof {
        assert(spec_split(v@.subrange(0, 0), sep) =~~= seq![Seq::<char>::empty()]);
    }
    while i < v.len()
        invariant
            i <= v@.len(),
            pieces.deep_view() == spec_nonempty(
                spec_split(v@.subrange(0, i as int), sep).drop_last(),
            ),
            spec_split(v@.subrange(0, i as int), sep).last() == cur@,
        decreases v@.len() - i,
    {
        let ghost pre = v@.subrange(0, i as int);
        let ghost post = v@.subrange(0, i as int + 1);
        proof {
            assert(post.drop_last() =~= pre);
            assert(post.last() == v@[i as int]);
            lemma_spec_lines_len_split(pre, sep);
        }
        let c = v[i];
        if c == sep {
            if cur.len() > 0 {
                let ghost curv = cur@;
                let ghost before = pieces.deep_view();
                pieces.push(cur);
                proof {
                    assert(pieces.deep_view() =~~= before.push(curv));
                    let sp = spec_split(pre, sep);
                    assert(spec_split(post, sep) == sp.push(Seq::<char>::empty()));
                    assert(spec_split(post, sep).drop_last() =~= sp);
                    assert(spec_nonempty(sp) =~~= spec_nonempty(sp.drop_last()).push(curv));
                }
                cur = Vec::new();
            } else {
                proof {
                    let sp = spec_split(pre, sep);
                    assert(spec_split(post, sep) == sp.push(Seq::<char>::empty()));
                    assert(spec_split(post, sep).drop_last() =~= sp);
                    assert(sp =~~= sp.drop_last().push(cur@));
                    assert(spec_nonempty(sp) =~~= spec_nonempty(sp.drop_last()));
                }
                cur = Vec::new();
            }
        } else {
            let ghost old_cur = cur@;
            cur.push(c);
            proof {
                let sp = spec_split(pre, sep);
                assert(spec_split(post, sep) == sp.update(sp.len() - 1, old_cur.push(c)));
                assert(spec_split(post, sep).drop_last() =~~= sp.drop_last());
                assert(spec_split(post, sep).last() == cur@);
            }
        }
        i = i + 1;
    }
    proof {
        assert(v@.subrange(0, v@.len() as int) =~= v@);
    }
    if cur.len() > 0 {
        let ghost curv = cur@;
        let ghost before = pieces.deep_view();
        pieces.push(cur);
        proof {
            let sp = spec_split(v@, sep);
            lemma_spec_lines_len_split(v@, sep);
            assert(pieces.deep_view() =~~= before.push(curv));
            assert(sp =~~= sp.drop_last().push(curv));
            assert(spec_nonempty(sp) =~~= spec_nonempty(sp.drop_last()).push(curv));
        }
    } else {
        proof {
            let sp = spec_split(v@, sep);
            lemma_spec_lines_len_split(v@, sep);
            assert(sp =~~= sp.drop_last().push(cur@));
            assert(spec_nonempty(sp) =~~= spec_nonempty(sp.drop_last()));
        }
    }
    pieces
}

/// A split has at least one piece.
proof fn lemma_spec_lines_len_split(s: Seq<char>, sep: char)
    ensures
        spec_split(s, sep).len() >= 1,
    decreases s.len(),
{
    if s.len() != 0 {
        lemma_spec_lines_len_split(s.drop_last(), sep);
    }
}

/// Joining one more line appends a newline and that line (except for the
/// first line, which is appended bare).
proof fn lemma_join_snoc(ls: Seq<Seq<char>>, i: int)
    requires
        0 <= i < ls.len(),
    ensures
        i == 0 ==> spec_join(ls.subrange(0, 1)) == ls[0],
        i > 0 ==> spec_join(ls.subrange(0, i + 1)) == spec_join(ls.subrange(0, i)) + seq!['\n']
            + ls[i],
    decreases i,
{
    if i == 0 {
        assert(spec_join(ls.subrange(0, 1)) == ls.subrange(0, 1)[0]);
    } else {
        let a = ls.subrange(0, i + 1);
        let b = ls.subrange(0, i);
        if i == 1 {
            assert(a.len() == 2);
            assert(spec_join(a) == a[0] + seq!['\n'] + spec_join(a.drop_first()));
            assert(a.drop_first() =~= seq![ls[1]]);
            assert(spec_join(a.drop_first()) == ls[1]);
            assert(spec_join(b) == ls[0]);
        } else {
            assert(spec_join(a) == a[0] + seq!['\n'] + spec_join(a.drop_first()));
            assert(spec_join(b) == b[0] + seq!['\n'] + spec_join(b.drop_first()));
            assert(a.drop_first() =~= ls.drop_first().subrange(0, i));
            assert(b.drop_first() =~= ls.drop_first().subrange(0, i - 1));
            lemma_join_snoc(ls.drop_first(), i - 1);
            assert(ls.drop_first().subrange(0, i - 1 + 1) =~= a.drop_first());
            assert(ls.drop_first()[i - 1] == ls[i]);
            assert(spec_join(a) =~= spec_join(b) + seq!['\n'] + ls[i]);
        }
    }
}

} // verus!
