//! The frontmatter metadata block: a small key/value format.
//!
//! A block is a list of lines.  Blank lines and `#` comment lines are
//! ignored; every other line reads `key = value`, where a key is made of
//! lowercase ASCII letters and underscores and a value is a boolean literal,
//! a double-quoted string (without escapes), or a bracketed list of quoted
//! strings on one line.  Post blocks know the keys `draft` and `tags`, page
//! blocks the key `title`; anything else is an unknown field.

use vstd::prelude::*;

use crate::names::{group_char_ok, group_chars_ok, ParseTagNameError, TagName};
use crate::text::chars_to_string;

verus! {

/// Whitespace inside a metadata line.
pub open spec fn is_ws(c: char) -> bool {
    c == ' ' || c == '\t' || c == '\r'
}

/// A character allowed in a metadata key.
pub open spec fn is_key_char(c: char) -> bool {
    ('a' <= c && c <= 'z') || c == '_'
}

/// The first position at or after `i` that holds no whitespace.
pub open spec fn spec_skip_ws(l: Seq<char>, i: int) -> int
    decreases l.len() - i
        when 0 <= i <= l.len()
{
    if i == l.len() {
        i
    } else if is_ws(l[i]) {
        spec_skip_ws(l, i + 1)
    } else {
        i
    }
}

/// The first position at or after `i` that holds no key character.
pub open spec fn spec_scan_key(l: Seq<char>, i: int) -> int
    decreases l.len() - i
        when 0 <= i <= l.len()
{
    if i == l.len() {
        i
    } else if is_key_char(l[i]) {
        spec_scan_key(l, i + 1)
    } else {
        i
    }
}

/// The first position at or after `i` that holds a double quote, or the end.
pub open spec fn spec_scan_quote(l: Seq<char>, i: int) -> int
    decreases l.len() - i
        when 0 <= i <= l.len()
{
    if i == l.len() {
        i
    } else if l[i] != '"' {
        spec_scan_quote(l, i + 1)
    } else {
        i
    }
}

/// The first position at or after `i` whose character the group and tag
/// alphabet refuses, or the end.
pub open spec fn spec_scan_tag_ok(l: Seq<char>, i: int) -> int
    decreases l.len() - i
        when 0 <= i <= l.len()
{
    if i == l.len() {
        i
    } else if group_char_ok(l[i]) {
        spec_scan_tag_ok(l, i + 1)
    } else {
        i
    }
}

/// The word `w` stands in `l` at position `i`.
pub open spec fn word_at(l: Seq<char>, i: int, w: Seq<char>) -> bool {
    0 <= i && i + w.len() <= l.len() && l.subrange(i, i + w.len()) == w
}

/// A metadata value: a boolean, a string, or a list of strings.
pub enum ValueV {
    Bool(bool),
    Str(Seq<char>),
    List(Seq<Seq<char>>),
}

/// The quoted string starting at `i` (which must hold the opening quote):
/// its contents and the position after the closing quote.
pub open spec fn spec_quoted(l: Seq<char>, i: int) -> Option<(Seq<char>, int)> {
    if 0 <= i < l.len() {
        let j = spec_scan_quote(l, i + 1);
        if j < l.len() {
            Some((l.subrange(i + 1, j), j + 1))
        } else {
            None
        }
    } else {
        None
    }
}

/// The items of a bracketed string list, read from position `i` (just after
/// the opening bracket or after a comma), and the position after the closing
/// bracket.  `first` distinguishes the head position, where an empty list
/// may close immediately.
pub open spec fn spec_list_items(l: Seq<char>, i: int, first: bool) -> Option<
    (Seq<Seq<char>>, int),
>
    decreases l.len() - i
        when 0 <= i <= l.len()
{
    let s = spec_skip_ws(l, i);
    if s >= l.len() || s < i {
        None
    } else if first && l[s] == ']' {
        Some((Seq::empty(), s + 1))
    } else if l[s] == '"' {
        match spec_quoted(l, s) {
            None => None,
            Some((item, j)) => {
                if j <= l.len() && j >= 0 {
                    let t = spec_skip_ws(l, j);
                    if t >= l.len() || t < i {
                        None
                    } else if l[t] == ']' {
                        Some((seq![item], t + 1))
                    } else if l[t] == ',' && t + 1 > i {
                        match spec_list_items(l, t + 1, false) {
                            None => None,
                            Some((rest, e)) => Some((seq![item] + rest, e)),
                        }
                    } else {
                        None
                    }
                } else {
                    None
                }
            },
        }
    } else {
        None
    }
}

/// The value written at position `i` of the line, which must reach to the
/// end of the line (trailing whitespace aside).
pub open spec fn spec_value(l: Seq<char>, i: int) -> Option<ValueV> {
    if word_at(l, i, seq!['t', 'r', 'u', 'e']) && spec_skip_ws(l, i + 4) == l.len() {
        Some(ValueV::Bool(true))
    } else if word_at(l, i, seq!['f', 'a', 'l', 's', 'e']) && spec_skip_ws(l, i + 5) == l.len() {
        Some(ValueV::Bool(false))
    } else if 0 <= i < l.len() && l[i] == '"' {
        match spec_quoted(l, i) {
            None => None,
            Some((s, j)) => {
                if 0 <= j <= l.len() && spec_skip_ws(l, j) == l.len() {
                    Some(ValueV::Str(s))
                } else {
                    None
                }
            },
        }
    } else if 0 <= i < l.len() && l[i] == '[' {
        match spec_list_items(l, i + 1, true) {
            None => None,
            Some((items, j)) => {
                if 0 <= j <= l.len() && spec_skip_ws(l, j) == l.len() {
                    Some(ValueV::List(items))
                } else {
                    None
                }
            },
        }
    } else {
        None
    }
}

/// One metadata entry: a key and its value.
pub struct EntryV {
    pub key: Seq<char>,
    pub value: ValueV,
}

/// Reads one line of a metadata block: nothing for a blank or comment line,
/// an entry for a `key = value` line, or a syntax failure.
pub open spec fn spec_parse_line(l: Seq<char>) -> Result<Option<EntryV>, ()> {
    let s = spec_skip_ws(l, 0);
    if s == l.len() {
        Ok(None)
    } else if l[s] == '#' {
        Ok(None)
    } else {
        let ke = spec_scan_key(l, s);
        if ke == s {
            Err(())
        } else {
            let eq = spec_skip_ws(l, ke);
            if eq == l.len() || l[eq] != '=' {
                Err(())
            } else {
                match spec_value(l, spec_skip_ws(l, eq + 1)) {
                    None => Err(()),
                    Some(v) => Ok(Some(EntryV { key: l.subrange(s, ke), value: v })),
                }
            }
        }
    }
}

/// Mirrors [`spec_skip_ws`].
fn skip_ws(l: &[char], i: usize) -> (r: usize)
    requires
        i <= l@.len(),
    ensures
        r == spec_skip_ws(l@, i as int),
        i <= r <= l@.len(),
    decreases l@.len() - i,
{
    if i == l.len() {
        i
    } else {
        let c = l[i];
        if c == ' ' || c == '\t' || c == '\r' {
            skip_ws(l, i + 1)
        } else {
            i
        }
    }
}

/// Mirrors [`spec_scan_key`].
fn scan_key(l: &[char], i: usize) -> (r: usize)
    requires
        i <= l@.len(),
    ensures
        r == spec_scan_key(l@, i as int),
        i <= r <= l@.len(),
    decreases l@.len() - i,
{
    if i == l.len() {
        i
    } else {
        let c = l[i];
        if ('a' <= c && c <= 'z') || c == '_' {
            scan_key(l, i + 1)
        } else {
            i
        }
    }
}

/// Mirrors [`spec_scan_quote`].
fn scan_quote(l: &[char], i: usize) -> (r: usize)
    requires
        i <= l@.len(),
    ensures
        r == spec_scan_quote(l@, i as int),
        i <= r <= l@.len(),
    decreases l@.len() - i,
{
    if i == l.len() {
        i
    } else if l[i] != '"' {
        scan_quote(l, i + 1)
    } else {
        i
    }
}

/// Mirrors [`spec_scan_tag_ok`]: the first position at or after `i` whose
/// character the tag alphabet refuses.
pub fn scan_tag_ok(l: &[char], i: usize) -> (r: usize)
    requires
        i <= l@.len(),
    ensures
        r == spec_scan_tag_ok(l@, i as int),
        i <= r <= l@.len(),
    decreases l@.len() - i,
{
    if i == l.len() {
        i
    } else {
        let c = l[i];
        if ('a' <= c && c <= 'z') || c == '-' {
            scan_tag_ok(l, i + 1)
        } else {
            i
        }
    }
}

/// A metadata value as executable data.
#[derive(Debug)]
pub enum MetaValue {
    Bool(bool),
    Str(Vec<char>),
    List(Vec<Vec<char>>),
}

impl View for MetaValue {
    type V = ValueV;

    open spec fn view(&self) -> ValueV {
        match self {
            MetaValue::Bool(b) => ValueV::Bool(*b),
            MetaValue::Str(s) => ValueV::Str(s@),
            MetaValue::List(items) => ValueV::List(items.deep_view()),
        }
    }
}

/// Copies `l[from..to]` into a fresh buffer.
pub(crate) fn copy_range(l: &[char], from: usize, to: usize) -> (r: Vec<char>)
    requires
        from <= to <= l@.len(),
    ensures
        r@ == l@.subrange(from as int, to as int),
{
    let mut r: Vec<char> = Vec::new();
    let mut i: usize = from;
    while i < to
        invariant
            from <= i <= to <= l@.len(),
            r@ == l@.subrange(from as int, i as int),
        decreases to - i,
    {
        r.push(l[i]);
        i = i + 1;
        proof {
            assert(l@.subrange(from as int, i as int) =~= l@.subrange(from as int, i - 1).push(
                l@[i - 1],
            ));
        }
    }
    r
}

/// Mirrors [`spec_quoted`].
fn quoted(l: &[char], i: usize) -> (r: Option<(Vec<char>, usize)>)
    requires
        i <= l@.len(),
    ensures
        match r {
            Some((s, j)) => spec_quoted(l@, i as int) matches Some((sv, jv)) && sv == s@ && jv == j
                as int && i < j <= l@.len(),
            None => spec_quoted(l@, i as int) is None,
        },
{
    if i >= l.len() {
        return None;
    }
    let j = scan_quote(l, i + 1);
    if j < l.len() {
        Some((copy_range(l, i + 1, j), j + 1))
    } else {
        None
    }
}

/// The word `w` (ASCII) stands at position `i` and only whitespace follows it.
fn word_then_ws(l: &[char], i: usize, w: &[char]) -> (r: bool)
    requires
        i <= l@.len(),
    ensures
        r == (word_at(l@, i as int, w@) && spec_skip_ws(l@, i + w@.len()) == l@.len()),
{
    let n = l.len();
    if n - i < w.len() {
        proof {
            assert(!word_at(l@, i as int, w@));
        }
        return false;
    }
    let mut k: usize = 0;
    while k < w.len()
        invariant
            n == l@.len(),
            i + w@.len() <= n,
            k <= w@.len(),
            forall|j: int| 0 <= j < k ==> l@[i + j] == w@[j],
        decreases w@.len() - k,
    {
        if l[i + k] != w[k] {
            proof {
                assert(l@.subrange(i as int, i + w@.len())[k as int] == l@[i + k]);
                assert(!word_at(l@, i as int, w@));
            }
            return false;
        }
        k = k + 1;
    }
    proof {
        assert(l@.subrange(i as int, i + w@.len()) =~= w@);
    }
    let rest = skip_ws(l, i + w.len());
    rest == l.len()
}

/// Mirrors [`spec_list_items`].
fn list_items(l: &[char], i: usize, first: bool) -> (r: Option<(Vec<Vec<char>>, usize)>)
    requires
        i <= l@.len(),
    ensures
        match r {
            Some((items, j)) => spec_list_items(l@, i as int, first) matches Some((iv, jv)) && iv
                == items.deep_view() && jv == j as int && i <= j <= l@.len(),
            None => spec_list_items(l@, i as int, first) is None,
        },
    decreases l@.len() - i,
{
    let s = skip_ws(l, i);
    if s >= l.len() {
        return None;
    }
    if first && l[s] == ']' {
        let items: Vec<Vec<char>> = Vec::new();
        proof {
            assert(items.deep_view() =~~= Seq::<Seq<char>>::empty());
        }
        return Some((items, s + 1));
    }
    if l[s] == '"' {
        match quoted(l, s) {
            None => None,
            Some((item, j)) => {
                let t = skip_ws(l, j);
                if t >= l.len() {
                    return None;
                }
                if l[t] == ']' {
                    let mut items: Vec<Vec<char>> = Vec::new();
                    let ghost iv = item@;
                    items.push(item);
                    proof {
                        assert(items.deep_view() =~~= seq![iv]);
                    }
                    return Some((items, t + 1));
                }
                if l[t] == ',' {
                    match list_items(l, t + 1, false) {
                        None => None,
                        Some((rest, e)) => {
                            let mut items: Vec<Vec<char>> = Vec::new();
                            let ghost iv = item@;
                            let ghost restv = rest.deep_view();
                            items.push(item);
                            let mut k: usize = 0;
                            let n = rest.len();
                            let mut rest = rest;
                            while k < n
                                invariant
                                    n == restv.len(),
                                    rest.deep_view() == restv,
                                    rest@.len() == n,
                                    k <= n,
                                    items.deep_view() =~~= seq![iv] + restv.subrange(0, k as int),
                                decreases n - k,
                            {
                                let ghost before = items.deep_view();
                                let piece = copy_range(rest[k].as_slice(), 0, rest[k].len());
                                proof {
                                    assert(piece@ =~= restv[k as int]);
                                }
                                items.push(piece);
                                proof {
                                    assert(items.deep_view() =~~= before.push(restv[k as int]));
                                    assert(items.deep_view() =~~= seq![iv] + restv.subrange(
                                        0,
                                        k + 1,
                                    ));
                                }
                                k = k + 1;
                            }
                            proof {
                                assert(restv.subrange(0, restv.len() as int) =~~= restv);
                                assert(items.deep_view() =~~= seq![iv] + restv);
                            }
                            Some((items, e))
                        },
                    }
                } else {
                    None
                }
            },
        }
    } else {
        None
    }
}

/// Mirrors [`spec_value`].
fn value_at(l: &[char], i: usize) -> (r: Option<MetaValue>)
    requires
        i <= l@.len(),
    ensures
        match r {
            Some(v) => spec_value(l@, i as int) matches Some(vv) && vv == v@,
            None => spec_value(l@, i as int) is None,
        },
{
    let tru: [char; 4] = ['t', 'r', 'u', 'e'];
    let fal: [char; 5] = ['f', 'a', 'l', 's', 'e'];
    proof {
        assert(tru@ =~= seq!['t', 'r', 'u', 'e']);
        assert(fal@ =~= seq!['f', 'a', 'l', 's', 'e']);
    }
    if word_then_ws(l, i, tru.as_slice()) {
        return Some(MetaValue::Bool(true));
    }
    if word_then_ws(l, i, fal.as_slice()) {
        return Some(MetaValue::Bool(false));
    }
    if i < l.len() && l[i] == '"' {
        match quoted(l, i) {
            None => None,
            Some((s, j)) => {
                let rest = skip_ws(l, j);
                if rest == l.len() {
                    Some(MetaValue::Str(s))
                } else {
                    None
                }
            },
        }
    } else if i < l.len() && l[i] == '[' {
        match list_items(l, i + 1, true) {
            None => None,
            Some((items, j)) => {
                let rest = skip_ws(l, j);
                if rest == l.len() {
                    Some(MetaValue::List(items))
                } else {
                    None
                }
            },
        }
    } else {
        None
    }
}

/// One metadata entry as executable data.
#[derive(Debug)]
pub struct MetaEntry {
    pub key: Vec<char>,
    pub value: MetaValue,
}

impl View for MetaEntry {
    type V = EntryV;

    open spec fn view(&self) -> EntryV {
        EntryV { key: self.key@, value: self.value@ }
    }
}

impl DeepView for MetaEntry {
    type V = EntryV;

    open spec fn deep_view(&self) -> EntryV {
        self.view()
    }
}

/// Mirrors [`spec_parse_line`].
fn parse_line(l: &[char]) -> (r: Result<Option<MetaEntry>, ()>)
    ensures
        match r {
            Ok(None) => spec_parse_line(l@) == Ok::<Option<EntryV>, ()>(None),
            Ok(Some(e)) => spec_parse_line(l@) == Ok::<Option<EntryV>, ()>(Some(e@)),
            Err(()) => spec_parse_line(l@) == Err::<Option<EntryV>, ()>(()),
        },
{
    let s = skip_ws(l, 0);
    if s == l.len() {
        return Ok(None);
    }
    if l[s] == '#' {
        return Ok(None);
    }
    let ke = scan_key(l, s);
    if ke == s {
        return Err(());
    }
    let eq = skip_ws(l, ke);
    if eq == l.len() {
        return Err(());
    }
    if l[eq] != '=' {
        return Err(());
    }
    let vs = skip_ws(l, eq + 1);
    match value_at(l, vs) {
        None => Err(()),
        Some(v) => Ok(Some(MetaEntry { key: copy_range(l, s, ke), value: v })),
    }
}

/// The entries of a whole metadata block, line by line; `None` on a syntax
/// failure in any line.
pub open spec fn spec_entries(ls: Seq<Seq<char>>) -> Option<Seq<EntryV>>
    decreases ls.len(),
{
    if ls.len() == 0 {
        Some(Seq::empty())
    } else {
        match spec_entries(ls.drop_last()) {
            None => None,
            Some(r) => match spec_parse_line(ls.last()) {
                Err(_) => None,
                Ok(None) => Some(r),
                Ok(Some(e)) => Some(r.push(e)),
            },
        }
    }
}

/// Once a prefix of the block fails, the whole block fails.
proof fn lemma_entries_none_extends(ls: Seq<Seq<char>>, i: int)
    requires
        0 <= i <= ls.len(),
        spec_entries(ls.subrange(0, i)) is None,
    ensures
        spec_entries(ls) is None,
    decreases ls.len() - i,
{
    if i == ls.len() {
        assert(ls.subrange(0, i) =~~= ls);
    } else {
        assert(ls.subrange(0, i + 1).drop_last() =~~= ls.subrange(0, i));
        lemma_entries_none_extends(ls, i + 1);
    }
}

/// Mirrors [`spec_entries`].
pub fn block_entries(ls: &[Vec<char>]) -> (r: Result<Vec<MetaEntry>, ()>)
    ensures
        match r {
            Ok(es) => spec_entries(ls.deep_view()) == Some(es.deep_view()),
            Err(()) => spec_entries(ls.deep_view()) is None,
        },
{
    let ghost lsv = ls.deep_view();
    let mut es: Vec<MetaEntry> = Vec::new();
    let mut i: usize = 0;
    let n = ls.len();
    while i < n
        invariant
            n == lsv.len(),
            lsv == ls.deep_view(),
            i <= n,
            spec_entries(lsv.subrange(0, i as int)) == Some(es.deep_view()),
        decreases n - i,
    {
        proof {
            assert(lsv.subrange(0, i as int + 1).drop_last() =~~= lsv.subrange(0, i as int));
            assert(lsv.subrange(0, i as int + 1).last() == lsv[i as int]);
            assert(ls[i as int]@ =~= lsv[i as int]);
        }
        let ghost before = es.deep_view();
        match parse_line(ls[i].as_slice()) {
            Err(()) => {
                proof {
                    lemma_entries_none_extends(lsv, i as int + 1);
                }
                return Err(());
            },
            Ok(None) => {},
            Ok(Some(e)) => {
                let ghost ev = e@;
                es.push(e);
                proof {
                    assert(es.deep_view() =~~= before.push(ev));
                }
            },
        }
        i = i + 1;
    }
    proof {
        assert(lsv.subrange(0, n as int) =~~= lsv);
    }
    Ok(es)
}

/// Why a metadata block was refused.
pub enum MetaErrV {
    Malformed,
    UnknownField(Seq<char>),
    DuplicateField(Seq<char>),
    WrongType(Seq<char>),
    MissingField(Seq<char>),
    InvalidTagName(Seq<char>, char),
}

/// Why a metadata block was refused: a syntax failure, a field problem, or a
/// tag whose name the tag alphabet refuses.
#[derive(Debug)]
pub enum DecodeMetaError {
    Malformed,
    UnknownField(String),
    DuplicateField(String),
    WrongType(String),
    MissingField(String),
    InvalidTagName(ParseTagNameError),
}

impl View for DecodeMetaError {
    type V = MetaErrV;

    open spec fn view(&self) -> MetaErrV {
        match self {
            DecodeMetaError::Malformed => MetaErrV::Malformed,
            DecodeMetaError::UnknownField(k) => MetaErrV::UnknownField(k@),
            DecodeMetaError::DuplicateField(k) => MetaErrV::DuplicateField(k@),
            DecodeMetaError::WrongType(k) => MetaErrV::WrongType(k@),
            DecodeMetaError::MissingField(k) => MetaErrV::MissingField(k@),
            DecodeMetaError::InvalidTagName(ParseTagNameError::InvalidChar(s, c)) => {
                MetaErrV::InvalidTagName(s@, *c)
            },
        }
    }
}

/// The first listed tag the tag alphabet refuses, with its first refused
/// character.
pub open spec fn spec_first_bad_tag(items: Seq<Seq<char>>) -> Option<(Seq<char>, char)>
    decreases items.len(),
{
    if items.len() == 0 {
        None
    } else if !group_chars_ok(items[0]) {
        Some((items[0], items[0][spec_scan_tag_ok(items[0], 0)]))
    } else {
        spec_first_bad_tag(items.drop_first())
    }
}

/// What `spec_scan_tag_ok` finds: everything before the result is allowed,
/// and the result, if inside the line, is refused.
pub proof fn lemma_scan_tag_ok_props(l: Seq<char>, i: int)
    requires
        0 <= i <= l.len(),
    ensures
        i <= spec_scan_tag_ok(l, i) <= l.len(),
        forall|j: int| i <= j < spec_scan_tag_ok(l, i) ==> group_char_ok(l[j]),
        spec_scan_tag_ok(l, i) < l.len() ==> !group_char_ok(l[spec_scan_tag_ok(l, i)]),
    decreases l.len() - i,
{
    if i < l.len() && group_char_ok(l[i]) {
        lemma_scan_tag_ok_props(l, i + 1);
    }
}

/// The decoded frontmatter of a post: the draft flag (default false) and the
/// tag list (default empty).
pub struct PostFmV {
    pub draft: bool,
    pub tags: Seq<Seq<char>>,
}

/// Folds the entries of a post block from position `i`, with the fields
/// already seen.
pub open spec fn spec_decode_post_from(
    es: Seq<EntryV>,
    i: int,
    draft: Option<bool>,
    tags: Option<Seq<Seq<char>>>,
) -> Result<PostFmV, MetaErrV>
    decreases es.len() - i
        when 0 <= i <= es.len()
{
    if i == es.len() {
        Ok(
            PostFmV {
                draft: match draft {
                    Some(b) => b,
                    None => false,
                },
                tags: match tags {
                    Some(t) => t,
                    None => Seq::empty(),
                },
            },
        )
    } else {
        let e = es[i];
        if e.key == seq!['d', 'r', 'a', 'f', 't'] {
            match e.value {
                ValueV::Bool(b) => {
                    if draft is Some {
                        Err(MetaErrV::DuplicateField(e.key))
                    } else {
                        spec_decode_post_from(es, i + 1, Some(b), tags)
                    }
                },
                _ => Err(MetaErrV::WrongType(e.key)),
            }
        } else if e.key == seq!['t', 'a', 'g', 's'] {
            match e.value {
                ValueV::List(items) => {
                    if tags is Some {
                        Err(MetaErrV::DuplicateField(e.key))
                    } else {
                        match spec_first_bad_tag(items) {
                            Some((item, c)) => Err(MetaErrV::InvalidTagName(item, c)),
                            None => spec_decode_post_from(es, i + 1, draft, Some(items)),
                        }
                    }
                },
                _ => Err(MetaErrV::WrongType(e.key)),
            }
        } else {
            Err(MetaErrV::UnknownField(e.key))
        }
    }
}

/// The decoded frontmatter of a post block.
pub open spec fn spec_decode_post(ls: Seq<Seq<char>>) -> Result<PostFmV, MetaErrV> {
    match spec_entries(ls) {
        None => Err(MetaErrV::Malformed),
        Some(es) => spec_decode_post_from(es, 0, None, None),
    }
}

/// The decoded metadata of a page: its title.
pub struct PageMetaV {
    pub title: Seq<char>,
}

/// Folds the entries of a page block from position `i`, with the fields
/// already seen.
pub open spec fn spec_decode_page_from(es: Seq<EntryV>, i: int, title: Option<Seq<char>>) -> Result<
    PageMetaV,
    MetaErrV,
>
    decreases es.len() - i
        when 0 <= i <= es.len()
{
    if i == es.len() {
        match title {
            Some(t) => Ok(PageMetaV { title: t }),
            None => Err(MetaErrV::MissingField(seq!['t', 'i', 't', 'l', 'e'])),
        }
    } else {
        let e = es[i];
        if e.key == seq!['t', 'i', 't', 'l', 'e'] {
            match e.value {
                ValueV::Str(s) => {
                    if title is Some {
                        Err(MetaErrV::DuplicateField(e.key))
                    } else {
                        spec_decode_page_from(es, i + 1, Some(s))
                    }
                },
                _ => Err(MetaErrV::WrongType(e.key)),
            }
        } else {
            Err(MetaErrV::UnknownField(e.key))
        }
    }
}

/// The decoded metadata of a page block.
pub open spec fn spec_decode_page(ls: Seq<Seq<char>>) -> Result<PageMetaV, MetaErrV> {
    match spec_entries(ls) {
        None => Err(MetaErrV::Malformed),
        Some(es) => spec_decode_page_from(es, 0, None),
    }
}

/// The frontmatter of a post: a draft flag and a list of tags, both
/// optional in the block.
#[derive(Debug)]
pub struct PostFrontmatter {
    pub draft: bool,
    pub tags: Vec<TagName>,
}

impl View for PostFrontmatter {
    type V = PostFmV;

    open spec fn view(&self) -> PostFmV {
        PostFmV { draft: self.draft, tags: self.tags.deep_view() }
    }
}

impl DeepView for PostFrontmatter {
    type V = PostFmV;

    open spec fn deep_view(&self) -> PostFmV {
        self.view()
    }
}

/// The metadata of an ordinary page: its title, which the block must give.
#[derive(Debug)]
pub struct PageMetadata {
    pub title: String,
}

impl View for PageMetadata {
    type V = PageMetaV;

    open spec fn view(&self) -> PageMetaV {
        PageMetaV { title: self.title@ }
    }
}

/// The two slices hold the same characters.
pub(crate) fn chars_eq(a: &[char], w: &[char]) -> (r: bool)
    ensures
        r == (a@ == w@),
{
    if a.len() != w.len() {
        return false;
    }
    let n = a.len();
    let mut k: usize = 0;
    while k < n
        invariant
            n == a@.len() == w@.len(),
            k <= n,
            forall|j: int| 0 <= j < k ==> a@[j] == w@[j],
        decreases n - k,
    {
        if a[k] != w[k] {
            return false;
        }
        k = k + 1;
    }
    proof {
        assert(a@ =~= w@);
    }
    true
}

/// Decodes a post's metadata block: the keys `draft` (a boolean) and `tags`
/// (a list of tag names) are known, both optional; anything else is refused.
/// Succeeds exactly when every line is well formed, no key repeats or is
/// unknown, the values have the right shapes and every listed tag keeps to
/// the tag alphabet; the first offence, in block order, is reported.
#[verifier::loop_isolation(false)]
pub fn decode_post_frontmatter(ls: &[Vec<char>]) -> (r: Result<PostFrontmatter, DecodeMetaError>)
    ensures
        match r {
            Ok(fm) => spec_decode_post(ls.deep_view()) == Ok::<PostFmV, MetaErrV>(fm@),
            Err(e) => spec_decode_post(ls.deep_view()) == Err::<PostFmV, MetaErrV>(e@),
        },
{
    let key_draft: [char; 5] = ['d', 'r', 'a', 'f', 't'];
    let key_tags: [char; 4] = ['t', 'a', 'g', 's'];
    proof {
        assert(key_draft@ =~= seq!['d', 'r', 'a', 'f', 't']);
        assert(key_tags@ =~= seq!['t', 'a', 'g', 's']);
    }
    let es = match block_entries(ls) {
        Err(()) => {
            return Err(DecodeMetaError::Malformed);
        },
        Ok(es) => es,
    };
    let ghost esv = es.deep_view();
    let mut draft: Option<bool> = None;
    let mut tags: Option<Vec<TagName>> = None;
    let n = es.len();
    let mut i: usize = 0;
    while i < n
        invariant
            n == esv.len(),
            esv == es.deep_view(),
            i <= n,
            spec_decode_post_from(esv, 0, None, None) == spec_decode_post_from(
                esv,
                i as int,
                draft,
                tags.deep_view(),
            ),
        decreases n - i,
    {
        let e = &es[i];
        proof {
            assert(e@ == esv[i as int]);
            assert(e.key@ == esv[i as int].key);
        }
        let ghost dv = draft;
        let ghost tv = tags.deep_view();
        if chars_eq(e.key.as_slice(), key_draft.as_slice()) {
            match &e.value {
                MetaValue::Bool(b) => {
                    if draft.is_some() {
                        proof {
                            assert(spec_decode_post_from(esv, i as int, dv, tv)
                                == Err::<PostFmV, MetaErrV>(MetaErrV::DuplicateField(e.key@)));
                        }
                        return Err(
                            DecodeMetaError::DuplicateField(chars_to_string(e.key.as_slice())),
                        );
                    }
                    draft = Some(*b);
                    proof {
                        assert(spec_decode_post_from(esv, i as int, dv, tv)
                            == spec_decode_post_from(esv, i as int + 1, draft, tags.deep_view()));
                    }
                },
                _ => {
                    proof {
                        assert(spec_decode_post_from(esv, i as int, dv, tv) == Err::<
                            PostFmV,
                            MetaErrV,
                        >(MetaErrV::WrongType(e.key@)));
                    }
                    return Err(DecodeMetaError::WrongType(chars_to_string(e.key.as_slice())));
                },
            }
        } else if chars_eq(e.key.as_slice(), key_tags.as_slice()) {
            match &e.value {
                MetaValue::List(items) => {
                    if tags.is_some() {
                        proof {
                            assert(spec_decode_post_from(esv, i as int, dv, tv)
                                == Err::<PostFmV, MetaErrV>(MetaErrV::DuplicateField(e.key@)));
                        }
                        return Err(
                            DecodeMetaError::DuplicateField(chars_to_string(e.key.as_slice())),
                        );
                    }
                    match collect_tags(items) {
                        Ok(list) => {
                            tags = Some(list);
                            proof {
                                assert(spec_decode_post_from(esv, i as int, dv, tv)
                                    == spec_decode_post_from(
                                    esv,
                                    i as int + 1,
                                    draft,
                                    tags.deep_view(),
                                ));
                            }
                        },
                        Err(bad) => {
                            proof {
                                let ghost badv = match bad {
                                    ParseTagNameError::InvalidChar(ref s, c) => (s@, c),
                                };
                                assert(spec_decode_post_from(esv, i as int, dv, tv) == Err::<
                                    PostFmV,
                                    MetaErrV,
                                >(MetaErrV::InvalidTagName(badv.0, badv.1)));
                            }
                            return Err(DecodeMetaError::InvalidTagName(bad));
                        },
                    }
                },
                _ => {
                    proof {
                        assert(spec_decode_post_from(esv, i as int, dv, tv) == Err::<
                            PostFmV,
                            MetaErrV,
                        >(MetaErrV::WrongType(e.key@)));
                    }
                    return Err(DecodeMetaError::WrongType(chars_to_string(e.key.as_slice())));
                },
            }
        } else {
            proof {
                assert(spec_decode_post_from(esv, i as int, dv, tv) == Err::<PostFmV, MetaErrV>(
                    MetaErrV::UnknownField(e.key@),
                ));
            }
            return Err(DecodeMetaError::UnknownField(chars_to_string(e.key.as_slice())));
        }
        i = i + 1;
    }
    let ghost had_tags = tags.deep_view();
    let fm = PostFrontmatter {
        draft: match draft {
            Some(b) => b,
            None => false,
        },
        tags: match tags {
            Some(t) => t,
            None => Vec::new(),
        },
    };
    proof {
        if had_tags is None {
            assert(fm.tags.deep_view() =~~= Seq::<Seq<char>>::empty());
        }
    }
    Ok(fm)
}

/// Validates the listed tags against the tag alphabet, in order.
fn collect_tags(items: &Vec<Vec<char>>) -> (r: Result<Vec<TagName>, ParseTagNameError>)
    ensures
        match r {
            Ok(list) => spec_first_bad_tag(items.deep_view()) is None && list.deep_view()
                == items.deep_view(),
            Err(ParseTagNameError::InvalidChar(s, c)) => spec_first_bad_tag(items.deep_view())
                == Some((s@, c)),
        },
{
    let ghost itemsv = items.deep_view();
    let mut list: Vec<TagName> = Vec::new();
    let n = items.len();
    proof {
        assert(itemsv.subrange(0, n as int) =~~= itemsv);
        assert(list.deep_view() =~~= itemsv.subrange(0, 0));
    }
    let mut i: usize = 0;
    while i < n
        invariant
            n == itemsv.len(),
            itemsv == items.deep_view(),
            i <= n,
            list.deep_view() =~~= itemsv.subrange(0, i as int),
            forall|j: int| 0 <= j < i ==> group_chars_ok(itemsv[j]),
            spec_first_bad_tag(itemsv) == spec_first_bad_tag(itemsv.subrange(i as int, n as int)),
        decreases n - i,
    {
        let item = &items[i];
        proof {
            assert(item@ == itemsv[i as int]);
            lemma_scan_tag_ok_props(item@, 0);
        }
        let bad = scan_tag_ok(item.as_slice(), 0);
        proof {
            assert(itemsv.subrange(i as int, n as int)[0] == itemsv[i as int]);
        }
        if bad < item.len() {
            proof {
                assert(!group_chars_ok(itemsv[i as int]));
            }
            return Err(ParseTagNameError::InvalidChar(chars_to_string(item.as_slice()), item[bad]));
        }
        proof {
            assert(group_chars_ok(itemsv[i as int]));
            assert(itemsv.subrange(i as int, n as int).drop_first() =~~= itemsv.subrange(
                i as int + 1,
                n as int,
            ));
        }
        let ghost before = list.deep_view();
        list.push(TagName(chars_to_string(item.as_slice())));
        proof {
            assert(list.deep_view() =~~= before.push(itemsv[i as int]));
        }
        i = i + 1;
    }
    proof {
        assert(itemsv.subrange(0, n as int) =~~= itemsv);
        assert(itemsv.subrange(n as int, n as int) =~~= Seq::<Seq<char>>::empty());
    }
    Ok(list)
}

/// Decodes a page's metadata block: the single known key `title` (a string)
/// is required; anything else is refused.  Succeeds exactly when every line
/// is well formed and the block gives the title once; the first offence, in
/// block order, is reported.
#[verifier::loop_isolation(false)]
pub fn decode_page_metadata(ls: &[Vec<char>]) -> (r: Result<PageMetadata, DecodeMetaError>)
    ensures
        match r {
            Ok(pm) => spec_decode_page(ls.deep_view()) == Ok::<PageMetaV, MetaErrV>(pm@),
            Err(e) => spec_decode_page(ls.deep_view()) == Err::<PageMetaV, MetaErrV>(e@),
        },
{
    let key_title: [char; 5] = ['t', 'i', 't', 'l', 'e'];
    proof {
        assert(key_title@ =~= seq!['t', 'i', 't', 'l', 'e']);
    }
    let es = match block_entries(ls) {
        Err(()) => {
            return Err(DecodeMetaError::Malformed);
        },
        Ok(es) => es,
    };
    let ghost esv = es.deep_view();
    let mut title: Option<String> = None;
    let n = es.len();
    let mut i: usize = 0;
    while i < n
        invariant
            n == esv.len(),
            esv == es.deep_view(),
            i <= n,
            spec_decode_page_from(esv, 0, None) == spec_decode_page_from(
                esv,
                i as int,
                title.deep_view(),
            ),
        decreases n - i,
    {
        let e = &es[i];
        proof {
            assert(e@ == esv[i as int]);
            assert(e.key@ == esv[i as int].key);
        }
        let ghost tv = title.deep_view();
        if chars_eq(e.key.as_slice(), key_title.as_slice()) {
            match &e.value {
                MetaValue::Str(s) => {
                    if title.is_some() {
                        proof {
                            assert(spec_decode_page_from(esv, i as int, tv) == Err::<
                                PageMetaV,
                                MetaErrV,
                            >(MetaErrV::DuplicateField(e.key@)));
                        }
                        return Err(
                            DecodeMetaError::DuplicateField(chars_to_string(e.key.as_slice())),
                        );
                    }
                    title = Some(chars_to_string(s.as_slice()));
                    proof {
                        assert(spec_decode_page_from(esv, i as int, tv) == spec_decode_page_from(
                            esv,
                            i as int + 1,
                            title.deep_view(),
                        ));
                    }
                },
                _ => {
                    proof {
                        assert(spec_decode_page_from(esv, i as int, tv) == Err::<
                            PageMetaV,
                            MetaErrV,
                        >(MetaErrV::WrongType(e.key@)));
                    }
                    return Err(DecodeMetaError::WrongType(chars_to_string(e.key.as_slice())));
                },
            }
        } else {
            proof {
                assert(spec_decode_page_from(esv, i as int, tv) == Err::<PageMetaV, MetaErrV>(
                    MetaErrV::UnknownField(e.key@),
                ));
            }
            return Err(DecodeMetaError::UnknownField(chars_to_string(e.key.as_slice())));
        }
        i = i + 1;
    }
    match title {
        Some(t) => Ok(PageMetadata { title: t }),
        None => Err(DecodeMetaError::MissingField(chars_to_string(key_title.as_slice()))),
    }
}

} // verus!
