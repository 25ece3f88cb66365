//! Validated identifiers for groups, tags and pages.
//!
//! Named groups and tags draw their characters from lowercase ASCII letters
//! and dashes; page names additionally allow digits.  Parsing either succeeds
//! with the raw string preserved, or fails naming the first character that
//! the alphabet refuses.

use vstd::prelude::*;

use crate::maps::KeyEq;

verus! {

/// A character allowed in named groups and in tags.
pub open spec fn group_char_ok(c: char) -> bool {
    ('a' <= c && c <= 'z') || c == '-'
}

/// A character allowed in page names.
pub open spec fn page_char_ok(c: char) -> bool {
    ('a' <= c && c <= 'z') || ('0' <= c && c <= '9') || c == '-'
}

/// Every character of `s` is allowed in group and tag names.
pub open spec fn group_chars_ok(s: Seq<char>) -> bool {
    forall|i: int| 0 <= i < s.len() ==> group_char_ok(s[i])
}

/// Every character of `s` is allowed in page names.
pub open spec fn page_chars_ok(s: Seq<char>) -> bool {
    forall|i: int| 0 <= i < s.len() ==> page_char_ok(s[i])
}

/// Scans `s` for the first character the alphabet refuses.  With
/// `allow_digits` the page-name alphabet is used, otherwise the group and tag
/// one.
fn first_invalid_char(s: &str, allow_digits: bool) -> (r: Option<(usize, char)>)
    ensures
        r is None ==> (if allow_digits {
            page_chars_ok(s@)
        } else {
            group_chars_ok(s@)
        }),
        r matches Some((i, c)) ==> {
            &&& i < s@.len()
            &&& c == s@[i as int]
            &&& !(if allow_digits {
                page_char_ok(c)
            } else {
                group_char_ok(c)
            })
            &&& forall|j: int|
                0 <= j < i ==> (if allow_digits {
                    page_char_ok(s@[j])
                } else {
                    group_char_ok(s@[j])
                })
        },
{
    let n = s.unicode_len();
    let mut i: usize = 0;
    while i < n
        invariant
            n == s@.len(),
            i <= n,
            forall|j: int|
                0 <= j < i ==> (if allow_digits {
                    page_char_ok(s@[j])
                } else {
                    group_char_ok(s@[j])
                }),
        decreases n - i,
    {
        let c = s.get_char(i);
        let ok = if allow_digits {
            ('a' <= c && c <= 'z') || ('0' <= c && c <= '9') || c == '-'
        } else {
            ('a' <= c && c <= 'z') || c == '-'
        };
        if !ok {
            return Some((i, c));
        }
        i = i + 1;
    }
    None
}

/// The name of a group, either parsed from a raw string or the root group
/// (which has no name).
///
/// Named groups' names can contain only lowercase ASCII letters and dashes.
#[derive(Debug)]
pub enum GroupName {
    Root,
    Named(String),
}

/// The mathematical value of a [`GroupName`].
pub enum GroupNameV {
    Root,
    Named(Seq<char>),
}

impl View for GroupName {
    type V = GroupNameV;

    open spec fn view(&self) -> GroupNameV {
        match self {
            GroupName::Root => GroupNameV::Root,
            GroupName::Named(s) => GroupNameV::Named(s@),
        }
    }
}

/// Why a raw string was refused as a group name.
#[derive(Debug)]
pub enum ParseGroupNameError {
    InvalidChar(String, char),
}

impl GroupName {
    /// Parses a raw string as a named group.  Succeeds exactly when every
    /// character is a lowercase ASCII letter or a dash; otherwise the first
    /// refused character is reported together with the raw string.
    pub fn try_from(raw: String) -> (r: Result<GroupName, ParseGroupNameError>)
        ensures
            match r {
                Ok(g) => g@ == GroupNameV::Named(raw@) && group_chars_ok(raw@),
                Err(ParseGroupNameError::InvalidChar(s, c)) => {
                    &&& s@ == raw@
                    &&& exists|i: int|
                        0 <= i < raw@.len() && c == raw@[i] && !group_char_ok(c) && (forall|j: int|
                            0 <= j < i ==> group_char_ok(raw@[j]))
                },
            },
    {
        match first_invalid_char(raw.as_str(), false) {
            None => Ok(GroupName::Named(raw)),
            Some((_, c)) => Err(ParseGroupNameError::InvalidChar(raw, c)),
        }
    }

    /// The underlying string of a named group; the root group has none.
    pub fn as_str(&self) -> (r: Option<&String>)
        ensures
            match r {
                Some(s) => self@ == GroupNameV::Named(s@),
                None => self@ == GroupNameV::Root,
            },
    {
        match self {
            GroupName::Root => None,
            GroupName::Named(s) => Some(s),
        }
    }
}

/// The name of a tag; contains only lowercase ASCII letters and dashes.
#[derive(Debug)]
pub struct TagName(pub String);

impl View for TagName {
    type V = Seq<char>;

    open spec fn view(&self) -> Seq<char> {
        self.0@
    }
}

impl DeepView for TagName {
    type V = Seq<char>;

    open spec fn deep_view(&self) -> Seq<char> {
        self.view()
    }
}

/// Why a raw string was refused as a tag name.
#[derive(Debug)]
pub enum ParseTagNameError {
    InvalidChar(String, char),
}

impl TagName {
    /// Parses a raw string as a tag name.  Succeeds exactly when every
    /// character is a lowercase ASCII letter or a dash; otherwise the first
    /// refused character is reported together with the raw string.
    pub fn try_from(raw: String) -> (r: Result<TagName, ParseTagNameError>)
        ensures
            match r {
                Ok(t) => t@ == raw@ && group_chars_ok(raw@),
                Err(ParseTagNameError::InvalidChar(s, c)) => {
                    &&& s@ == raw@
                    &&& exists|i: int|
                        0 <= i < raw@.len() && c == raw@[i] && !group_char_ok(c) && (forall|j: int|
                            0 <= j < i ==> group_char_ok(raw@[j]))
                },
            },
    {
        match first_invalid_char(raw.as_str(), false) {
            None => Ok(TagName(raw)),
            Some((_, c)) => Err(ParseTagNameError::InvalidChar(raw, c)),
        }
    }

    /// The underlying string of the tag.
    pub fn as_str(&self) -> (r: &String)
        ensures
            r@ == self@,
    {
        &self.0
    }
}

/// The name of a page, either parsed from a raw string or an index page,
/// which has no name beyond a freshly generated identifier.
///
/// Parsed page names contain only lowercase ASCII letters, digits and dashes.
#[derive(Debug)]
pub enum PageName {
    Index(u128),
    Named(String),
}

/// The mathematical value of a [`PageName`].
pub enum PageNameV {
    Index(u128),
    Named(Seq<char>),
}

impl View for PageName {
    type V = PageNameV;

    open spec fn view(&self) -> PageNameV {
        match self {
            PageName::Index(id) => PageNameV::Index(*id),
            PageName::Named(s) => PageNameV::Named(s@),
        }
    }
}

impl DeepView for PageName {
    type V = PageNameV;

    open spec fn deep_view(&self) -> PageNameV {
        self.view()
    }
}

/// Why a raw string was refused as a page name.
#[derive(Debug)]
pub enum ParsePageNameError {
    InvalidChar(String, char),
}

/// Relies on uuid::Uuid::new_v4 and Uuid::as_u128: a freshly generated
/// random identifier, returned as its 128-bit value.  Nothing is assumed of
/// the value.
#[verifier::external_body]
pub(crate) fn fresh_index_id() -> u128 {
    uuid::Uuid::new_v4().as_u128()
}

impl PageName {
    /// A freshly generated index-page name, independent of any filename.
    pub fn new_index() -> (r: PageName)
        ensures
            r@ is Index,
    {
        PageName::Index(fresh_index_id())
    }

    /// Parses a raw string as a page name.  Succeeds exactly when every
    /// character is a lowercase ASCII letter, a digit or a dash; otherwise
    /// the first refused character is reported together with the raw string.
    pub fn try_from(raw: String) -> (r: Result<PageName, ParsePageNameError>)
        ensures
            match r {
                Ok(p) => p@ == PageNameV::Named(raw@) && page_chars_ok(raw@),
                Err(ParsePageNameError::InvalidChar(s, c)) => {
                    &&& s@ == raw@
                    &&& exists|i: int|
                        0 <= i < raw@.len() && c == raw@[i] && !page_char_ok(c) && (forall|j: int|
                            0 <= j < i ==> page_char_ok(raw@[j]))
                },
            },
    {
        match first_invalid_char(raw.as_str(), true) {
            None => Ok(PageName::Named(raw)),
            Some((_, c)) => Err(ParsePageNameError::InvalidChar(raw, c)),
        }
    }

    /// The underlying string of a named page; an index page has none.
    pub fn as_str(&self) -> (r: Option<&String>)
        ensures
            match r {
                Some(s) => self@ == PageNameV::Named(s@),
                None => self@ is Index,
            },
    {
        match self {
            PageName::Index(_) => None,
            PageName::Named(s) => Some(s),
        }
    }
}

impl PartialEq for GroupName {
    fn eq(&self, other: &Self) -> (r: bool) {
        match (self, other) {
            (GroupName::Root, GroupName::Root) => true,
            (GroupName::Named(a), GroupName::Named(b)) => *a == *b,
            _ => false,
        }
    }
}

impl vstd::std_specs::cmp::PartialEqSpecImpl for GroupName {
    open spec fn obeys_eq_spec() -> bool {
        true
    }

    open spec fn eq_spec(&self, other: &Self) -> bool {
        self@ == other@
    }
}

impl PartialEq for TagName {
    fn eq(&self, other: &Self) -> (r: bool) {
        self.0 == other.0
    }
}

impl vstd::std_specs::cmp::PartialEqSpecImpl for TagName {
    open spec fn obeys_eq_spec() -> bool {
        true
    }

    open spec fn eq_spec(&self, other: &Self) -> bool {
        self@ == other@
    }
}

impl PartialEq for PageName {
    fn eq(&self, other: &Self) -> (r: bool) {
        match (self, other) {
            (PageName::Index(a), PageName::Index(b)) => a == b,
            (PageName::Named(a), PageName::Named(b)) => *a == *b,
            _ => false,
        }
    }
}

impl vstd::std_specs::cmp::PartialEqSpecImpl for PageName {
    open spec fn obeys_eq_spec() -> bool {
        true
    }

    open spec fn eq_spec(&self, other: &Self) -> bool {
        self@ == other@
    }
}

impl KeyEq for GroupName {
    fn key_eq(&self, other: &Self) -> (r: bool) {
        *self == *other
    }
}

impl KeyEq for TagName {
    fn key_eq(&self, other: &Self) -> (r: bool) {
        *self == *other
    }
}

impl KeyEq for PageName {
    fn key_eq(&self, other: &Self) -> (r: bool) {
        *self == *other
    }
}

impl Clone for GroupName {
    /// The clone denotes the same group.
    fn clone(&self) -> (r: Self)
        ensures
            r@ == self@,
    {
        match self {
            GroupName::Root => GroupName::Root,
            GroupName::Named(s) => GroupName::Named(s.clone()),
        }
    }
}

impl Clone for TagName {
    /// The clone denotes the same tag.
    fn clone(&self) -> (r: Self)
        ensures
            r@ == self@,
    {
        TagName(self.0.clone())
    }
}

impl Clone for PageName {
    /// The clone denotes the same page.
    fn clone(&self) -> (r: Self)
        ensures
            r@ == self@,
    {
        match self {
            PageName::Index(id) => PageName::Index(*id),
            PageName::Named(s) => PageName::Named(s.clone()),
        }
    }
}

} // verus!
