//! The markdown renderer, an outside collaborator.
//!
//! Rendering is delegated to the comrak crate; the library only records that
//! the produced HTML is a function of the markdown text alone.

use vstd::prelude::*;

verus! {

/// The HTML that the markdown renderer produces for the given text.  The
/// renderer runs with fixed options, so the result depends on the text
/// alone.
pub uninterp spec fn html_of(md: Seq<char>) -> Seq<char>;

/// Relies on comrak::markdown_to_html with default options: the rendered
/// HTML depends on the markdown text alone.
#[verifier::external_body]
pub fn render_markdown(md: &str) -> (r: String)
    ensures
        r@ == html_of(md@),
{
    comrak::markdown_to_html(md, &comrak::Options::default())
}

/// A post's rendered content and date, ready for a template to wrap.
pub struct RenderPost<'p> {
    pub content: &'p str,
    pub date: &'p crate::dates::Date,
}

impl<'p> RenderPost<'p> {
    /// Pairs a post's rendered content with its date.
    pub fn new(content: &'p str, date: &'p crate::dates::Date) -> (r: Self)
        ensures
            r.content@ == content@,
            r.date == date,
    {
        RenderPost { content, date }
    }

    /// The rendered content.
    pub fn content(&self) -> (r: &str)
        ensures
            r@ == self.content@,
    {
        self.content
    }

    /// The post's date.
    pub fn date(&self) -> (r: &crate::dates::Date)
        ensures
            r == self.date,
    {
        self.date
    }
}

/// A static page's rendered content, ready for a template to wrap.
pub struct RenderStatic<'p> {
    pub content: &'p str,
}

impl<'p> RenderStatic<'p> {
    /// Wraps a page's rendered content.
    pub fn new(content: &'p str) -> (r: Self)
        ensures
            r.content@ == content@,
    {
        RenderStatic { content }
    }

    /// The rendered content.
    pub fn content(&self) -> (r: &str)
        ensures
            r@ == self.content@,
    {
        self.content
    }
}

} // verus!
