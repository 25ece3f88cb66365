use saffi_wtf::frontmatter::{split_page_document, split_post_segments, FrontmatterError};
use saffi_wtf::text::{split_lines, to_chars};

fn lines(text: &str) -> Vec<Vec<char>> {
    let chars = to_chars(text);
    split_lines(chars.as_slice())
}

fn text_of(chars: &[char]) -> String {
    chars.iter().collect()
}

#[test]
fn single_segment_document() {
    let segs = split_post_segments(lines("---\ndraft = false\n---\nhello\nworld").as_slice())
        .unwrap();
    assert_eq!(segs.len(), 1);
    assert_eq!(segs[0].meta.len(), 1);
    assert_eq!(text_of(segs[0].meta[0].as_slice()), "draft = false");
    assert_eq!(text_of(segs[0].body.as_slice()), "hello\nworld");
}

#[test]
fn two_segment_document() {
    let doc = "---\ntags = [\"foo\"]\n---\none\n---\ndraft = true\n---\ntwo";
    let segs = split_post_segments(lines(doc).as_slice()).unwrap();
    assert_eq!(segs.len(), 2);
    assert_eq!(text_of(segs[0].body.as_slice()), "one");
    assert_eq!(text_of(segs[1].body.as_slice()), "two");
    assert_eq!(text_of(segs[0].meta[0].as_slice()), "tags = [\"foo\"]");
    assert_eq!(text_of(segs[1].meta[0].as_slice()), "draft = true");
}

#[test]
fn post_document_must_open_with_delimiter() {
    let e = split_post_segments(lines("hello").as_slice()).unwrap_err();
    assert_eq!(e, FrontmatterError::MissingFrontmatter);
}

#[test]
fn post_document_block_must_close() {
    let e = split_post_segments(lines("---\ndraft = true\nno close").as_slice()).unwrap_err();
    assert_eq!(e, FrontmatterError::MalformedFrontmatter);
}

#[test]
fn page_document_without_frontmatter() {
    let (meta, body) = split_page_document(lines("just\ntext").as_slice()).unwrap();
    assert!(meta.is_none());
    assert_eq!(text_of(body.as_slice()), "just\ntext");
}

#[test]
fn page_document_with_frontmatter() {
    let (meta, body) =
        split_page_document(lines("---\ntitle = \"Hi\"\n---\nbody").as_slice()).unwrap();
    let meta = meta.unwrap();
    assert_eq!(meta.len(), 1);
    assert_eq!(text_of(meta[0].as_slice()), "title = \"Hi\"");
    assert_eq!(text_of(body.as_slice()), "body");
}

#[test]
fn page_document_block_must_close() {
    let e = split_page_document(lines("---\ntitle = \"Hi\"").as_slice()).unwrap_err();
    assert_eq!(e, FrontmatterError::MalformedFrontmatter);
}

#[test]
fn page_document_keeps_later_delimiters_in_body() {
    let (meta, body) =
        split_page_document(lines("---\ntitle = \"Hi\"\n---\na\n---\nb").as_slice()).unwrap();
    assert!(meta.is_some());
    assert_eq!(text_of(body.as_slice()), "a\n---\nb");
}
