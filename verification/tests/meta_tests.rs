use saffi_wtf::meta::{decode_page_metadata, decode_post_frontmatter, DecodeMetaError};
use saffi_wtf::text::{split_lines, to_chars};
use saffi_wtf::ParseTagNameError;

fn lines(text: &str) -> Vec<Vec<char>> {
    let chars = to_chars(text);
    split_lines(chars.as_slice())
}

#[test]
fn post_block_decodes_draft_and_tags() {
    let ls = lines("draft = true\ntags = [\"foo\", \"bar\"]");
    let fm = decode_post_frontmatter(ls.as_slice()).unwrap();
    assert!(fm.draft);
    assert_eq!(fm.tags.len(), 2);
    assert_eq!(fm.tags[0].as_str(), "foo");
    assert_eq!(fm.tags[1].as_str(), "bar");
}

#[test]
fn post_block_defaults() {
    let fm = decode_post_frontmatter(lines("").as_slice()).unwrap();
    assert!(!fm.draft);
    assert!(fm.tags.is_empty());
}

#[test]
fn post_block_allows_blank_lines_and_comments() {
    let fm = decode_post_frontmatter(
        lines("\n# a comment\n  \ndraft = false\n").as_slice(),
    )
    .unwrap();
    assert!(!fm.draft);
}

#[test]
fn post_block_empty_tag_list() {
    let fm = decode_post_frontmatter(lines("tags = []").as_slice()).unwrap();
    assert!(fm.tags.is_empty());
}

#[test]
fn post_block_rejects_unknown_field() {
    let e = decode_post_frontmatter(lines("title = \"x\"").as_slice()).unwrap_err();
    assert!(matches!(e, DecodeMetaError::UnknownField(k) if k == "title"));
}

#[test]
fn post_block_rejects_wrong_type() {
    let e = decode_post_frontmatter(lines("draft = \"yes\"").as_slice()).unwrap_err();
    assert!(matches!(e, DecodeMetaError::WrongType(k) if k == "draft"));
}

#[test]
fn post_block_rejects_duplicate_field() {
    let e = decode_post_frontmatter(lines("draft = true\ndraft = false").as_slice()).unwrap_err();
    assert!(matches!(e, DecodeMetaError::DuplicateField(k) if k == "draft"));
}

#[test]
fn post_block_rejects_bad_syntax() {
    let e = decode_post_frontmatter(lines("draft").as_slice()).unwrap_err();
    assert!(matches!(e, DecodeMetaError::Malformed));
}

#[test]
fn post_block_rejects_invalid_tag() {
    let e = decode_post_frontmatter(lines("tags = [\"ok\", \"Bad\"]").as_slice()).unwrap_err();
    match e {
        DecodeMetaError::InvalidTagName(ParseTagNameError::InvalidChar(raw, c)) => {
            assert_eq!(raw, "Bad");
            assert_eq!(c, 'B');
        },
        other => panic!("unexpected error: {:?}", discriminant_name(&other)),
    }
}

fn discriminant_name(e: &DecodeMetaError) -> &'static str {
    match e {
        DecodeMetaError::Malformed => "Malformed",
        DecodeMetaError::UnknownField(_) => "UnknownField",
        DecodeMetaError::DuplicateField(_) => "DuplicateField",
        DecodeMetaError::WrongType(_) => "WrongType",
        DecodeMetaError::MissingField(_) => "MissingField",
        DecodeMetaError::InvalidTagName(_) => "InvalidTagName",
    }
}

#[test]
fn page_block_decodes_title() {
    let pm = decode_page_metadata(lines("title = \"Hello, World\"").as_slice()).unwrap();
    assert_eq!(pm.title, "Hello, World");
}

#[test]
fn page_block_requires_title() {
    let e = decode_page_metadata(lines("").as_slice()).unwrap_err();
    assert!(matches!(e, DecodeMetaError::MissingField(k) if k == "title"));
}

#[test]
fn page_block_rejects_unknown_field() {
    let e = decode_page_metadata(lines("draft = true").as_slice()).unwrap_err();
    assert!(matches!(e, DecodeMetaError::UnknownField(k) if k == "draft"));
}

#[test]
fn page_block_rejects_wrong_type() {
    let e = decode_page_metadata(lines("title = true").as_slice()).unwrap_err();
    assert!(matches!(e, DecodeMetaError::WrongType(k) if k == "title"));
}
