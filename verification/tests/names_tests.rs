use saffi_wtf::{GroupName, PageName, ParseGroupNameError, ParsePageNameError, ParseTagNameError, TagName};

#[test]
fn group_name_round_trips() {
    let g = GroupName::try_from("abc-def".to_string()).unwrap();
    assert_eq!(g.as_str().unwrap(), "abc-def");
}

#[test]
fn group_name_empty_is_valid() {
    let g = GroupName::try_from(String::new()).unwrap();
    assert_eq!(g.as_str().unwrap(), "");
}

#[test]
fn group_name_reports_first_invalid_char() {
    let ParseGroupNameError::InvalidChar(raw, c) =
        GroupName::try_from("abC-dE".to_string()).unwrap_err();
    assert_eq!(raw, "abC-dE");
    assert_eq!(c, 'C');
}

#[test]
fn group_name_rejects_digits() {
    let ParseGroupNameError::InvalidChar(_, c) =
        GroupName::try_from("blog2".to_string()).unwrap_err();
    assert_eq!(c, '2');
}

#[test]
fn tag_name_round_trips() {
    let t = TagName::try_from("rust-things".to_string()).unwrap();
    assert_eq!(t.as_str(), "rust-things");
}

#[test]
fn tag_name_reports_first_invalid_char() {
    let ParseTagNameError::InvalidChar(raw, c) =
        TagName::try_from("a_b".to_string()).unwrap_err();
    assert_eq!(raw, "a_b");
    assert_eq!(c, '_');
}

#[test]
fn page_name_allows_digits() {
    let p = PageName::try_from("2024-01-15-hello".to_string()).unwrap();
    assert_eq!(p.as_str().unwrap(), "2024-01-15-hello");
}

#[test]
fn page_name_reports_first_invalid_char() {
    let ParsePageNameError::InvalidChar(raw, c) =
        PageName::try_from("hello_world".to_string()).unwrap_err();
    assert_eq!(raw, "hello_world");
    assert_eq!(c, '_');
}

#[test]
fn page_name_rejects_uppercase() {
    let ParsePageNameError::InvalidChar(_, c) =
        PageName::try_from("Hello".to_string()).unwrap_err();
    assert_eq!(c, 'H');
}

#[test]
fn index_page_name_has_no_string() {
    let p = PageName::new_index();
    assert!(p.as_str().is_none());
}

#[test]
fn names_compare_by_contents() {
    let a = PageName::try_from("hello".to_string()).unwrap();
    let b = PageName::try_from("hello".to_string()).unwrap();
    let c = PageName::try_from("world".to_string()).unwrap();
    assert!(a == b);
    assert!(a != c);
    assert!(GroupName::Root == GroupName::Root);
    assert!(GroupName::Root != GroupName::try_from("a".to_string()).unwrap());
}
