use saffi_wtf::{
    Content, EntryKind, GroupName, LoadContentError, LoadOutcome, Node, PageName, Post, TagName,
};

fn store() -> Content {
    Content::new("/content".to_string())
}

fn load_file(store: &Content, path: &str, text: &str, drafts: bool) -> Result<LoadOutcome, LoadContentError> {
    store.load(path, EntryKind::File, Ok(text.to_string()), drafts)
}

fn page_name(s: &str) -> PageName {
    PageName::try_from(s.to_string()).unwrap()
}

fn tag_name(s: &str) -> TagName {
    TagName::try_from(s.to_string()).unwrap()
}

#[test]
fn single_post_is_indexed_and_tagged() {
    let store = store();
    let outcome = load_file(
        &store,
        "/content/2024-01-15-hello.md",
        "---\ndraft = false\ntags = [\"foo\"]\n---\nhello *world*",
        false,
    )
    .unwrap();
    assert_eq!(outcome, LoadOutcome::Loaded);
    assert_eq!(store.node_count(), 1);

    let name = page_name("2024-01-15-hello");
    let node = store.post(&GroupName::Root, &name).unwrap();
    match node {
        Node::Post(Post::Single { draft, tags, date, html_content }) => {
            assert!(!draft);
            assert_eq!(tags.len(), 1);
            assert_eq!(tags[0].as_str(), "foo");
            assert_eq!(date, saffi_wtf::Date { year: 2024, month: 1, day: 15 });
            assert!(html_content.contains("hello"));
            assert!(html_content.contains("<em>world</em>"));
        },
        _ => panic!("expected a single post"),
    }

    let tag = store.tag(&tag_name("foo")).unwrap();
    assert_eq!(tag.members.len(), 1);
    assert!(tag.members[0] == name);
}

#[test]
fn two_segments_make_a_thread_with_first_block_tags() {
    let store = store();
    let doc = "---\ntags = [\"foo\"]\n---\none\n---\ndraft = false\ntags = [\"bar\"]\n---\ntwo";
    let outcome = load_file(&store, "/content/2024-02-02-thread.md", doc, false).unwrap();
    assert_eq!(outcome, LoadOutcome::Loaded);

    let name = page_name("2024-02-02-thread");
    let node = store.post(&GroupName::Root, &name).unwrap();
    match node {
        Node::Post(Post::Thread { tags, entries }) => {
            assert_eq!(entries.len(), 2);
            assert!(entries[0].html_content.contains("one"));
            assert!(entries[1].html_content.contains("two"));
            assert_eq!(tags.len(), 1);
            assert_eq!(tags[0].as_str(), "foo");
        },
        _ => panic!("expected a thread"),
    }

    // The hoisted tags alone gain the key: the second block's tag only
    // appears through decoding, never through membership.
    let bar = store.tag(&tag_name("bar"));
    assert!(bar.is_none());
}

#[test]
fn date_stem_is_a_post_even_with_page_metadata() {
    let store = store();
    let err = load_file(
        &store,
        "/content/2024-03-03-x.md",
        "---\ntitle = \"A page?\"\n---\nbody",
        false,
    )
    .unwrap_err();
    assert!(matches!(
        err,
        LoadContentError::DecodeFrontmatter(_, saffi_wtf::DecodeMetaError::UnknownField(k)) if k == "title"
    ));
    assert!(store.page(&GroupName::Root, &page_name("2024-03-03-x")).is_none());
    assert_eq!(store.node_count(), 0);
}

#[test]
fn draft_excluded_until_drafts_are_included() {
    let store = store();
    let doc = "---\ndraft = true\ntags = [\"foo\"]\n---\nsecret";
    let outcome = load_file(&store, "/content/2024-04-04-draft.md", doc, false).unwrap();
    assert_eq!(outcome, LoadOutcome::SkippedDraft);

    let name = page_name("2024-04-04-draft");
    assert!(store.post(&GroupName::Root, &name).is_none());
    assert!(store.page(&GroupName::Root, &name).is_none());
    assert!(store.tag(&tag_name("foo")).is_none());
    assert_eq!(store.node_count(), 0);

    let outcome = load_file(&store, "/content/2024-04-04-draft.md", doc, true).unwrap();
    assert_eq!(outcome, LoadOutcome::Loaded);
    assert!(store.post(&GroupName::Root, &name).is_some());
    assert!(store.tag(&tag_name("foo")).is_some());
}

#[test]
fn thread_of_only_drafts_is_excluded() {
    let store = store();
    let doc = "---\ndraft = true\n---\none\n---\ndraft = true\n---\ntwo";
    let outcome = load_file(&store, "/content/2024-05-05-t.md", doc, false).unwrap();
    assert_eq!(outcome, LoadOutcome::SkippedDraft);
    assert_eq!(store.node_count(), 0);
}

#[test]
fn thread_keeps_only_visible_entries_without_drafts() {
    let store = store();
    let doc = "---\ndraft = true\n---\nhidden\n---\ndraft = false\n---\nshown";
    load_file(&store, "/content/2024-05-06-t.md", doc, false).unwrap();
    let node = store.post(&GroupName::Root, &page_name("2024-05-06-t")).unwrap();
    match node {
        Node::Post(Post::Thread { entries, .. }) => {
            assert_eq!(entries.len(), 1);
            assert!(entries[0].html_content.contains("shown"));
        },
        _ => panic!("expected a thread"),
    }
}

#[test]
fn reloading_a_path_keeps_one_entry() {
    let store = store();
    load_file(&store, "/content/2024-06-06-a.md", "---\n---\nfirst", false).unwrap();
    assert_eq!(store.node_count(), 1);
    load_file(&store, "/content/2024-06-06-a.md", "---\n---\nsecond", false).unwrap();
    assert_eq!(store.node_count(), 1);
    let node = store.post(&GroupName::Root, &page_name("2024-06-06-a")).unwrap();
    match node {
        Node::Post(Post::Single { html_content, .. }) => {
            assert!(html_content.contains("second"));
            assert!(!html_content.contains("first"));
        },
        _ => panic!("expected a single post"),
    }
}

#[test]
fn pages_live_in_groups() {
    let store = store();
    let outcome = store
        .load("/content/notes", EntryKind::Directory, Ok(String::new()), false)
        .unwrap();
    assert_eq!(outcome, LoadOutcome::Registered);

    load_file(&store, "/content/notes/about.md", "---\ntitle = \"About\"\n---\nwho?", false)
        .unwrap();
    let group = GroupName::try_from("notes".to_string()).unwrap();
    let node = store.page(&group, &page_name("about")).unwrap();
    match node {
        Node::Page(p) => {
            assert_eq!(p.title.as_deref(), Some("About"));
            assert!(p.html_content.contains("who?"));
        },
        _ => panic!("expected a page"),
    }
    assert!(store.post(&group, &page_name("about")).is_none());
    let gr = store.group(&group).unwrap();
    assert_eq!(gr.members.len(), 1);
}

#[test]
fn page_without_frontmatter_has_no_title() {
    let store = store();
    load_file(&store, "/content/plain.md", "just text", false).unwrap();
    let node = store.page(&GroupName::Root, &page_name("plain")).unwrap();
    match node {
        Node::Page(p) => {
            assert!(p.title.is_none());
            assert!(p.html_content.contains("just text"));
        },
        _ => panic!("expected a page"),
    }
}

#[test]
fn index_stem_designates_the_group_index() {
    let store = store();
    load_file(&store, "/content/_index.md", "---\ntitle = \"Home\"\n---\nwelcome", false)
        .unwrap();
    let node = store.index(&GroupName::Root).unwrap();
    match node {
        Node::Page(p) => {
            assert_eq!(p.title.as_deref(), Some("Home"));
            assert!(p.html_content.contains("welcome"));
        },
        _ => panic!("expected a page"),
    }
}

#[test]
fn nested_entries_are_skipped() {
    let store = store();
    let outcome = load_file(&store, "/content/a/b/c.md", "---\n---\nx", false).unwrap();
    assert_eq!(outcome, LoadOutcome::SkippedNested);
    let outcome = store
        .load("/content/a/b", EntryKind::Directory, Ok(String::new()), false)
        .unwrap();
    assert_eq!(outcome, LoadOutcome::SkippedNested);
    assert_eq!(store.node_count(), 0);
}

#[test]
fn non_markdown_files_are_skipped() {
    let store = store();
    let outcome = load_file(&store, "/content/style.css", "body {}", false).unwrap();
    assert_eq!(outcome, LoadOutcome::SkippedOther);
}

#[test]
fn missing_extension_is_an_error() {
    let store = store();
    let err = load_file(&store, "/content/noext", "x", false).unwrap_err();
    assert!(matches!(err, LoadContentError::NoFileExt(p) if p == "/content/noext"));
}

#[test]
fn foreign_paths_are_rejected() {
    let store = store();
    let err = load_file(&store, "/elsewhere/x.md", "x", false).unwrap_err();
    assert!(matches!(err, LoadContentError::NotRelativeToRoot(p) if p == "/elsewhere/x.md"));
}

#[test]
fn invalid_group_directory_name_is_reported() {
    let store = store();
    let err = load_file(&store, "/content/Blog/x.md", "---\n---\nx", false).unwrap_err();
    match err {
        LoadContentError::InvalidGroupName(saffi_wtf::ParseGroupNameError::InvalidChar(raw, c)) => {
            assert_eq!(raw, "Blog");
            assert_eq!(c, 'B');
        },
        _ => panic!("expected an invalid group name"),
    }
}

#[test]
fn invalid_page_stem_is_reported() {
    let store = store();
    let err = load_file(&store, "/content/hello_world.md", "x", false).unwrap_err();
    match err {
        LoadContentError::InvalidPageName(saffi_wtf::ParsePageNameError::InvalidChar(raw, c)) => {
            assert_eq!(raw, "hello_world");
            assert_eq!(c, '_');
        },
        _ => panic!("expected an invalid page name"),
    }
}

#[test]
fn post_without_frontmatter_is_an_error() {
    let store = store();
    let err = load_file(&store, "/content/2024-07-07-x.md", "no frontmatter", false).unwrap_err();
    assert!(matches!(err, LoadContentError::MissingFrontmatter(_)));
}

#[test]
fn unclosed_frontmatter_is_an_error() {
    let store = store();
    let err = load_file(&store, "/content/2024-07-08-x.md", "---\ndraft = true", false)
        .unwrap_err();
    assert!(matches!(err, LoadContentError::MalformedFrontmatter(_)));
}

#[test]
fn read_failures_are_reported() {
    let store = store();
    let err = store
        .load(
            "/content/2024-07-09-x.md",
            EntryKind::File,
            Err("permission denied".to_string()),
            false,
        )
        .unwrap_err();
    assert!(matches!(
        err,
        LoadContentError::ReadPageContent(p, m) if p == "/content/2024-07-09-x.md" && m == "permission denied"
    ));
}

#[test]
fn duplicated_handles_share_state() {
    let a = store();
    let b = a.duplicate();
    load_file(&a, "/content/2024-08-08-x.md", "---\n---\nshared", false).unwrap();
    assert_eq!(b.node_count(), 1);
    assert!(b.post(&GroupName::Root, &page_name("2024-08-08-x")).is_some());
    let c = b.clone();
    assert_eq!(c.node_count(), 1);
}

#[test]
fn queries_between_loads_see_whole_states() {
    let store = store();
    let name = page_name("2024-09-09-x");
    assert!(store.post(&GroupName::Root, &name).is_none());
    load_file(&store, "/content/2024-09-09-x.md", "---\ntags = [\"t\"]\n---\nv1", false).unwrap();
    let before = store.post(&GroupName::Root, &name).unwrap();
    load_file(&store, "/content/2024-09-09-x.md", "---\ntags = [\"t\"]\n---\nv2", false).unwrap();
    let after = store.post(&GroupName::Root, &name).unwrap();
    match (before, after) {
        (
            Node::Post(Post::Single { html_content: h1, .. }),
            Node::Post(Post::Single { html_content: h2, .. }),
        ) => {
            assert!(h1.contains("v1"));
            assert!(h2.contains("v2"));
        },
        _ => panic!("expected single posts"),
    }
}

#[test]
fn markdown_extension_is_accepted_too() {
    let store = store();
    let outcome =
        load_file(&store, "/content/2024-10-10-alt.markdown", "---\n---\nalt", false).unwrap();
    assert_eq!(outcome, LoadOutcome::Loaded);
    assert!(store.post(&GroupName::Root, &page_name("2024-10-10-alt")).is_some());
}

#[test]
fn bare_date_stem_is_a_post() {
    let store = store();
    load_file(&store, "/content/2024-11-11.md", "---\n---\nbare", false).unwrap();
    assert!(store.post(&GroupName::Root, &page_name("2024-11-11")).is_some());
}

#[test]
fn group_index_lives_beside_group_members() {
    let store = store();
    load_file(&store, "/content/blog/_index.md", "---\ntitle = \"Blog\"\n---\nhello", false)
        .unwrap();
    load_file(&store, "/content/blog/2024-12-12-post.md", "---\n---\nentry", false).unwrap();
    let group = GroupName::try_from("blog".to_string()).unwrap();
    assert!(store.index(&group).is_some());
    assert!(store.post(&group, &page_name("2024-12-12-post")).is_some());
    let gr = store.group(&group).unwrap();
    assert!(gr.index.is_some());
    assert_eq!(gr.members.len(), 1);
    assert_eq!(store.node_count(), 2);
}

#[test]
fn a_tag_collects_posts_across_groups() {
    let store = store();
    load_file(&store, "/content/2025-01-01-a.md", "---\ntags = [\"t\"]\n---\na", false).unwrap();
    load_file(&store, "/content/blog/2025-01-02-b.md", "---\ntags = [\"t\"]\n---\nb", false)
        .unwrap();
    let tag = store.tag(&tag_name("t")).unwrap();
    assert_eq!(tag.members.len(), 2);
}

#[test]
fn membership_is_per_group() {
    let store = store();
    load_file(&store, "/content/blog/2025-02-02-x.md", "---\n---\nx", false).unwrap();
    let blog = GroupName::try_from("blog".to_string()).unwrap();
    let name = page_name("2025-02-02-x");
    assert!(store.post(&blog, &name).is_some());
    assert!(store.post(&GroupName::Root, &name).is_none());
}
