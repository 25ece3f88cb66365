use saffi_wtf::watch::is_editor_temp;
use saffi_wtf::Debouncer;

#[test]
fn trailing_tilde_is_temporary() {
    assert!(is_editor_temp("/content/hello.md~"));
    assert!(is_editor_temp("x~"));
}

#[test]
fn intermediate_save_file_is_temporary() {
    assert!(is_editor_temp("/content/.goutputstream-4XG821"));
    assert!(is_editor_temp(".goutputstream-abc"));
}

#[test]
fn ordinary_paths_are_not_temporary() {
    assert!(!is_editor_temp("/content/hello.md"));
    assert!(!is_editor_temp("/content/~tilde-not-last.md"));
    assert!(!is_editor_temp("/content/goutputstream.md"));
    assert!(!is_editor_temp(""));
}

#[test]
fn temporary_events_never_reach_a_batch() {
    let mut d = Debouncer::new(25);
    assert!(d.offer("/c/a.md~".to_string(), 0).is_none());
    assert!(d.offer("/c/a.md".to_string(), 1).is_none());
    assert!(d.offer("/c/.goutputstream-x".to_string(), 2).is_none());
    let batch = d.flush(100).unwrap();
    assert_eq!(batch, vec!["/c/a.md".to_string()]);
}

#[test]
fn events_within_the_window_coalesce() {
    let mut d = Debouncer::new(25);
    assert!(d.offer("/c/a.md".to_string(), 0).is_none());
    assert!(d.offer("/c/b.md".to_string(), 10).is_none());
    assert!(d.offer("/c/c.md".to_string(), 24).is_none());
    let batch = d.flush(25).unwrap();
    assert_eq!(
        batch,
        vec!["/c/a.md".to_string(), "/c/b.md".to_string(), "/c/c.md".to_string()]
    );
}

#[test]
fn a_late_event_closes_the_batch_and_opens_the_next() {
    let mut d = Debouncer::new(25);
    assert!(d.offer("/c/a.md".to_string(), 0).is_none());
    let closed = d.offer("/c/b.md".to_string(), 60).unwrap();
    assert_eq!(closed, vec!["/c/a.md".to_string()]);
    let batch = d.flush(100).unwrap();
    assert_eq!(batch, vec!["/c/b.md".to_string()]);
}

#[test]
fn flush_before_the_deadline_returns_nothing() {
    let mut d = Debouncer::new(25);
    assert!(d.flush(0).is_none());
    assert!(d.offer("/c/a.md".to_string(), 0).is_none());
    assert!(d.flush(10).is_none());
    assert!(d.flush(25).is_some());
    assert!(d.flush(26).is_none());
}
