use ocs::meta::{
    add_tag, all_tags, get_note, list_annotated_ids, list_tags, remove_note, remove_tag,
    search_by_tag, set_note, OcsMeta,
};

fn empty_meta() -> OcsMeta {
    OcsMeta { tags: Vec::new(), notes: Vec::new(), autotag_rules: Vec::new() }
}

#[test]
fn added_tags_are_listed_sorted_and_distinct() {
    let mut m = empty_meta();
    add_tag(&mut m, "ses_1", "zeta");
    add_tag(&mut m, "ses_1", "alpha");
    add_tag(&mut m, "ses_1", "zeta");
    assert_eq!(list_tags(&m, "ses_1"), vec!["alpha".to_string(), "zeta".to_string()]);
    assert_eq!(list_tags(&m, "ses_2"), Vec::<String>::new());
}

#[test]
fn adding_a_tag_twice_changes_nothing() {
    let mut m = empty_meta();
    add_tag(&mut m, "a", "x");
    let once = list_tags(&m, "a");
    add_tag(&mut m, "a", "x");
    assert_eq!(list_tags(&m, "a"), once);
    assert_eq!(m.tags.len(), 1);
}

#[test]
fn add_tag_leaves_other_sessions_alone() {
    let mut m = empty_meta();
    add_tag(&mut m, "a", "x");
    add_tag(&mut m, "b", "y");
    assert_eq!(list_tags(&m, "a"), vec!["x".to_string()]);
    assert_eq!(list_tags(&m, "b"), vec!["y".to_string()]);
}

#[test]
fn removed_tag_is_gone_and_empty_entry_dropped() {
    let mut m = empty_meta();
    add_tag(&mut m, "a", "x");
    add_tag(&mut m, "a", "y");
    assert!(remove_tag(&mut m, "a", "x"));
    assert_eq!(list_tags(&m, "a"), vec!["y".to_string()]);
    assert!(remove_tag(&mut m, "a", "y"));
    assert!(m.tags.is_empty());
    assert!(!remove_tag(&mut m, "a", "y"));
    assert!(!remove_tag(&mut m, "nobody", "x"));
}

#[test]
fn note_read_after_write() {
    let mut m = empty_meta();
    assert_eq!(get_note(&m, "s"), None);
    set_note(&mut m, "s", "first");
    assert_eq!(get_note(&m, "s"), Some("first".to_string()));
    set_note(&mut m, "s", "second");
    assert_eq!(get_note(&m, "s"), Some("second".to_string()));
    set_note(&mut m, "s", "");
    assert_eq!(get_note(&m, "s"), None);
}

#[test]
fn remove_note_reports_whether_it_existed() {
    let mut m = empty_meta();
    set_note(&mut m, "s", "n");
    assert!(remove_note(&mut m, "s"));
    assert!(!remove_note(&mut m, "s"));
    assert_eq!(get_note(&m, "s"), None);
}

#[test]
fn annotated_ids_come_sorted() {
    let mut m = empty_meta();
    set_note(&mut m, "c", "3");
    set_note(&mut m, "a", "1");
    set_note(&mut m, "b", "2");
    assert_eq!(list_annotated_ids(&m), vec!["a".to_string(), "b".to_string(), "c".to_string()]);
}

#[test]
fn search_by_tag_sorted_by_session() {
    let mut m = empty_meta();
    add_tag(&mut m, "s2", "bug");
    add_tag(&mut m, "s1", "bug");
    add_tag(&mut m, "s1", "wip");
    add_tag(&mut m, "s3", "wip");
    let r = search_by_tag(&m, "bug");
    assert_eq!(r.len(), 2);
    assert_eq!(r[0].0, "s1");
    assert_eq!(r[0].1, vec!["bug".to_string(), "wip".to_string()]);
    assert_eq!(r[1].0, "s2");
    assert!(search_by_tag(&m, "none").is_empty());
}

#[test]
fn all_tags_by_count_then_name() {
    let mut m = empty_meta();
    add_tag(&mut m, "s1", "b");
    add_tag(&mut m, "s2", "b");
    add_tag(&mut m, "s1", "c");
    add_tag(&mut m, "s3", "a");
    let r = all_tags(&m);
    assert_eq!(r, vec![("b".to_string(), 2), ("a".to_string(), 1), ("c".to_string(), 1)]);
}
