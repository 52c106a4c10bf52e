use aerogramme_core::collections::ident_list::{CreatedResult, IdentList, RenameError};

fn ident(b: u8) -> (u64, u64, u64) {
    let w = u64::from_be_bytes([b; 8]);
    (w, w, w)
}

fn snapshot(l: &IdentList) -> Vec<(String, Option<(u64, u64, u64)>)> {
    l.names().into_iter().map(|n| {
        let id = l.get(&n);
        (n, id)
    }).collect()
}

#[test]
fn set_then_get() {
    let mut l = IdentList::new();
    assert!(l.set_at("INBOX", Some(ident(1)), 10));
    assert_eq!(l.get("INBOX"), Some(ident(1)));
    assert!(l.has("INBOX"));
    // Writing the same identifier again changes nothing.
    assert!(!l.set_at("INBOX", Some(ident(1)), 20));
    // Deleting an absent name changes nothing.
    assert!(!l.set_at("Trash", None, 20));
    assert!(!l.has("Trash"));
    assert!(l.set_at("INBOX", None, 5));
    assert_eq!(l.get("INBOX"), None);
    assert!(!l.has("INBOX"));
    assert_eq!(l.names(), Vec::<String>::new());
}

#[test]
fn names_are_sorted() {
    let mut l = IdentList::new();
    l.set_at("b", Some(ident(2)), 1);
    l.set_at("a", Some(ident(1)), 1);
    l.set_at("c", Some(ident(3)), 1);
    l.set_at("b", None, 2);
    assert_eq!(l.names(), vec!["a".to_string(), "c".to_string()]);
}

#[test]
fn newer_write_wins_on_merge() {
    let mut a = IdentList::new();
    a.set_at("Drafts", Some(ident(1)), 10);
    let mut b = IdentList::new();
    b.set_at("Drafts", Some(ident(2)), 20);
    b.set_at("Sent", Some(ident(3)), 5);
    a.merge(b);
    assert_eq!(a.get("Drafts"), Some(ident(2)));
    assert_eq!(a.get("Sent"), Some(ident(3)));
}

#[test]
fn merge_is_commutative_on_values() {
    let build = |pairs: &[(&str, u8, u64)]| {
        let mut l = IdentList::new();
        for (n, b, t) in pairs {
            l.set_at(n, Some(ident(*b)), *t);
        }
        l
    };
    let left = [("x", 1u8, 10u64), ("y", 2, 10)];
    let right = [("x", 3u8, 10u64), ("z", 4, 1)];
    let mut ab = build(&left);
    ab.merge(build(&right));
    let mut ba = build(&right);
    ba.merge(build(&left));
    assert_eq!(snapshot(&ab), snapshot(&ba));
    // Same time: the greater identifier wins.
    assert_eq!(ab.get("x"), Some(ident(3)));
}

#[test]
fn merge_is_idempotent_on_values() {
    let mut a = IdentList::new();
    a.set_at("x", Some(ident(1)), 3);
    a.set_at("y", Some(ident(2)), 4);
    let before = snapshot(&a);
    let mut copy = IdentList::new();
    copy.set_at("x", Some(ident(1)), 3);
    copy.set_at("y", Some(ident(2)), 4);
    a.merge(copy);
    assert_eq!(snapshot(&a), before);
}

#[test]
fn create_once() {
    let mut l = IdentList::new();
    assert_eq!(l.create_with("INBOX", ident(7), 1), CreatedResult::Created(ident(7)));
    assert_eq!(l.create_with("INBOX", ident(8), 2), CreatedResult::Existed(ident(7)));
    match l.create("Archive") {
        CreatedResult::Created(id) => assert_eq!(l.get("Archive"), Some(id)),
        other => panic!("unexpected {:?}", other),
    }
    assert!(matches!(l.create("Archive"), CreatedResult::Existed(_)));
}

#[test]
fn rename_moves_the_identifier() {
    let mut l = IdentList::new();
    l.set_at("old", Some(ident(1)), 1);
    l.set_at("taken", Some(ident(2)), 1);
    assert_eq!(l.rename_at("missing", "new", 5), Err(RenameError::SourceMissing));
    assert_eq!(l.rename_at("old", "taken", 5), Err(RenameError::TargetExists));
    assert_eq!(l.rename_at("old", "new", 5), Ok(()));
    assert_eq!(l.get("old"), None);
    assert_eq!(l.get("new"), Some(ident(1)));
    assert_eq!(l.rename("new", "newer"), Ok(()));
    assert_eq!(l.get("newer"), Some(ident(1)));
    assert!(!l.has("new"));
}

#[test]
fn a_later_stamp_than_the_clock_when_it_lags() {
    let mut a = IdentList::new();
    a.set_at("x", Some(ident(1)), 100);
    // The clock went back: the write is still stamped after the previous one.
    a.set_at("x", Some(ident(2)), 50);
    let mut b = IdentList::new();
    b.set_at("x", Some(ident(9)), 100);
    a.merge(b);
    assert_eq!(a.get("x"), Some(ident(2)));
}

#[test]
fn refusals_at_the_last_stamp_change_nothing() {
    // Stamps at their largest value: the calls that refuse do no arithmetic.
    let mut l = IdentList::new();
    assert!(l.set_at("full", Some(ident(3)), u64::MAX));
    assert!(l.set_at("other", Some(ident(4)), u64::MAX));
    assert_eq!(l.create("full"), CreatedResult::Existed(ident(3)));
    assert_eq!(l.rename("full", "other"), Err(RenameError::TargetExists));
    assert_eq!(l.rename("missing", "full"), Err(RenameError::SourceMissing));
    assert_eq!(l.get("full"), Some(ident(3)));
    assert_eq!(l.get("other"), Some(ident(4)));
}

#[test]
fn a_set_survives_merging_with_the_state_before_it() {
    let build = || {
        let mut l = IdentList::new();
        l.set_at("x", Some(ident(9)), 50);
        l
    };
    // The clock lags: the write is stamped one after the previous one.
    let mut written = build();
    assert!(written.set_at("x", Some(ident(1)), 3));
    let mut before_then_written = build();
    before_then_written.merge(written);
    assert_eq!(before_then_written.get("x"), Some(ident(1)));

    let mut written = build();
    assert!(written.set_at("x", Some(ident(1)), 3));
    written.merge(build());
    assert_eq!(written.get("x"), Some(ident(1)));
}

#[test]
fn three_sets_in_a_row() {
    let mut l = IdentList::new();
    assert!(l.set("INBOX", Some(ident(1))));
    assert!(l.set("Trash", Some(ident(2))));
    assert!(l.set("Trash", None));
    assert_eq!(l.get("INBOX"), Some(ident(1)));
    assert_eq!(l.get("Trash"), None);
    assert_eq!(l.get("Sent"), None);
    assert_eq!(l.names(), vec!["INBOX".to_string()]);
}

#[test]
fn the_largest_stamp_stays_where_it_is() {
    let mut l = IdentList::new();
    assert!(l.set_at("x", Some(ident(1)), u64::MAX));
    assert!(l.set_at("x", Some(ident(2)), 7));
    assert_eq!(l.get("x"), Some(ident(2)));
    assert!(l.set("x", None));
    assert_eq!(l.get("x"), None);
}
