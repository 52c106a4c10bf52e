use aerogramme_core::collections::ident_list::{IdentList, RenameError};
use aerogramme_core::collections::namespace::{
    create_collection, create_defaults, create_mailbox, delete_collection, delete_mailbox, ensure_inbox,
    rename_collection, rename_mailbox, NsError, ARCHIVE, DRAFTS, INBOX, MAIN_CAL, SENT, TRASH,
};

fn ident(b: u8) -> (u64, u64, u64) {
    let w = u64::from_be_bytes([b; 8]);
    (w, w, w)
}

fn mailboxes() -> IdentList {
    let mut l = IdentList::new();
    let (created, id) = ensure_inbox(&mut l, ident(1), 10);
    assert!(created);
    assert_eq!(id, ident(1));
    let any = create_defaults(&mut l, &vec![DRAFTS, ARCHIVE, SENT, TRASH], &vec![ident(2), ident(3), ident(4), ident(5)], 10);
    assert!(any);
    l
}

#[test]
fn default_mailboxes_are_created_once() {
    let mut l = mailboxes();
    assert_eq!(l.names(), vec!["Archive", "Drafts", "INBOX", "Sent", "Trash"]);
    let again = create_defaults(&mut l, &vec![DRAFTS, ARCHIVE, SENT, TRASH], &vec![ident(9), ident(9), ident(9), ident(9)], 20);
    assert!(!again);
    assert_eq!(l.get(DRAFTS), Some(ident(2)));
    let (created, id) = ensure_inbox(&mut l, ident(9), 20);
    assert!(!created);
    assert_eq!(id, ident(1));
}

#[test]
fn mailbox_create_and_delete() {
    let mut l = mailboxes();
    assert_eq!(create_mailbox(&mut l, "Work.", ident(6), 11), Err(NsError::InvalidName));
    assert_eq!(create_mailbox(&mut l, "Sent", ident(6), 11), Err(NsError::AlreadyExists));
    assert_eq!(create_mailbox(&mut l, "Work", ident(6), 11), Ok(()));
    assert_eq!(l.get("Work"), Some(ident(6)));
    assert_eq!(delete_mailbox(&mut l, INBOX, 12), Err(NsError::CannotDeleteInbox));
    assert_eq!(delete_mailbox(&mut l, "Nope", 12), Err(NsError::NotFound));
    assert_eq!(delete_mailbox(&mut l, "Work", 12), Ok(()));
    assert!(!l.has("Work"));
    // A deleted name can be created again.
    assert_eq!(create_mailbox(&mut l, "Work", ident(7), 13), Ok(()));
    assert_eq!(l.get("Work"), Some(ident(7)));
}

#[test]
fn mailbox_rename_moves_the_subtree() {
    let mut l = mailboxes();
    create_mailbox(&mut l, "Projects", ident(6), 11).unwrap();
    create_mailbox(&mut l, "Projects.A", ident(7), 11).unwrap();
    create_mailbox(&mut l, "Projects.A.B", ident(8), 11).unwrap();
    create_mailbox(&mut l, "ProjectsX", ident(9), 11).unwrap();
    assert_eq!(rename_mailbox(&mut l, "Projects", "Old", ident(20), 12), Ok(()));
    assert_eq!(l.get("Old"), Some(ident(6)));
    assert_eq!(l.get("Old.A"), Some(ident(7)));
    assert_eq!(l.get("Old.A.B"), Some(ident(8)));
    assert!(!l.has("Projects"));
    assert!(!l.has("Projects.A"));
    // A sibling that only shares a prefix stays.
    assert_eq!(l.get("ProjectsX"), Some(ident(9)));
}

#[test]
fn mailbox_rename_refusals() {
    let mut l = mailboxes();
    create_mailbox(&mut l, "A", ident(6), 11).unwrap();
    create_mailbox(&mut l, "B.C", ident(7), 11).unwrap();
    assert_eq!(rename_mailbox(&mut l, "A.", "X", ident(20), 12), Err(NsError::InvalidName));
    assert_eq!(rename_mailbox(&mut l, "A", "X.", ident(20), 12), Err(NsError::InvalidName));
    // Something is in use under the new name.
    assert_eq!(rename_mailbox(&mut l, "A", "B", ident(20), 12), Err(NsError::AlreadyExists));
    assert_eq!(l.get("A"), Some(ident(6)));
    // Renaming a name that is not in use changes nothing.
    assert_eq!(rename_mailbox(&mut l, "Nope", "Z", ident(20), 12), Ok(()));
    assert!(!l.has("Z"));
}

#[test]
fn mailbox_rename_inbox_creates_a_new_one() {
    let mut l = mailboxes();
    assert_eq!(rename_mailbox(&mut l, INBOX, "Old Inbox", ident(20), 12), Ok(()));
    assert_eq!(l.get("Old Inbox"), Some(ident(1)));
    assert_eq!(l.get(INBOX), Some(ident(20)));
    assert_eq!(
        rename_mailbox(&mut l, INBOX, "Sent", ident(21), 13),
        Err(NsError::Rename(RenameError::TargetExists))
    );
}

#[test]
fn collection_rules() {
    let defaults = vec![MAIN_CAL];
    let mut l = IdentList::new();
    assert!(create_defaults(&mut l, &defaults, &vec![ident(1)], 10));
    assert_eq!(create_collection(&mut l, &defaults, MAIN_CAL, ident(2), 11), Err(NsError::DefaultCollection));
    assert_eq!(create_collection(&mut l, &defaults, "my cal", ident(2), 11), Err(NsError::UnsupportedCharacters));
    let long = "a".repeat(33);
    assert_eq!(create_collection(&mut l, &defaults, &long, ident(2), 11), Err(NsError::NameTooLong));
    // Alphanumeric in Unicode's sense.
    assert_eq!(create_collection(&mut l, &defaults, "Équipe2", ident(2), 11), Ok(()));
    assert_eq!(create_collection(&mut l, &defaults, "Équipe2", ident(3), 11), Err(NsError::AlreadyExists));
    assert_eq!(delete_collection(&mut l, &defaults, MAIN_CAL, 12), Err(NsError::DefaultCollection));
    assert_eq!(delete_collection(&mut l, &defaults, "Nope", 12), Err(NsError::NotFound));
    assert_eq!(rename_collection(&mut l, &defaults, MAIN_CAL, "Other", 12), Err(NsError::DefaultCollection));
    assert_eq!(rename_collection(&mut l, &defaults, "Équipe2", "Team", 12), Ok(()));
    assert_eq!(l.get("Team"), Some(ident(2)));
    assert_eq!(
        rename_collection(&mut l, &defaults, "Nope", "Other", 13),
        Err(NsError::Rename(RenameError::SourceMissing))
    );
    assert_eq!(delete_collection(&mut l, &defaults, "Team", 14), Ok(()));
    assert!(!l.has("Team"));
}
