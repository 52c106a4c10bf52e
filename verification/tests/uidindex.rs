use aerogramme_core::bayou::history::BayouState;
use aerogramme_core::collections::flags::Flags;
use aerogramme_core::collections::uidindex::{UidIndex, UidIndexOp};

fn ident(b: u8) -> (u64, u64, u64) {
    let w = u64::from_be_bytes([b; 8]);
    (w, w, w)
}

fn flags(v: &[&str]) -> Flags {
    Flags::from_vec(v.iter().map(|s| s.to_string()).collect())
}

#[test]
fn test_uidindex() {
    let mut state = UidIndex::default();

    // Add message 1
    {
        let m = ident(0x01);
        let f = flags(&["\\Recent", "\\Archive"]);
        let ev = state.op_mail_add(m, f);
        state = state.apply(&ev);

        // Early checks
        assert_eq!(state.table_len(), 1);
        let (uid, modseq, flags) = state.entry(&m).unwrap();
        assert_eq!(uid, 1);
        assert_eq!(modseq, 2);
        assert_eq!(flags.len(), 2);
        let ident = state.ident_of_uid(1).unwrap();
        assert_eq!(m, ident);
        let recent = state.flag_uids("\\Recent").unwrap();
        assert_eq!(recent.len(), 1);
        assert_eq!(recent[0], 1);
        assert_eq!(state.uidnext(), 2);
        assert_eq!(state.uidvalidity(), 1);
    }

    // Add message 2
    {
        let m = ident(0x02);
        let f = flags(&["\\Seen", "\\Archive"]);
        let ev = state.op_mail_add(m, f);
        state = state.apply(&ev);

        let archive = state.flag_uids("\\Archive").unwrap();
        assert_eq!(archive.len(), 2);
    }

    // Add flags to message 1
    {
        let m = ident(0x01);
        let f = flags(&["Important", "$cl_1"]);
        let ev = state.op_flag_add(m, f);
        state = state.apply(&ev);
    }

    // Delete flags from message 1
    {
        let m = ident(0x01);
        let f = flags(&["\\Recent"]);
        let ev = state.op_flag_del(m, f);
        state = state.apply(&ev);

        let archive = state.flag_uids("\\Archive").unwrap();
        assert_eq!(archive.len(), 2);
    }

    // Delete message 2
    {
        let m = ident(0x02);
        let ev = state.op_mail_del(m);
        state = state.apply(&ev);

        let archive = state.flag_uids("\\Archive").unwrap();
        assert_eq!(archive.len(), 1);
    }

    // Add a message 3 concurrent to message 1 (trigger a uid validity change)
    {
        let m = ident(0x03);
        let f = flags(&["\\Archive", "\\Recent"]);
        let ev = UidIndexOp::MailAdd(m, 0, 0, f);
        state = state.apply(&ev);
    }

    // Checks
    {
        assert_eq!(state.table_len(), 2);
        assert!(state.uidvalidity() > 1);

        let (last_uid, ident) = state.max_uid().unwrap();
        assert_eq!(ident, ident3());

        let archive = state.flag_uids("\\Archive").unwrap();
        assert_eq!(archive.len(), 2);
        let mut iter = archive.iter();
        assert_eq!(*iter.next().unwrap(), 1);
        assert_eq!(*iter.next().unwrap(), last_uid);
    }
}

fn ident3() -> (u64, u64, u64) {
    ident(0x03)
}

#[test]
fn uidindex_counters_and_modseq() {
    let mut state = UidIndex::new();
    assert_eq!(state.uidnext(), 1);
    assert_eq!(state.highestmodseq(), 1);
    let ev = state.op_mail_add(ident(0x10), flags(&["\\Seen"]));
    state = state.apply(&ev);
    assert_eq!(state.uidnext(), 2);
    assert_eq!(state.highestmodseq(), 2);
    assert_eq!(state.ident_of_modseq(2), Some(ident(0x10)));
    let ev = state.op_flag_set(ident(0x10), flags(&["\\Flagged"]));
    state = state.apply(&ev);
    // A flag change gives the email the next modification sequence.
    assert_eq!(state.highestmodseq(), 3);
    assert_eq!(state.ident_of_modseq(2), None);
    assert_eq!(state.ident_of_modseq(3), Some(ident(0x10)));
    assert!(state.flag_uids("\\Seen").is_none());
    assert_eq!(state.flag_uids("\\Flagged").unwrap(), vec![1]);
    assert_eq!(state.uidvalidity(), 1);
}

#[test]
fn uidindex_delete_renumbers_sequence() {
    let mut state = UidIndex::new();
    for b in 1..=3u8 {
        let ev = state.op_mail_add(ident(b), Flags::new());
        state = state.apply(&ev);
    }
    assert_eq!(state.seqid_of(&ident(3)), Some(3));
    let ev = state.op_mail_del(ident(2));
    state = state.apply(&ev);
    assert_eq!(state.ident_of_seqid(1), Some(ident(1)));
    assert_eq!(state.ident_of_seqid(2), Some(ident(3)));
    assert_eq!(state.ident_of_seqid(3), None);
    assert_eq!(state.seqid_of(&ident(3)), Some(2));
    assert_eq!(state.seqid_of(&ident(2)), None);
    // Deleting an unknown email changes nothing.
    let ev = state.op_mail_del(ident(9));
    let before = state.table_len();
    state = state.apply(&ev);
    assert_eq!(state.table_len(), before);
}

#[test]
fn uidindex_stale_flag_writer_bumps_validity() {
    let mut state = UidIndex::new();
    let ev = state.op_mail_add(ident(1), Flags::new());
    state = state.apply(&ev);
    let ev = state.op_mail_add(ident(2), Flags::new());
    state = state.apply(&ev);
    // internalmodseq is 2; a writer that saw 0 bumps UIDVALIDITY by 2.
    let ev = UidIndexOp::FlagAdd(ident(1), 0, flags(&["x"]));
    state = state.apply(&ev);
    assert_eq!(state.uidvalidity(), 3);
}

#[test]
fn uidindex_serialized_roundtrip() {
    let mut state = UidIndex::new();
    let ev = state.op_mail_add(ident(2), flags(&["a", "b"]));
    state = state.apply(&ev);
    let ev = state.op_mail_add(ident(1), flags(&["b"]));
    state = state.apply(&ev);
    let repr = state.to_serialized();
    assert_eq!(repr.mails.len(), 2);
    // Stored by increasing identifier.
    assert_eq!(repr.mails[0].2, ident(1));
    assert_eq!(repr.mails[1].2, ident(2));
    let back = UidIndex::from_serialized(&repr);
    assert_eq!(back.table_len(), 2);
    assert_eq!(back.ident_of_uid(1), Some(ident(2)));
    assert_eq!(back.ident_of_uid(2), Some(ident(1)));
    assert_eq!(back.flag_uids("b").unwrap(), vec![1, 2]);
    assert_eq!(back.uidnext(), state.uidnext());
    assert_eq!(back.highestmodseq(), state.highestmodseq());
    assert_eq!(back.uidvalidity(), state.uidvalidity());
}

#[test]
fn uidindex_rejects_counter_overflow() {
    let state = UidIndex::new();
    // A writer that claims to have seen more than this index is not accepted.
    let ev = UidIndexOp::MailAdd(ident(1), 5, 0, Flags::new());
    assert!(state.accepts_op(&ev));
    let ev = UidIndexOp::FlagAdd(ident(1), 0, Flags::new());
    assert!(state.accepts_op(&ev));
}
