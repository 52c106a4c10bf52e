use aerogramme_core::bayou::history::BayouState;
use aerogramme_core::collections::davdag::DavDag;

fn ident(b: u8) -> (u64, u64, u64) {
    let w = u64::from_be_bytes([b; 8]);
    (w, w, w)
}

#[test]
fn base() {
    let mut state = DavDag::default();

    // Add item 1
    {
        let m = ident(0x01);
        let ev = state.op_put((m, "cal.ics".into(), "321-321".into()));
        state = state.apply(&ev);

        assert_eq!(state.table_len(), 1);
        assert_eq!(state.resolve(ev.token()).unwrap().len(), 0);
    }

    // Add 2 concurrent items
    let (t1, t2) = {
        let blob1 = ident(0x02);
        let ev1 = state.op_put((blob1, "cal2.ics".into(), "321-321".into()));

        let blob2 = ident(0x01);
        let ev2 = state.op_delete(blob2);

        state = state.apply(&ev1);
        state = state.apply(&ev2);

        assert_eq!(state.table_len(), 1);
        let mut expected = im::OrdSet::new();
        expected.insert(ev2.token());
        assert_eq!(state.resolve(ev1.token()).unwrap(), expected);

        (ev1.token(), ev2.token())
    };

    // Add later a new item
    {
        let blob3 = ident(0x03);
        let ev = state.op_put((blob3, "cal3.ics".into(), "321-321".into()));

        state = state.apply(&ev);
        assert_eq!(state.table_len(), 2);
        assert_eq!(state.resolve(ev.token()).unwrap().len(), 0);
        let mut expected = im::OrdSet::new();
        expected.insert(t2);
        expected.insert(ev.token());
        assert_eq!(state.resolve(t1).unwrap(), expected);
    }
}

#[test]
fn davdag_checkpoint_keeps_files_and_heads() {
    let mut state = DavDag::default();
    let ev = state.op_put((ident(0x05), "a.ics".into(), "e1".into()));
    state = state.apply(&ev);
    let ev2 = state.op_put((ident(0x06), "b.ics".into(), "e2".into()));
    state = state.apply(&ev2);
    let (items, heads) = state.to_checkpoint();
    assert_eq!(items.len(), 2);
    assert_eq!(heads, vec![ev2.token()]);
    let back = DavDag::from_checkpoint(items, heads);
    assert_eq!(back.table_len(), 2);
    assert_eq!(back.blob_of(&"a.ics".to_string()), Some(ident(0x05)));
    assert_eq!(back.heads_vec(), vec![ev2.token()]);
    // Only the heads are known after a checkpoint: an older token cannot be resolved.
    assert!(back.resolve(ev.token()).is_err());
    assert_eq!(back.resolve(ev2.token()).unwrap().len(), 0);
}

#[test]
fn davdag_delete_unknown_blob_changes_nothing() {
    let mut state = DavDag::default();
    let ev = state.op_put((ident(0x07), "a.ics".into(), "e1".into()));
    state = state.apply(&ev);
    let del = state.op_delete(ident(0x09));
    state = state.apply(&del);
    assert_eq!(state.table_len(), 1);
    assert!(state.table_contains(&ident(0x07)));
}
