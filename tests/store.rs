use ptnet::image_header::{FWVersion, HWVersion};
use ptnet::node_table::{reconcile, Event, NodeRecord, NodeTable, StoreError, UpdateMode};
use ptnet::wire::{M_DEV_DC, M_DEV_ST};

fn status_record() -> NodeRecord {
    NodeRecord {
        address: [0xFE, 0xED, 0xDE, 0xAF, 0xBE, 0xEF],
        device_status: Some(M_DEV_ST {
            fw_state: 2,
            fw_version: FWVersion { major: 1, minor: 2, patch: 3 },
            hw_version: HWVersion { vid: 0x80, pid: 0x86, rev: 0x11 },
        }),
        device_descriptor: None,
    }
}

fn check_node_events() {
    let mut db = NodeTable::new();
    let mut rec = status_record();

    let evt = db.update(&rec.address, &rec, UpdateMode::MustCreate).expect("update_node shall succeeed");
    if let Event::NodeAdded(n_rec) = evt {
        assert_eq!(rec, n_rec);
    } else {
        assert!(false, "NodeAdded event not generated");
    }

    rec.device_descriptor = Some(M_DEV_DC { b: [1, 0, 0, 0, 0, 0, 0] });

    let evt = db.update(&rec.address, &rec, UpdateMode::MustExist).unwrap();
    if let Event::NodeModified(n_rec) = evt {
        assert_eq!(rec, n_rec);
    } else {
        assert!(false, "NodeModified event not generated");
    }
}

#[test]
fn database_node_events() {
    check_node_events();
}

#[test]
fn node_table_node_events() {
    check_node_events();
}

#[test]
fn update_modes_refuse() {
    let mut db = NodeTable::new();
    let rec = status_record();
    assert!(matches!(db.update(&rec.address, &rec, UpdateMode::MustExist), Err(StoreError::NotFound(a)) if a == rec.address));
    assert_eq!(db.len(), 0);
    db.update(&rec.address, &rec, UpdateMode::UpdateOrCreate).unwrap();
    assert!(matches!(db.update(&rec.address, &rec, UpdateMode::MustCreate), Err(StoreError::AlreadyExists(_))));
    assert_eq!(db.len(), 1);
}

#[test]
fn written_record_loads_back() {
    let mut db = NodeTable::new();
    let rec = status_record();
    db.update(&rec.address, &rec, UpdateMode::UpdateOrCreate).unwrap();
    let loaded = db.load_many(&[rec.address]).unwrap();
    assert_eq!(loaded[0], rec);
    assert!(matches!(db.load_many(&[rec.address, [0; 6]]), Err(StoreError::NotFound(a)) if a == [0; 6]));
}

#[test]
fn batch_is_all_or_nothing() {
    let mut db = NodeTable::new();
    let a = NodeRecord::new(&[0, 0, 0, 0, 0, 1]);
    let b = NodeRecord::new(&[0, 0, 0, 0, 0, 2]);
    let evs = db.update_many(&[a, b], UpdateMode::MustCreate).unwrap();
    assert_eq!(evs.len(), 2);
    assert!(matches!(evs[0], Event::NodeAdded(_)));
    let c = NodeRecord::new(&[0, 0, 0, 0, 0, 3]);
    assert!(db.update_many(&[c, a], UpdateMode::MustCreate).is_err());
    assert_eq!(db.len(), 2);
    assert!(db.get(&c.address).is_none());
}

#[test]
fn modify_without_result_changes_nothing() {
    let mut db = NodeTable::new();
    let a = [1, 2, 3, 4, 5, 6];
    assert!(db.modify(&a, |_o| None).is_none());
    assert_eq!(db.len(), 0);
    let ev = db.modify(&a, |_o| Some(NodeRecord::new(&[1, 2, 3, 4, 5, 6])));
    assert!(matches!(ev, Some(Event::NodeAdded(_))));
}

#[test]
fn reconcile_adds_and_removes() {
    let a = [0, 0, 0, 0, 0, 0xA];
    let b = [0, 0, 0, 0, 0, 0xB];
    let c = [0, 0, 0, 0, 0, 0xC];
    let mut db = NodeTable::new();
    db.update_many(&[NodeRecord::new(&a), status_record_at(b)], UpdateMode::MustCreate).unwrap();
    let out = reconcile(&mut db, &[b, c]);
    assert_eq!(out.added.len(), 1);
    assert!(matches!(out.added[0], Event::NodeAdded(r) if r.address == c));
    assert_eq!(out.removed, vec![a]);
    assert_eq!(db.list(), vec![b, c]);
    // the record of b is kept as it was
    assert_eq!(db.get(&b).unwrap(), status_record_at(b));

    let again = reconcile(&mut db, &[b, c]);
    assert!(again.added.is_empty());
    assert!(again.removed.is_empty());
    assert_eq!(db.len(), 2);
}

fn status_record_at(a: [u8; 6]) -> NodeRecord {
    let mut r = status_record();
    r.address = a;
    r
}

#[test]
fn mac_text() {
    let r = NodeRecord::new(&[0xFE, 0x0A, 0, 0x10, 0xBE, 0xEF]);
    assert_eq!(r.mac(), "0xFE:0xA:0x0:0x10:0xBE:0xEF");
    assert_eq!(r.mac(), format!("{:#02X}:{:#02X}:{:#02X}:{:#02X}:{:#02X}:{:#02X}", 0xFEu8, 0x0Au8, 0u8, 0x10u8, 0xBEu8, 0xEFu8));
}

#[test]
fn list_in_key_order() {
    let mut db = NodeTable::new();
    let addrs = [[0, 0, 0, 0, 1, 0], [0, 0, 0, 0, 0, 0xFF], [0xFF, 0, 0, 0, 0, 0], [0, 0, 0, 0, 0, 1]];
    for a in addrs.iter() {
        db.update(a, &NodeRecord::new(a), UpdateMode::MustCreate).unwrap();
    }
    db.remove_many(&[[0, 0, 0, 0, 0, 0xFF]]);
    assert_eq!(db.list(), vec![[0, 0, 0, 0, 0, 1], [0, 0, 0, 0, 1, 0], [0xFF, 0, 0, 0, 0, 0]]);
}
