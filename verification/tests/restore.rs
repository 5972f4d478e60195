use sched::attrs::Attrs;
use sched::error::Error;
use sched::logs::LogStore;
use sched::record::Relation;
use sched::objects::ObjectStore;
use sched::record::{join, part, Log, Object};
use sched::storage::Storage;

fn log(id: i32, typ: &str) -> Log {
    Log { id, typ: typ.to_string(), time: 5, attrs: Attrs::new() }
}

fn object(id: i32, name: &str) -> Object {
    Object {
        id,
        name: name.to_string(),
        typ: "t".to_string(),
        desc: None,
        deps: Vec::new(),
        subs: Vec::new(),
        refs: Vec::new(),
        attrs: Attrs::new(),
    }
}

fn refused(r: Result<Storage<u8>, Error>) -> bool {
    matches!(r, Err(Error::CorruptRecord))
}

#[test]
fn restored_store_holds_the_records_and_goes_on_from_the_sequences() {
    let logs = vec![log(2, "a"), log(5, "b"), log(6, "c")];
    let mut chair = object(3, "chair");
    chair.deps = vec![1, 9];
    chair.attrs.insert("color".to_string(), "red".to_string());
    let objs = vec![object(1, "desk"), chair];
    let mut s: Storage<u8> = Storage::restore(10, 4, logs, objs).ok().unwrap();
    assert_eq!(s.next_log_id(), 10);
    assert_eq!(s.next_obj_id(), 4);
    assert_eq!(s.get_log(5).unwrap().typ, "b");
    assert_eq!(s.get_log(6).unwrap().time, 5);
    assert_eq!(s.get_log(3).err(), Some(Error::InvalidLogID(3)));
    assert_eq!(s.get_log(1).err(), Some(Error::InvalidLogID(1)));
    assert_eq!(s.get_obj(3).unwrap().name, "chair");
    assert_eq!(s.get_obj(3).unwrap().deps, vec![1, 9]);
    assert_eq!(s.get_obj(2).err(), Some(Error::InvalidObjID(2)));
    assert!(s.take_dispatches().is_empty());
    assert_eq!(s.handler(0), None);
    assert_eq!(s.create_obj("lamp", "t"), Ok(4));
    assert_eq!(s.get_log(10).unwrap().typ, "obj.create");
    assert_eq!(s.obj_set_attr(3, "color", "blue"), Ok(()));
    assert_eq!(s.get_log(11).unwrap().attrs.get("old"), Some(&"red".to_string()));
}

#[test]
fn empty_records_restore_to_an_empty_store() {
    let mut s: Storage<u8> = Storage::restore(1, 1, Vec::new(), Vec::new()).ok().unwrap();
    assert_eq!(s.create_log("a", Attrs::new()), Ok(1));
    assert_eq!(s.create_obj("n", "t"), Ok(1));
}

#[test]
fn records_out_of_order_are_corrupt() {
    assert!(refused(Storage::restore(10, 10, vec![log(2, "a"), log(1, "b")], Vec::new())));
    assert!(refused(Storage::restore(10, 10, vec![log(2, "a"), log(2, "b")], Vec::new())));
    assert!(refused(Storage::restore(10, 10, Vec::new(), vec![object(3, "a"), object(2, "b")])));
    assert!(refused(Storage::restore(10, 10, Vec::new(), vec![object(3, "a"), object(3, "b")])));
}

#[test]
fn records_that_the_sequence_did_not_issue_are_corrupt() {
    assert!(refused(Storage::restore(3, 10, vec![log(3, "a")], Vec::new())));
    assert!(refused(Storage::restore(3, 10, vec![log(0, "a")], Vec::new())));
    assert!(refused(Storage::restore(3, 10, vec![log(-1, "a")], Vec::new())));
    assert!(refused(Storage::restore(10, 3, Vec::new(), vec![object(3, "a")])));
    assert!(refused(Storage::restore(10, 3, Vec::new(), vec![object(0, "a")])));
    assert!(refused(Storage::restore(0, 1, Vec::new(), Vec::new())));
    assert!(refused(Storage::restore(1, 0, Vec::new(), Vec::new())));
    assert!(Storage::<u8>::restore(4, 4, vec![log(3, "a")], vec![object(3, "a")]).is_ok());
}

#[test]
fn records_with_dotted_keys_or_repeated_members_are_corrupt() {
    let mut l = log(1, "a");
    l.attrs.insert("a.b".to_string(), "v".to_string());
    assert!(refused(Storage::restore(5, 5, vec![l], Vec::new())));
    let mut o = object(1, "a");
    o.attrs.insert("a.b".to_string(), "v".to_string());
    assert!(refused(Storage::restore(5, 5, Vec::new(), vec![o])));
    let mut o = object(1, "a");
    o.deps = vec![4, 5, 4];
    assert!(refused(Storage::restore(5, 5, Vec::new(), vec![o])));
    let mut o = object(1, "a");
    o.subs = vec![4, 4];
    assert!(refused(Storage::restore(5, 5, Vec::new(), vec![o])));
    let mut o = object(1, "a");
    o.refs = vec![1, 2, 3, 1];
    assert!(refused(Storage::restore(5, 5, Vec::new(), vec![o])));
    let mut o = object(1, "a");
    o.deps = vec![4, 5];
    o.subs = vec![4, 5];
    o.refs = vec![4, 5];
    assert!(Storage::<u8>::restore(5, 5, Vec::new(), vec![o]).is_ok());
}

#[test]
fn a_used_up_log_sequence_refuses_every_write() {
    let mut s: Storage<u8> =
        Storage::restore(i32::MAX, 2, vec![log(7, "a")], vec![object(1, "desk")]).ok().unwrap();
    let full = Err(Error::StoreUnavailable);
    assert_eq!(s.create_log("a", Attrs::new()), Err(Error::StoreUnavailable));
    assert_eq!(s.create_obj("n", "t"), Err(Error::StoreUnavailable));
    assert_eq!(s.log_set_attr(7, "k", "v"), full);
    assert_eq!(s.obj_set_desc(1, "d"), full);
    assert_eq!(s.obj_set_attr(1, "k", "v"), full);
    assert_eq!(s.obj_add_dep(1, 2), full);
    assert_eq!(s.obj_del_ref(1, 2), full);
    // nothing was changed by the refused calls
    assert!(s.get_log(7).unwrap().attrs.is_empty());
    let o = s.get_obj(1).unwrap();
    assert_eq!(o.desc, None);
    assert!(o.attrs.is_empty());
    assert!(o.deps.is_empty());
    assert_eq!(s.next_obj_id(), 2);
    assert_eq!(s.next_log_id(), i32::MAX);
    // what needs no log still works
    assert_eq!(s.obj_del_attr(1, "k"), Ok(()));
    // errors of the arguments come first
    assert_eq!(s.obj_set_attr(1, "a.b", "v"), Err(Error::InvalidKey("a.b".to_string())));
    assert_eq!(s.obj_set_desc(5, "d"), Err(Error::InvalidObjID(5)));
}

#[test]
fn a_used_up_object_sequence_refuses_new_objects_only() {
    let mut s: Storage<u8> = Storage::restore(1, i32::MAX, Vec::new(), Vec::new()).ok().unwrap();
    assert_eq!(s.create_obj("n", "t"), Err(Error::StoreUnavailable));
    assert_eq!(s.next_log_id(), 1);
    assert_eq!(s.create_log("a", Attrs::new()), Ok(1));
}

#[test]
fn the_last_identifier_of_a_sequence_is_issued() {
    let mut s: Storage<u8> =
        Storage::restore(i32::MAX - 1, 1, Vec::new(), Vec::new()).ok().unwrap();
    assert_eq!(s.create_log("a", Attrs::new()), Ok(i32::MAX - 1));
    assert_eq!(s.create_log("a", Attrs::new()), Err(Error::StoreUnavailable));
    assert_eq!(s.get_log(i32::MAX - 1).unwrap().typ, "a");
}

#[test]
fn relations_join_and_part() {
    let mut v = vec![3, 1];
    join(&mut v, 2);
    join(&mut v, 3);
    assert_eq!(v, vec![3, 1, 2]);
    part(&mut v, 1);
    part(&mut v, 9);
    assert_eq!(v, vec![3, 2]);
}

#[test]
fn log_store_keeps_logs_by_identifier() {
    let mut store = LogStore::new();
    assert_eq!(store.last_id(), None);
    assert!(!store.contains(1));
    store.insert(log(1, "a"));
    store.insert(log(4, "b"));
    assert_eq!(store.last_id(), Some(4));
    assert!(store.contains(4));
    assert!(!store.contains(2));
    assert_eq!(store.get(4).unwrap().typ, "b");
    assert!(store.get(3).is_none());
    assert!(store.set_attr(4, "k", "first"));
    assert!(store.set_attr(4, "k", "second"));
    assert!(!store.set_attr(3, "k", "v"));
    assert_eq!(store.get(4).unwrap().attrs.get("k"), Some(&"first".to_string()));
    assert!(store.get(1).unwrap().attrs.is_empty());
    assert!(LogStore::from_records(vec![log(1, "a"), log(2, "b")]).is_some());
    assert!(LogStore::from_records(vec![log(2, "a"), log(2, "b")]).is_none());
    assert!(LogStore::from_records(vec![log(0, "a")]).is_none());
}

#[test]
fn object_store_keeps_objects_by_identifier() {
    let mut store = ObjectStore::new();
    assert_eq!(store.last_id(), None);
    store.insert(object(2, "desk"));
    store.insert(object(3, "chair"));
    assert_eq!(store.last_id(), Some(3));
    assert!(store.contains(2));
    assert!(!store.contains(1));
    assert_eq!(store.set_desc(2, "oak"), None);
    assert_eq!(store.set_desc(2, "pine"), Some("oak".to_string()));
    assert!(store.relate(2, Relation::Dep, true, 3));
    assert!(store.relate(2, Relation::Dep, true, 3));
    assert!(store.relate(2, Relation::Sub, true, 9));
    assert!(!store.relate(7, Relation::Dep, true, 3));
    assert_eq!(store.get(2).unwrap().deps, vec![3]);
    assert!(store.relate(2, Relation::Dep, false, 3));
    assert!(store.relate(2, Relation::Ref, false, 3));
    assert!(store.get(2).unwrap().deps.is_empty());
    assert_eq!(store.get(2).unwrap().subs, vec![9]);
    assert!(!store.has_attr(2, "k"));
    assert_eq!(store.set_attr(2, "k", "v"), None);
    assert_eq!(store.set_attr(2, "k", "w"), Some("v".to_string()));
    assert!(store.has_attr(2, "k"));
    assert_eq!(store.del_attr(2, "k"), Some("w".to_string()));
    assert_eq!(store.del_attr(2, "k"), None);
    assert_eq!(store.get(2).unwrap().desc, Some("pine".to_string()));
    assert_eq!(store.get(3).unwrap().desc, None);
    assert!(store.get(5).is_none());
}
