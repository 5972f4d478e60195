use sched::attrs::Attrs;
use sched::error::Error;
use sched::record::Log;
use sched::storage::Storage;

fn attr(a: &Attrs, key: &str) -> Option<String> {
    a.get(key).cloned()
}

fn entries(a: &Attrs) -> Vec<(String, String)> {
    let mut out = Vec::new();
    let mut i = 0;
    while let Some((k, v)) = a.entry(i) {
        out.push((k.clone(), v.clone()));
        i += 1;
    }
    out
}

fn pairs(list: &[(&str, &str)]) -> Vec<(String, String)> {
    list.iter().map(|(k, v)| (k.to_string(), v.to_string())).collect()
}

fn last_log(s: &Storage<u8>) -> Log {
    s.get_log(s.next_log_id() - 1).unwrap()
}

#[test]
fn identifiers_start_at_one_and_rise() {
    let mut s: Storage<u8> = Storage::new();
    assert_eq!(s.next_log_id(), 1);
    assert_eq!(s.next_obj_id(), 1);
    assert_eq!(s.create_log("a", Attrs::new()), Ok(1));
    assert_eq!(s.create_log("b", Attrs::new()), Ok(2));
    assert_eq!(s.create_log("c", Attrs::new()), Ok(3));
    assert_eq!(s.next_log_id(), 4);
}

#[test]
fn many_identifiers_never_repeat() {
    let mut s: Storage<u8> = Storage::new();
    let mut last_log = 0;
    let mut last_obj = 0;
    for round in 0..50 {
        let id = s.create_log("tick", Attrs::new()).unwrap();
        assert!(id > last_log);
        last_log = id;
        if round % 3 == 0 {
            let o = s.create_obj("n", "t").unwrap();
            assert!(o > last_obj);
            last_obj = o;
            // the audit log of the object took the next log identifier
            last_log = s.next_log_id() - 1;
        }
    }
    assert_eq!(last_obj, 17);
    assert_eq!(last_log, 67);
}

#[test]
fn log_and_object_identifiers_are_independent() {
    let mut s: Storage<u8> = Storage::new();
    assert_eq!(s.create_log("a", Attrs::new()), Ok(1));
    assert_eq!(s.create_log("a", Attrs::new()), Ok(2));
    // the object is the first of its kind; its audit log is the third log
    assert_eq!(s.create_obj("n", "t"), Ok(1));
    assert_eq!(s.create_obj("m", "t"), Ok(2));
    assert_eq!(s.create_log("a", Attrs::new()), Ok(5));
    let audit = s.get_log(3).unwrap();
    assert_eq!(audit.typ, "obj.create");
    assert_eq!(entries(&audit.attrs), pairs(&[("id", "1")]));
}

#[test]
fn created_object_reads_back_bare() {
    let mut s: Storage<u8> = Storage::new();
    let id = s.create_obj("desk", "furniture").unwrap();
    let o = s.get_obj(id).unwrap();
    assert_eq!(o.id, id);
    assert_eq!(o.name, "desk");
    assert_eq!(o.typ, "furniture");
    assert_eq!(o.desc, None);
    assert!(o.deps.is_empty());
    assert!(o.subs.is_empty());
    assert!(o.refs.is_empty());
    assert!(o.attrs.is_empty());
}

#[test]
fn create_log_at_keeps_type_time_and_attributes() {
    let mut s: Storage<u8> = Storage::new();
    let mut a = Attrs::new();
    a.insert("who".to_string(), "me".to_string());
    a.insert("why".to_string(), "because".to_string());
    let id = s.create_log_at("note", a, 1_234_567).unwrap();
    let log = s.get_log(id).unwrap();
    assert_eq!(log.id, 1);
    assert_eq!(log.typ, "note");
    assert_eq!(log.time, 1_234_567);
    assert_eq!(entries(&log.attrs), pairs(&[("who", "me"), ("why", "because")]));
}

#[test]
fn create_log_stamps_the_current_time() {
    let mut s: Storage<u8> = Storage::new();
    let id = s.create_log("note", Attrs::new()).unwrap();
    let log = s.get_log(id).unwrap();
    // after the first of January 2020 and before the year 2200
    assert!(log.time > 1_577_836_800_000);
    assert!(log.time < 7_258_118_400_000);
    let id2 = s.create_log("note", Attrs::new()).unwrap();
    assert!(s.get_log(id2).unwrap().time >= log.time);
}

#[test]
fn create_log_refuses_a_dotted_key_and_names_the_first() {
    let mut s: Storage<u8> = Storage::new();
    let mut a = Attrs::new();
    a.insert("fine".to_string(), "1".to_string());
    a.insert("a.b".to_string(), "2".to_string());
    a.insert("c.d".to_string(), "3".to_string());
    assert_eq!(s.create_log("note", a), Err(Error::InvalidKey("a.b".to_string())));
    assert_eq!(s.next_log_id(), 1);
    assert_eq!(s.get_log(1).err(), Some(Error::InvalidLogID(1)));
    assert!(s.take_dispatches().is_empty());
}

#[test]
fn log_attribute_keeps_its_first_value() {
    let mut s: Storage<u8> = Storage::new();
    let id = s.create_log("note", Attrs::new()).unwrap();
    assert_eq!(s.log_set_attr(id, "color", "red"), Ok(()));
    assert_eq!(s.log_set_attr(id, "color", "blue"), Ok(()));
    let log = s.get_log(id).unwrap();
    assert_eq!(entries(&log.attrs), pairs(&[("color", "red")]));
    // both calls were recorded, the second although it changed nothing
    assert_eq!(s.next_log_id(), 4);
    for audit_id in [2, 3] {
        let audit = s.get_log(audit_id).unwrap();
        assert_eq!(audit.typ, "log.set_attr");
        assert_eq!(entries(&audit.attrs), pairs(&[("id", "1"), ("attr", "attrs.color")]));
    }
}

#[test]
fn log_attribute_given_at_creation_is_not_overwritten() {
    let mut s: Storage<u8> = Storage::new();
    let mut a = Attrs::new();
    a.insert("color".to_string(), "green".to_string());
    let id = s.create_log("note", a).unwrap();
    assert_eq!(s.log_set_attr(id, "color", "red"), Ok(()));
    assert_eq!(s.log_set_attr(id, "shape", "round"), Ok(()));
    let log = s.get_log(id).unwrap();
    assert_eq!(entries(&log.attrs), pairs(&[("color", "green"), ("shape", "round")]));
}

#[test]
fn log_set_attr_on_a_missing_log_is_still_recorded() {
    let mut s: Storage<u8> = Storage::new();
    assert_eq!(s.log_set_attr(42, "k", "v"), Ok(()));
    assert_eq!(s.get_log(42).err(), Some(Error::InvalidLogID(42)));
    let audit = s.get_log(1).unwrap();
    assert_eq!(audit.typ, "log.set_attr");
    assert_eq!(entries(&audit.attrs), pairs(&[("id", "42"), ("attr", "attrs.k")]));
    // the audit log itself took no attribute from the call
    assert_eq!(attr(&audit.attrs, "k"), None);
}

#[test]
fn object_attribute_is_overwritten_and_the_audit_holds_old_and_new() {
    let mut s: Storage<u8> = Storage::new();
    let id = s.create_obj("desk", "furniture").unwrap();
    assert_eq!(s.obj_set_attr(id, "color", "red"), Ok(()));
    let first = last_log(&s);
    assert_eq!(first.typ, "obj.set_attr");
    assert_eq!(entries(&first.attrs), pairs(&[("key", "color"), ("id", "1"), ("new", "red")]));
    assert_eq!(s.obj_set_attr(id, "color", "blue"), Ok(()));
    let second = last_log(&s);
    assert_eq!(second.typ, "obj.set_attr");
    assert_eq!(
        entries(&second.attrs),
        pairs(&[("key", "color"), ("id", "1"), ("old", "red"), ("new", "blue")])
    );
    let o = s.get_obj(id).unwrap();
    assert_eq!(entries(&o.attrs), pairs(&[("color", "blue")]));
    assert_eq!(s.next_log_id(), 4);
}

#[test]
fn object_attribute_on_a_missing_object_is_refused() {
    let mut s: Storage<u8> = Storage::new();
    assert_eq!(s.obj_set_attr(9, "k", "v"), Err(Error::InvalidObjID(9)));
    assert_eq!(s.obj_del_attr(9, "k"), Err(Error::InvalidObjID(9)));
    assert_eq!(s.obj_set_desc(9, "d"), Err(Error::InvalidObjID(9)));
    assert_eq!(s.next_log_id(), 1);
}

#[test]
fn description_is_replaced_and_the_audit_holds_the_old_one_if_any() {
    let mut s: Storage<u8> = Storage::new();
    let id = s.create_obj("desk", "furniture").unwrap();
    assert_eq!(s.obj_set_desc(id, "oak"), Ok(()));
    let first = last_log(&s);
    assert_eq!(first.typ, "obj.set_desc");
    assert_eq!(entries(&first.attrs), pairs(&[("id", "1"), ("new", "oak")]));
    assert_eq!(s.get_obj(id).unwrap().desc, Some("oak".to_string()));
    assert_eq!(s.obj_set_desc(id, "pine"), Ok(()));
    let second = last_log(&s);
    assert_eq!(entries(&second.attrs), pairs(&[("id", "1"), ("old", "oak"), ("new", "pine")]));
    assert_eq!(s.get_obj(id).unwrap().desc, Some("pine".to_string()));
    // name and type stay
    assert_eq!(s.get_obj(id).unwrap().name, "desk");
    assert_eq!(s.get_obj(id).unwrap().typ, "furniture");
}

#[test]
fn dependency_comes_and_goes() {
    let mut s: Storage<u8> = Storage::new();
    let a = s.create_obj("a", "t").unwrap();
    let b = s.create_obj("b", "t").unwrap();
    assert_eq!(s.obj_add_dep(a, b), Ok(()));
    assert_eq!(s.get_obj(a).unwrap().deps, vec![b]);
    let added = last_log(&s);
    assert_eq!(added.typ, "obj.add_dep");
    assert_eq!(entries(&added.attrs), pairs(&[("id", "1"), ("dep", "2")]));
    assert_eq!(s.obj_del_dep(a, b), Ok(()));
    assert!(s.get_obj(a).unwrap().deps.is_empty());
    let deleted = last_log(&s);
    assert_eq!(deleted.typ, "obj.del_dep");
    assert_eq!(entries(&deleted.attrs), pairs(&[("dep", "2"), ("id", "1")]));
    // the other object and the other relations were not touched
    assert!(s.get_obj(b).unwrap().deps.is_empty());
    assert!(s.get_obj(a).unwrap().subs.is_empty());
    assert!(s.get_obj(a).unwrap().refs.is_empty());
}

#[test]
fn deleting_an_absent_member_succeeds_and_is_recorded() {
    let mut s: Storage<u8> = Storage::new();
    let a = s.create_obj("a", "t").unwrap();
    let before = s.next_log_id();
    assert_eq!(s.obj_del_dep(a, 77), Ok(()));
    assert_eq!(s.next_log_id(), before + 1);
    let audit = last_log(&s);
    assert_eq!(audit.typ, "obj.del_dep");
    assert_eq!(entries(&audit.attrs), pairs(&[("dep", "77"), ("id", "1")]));
    assert!(s.get_obj(a).unwrap().deps.is_empty());
}

#[test]
fn adding_a_member_twice_keeps_one_and_records_both() {
    let mut s: Storage<u8> = Storage::new();
    let a = s.create_obj("a", "t").unwrap();
    assert_eq!(s.obj_add_sub(a, 5), Ok(()));
    assert_eq!(s.obj_add_sub(a, 6), Ok(()));
    assert_eq!(s.obj_add_sub(a, 5), Ok(()));
    assert_eq!(s.get_obj(a).unwrap().subs, vec![5, 6]);
    assert_eq!(s.next_log_id(), 5);
    let audit = last_log(&s);
    assert_eq!(audit.typ, "obj.add_sub");
    assert_eq!(entries(&audit.attrs), pairs(&[("sub", "5"), ("id", "1")]));
    assert_eq!(s.obj_del_sub(a, 5), Ok(()));
    assert_eq!(s.get_obj(a).unwrap().subs, vec![6]);
    assert_eq!(last_log(&s).typ, "obj.del_sub");
}

#[test]
fn the_three_relations_are_independent() {
    let mut s: Storage<u8> = Storage::new();
    let a = s.create_obj("a", "t").unwrap();
    assert_eq!(s.obj_add_dep(a, 1), Ok(()));
    assert_eq!(s.obj_add_sub(a, 2), Ok(()));
    assert_eq!(s.obj_add_ref(a, 3), Ok(()));
    let audit = last_log(&s);
    assert_eq!(audit.typ, "obj.add_ref");
    assert_eq!(entries(&audit.attrs), pairs(&[("ref", "3"), ("id", "1")]));
    let o = s.get_obj(a).unwrap();
    assert_eq!(o.deps, vec![1]);
    assert_eq!(o.subs, vec![2]);
    assert_eq!(o.refs, vec![3]);
    assert_eq!(s.obj_del_ref(a, 3), Ok(()));
    assert_eq!(last_log(&s).typ, "obj.del_ref");
    assert_eq!(entries(&last_log(&s).attrs), pairs(&[("ref", "3"), ("id", "1")]));
    let o = s.get_obj(a).unwrap();
    assert_eq!(o.deps, vec![1]);
    assert_eq!(o.subs, vec![2]);
    assert!(o.refs.is_empty());
}

#[test]
fn a_relation_to_a_missing_object_is_only_recorded() {
    let mut s: Storage<u8> = Storage::new();
    assert_eq!(s.obj_add_dep(4, 5), Ok(()));
    assert_eq!(s.get_obj(4).err(), Some(Error::InvalidObjID(4)));
    let audit = s.get_log(1).unwrap();
    assert_eq!(audit.typ, "obj.add_dep");
    assert_eq!(entries(&audit.attrs), pairs(&[("id", "4"), ("dep", "5")]));
}

#[test]
fn negative_identifiers_are_written_with_a_minus_sign() {
    let mut s: Storage<u8> = Storage::new();
    assert_eq!(s.obj_add_dep(-12, i32::MIN), Ok(()));
    let audit = s.get_log(1).unwrap();
    assert_eq!(entries(&audit.attrs), pairs(&[("id", "-12"), ("dep", "-2147483648")]));
    assert_eq!(s.obj_add_ref(0, i32::MAX), Ok(()));
    let audit = s.get_log(2).unwrap();
    assert_eq!(entries(&audit.attrs), pairs(&[("ref", "2147483647"), ("id", "0")]));
}

#[test]
fn deleting_an_unset_attribute_writes_no_log() {
    let mut s: Storage<u8> = Storage::new();
    let id = s.create_obj("desk", "furniture").unwrap();
    let before = s.next_log_id();
    assert_eq!(s.obj_del_attr(id, "color"), Ok(()));
    assert_eq!(s.next_log_id(), before);
    assert_eq!(s.get_log(before).err(), Some(Error::InvalidLogID(before)));
}

#[test]
fn deleting_a_set_attribute_writes_one_log() {
    let mut s: Storage<u8> = Storage::new();
    let id = s.create_obj("desk", "furniture").unwrap();
    assert_eq!(s.obj_set_attr(id, "color", "red"), Ok(()));
    assert_eq!(s.obj_set_attr(id, "size", "big"), Ok(()));
    let before = s.next_log_id();
    assert_eq!(s.obj_del_attr(id, "color"), Ok(()));
    assert_eq!(s.next_log_id(), before + 1);
    let audit = last_log(&s);
    assert_eq!(audit.typ, "obj.del_attr");
    assert_eq!(entries(&audit.attrs), pairs(&[("id", "1"), ("key", "color"), ("old", "red")]));
    assert_eq!(entries(&s.get_obj(id).unwrap().attrs), pairs(&[("size", "big")]));
    // a second deletion finds nothing and is not recorded
    assert_eq!(s.obj_del_attr(id, "color"), Ok(()));
    assert_eq!(s.next_log_id(), before + 1);
}

#[test]
fn dotted_keys_are_refused_and_nothing_is_recorded() {
    let mut s: Storage<u8> = Storage::new();
    let log = s.create_log("note", Attrs::new()).unwrap();
    let obj = s.create_obj("desk", "furniture").unwrap();
    let before = s.next_log_id();
    let bad = Err(Error::InvalidKey("a.b".to_string()));
    assert_eq!(s.log_set_attr(log, "a.b", "v"), bad);
    assert_eq!(s.obj_set_attr(obj, "a.b", "v"), bad);
    assert_eq!(s.obj_del_attr(obj, "a.b"), bad);
    // the key is judged before the identifier
    assert_eq!(s.obj_set_attr(99, "a.b", "v"), bad);
    assert_eq!(s.obj_del_attr(99, "."), Err(Error::InvalidKey(".".to_string())));
    assert_eq!(s.next_log_id(), before);
    assert!(s.get_log(log).unwrap().attrs.is_empty());
    assert!(s.get_obj(obj).unwrap().attrs.is_empty());
}

#[test]
fn missing_records_are_reported_and_nothing_changes() {
    let mut s: Storage<u8> = Storage::new();
    s.create_obj("desk", "furniture").unwrap();
    let before_log = s.next_log_id();
    let before_obj = s.next_obj_id();
    assert_eq!(s.get_log(0).err(), Some(Error::InvalidLogID(0)));
    assert_eq!(s.get_log(2).err(), Some(Error::InvalidLogID(2)));
    assert_eq!(s.get_log(-3).err(), Some(Error::InvalidLogID(-3)));
    assert_eq!(s.get_obj(2).err(), Some(Error::InvalidObjID(2)));
    assert_eq!(s.get_obj(i32::MAX).err(), Some(Error::InvalidObjID(i32::MAX)));
    assert_eq!(s.next_log_id(), before_log);
    assert_eq!(s.next_obj_id(), before_obj);
    assert_eq!(s.take_dispatches().len(), 1);
}

#[test]
fn lookup_finds_every_record_among_many() {
    let mut s: Storage<u8> = Storage::new();
    for i in 1..=40 {
        let name = format!("n{}", i);
        assert_eq!(s.create_obj(&name, "t"), Ok(i));
    }
    for i in 1..=40 {
        let o = s.get_obj(i).unwrap();
        assert_eq!(o.id, i);
        assert_eq!(o.name, format!("n{}", i));
        let l = s.get_log(i).unwrap();
        assert_eq!(l.id, i);
        assert_eq!(attr(&l.attrs, "id"), Some(i.to_string()));
    }
    assert_eq!(s.get_obj(41).err(), Some(Error::InvalidObjID(41)));
}
