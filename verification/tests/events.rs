use sched::attrs::Attrs;
use sched::error::Error;
use sched::event::{DispatchDepth, EventHandlers, MAX_DISPATCH_DEPTH};
use sched::storage::Storage;

#[test]
fn handler_for_objects_fires_once_when_an_object_is_created() {
    let mut s: Storage<&str> = Storage::new();
    assert_eq!(s.add_lua("obj.*", "on-object"), Ok(()));
    s.create_obj("desk", "furniture").unwrap();
    let out = s.take_dispatches();
    assert_eq!(out.len(), 1);
    assert_eq!(out[0].handlers, vec![0]);
    assert!(out[0].log.typ.starts_with("obj."));
    assert_eq!(out[0].log.typ, "obj.create");
    assert_eq!(out[0].log.id, 1);
    assert_eq!(s.handler(0), Some(&"on-object"));
    assert_eq!(s.handler(1), None);
    // the outbox was taken
    assert!(s.take_dispatches().is_empty());
}

#[test]
fn handler_for_objects_does_not_fire_on_a_log_attribute() {
    let mut s: Storage<&str> = Storage::new();
    assert_eq!(s.add_lua("obj.*", "on-object"), Ok(()));
    let id = s.create_log("note", Attrs::new()).unwrap();
    s.log_set_attr(id, "k", "v").unwrap();
    let out = s.take_dispatches();
    assert_eq!(out.len(), 2);
    assert_eq!(out[0].log.typ, "note");
    assert!(out[0].handlers.is_empty());
    assert_eq!(out[1].log.typ, "log.set_attr");
    assert!(out[1].handlers.is_empty());
}

#[test]
fn every_object_operation_fires_the_object_handler_once() {
    let mut s: Storage<u8> = Storage::new();
    s.add_lua("obj.*", 7).unwrap();
    let id = s.create_obj("desk", "furniture").unwrap();
    s.obj_set_desc(id, "oak").unwrap();
    s.obj_add_dep(id, 2).unwrap();
    s.obj_add_sub(id, 2).unwrap();
    s.obj_add_ref(id, 2).unwrap();
    s.obj_set_attr(id, "k", "v").unwrap();
    s.obj_del_dep(id, 2).unwrap();
    s.obj_del_sub(id, 2).unwrap();
    s.obj_del_ref(id, 2).unwrap();
    s.obj_del_attr(id, "k").unwrap();
    let out = s.take_dispatches();
    let types: Vec<&str> = out.iter().map(|d| d.log.typ.as_str()).collect();
    assert_eq!(
        types,
        vec![
            "obj.create",
            "obj.set_desc",
            "obj.add_dep",
            "obj.add_sub",
            "obj.add_ref",
            "obj.set_attr",
            "obj.del_dep",
            "obj.del_sub",
            "obj.del_ref",
            "obj.del_attr",
        ]
    );
    for (i, d) in out.iter().enumerate() {
        assert_eq!(d.handlers, vec![0]);
        assert_eq!(d.log.id, i as i32 + 1);
    }
}

#[test]
fn handlers_fire_in_the_order_of_registration() {
    let mut s: Storage<char> = Storage::new();
    s.add_lua("^obj\\.", 'a').unwrap();
    s.add_lua("^log\\.", 'b').unwrap();
    s.add_lua("create$", 'c').unwrap();
    s.add_lua("^obj\\.", 'd').unwrap();
    s.create_obj("desk", "furniture").unwrap();
    s.log_set_attr(1, "k", "v").unwrap();
    s.create_log("create", Attrs::new()).unwrap();
    let out = s.take_dispatches();
    assert_eq!(out.len(), 3);
    // handlers that share a pattern all fire
    assert_eq!(out[0].handlers, vec![0, 2, 3]);
    assert_eq!(out[1].handlers, vec![1]);
    assert_eq!(out[2].handlers, vec![2]);
    assert_eq!(s.handler(3), Some(&'d'));
}

#[test]
fn a_handler_registered_later_does_not_fire_for_earlier_logs() {
    let mut s: Storage<u8> = Storage::new();
    s.create_obj("desk", "furniture").unwrap();
    s.add_lua("obj", 1).unwrap();
    s.create_obj("chair", "furniture").unwrap();
    let out = s.take_dispatches();
    assert_eq!(out.len(), 2);
    assert!(out[0].handlers.is_empty());
    assert_eq!(out[1].handlers, vec![0]);
}

#[test]
fn a_pattern_that_does_not_compile_is_refused() {
    let mut s: Storage<u8> = Storage::new();
    assert_eq!(s.add_lua("obj.(", 1), Err(Error::Regex("obj.(".to_string())));
    assert_eq!(s.add_lua("[", 1), Err(Error::Regex("[".to_string())));
    assert_eq!(s.handler(0), None);
    s.create_obj("desk", "furniture").unwrap();
    assert!(s.take_dispatches()[0].handlers.is_empty());
}

#[test]
fn the_dispatched_log_is_the_log_as_it_was_written() {
    let mut s: Storage<u8> = Storage::new();
    s.add_lua("note", 1).unwrap();
    let mut a = Attrs::new();
    a.insert("who".to_string(), "me".to_string());
    s.create_log_at("note", a, 99).unwrap();
    s.log_set_attr(1, "later", "yes").unwrap();
    let out = s.take_dispatches();
    assert_eq!(out[0].log.id, 1);
    assert_eq!(out[0].log.time, 99);
    assert_eq!(out[0].log.attrs.len(), 1);
    assert_eq!(out[0].log.attrs.get("who"), Some(&"me".to_string()));
    assert_eq!(out[0].log.attrs.get("later"), None);
}

// Runs the handlers that are due, and those that their writes make due. A
// handler tagged 1 describes the object that a log names; one tagged 2
// creates a log of type `echo`.
fn settle(
    s: &mut Storage<u8>,
    depth: &mut DispatchDepth,
    ran: &mut Vec<(u8, String)>,
    refused: &mut u32,
) {
    let batch = s.take_dispatches();
    for d in batch {
        for h in d.handlers.iter() {
            if depth.enter().is_err() {
                *refused += 1;
                continue;
            }
            let tag = *s.handler(*h).unwrap();
            ran.push((tag, d.log.typ.clone()));
            if tag == 1 {
                let id: i32 = d.log.attrs.get("id").unwrap().parse().unwrap();
                s.obj_set_desc(id, "seen").unwrap();
            } else if tag == 2 {
                s.create_log("echo", Attrs::new()).unwrap();
            }
            settle(s, depth, ran, refused);
            depth.leave();
        }
    }
}

#[test]
fn a_handler_may_change_the_store() {
    let mut s: Storage<u8> = Storage::new();
    s.add_lua("^obj\\.create$", 1).unwrap();
    let id = s.create_obj("desk", "furniture").unwrap();
    let mut depth = DispatchDepth::new();
    let mut ran = Vec::new();
    let mut refused = 0;
    settle(&mut s, &mut depth, &mut ran, &mut refused);
    assert_eq!(ran, vec![(1, "obj.create".to_string())]);
    assert_eq!(refused, 0);
    assert_eq!(s.get_obj(id).unwrap().desc, Some("seen".to_string()));
    // the handler's change was recorded like any other: one log, no more
    assert_eq!(s.next_log_id(), 3);
    assert_eq!(s.get_log(2).unwrap().typ, "obj.set_desc");
    assert!(s.take_dispatches().is_empty());
}

#[test]
fn handlers_that_set_one_another_off_are_stopped_at_the_limit() {
    let mut s: Storage<u8> = Storage::new();
    s.add_lua("^echo$", 2).unwrap();
    s.create_log("echo", Attrs::new()).unwrap();
    let mut depth = DispatchDepth::new();
    let mut ran = Vec::new();
    let mut refused = 0;
    settle(&mut s, &mut depth, &mut ran, &mut refused);
    assert_eq!(ran.len() as u32, MAX_DISPATCH_DEPTH);
    assert_eq!(refused, 1);
    assert_eq!(s.next_log_id() as u32, MAX_DISPATCH_DEPTH + 2);
}

#[test]
fn depth_counts_up_to_the_limit_and_back() {
    let mut d = DispatchDepth::new();
    for _ in 0..MAX_DISPATCH_DEPTH {
        assert!(!d.at_limit());
        assert_eq!(d.enter(), Ok(()));
    }
    assert!(d.at_limit());
    assert_eq!(d.enter(), Err(Error::RecursiveDispatch));
    assert_eq!(d.enter(), Err(Error::RecursiveDispatch));
    d.leave();
    assert_eq!(d.enter(), Ok(()));
    assert_eq!(d.enter(), Err(Error::RecursiveDispatch));
    for _ in 0..MAX_DISPATCH_DEPTH + 5 {
        d.leave();
    }
    assert!(!d.at_limit());
    assert_eq!(d.enter(), Ok(()));
}

#[test]
fn dispatcher_matches_anywhere_in_the_type() {
    let mut e: EventHandlers<u8> = EventHandlers::new();
    assert_eq!(e.len(), 0);
    assert_eq!(e.register("set", 1), Ok(()));
    assert_eq!(e.register("^set", 2), Ok(()));
    assert_eq!(e.register("attr$", 3), Ok(()));
    assert_eq!(e.register("(", 4), Err(Error::Regex("(".to_string())));
    assert_eq!(e.len(), 3);
    assert_eq!(e.dispatch("obj.set_attr"), vec![0, 2]);
    assert_eq!(e.dispatch("set"), vec![0, 1]);
    assert_eq!(e.dispatch("other"), Vec::<usize>::new());
    assert_eq!(e.handler(2), Some(&3));
    assert_eq!(e.handler(3), None);
}

#[test]
fn registered_patterns_can_be_read_back() {
    let mut s: Storage<u8> = Storage::new();
    s.add_lua("obj.*", 1).unwrap();
    s.add_lua("^log\\.set_attr$", 2).unwrap();
    assert_eq!(s.pattern(0), Some("obj.*"));
    assert_eq!(s.pattern(1), Some("^log\\.set_attr$"));
    assert_eq!(s.pattern(2), None);
    let mut e: EventHandlers<u8> = EventHandlers::new();
    e.register("a|b", 1).unwrap();
    assert_eq!(e.pattern(0), Some("a|b"));
    assert_eq!(e.pattern(1), None);
}
