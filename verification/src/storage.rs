//! The store: the single entry point to logs, objects and handlers.
//!
//! Every change of an object, and the one change that a log allows, writes
//! one log that describes it. Every log that is written is left in the outbox
//! together with the handlers whose pattern matches its type. The store runs
//! no handler itself: the caller takes the outbox when the operation has
//! returned and the store is free again, and runs the handlers then. A handler
//! may therefore call the store like any other caller, and sees the store as
//! it is by then.
//!
//! What an operation does is stated by the step of `State` that it takes.
//! Where an operation stamps a log with the current time, its contract names
//! the step for the time that the newest log bears, `stamp`.

use crate::attrs::{first_dotted, plain_keys, value_of, Attrs};
use crate::clock::now_millis;
pub use crate::error::Error;
use crate::error::{outcome, ErrorView};
use crate::event::{lemma_matching, matching, EventHandlers};
use crate::ids::{IdAllocator, Sequence};
use crate::logs::{log_keys, log_views, storable_logs, LogStore};
use crate::model::{
    audit_create, audit_del_attr, audit_log_set_attr, audit_relation, audit_set_attr,
    audit_set_desc, lemma_audit_names, relation_event, relation_key, DispatchView, State,
};
use crate::objects::{obj_keys, obj_views, storable_objects, ObjectStore};
use crate::pattern::pattern_compiles;
pub use crate::record::{Log, Object};
use crate::record::{LogView, ObjectView, Relation};
use crate::table::table;
use crate::text::{is_plain_key, plain_key, render};
use vstd::prelude::*;

verus! {

/// A log that is due at handlers.
#[derive(Debug)]
pub struct Dispatch {
    /// The log as it was written.
    pub log: Log,
    /// The places of the handlers that it fires, in the order in which they
    /// were registered.
    pub handlers: Vec<usize>,
}

impl View for Dispatch {
    type V = DispatchView;

    open spec fn view(&self) -> DispatchView {
        DispatchView { log: self.log@, handlers: self.handlers@ }
    }
}

/// What a run of dispatches holds.
pub open spec fn dispatch_views(out: Seq<Dispatch>) -> Seq<DispatchView> {
    Seq::new(out.len(), |i: int| out[i]@)
}

/// The first key that holds the separator, if there is one.
fn dotted_key(attrs: &Attrs) -> (r: Option<String>)
    requires
        attrs.wf(),
    ensures
        match r {
            Some(k) => !plain_keys(attrs@) && k@ == attrs@[first_dotted(attrs@)].0,
            None => plain_keys(attrs@),
        },
{
    let mut i: usize = 0;
    while i < attrs.len()
        invariant
            attrs.wf(),
            i <= attrs@.len(),
            forall|j: int| 0 <= j < i ==> plain_key((#[trigger] attrs@[j]).0),
        decreases attrs@.len() - i,
    {
        match attrs.entry(i) {
            Some((k, _)) => {
                if !is_plain_key(k.as_str()) {
                    assert(first_dotted(attrs@) == i) by {
                        let f = first_dotted(attrs@);
                        assert(!plain_key(attrs@[i as int].0));
                        if f < i {
                            assert(plain_key(attrs@[f].0));
                        } else if i < f {
                            assert(plain_key(attrs@[i as int].0));
                        }
                    }
                    return Some(k.clone());
                }
            },
            None => {},
        }
        i += 1;
    }
    None
}

/// The attribute under which the audit log of a relation names the target.
fn relation_key_text(which: Relation) -> (s: &'static str)
    ensures
        s@ == relation_key(which),
{
    match which {
        Relation::Dep => "dep",
        Relation::Sub => "sub",
        Relation::Ref => "ref",
    }
}

/// The type of the audit log for adding to or deleting from a relation.
fn relation_event_text(which: Relation, adding: bool) -> (s: &'static str)
    ensures
        s@ == relation_event(which, adding),
{
    match which {
        Relation::Dep => if adding {
            "obj.add_dep"
        } else {
            "obj.del_dep"
        },
        Relation::Sub => if adding {
            "obj.add_sub"
        } else {
            "obj.del_sub"
        },
        Relation::Ref => if adding {
            "obj.add_ref"
        } else {
            "obj.del_ref"
        },
    }
}

/// What records must satisfy to make up a store: both sequences have
/// started, the records are fit to be stored, and each identifier was issued
/// by its sequence.
pub open spec fn restorable(
    next_log: i32,
    next_obj: i32,
    logs: Seq<Log>,
    objs: Seq<Object>,
) -> bool {
    &&& 1 <= next_log
    &&& 1 <= next_obj
    &&& storable_logs(logs)
    &&& storable_objects(objs)
    &&& forall|i: int| 0 <= i < logs.len() ==> (#[trigger] logs[i]).id < next_log
    &&& forall|i: int| 0 <= i < objs.len() ==> (#[trigger] objs[i]).id < next_obj
}

/// The store. `H` is the type of the handlers that it keeps.
pub struct Storage<H> {
    ids: IdAllocator,
    logs: LogStore,
    objs: ObjectStore,
    handlers: EventHandlers<H>,
    outbox: Vec<Dispatch>,
}

impl<H> View for Storage<H> {
    type V = State;

    closed spec fn view(&self) -> State {
        State {
            next_log: self.ids.peek(Sequence::Logs),
            next_obj: self.ids.peek(Sequence::Objects),
            logs: self.logs@,
            objs: self.objs@,
            patterns: self.handlers.patterns(),
            outbox: dispatch_views(self.outbox@),
        }
    }
}

impl<H> Storage<H> {
    /// What holds of every store between operations: its parts are well
    /// formed, and every record has an identifier that its sequence has
    /// issued.
    pub closed spec fn wf(&self) -> bool {
        &&& self.ids.wf()
        &&& self.logs.wf()
        &&& self.objs.wf()
        &&& self.handlers.wf()
        &&& forall|id: int| #[trigger]
            self.logs@.contains_key(id) ==> id < self.ids.peek(Sequence::Logs)
        &&& forall|id: int| #[trigger]
            self.objs@.contains_key(id) ==> id < self.ids.peek(Sequence::Objects)
        &&& forall|i: int| 0 <= i < self.outbox@.len() ==> (#[trigger] self.outbox@[i]).log.wf()
        &&& forall|i: int, k: int|
            0 <= i < self.outbox@.len() && 0 <= k < self.outbox@[i].handlers@.len() ==> (
            #[trigger] self.outbox@[i].handlers@[k]) < self.handlers.patterns().len()
    }

    /// The registered handlers, each at the place of its pattern.
    pub closed spec fn handlers(&self) -> Seq<H> {
        self.handlers.handlers()
    }

    /// A well-formed store is in a valid state, has a handler for each
    /// pattern, and has no more patterns than a `usize` can count.
    pub proof fn lemma_valid(&self)
        requires
            self.wf(),
        ensures
            self@.valid(),
            self@.patterns.len() == self.handlers().len(),
            self@.patterns.len() <= usize::MAX,
    {
        self.handlers.lemma_paired();
        assert forall|id: int| #[trigger] self@.logs.contains_key(id) implies 1 <= id
            < self@.next_log && self@.logs[id].id == id && self@.logs[id].valid() by {
            self.logs.lemma_held(id);
        }
        assert forall|id: int| #[trigger] self@.objs.contains_key(id) implies 1 <= id
            < self@.next_obj && self@.objs[id].id == id && self@.objs[id].valid() by {
            self.objs.lemma_held(id);
        }
    }

    /// An empty store: no record, no handler, both identifier sequences at 1.
    pub fn new() -> (s: Self)
        ensures
            s.wf(),
            s@ == State::fresh(),
            s.handlers() == Seq::<H>::empty(),
    {
        let s = Storage {
            ids: IdAllocator::new(),
            logs: LogStore::new(),
            objs: ObjectStore::new(),
            handlers: EventHandlers::new(),
            outbox: Vec::new(),
        };
        assert(s@.outbox =~= Seq::<DispatchView>::empty());
        s
    }

    /// A store made of records that were kept elsewhere: the two sequences
    /// at the given identifiers, the given logs and objects, no handler, and
    /// an empty outbox. Records that cannot make up a store are refused with
    /// `CorruptRecord`.
    pub fn restore(next_log: i32, next_obj: i32, logs: Vec<Log>, objs: Vec<Object>) -> (res:
        Result<Self, Error>)
        requires
            forall|i: int| 0 <= i < logs@.len() ==> (#[trigger] logs@[i]).wf(),
            forall|i: int| 0 <= i < objs@.len() ==> (#[trigger] objs@[i]).wf(),
        ensures
            match res {
                Ok(s) => restorable(next_log, next_obj, logs@, objs@) && s.wf() && s@ == (State {
                    next_log: next_log as int,
                    next_obj: next_obj as int,
                    logs: table(log_keys(logs@), log_views(logs@)),
                    objs: table(obj_keys(objs@), obj_views(objs@)),
                    patterns: Seq::empty(),
                    outbox: Seq::empty(),
                }) && s.handlers() == Seq::<H>::empty(),
                Err(e) => !restorable(next_log, next_obj, logs@, objs@) && e@
                    == ErrorView::CorruptRecord,
            },
    {
        let ids = match IdAllocator::starting_at(next_log, next_obj) {
            Some(ids) => ids,
            None => {
                return Err(Error::CorruptRecord);
            },
        };
        let ghost log_ids = log_keys(logs@);
        let ghost obj_ids = obj_keys(objs@);
        let log_store = match LogStore::from_records(logs) {
            Some(store) => store,
            None => {
                return Err(Error::CorruptRecord);
            },
        };
        let obj_store = match ObjectStore::from_records(objs) {
            Some(store) => store,
            None => {
                return Err(Error::CorruptRecord);
            },
        };
        match log_store.last_id() {
            Some(m) => {
                if m >= next_log {
                    proof {
                        let i = log_ids.index_of(m as int);
                        assert(logs@[i].id == m);
                    }
                    return Err(Error::CorruptRecord);
                }
            },
            None => {},
        }
        match obj_store.last_id() {
            Some(m) => {
                if m >= next_obj {
                    proof {
                        let i = obj_ids.index_of(m as int);
                        assert(objs@[i].id == m);
                    }
                    return Err(Error::CorruptRecord);
                }
            },
            None => {},
        }
        proof {
            assert forall|i: int| 0 <= i < logs@.len() implies (#[trigger] logs@[i]).id
                < next_log by {
                assert(log_ids[i] == logs@[i].id);
                assert(log_store@.contains_key(log_ids[i]));
            }
            assert forall|i: int| 0 <= i < objs@.len() implies (#[trigger] objs@[i]).id
                < next_obj by {
                assert(obj_ids[i] == objs@[i].id);
                assert(obj_store@.contains_key(obj_ids[i]));
            }
        }
        let s = Storage {
            ids,
            logs: log_store,
            objs: obj_store,
            handlers: EventHandlers::new(),
            outbox: Vec::new(),
        };
        assert(s@.outbox =~= Seq::<DispatchView>::empty());
        Ok(s)
    }

    /// Issues the identifier for a log that is about to be written; the store
    /// is as it was but for the sequence.
    fn issue_log_id(&mut self) -> (res: Result<i32, Error>)
        requires
            old(self).wf(),
        ensures
            final(self).wf(),
            final(self).handlers() == old(self).handlers(),
            match res {
                Ok(id) => old(self)@.can_log() && id == old(self)@.next_log && final(self)@
                    == (State { next_log: id + 1, ..old(self)@ }),
                Err(e) => !old(self)@.can_log() && e@ == ErrorView::StoreUnavailable
                    && final(self)@ == old(self)@,
            },
    {
        self.ids.next(Sequence::Logs)
    }

    /// Writes a log under an identifier that the allocator has just issued and
    /// leaves it in the outbox for the handlers that it fires.
    fn append(&mut self, id: i32, typ: &str, attrs: Attrs, time: i64)
        requires
            old(self).wf(),
            1 <= id,
            id + 1 == old(self)@.next_log,
            !old(self)@.logs.contains_key(id as int),
            attrs.wf(),
            plain_keys(attrs@),
        ensures
            final(self).wf(),
            final(self)@ == (State { next_log: id as int, ..old(self)@ }).write(
                typ@,
                attrs@,
                time,
            ),
            final(self)@.stamp() == time,
            final(self).handlers() == old(self).handlers(),
    {
        let fired = self.handlers.dispatch(typ);
        proof {
            self.handlers.lemma_paired();
            lemma_matching(self.handlers.patterns(), typ@);
        }
        let log = Log { id, typ: String::from_str(typ), time, attrs };
        let copy = log.clone();
        self.logs.insert(log);
        self.outbox.push(Dispatch { log: copy, handlers: fired });
        proof {
            assert(dispatch_views(self.outbox@) =~= dispatch_views(old(self).outbox@).push(
                DispatchView { log: log@, handlers: matching(old(self)@.patterns, typ@) },
            ));
        }
    }

    /// Writes a log stamped with the current time.
    fn audit(&mut self, id: i32, typ: &str, attrs: Attrs)
        requires
            old(self).wf(),
            1 <= id,
            id + 1 == old(self)@.next_log,
            !old(self)@.logs.contains_key(id as int),
            attrs.wf(),
            plain_keys(attrs@),
        ensures
            final(self).wf(),
            final(self)@ == (State { next_log: id as int, ..old(self)@ }).write(
                typ@,
                attrs@,
                final(self)@.stamp(),
            ),
            final(self).handlers() == old(self).handlers(),
    {
        let time = now_millis();
        self.append(id, typ, attrs, time);
    }

    /// Creates a log stamped with the given time and returns its identifier.
    /// The log is refused with `InvalidKey` when one of its keys holds the
    /// separator (the error names the first such key), and with
    /// `StoreUnavailable` when no identifier is left; a refused log changes
    /// nothing.
    pub fn create_log_at(&mut self, typ: &str, attrs: Attrs, time: i64) -> (res: Result<
        i32,
        Error,
    >)
        requires
            old(self).wf(),
            attrs.wf(),
        ensures
            final(self).wf(),
            final(self)@ == old(self)@.create_log(typ@, attrs@, time).next,
            outcome(res) == old(self)@.create_log(typ@, attrs@, time).reply,
            final(self).handlers() == old(self).handlers(),
    {
        match dotted_key(&attrs) {
            Some(k) => {
                return Err(Error::InvalidKey(k));
            },
            None => {},
        }
        let id = match self.issue_log_id() {
            Ok(id) => id,
            Err(e) => {
                return Err(e);
            },
        };
        self.append(id, typ, attrs, time);
        Ok(id)
    }

    /// Creates a log stamped with the current time and returns its
    /// identifier; in all else it is `create_log_at`.
    pub fn create_log(&mut self, typ: &str, attrs: Attrs) -> (res: Result<i32, Error>)
        requires
            old(self).wf(),
            attrs.wf(),
        ensures
            final(self).wf(),
            final(self)@ == old(self)@.create_log(typ@, attrs@, final(self)@.stamp()).next,
            outcome(res) == old(self)@.create_log(typ@, attrs@, final(self)@.stamp()).reply,
            final(self).handlers() == old(self).handlers(),
    {
        let time = now_millis();
        self.create_log_at(typ, attrs, time)
    }

    /// Sets an attribute of a log unless the log already has the key: the
    /// first value that a key was given stays. The attempt is recorded by a
    /// log of type `log.set_attr` whether or not it changed anything, also
    /// where no log has the identifier. A key that holds the separator is
    /// refused with `InvalidKey`, and nothing is written.
    pub fn log_set_attr(&mut self, id: i32, key: &str, val: &str) -> (res: Result<(), Error>)
        requires
            old(self).wf(),
        ensures
            final(self).wf(),
            final(self)@ == old(self)@.log_set_attr(
                id as int,
                key@,
                val@,
                final(self)@.stamp(),
            ).next,
            outcome(res) == old(self)@.log_set_attr(
                id as int,
                key@,
                val@,
                final(self)@.stamp(),
            ).reply,
            final(self).handlers() == old(self).handlers(),
    {
        if !is_plain_key(key) {
            return Err(Error::InvalidKey(String::from_str(key)));
        }
        let audit_id = match self.issue_log_id() {
            Ok(a) => a,
            Err(e) => {
                return Err(e);
            },
        };
        self.logs.set_attr(id, key, val);
        let mut attrs = Attrs::new();
        let mut path = String::from_str("attrs.");
        path.append(key);
        proof {
            lemma_audit_names();
        }
        attrs.append("id", render(id));
        attrs.append("attr", path);
        assert(attrs@ =~= audit_log_set_attr(id as int, key@));
        self.audit(audit_id, "log.set_attr", attrs);
        Ok(())
    }

    /// Looks a log up. An identifier that no log has gives `InvalidLogID`.
    pub fn get_log(&self, id: i32) -> (res: Result<Log, Error>)
        requires
            self.wf(),
        ensures
            match res {
                Ok(log) => self@.get_log(id as int) == Ok::<LogView, ErrorView>(log@) && log.wf(),
                Err(e) => self@.get_log(id as int) == Err::<LogView, ErrorView>(e@),
            },
    {
        match self.logs.get(id) {
            Some(log) => Ok(log.clone()),
            None => Err(Error::InvalidLogID(id)),
        }
    }

    /// Creates an object with the given name and type and nothing else, records
    /// it by a log of type `obj.create`, and returns its identifier. When
    /// either identifier sequence is used up the object is refused with
    /// `StoreUnavailable`, and nothing changes.
    pub fn create_obj(&mut self, name: &str, typ: &str) -> (res: Result<i32, Error>)
        requires
            old(self).wf(),
        ensures
            final(self).wf(),
            final(self)@ == old(self)@.create_obj(name@, typ@, final(self)@.stamp()).next,
            outcome(res) == old(self)@.create_obj(name@, typ@, final(self)@.stamp()).reply,
            final(self).handlers() == old(self).handlers(),
    {
        if !self.ids.has_next(Sequence::Logs) {
            return Err(Error::StoreUnavailable);
        }
        let id = match self.ids.next(Sequence::Objects) {
            Ok(id) => id,
            Err(e) => {
                return Err(e);
            },
        };
        // An identifier for the log is left, as was seen above.
        let audit_id = match self.issue_log_id() {
            Ok(a) => a,
            Err(e) => {
                return Err(e);
            },
        };
        let obj = Object {
            id,
            name: String::from_str(name),
            typ: String::from_str(typ),
            desc: None,
            deps: Vec::new(),
            subs: Vec::new(),
            refs: Vec::new(),
            attrs: Attrs::new(),
        };
        assert(obj@ == ObjectView::created(id as int, name@, typ@));
        self.objs.insert(obj);
        let mut attrs = Attrs::new();
        attrs.append("id", render(id));
        proof {
            lemma_audit_names();
            assert(attrs@ =~= audit_create(id as int));
        }
        self.audit(audit_id, "obj.create", attrs);
        Ok(id)
    }

    /// Replaces the description of an object and records the change by a log
    /// of type `obj.set_desc`, which holds the old description only where
    /// there was one. An identifier that no object has gives `InvalidObjID`.
    pub fn obj_set_desc(&mut self, id: i32, desc: &str) -> (res: Result<(), Error>)
        requires
            old(self).wf(),
        ensures
            final(self).wf(),
            final(self)@ == old(self)@.obj_set_desc(id as int, desc@, final(self)@.stamp()).next,
            outcome(res) == old(self)@.obj_set_desc(id as int, desc@, final(self)@.stamp()).reply,
            final(self).handlers() == old(self).handlers(),
    {
        if !self.objs.contains(id) {
            return Err(Error::InvalidObjID(id));
        }
        let audit_id = match self.issue_log_id() {
            Ok(a) => a,
            Err(e) => {
                return Err(e);
            },
        };
        let prev = self.objs.set_desc(id, desc);
        proof {
            lemma_audit_names();
        }
        let mut attrs = Attrs::new();
        attrs.append("id", render(id));
        match prev {
            Some(p) => {
                attrs.append("old", p);
            },
            None => {},
        }
        attrs.append("new", String::from_str(desc));
        assert(attrs@ =~= audit_set_desc(id as int, old(self)@.objs[id as int].desc, desc@));
        self.audit(audit_id, "obj.set_desc", attrs);
        Ok(())
    }

    /// Adds a target to one relation of an object, or deletes it from the
    /// relation, and records the attempt.
    fn relate(&mut self, which: Relation, adding: bool, id: i32, target: i32) -> (res: Result<
        (),
        Error,
    >)
        requires
            old(self).wf(),
        ensures
            final(self).wf(),
            final(self)@ == old(self)@.relate(
                which,
                adding,
                id as int,
                target,
                final(self)@.stamp(),
            ).next,
            outcome(res) == old(self)@.relate(
                which,
                adding,
                id as int,
                target,
                final(self)@.stamp(),
            ).reply,
            final(self).handlers() == old(self).handlers(),
    {
        let audit_id = match self.issue_log_id() {
            Ok(a) => a,
            Err(e) => {
                return Err(e);
            },
        };
        self.objs.relate(id, which, adding, target);
        proof {
            lemma_audit_names();
        }
        let mut attrs = Attrs::new();
        match which {
            Relation::Dep => if adding {
                attrs.append("id", render(id));
                attrs.append(relation_key_text(which), render(target));
            } else {
                attrs.append(relation_key_text(which), render(target));
                attrs.append("id", render(id));
            },
            _ => {
                attrs.append(relation_key_text(which), render(target));
                attrs.append("id", render(id));
            },
        }
        assert(attrs@ =~= audit_relation(which, adding, id as int, target as int));
        self.audit(audit_id, relation_event_text(which, adding), attrs);
        Ok(())
    }

    /// Makes `dep` a dependency of the object. Adding a member again changes
    /// nothing. The attempt is recorded by a log of type `obj.add_dep`
    /// whether or not it changed anything, also where no object has the
    /// identifier.
    pub fn obj_add_dep(&mut self, id: i32, dep: i32) -> (res: Result<(), Error>)
        requires
            old(self).wf(),
        ensures
            final(self).wf(),
            final(self)@ == old(self)@.relate(
                Relation::Dep,
                true,
                id as int,
                dep,
                final(self)@.stamp(),
            ).next,
            outcome(res) == old(self)@.relate(
                Relation::Dep,
                true,
                id as int,
                dep,
                final(self)@.stamp(),
            ).reply,
            final(self).handlers() == old(self).handlers(),
    {
        self.relate(Relation::Dep, true, id, dep)
    }

    /// Makes `sub` a subordinate of the object; as `obj_add_dep`, with a log
    /// of type `obj.add_sub`.
    pub fn obj_add_sub(&mut self, id: i32, sub: i32) -> (res: Result<(), Error>)
        requires
            old(self).wf(),
        ensures
            final(self).wf(),
            final(self)@ == old(self)@.relate(
                Relation::Sub,
                true,
                id as int,
                sub,
                final(self)@.stamp(),
            ).next,
            outcome(res) == old(self)@.relate(
                Relation::Sub,
                true,
                id as int,
                sub,
                final(self)@.stamp(),
            ).reply,
            final(self).handlers() == old(self).handlers(),
    {
        self.relate(Relation::Sub, true, id, sub)
    }

    /// Makes the object refer to `rf`; as `obj_add_dep`, with a log of type
    /// `obj.add_ref`.
    pub fn obj_add_ref(&mut self, id: i32, rf: i32) -> (res: Result<(), Error>)
        requires
            old(self).wf(),
        ensures
            final(self).wf(),
            final(self)@ == old(self)@.relate(
                Relation::Ref,
                true,
                id as int,
                rf,
                final(self)@.stamp(),
            ).next,
            outcome(res) == old(self)@.relate(
                Relation::Ref,
                true,
                id as int,
                rf,
                final(self)@.stamp(),
            ).reply,
            final(self).handlers() == old(self).handlers(),
    {
        self.relate(Relation::Ref, true, id, rf)
    }

    /// Sets an attribute of an object, over a value that is there, and
    /// records the change by a log of type `obj.set_attr`, which holds the old
    /// value only where there was one. A key that holds the separator gives
    /// `InvalidKey`, an identifier that no object has `InvalidObjID`.
    pub fn obj_set_attr(&mut self, id: i32, key: &str, val: &str) -> (res: Result<(), Error>)
        requires
            old(self).wf(),
        ensures
            final(self).wf(),
            final(self)@ == old(self)@.obj_set_attr(
                id as int,
                key@,
                val@,
                final(self)@.stamp(),
            ).next,
            outcome(res) == old(self)@.obj_set_attr(
                id as int,
                key@,
                val@,
                final(self)@.stamp(),
            ).reply,
            final(self).handlers() == old(self).handlers(),
    {
        if !is_plain_key(key) {
            return Err(Error::InvalidKey(String::from_str(key)));
        }
        if !self.objs.contains(id) {
            return Err(Error::InvalidObjID(id));
        }
        let audit_id = match self.issue_log_id() {
            Ok(a) => a,
            Err(e) => {
                return Err(e);
            },
        };
        let prev = self.objs.set_attr(id, key, val);
        proof {
            lemma_audit_names();
        }
        let mut attrs = Attrs::new();
        attrs.append("key", String::from_str(key));
        attrs.append("id", render(id));
        match prev {
            Some(p) => {
                attrs.append("old", p);
            },
            None => {},
        }
        attrs.append("new", String::from_str(val));
        assert(attrs@ =~= audit_set_attr(
            id as int,
            key@,
            value_of(old(self)@.objs[id as int].attrs, key@),
            val@,
        ));
        self.audit(audit_id, "obj.set_attr", attrs);
        Ok(())
    }

    /// Takes `dep` out of the dependencies of the object. The attempt is
    /// recorded by a log of type `obj.del_dep` whether or not `dep` was a
    /// member, also where no object has the identifier.
    pub fn obj_del_dep(&mut self, id: i32, dep: i32) -> (res: Result<(), Error>)
        requires
            old(self).wf(),
        ensures
            final(self).wf(),
            final(self)@ == old(self)@.relate(
                Relation::Dep,
                false,
                id as int,
                dep,
                final(self)@.stamp(),
            ).next,
            outcome(res) == old(self)@.relate(
                Relation::Dep,
                false,
                id as int,
                dep,
                final(self)@.stamp(),
            ).reply,
            final(self).handlers() == old(self).handlers(),
    {
        self.relate(Relation::Dep, false, id, dep)
    }

    /// Takes `sub` out of the subordinates of the object; as `obj_del_dep`,
    /// with a log of type `obj.del_sub`.
    pub fn obj_del_sub(&mut self, id: i32, sub: i32) -> (res: Result<(), Error>)
        requires
            old(self).wf(),
        ensures
            final(self).wf(),
            final(self)@ == old(self)@.relate(
                Relation::Sub,
                false,
                id as int,
                sub,
                final(self)@.stamp(),
            ).next,
            outcome(res) == old(self)@.relate(
                Relation::Sub,
                false,
                id as int,
                sub,
                final(self)@.stamp(),
            ).reply,
            final(self).handlers() == old(self).handlers(),
    {
        self.relate(Relation::Sub, false, id, sub)
    }

    /// Takes `rf` out of what the object refers to; as `obj_del_dep`, with a
    /// log of type `obj.del_ref`.
    pub fn obj_del_ref(&mut self, id: i32, rf: i32) -> (res: Result<(), Error>)
        requires
            old(self).wf(),
        ensures
            final(self).wf(),
            final(self)@ == old(self)@.relate(
                Relation::Ref,
                false,
                id as int,
                rf,
                final(self)@.stamp(),
            ).next,
            outcome(res) == old(self)@.relate(
                Relation::Ref,
                false,
                id as int,
                rf,
                final(self)@.stamp(),
            ).reply,
            final(self).handlers() == old(self).handlers(),
    {
        self.relate(Relation::Ref, false, id, rf)
    }

    /// Deletes an attribute of an object. Only the deletion of a key that was
    /// set changes anything, and only that is recorded, by a log of type
    /// `obj.del_attr` that holds the value that went. A key that holds the
    /// separator gives `InvalidKey`, an identifier that no object has
    /// `InvalidObjID`.
    pub fn obj_del_attr(&mut self, id: i32, key: &str) -> (res: Result<(), Error>)
        requires
            old(self).wf(),
        ensures
            final(self).wf(),
            final(self)@ == old(self)@.obj_del_attr(id as int, key@, final(self)@.stamp()).next,
            outcome(res) == old(self)@.obj_del_attr(id as int, key@, final(self)@.stamp()).reply,
            final(self).handlers() == old(self).handlers(),
    {
        if !is_plain_key(key) {
            return Err(Error::InvalidKey(String::from_str(key)));
        }
        if !self.objs.contains(id) {
            return Err(Error::InvalidObjID(id));
        }
        if !self.objs.has_attr(id, key) {
            return Ok(());
        }
        let audit_id = match self.issue_log_id() {
            Ok(a) => a,
            Err(e) => {
                return Err(e);
            },
        };
        let prev = self.objs.del_attr(id, key);
        proof {
            lemma_audit_names();
        }
        let mut attrs = Attrs::new();
        attrs.append("id", render(id));
        attrs.append("key", String::from_str(key));
        match prev {
            Some(p) => {
                attrs.append("old", p);
            },
            None => {},
        }
        assert(attrs@ =~= audit_del_attr(
            id as int,
            key@,
            value_of(old(self)@.objs[id as int].attrs, key@)->0,
        ));
        self.audit(audit_id, "obj.del_attr", attrs);
        Ok(())
    }

    /// Looks an object up. An identifier that no object has gives
    /// `InvalidObjID`.
    pub fn get_obj(&self, id: i32) -> (res: Result<Object, Error>)
        requires
            self.wf(),
        ensures
            match res {
                Ok(obj) => self@.get_obj(id as int) == Ok::<ObjectView, ErrorView>(obj@)
                    && obj.wf(),
                Err(e) => self@.get_obj(id as int) == Err::<ObjectView, ErrorView>(e@),
            },
    {
        match self.objs.get(id) {
            Some(obj) => Ok(obj.clone()),
            None => Err(Error::InvalidObjID(id)),
        }
    }

    /// Registers a handler under a pattern, behind the handlers that are
    /// there; handlers that share a pattern all stay. A pattern that does not
    /// compile gives `Regex` and changes nothing.
    pub fn add_lua(&mut self, pat: &str, f: H) -> (res: Result<(), Error>)
        requires
            old(self).wf(),
        ensures
            final(self).wf(),
            pattern_compiles(pat@) ==> res is Ok && final(self)@ == old(self)@.register(pat@)
                && final(self).handlers() == old(self).handlers().push(f),
            !pattern_compiles(pat@) ==> outcome(res) == Err::<(), ErrorView>(
                ErrorView::Regex(pat@),
            ) && final(self)@ == old(self)@ && final(self).handlers() == old(self).handlers(),
    {
        self.handlers.register(pat, f)
    }

    /// The identifier that the next log gets.
    pub fn next_log_id(&self) -> (id: i32)
        ensures
            id == self@.next_log,
    {
        self.ids.upcoming(Sequence::Logs)
    }

    /// The identifier that the next object gets.
    pub fn next_obj_id(&self) -> (id: i32)
        ensures
            id == self@.next_obj,
    {
        self.ids.upcoming(Sequence::Objects)
    }

    /// The pattern at a place.
    pub fn pattern(&self, i: usize) -> (p: Option<&str>)
        ensures
            match p {
                Some(text) => i < self@.patterns.len() && text@ == self@.patterns[i as int],
                None => i >= self@.patterns.len(),
            },
    {
        self.handlers.pattern(i)
    }

    /// The handler at a place.
    pub fn handler(&self, i: usize) -> (h: Option<&H>)
        ensures
            match h {
                Some(f) => i < self.handlers().len() && *f == self.handlers()[i as int],
                None => i >= self.handlers().len(),
            },
    {
        self.handlers.handler(i)
    }

    /// Takes the outbox: the logs written since it was last taken, oldest
    /// first, each with the handlers that it fires. Every handler that the
    /// outbox names is registered.
    pub fn take_dispatches(&mut self) -> (out: Vec<Dispatch>)
        requires
            old(self).wf(),
        ensures
            final(self).wf(),
            dispatch_views(out@) == old(self)@.outbox,
            final(self)@ == old(self)@.drained(),
            final(self).handlers() == old(self).handlers(),
            forall|i: int| 0 <= i < out@.len() ==> (#[trigger] out@[i]).log.wf(),
            forall|i: int, k: int|
                0 <= i < out@.len() && 0 <= k < out@[i].handlers@.len() ==> (
                #[trigger] out@[i].handlers@[k]) < old(self).handlers().len(),
    {
        proof {
            self.handlers.lemma_paired();
        }
        let mut out: Vec<Dispatch> = Vec::new();
        core::mem::swap(&mut self.outbox, &mut out);
        assert(dispatch_views(self.outbox@) =~= Seq::<DispatchView>::empty());
        out
    }
}

} // verus!
