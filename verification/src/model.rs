//! The store as a mathematical state, and each operation as a step from one
//! state to the next.
//!
//! A step that writes a log takes the time to stamp on it as an argument; a
//! step that fails leaves the state as it was.

use crate::attrs::{
    distinct_keys, first_dotted, has_key, plain_keys, put, put_if_absent, value_of, without,
    Entries,
};
use crate::error::ErrorView;
use crate::event::matching;
use crate::ids::id_limit;
use crate::record::{joined, parted, LogView, ObjectView, Relation};
use crate::text::{decimal, plain_key};
use vstd::prelude::*;

verus! {

/// A log that is due at handlers.
pub struct DispatchView {
    /// The log as it was written.
    pub log: LogView,
    /// The handlers that it fires, in the order in which they were registered.
    pub handlers: Seq<usize>,
}

/// The state of a store.
pub struct State {
    /// The identifier that the next log gets.
    pub next_log: int,
    /// The identifier that the next object gets.
    pub next_obj: int,
    /// The logs by identifier.
    pub logs: Map<int, LogView>,
    /// The objects by identifier.
    pub objs: Map<int, ObjectView>,
    /// The patterns of the registered handlers, oldest first.
    pub patterns: Seq<Seq<char>>,
    /// The logs that were written and not yet taken for their handlers,
    /// oldest first.
    pub outbox: Seq<DispatchView>,
}

/// A state after an operation, with what the operation answered.
pub struct Step<T> {
    pub next: State,
    pub reply: Result<T, ErrorView>,
}

/// One attribute of an audit log.
pub open spec fn entry(key: &str, value: Seq<char>) -> (Seq<char>, Seq<char>) {
    (key@, value)
}

/// The path of a log's attribute, as the audit log of its setting names it.
pub open spec fn attr_path(key: Seq<char>) -> Seq<char> {
    "attrs."@ + key
}

/// The attributes of the audit log for setting an attribute of a log.
pub open spec fn audit_log_set_attr(id: int, key: Seq<char>) -> Entries {
    seq![entry("id", decimal(id)), entry("attr", attr_path(key))]
}

/// The attributes of the audit log for making an object.
pub open spec fn audit_create(id: int) -> Entries {
    seq![entry("id", decimal(id))]
}

/// The attributes of the audit log for describing an object: the old
/// description is recorded only where there was one.
pub open spec fn audit_set_desc(id: int, old: Option<Seq<char>>, new: Seq<char>) -> Entries {
    match old {
        Some(o) => seq![entry("id", decimal(id)), entry("old", o), entry("new", new)],
        None => seq![entry("id", decimal(id)), entry("new", new)],
    }
}

/// The attributes of the audit log for setting an attribute of an object: the
/// old value is recorded only where there was one.
pub open spec fn audit_set_attr(
    id: int,
    key: Seq<char>,
    old: Option<Seq<char>>,
    new: Seq<char>,
) -> Entries {
    match old {
        Some(o) => seq![
            entry("key", key),
            entry("id", decimal(id)),
            entry("old", o),
            entry("new", new),
        ],
        None => seq![entry("key", key), entry("id", decimal(id)), entry("new", new)],
    }
}

/// The attributes of the audit log for deleting an attribute of an object.
pub open spec fn audit_del_attr(id: int, key: Seq<char>, old: Seq<char>) -> Entries {
    seq![entry("id", decimal(id)), entry("key", key), entry("old", old)]
}

/// The attribute under which the audit log of a relation names the target.
pub open spec fn relation_key(which: Relation) -> Seq<char> {
    match which {
        Relation::Dep => "dep"@,
        Relation::Sub => "sub"@,
        Relation::Ref => "ref"@,
    }
}

/// The type of the audit log for adding to or deleting from a relation.
pub open spec fn relation_event(which: Relation, adding: bool) -> Seq<char> {
    match which {
        Relation::Dep => if adding {
            "obj.add_dep"@
        } else {
            "obj.del_dep"@
        },
        Relation::Sub => if adding {
            "obj.add_sub"@
        } else {
            "obj.del_sub"@
        },
        Relation::Ref => if adding {
            "obj.add_ref"@
        } else {
            "obj.del_ref"@
        },
    }
}

/// The attributes of the audit log for adding to or deleting from a relation.
/// Adding a dependency names the object first, the others name the target
/// first.
pub open spec fn audit_relation(which: Relation, adding: bool, id: int, target: int) -> Entries {
    if which == Relation::Dep && adding {
        seq![entry("id", decimal(id)), (relation_key(which), decimal(target))]
    } else {
        seq![(relation_key(which), decimal(target)), entry("id", decimal(id))]
    }
}

/// The names under which audit logs keep what they record are plain keys,
/// and those that stand together in one log differ.
pub proof fn lemma_audit_names()
    ensures
        plain_key("id"@),
        plain_key("attr"@),
        plain_key("old"@),
        plain_key("new"@),
        plain_key("key"@),
        plain_key("dep"@),
        plain_key("sub"@),
        plain_key("ref"@),
        "id"@ != "attr"@,
        "id"@ != "old"@,
        "id"@ != "new"@,
        "id"@ != "key"@,
        "id"@ != "dep"@,
        "id"@ != "sub"@,
        "id"@ != "ref"@,
        "old"@ != "new"@,
        "key"@ != "old"@,
        "key"@ != "new"@,
{
    reveal_strlit("id");
    reveal_strlit("attr");
    reveal_strlit("old");
    reveal_strlit("new");
    reveal_strlit("key");
    reveal_strlit("dep");
    reveal_strlit("sub");
    reveal_strlit("ref");
    assert("id"@.len() == 2);
    assert("attr"@.len() == 4);
    assert("old"@.len() == 3);
    assert("new"@.len() == 3);
    assert("key"@.len() == 3);
    assert("dep"@.len() == 3);
    assert("sub"@.len() == 3);
    assert("ref"@.len() == 3);
    assert("old"@[0] != "new"@[0]);
    assert("key"@[0] != "old"@[0]);
    assert("key"@[0] != "new"@[0]);
}

/// The attributes of every audit log are fit to be stored: no key twice,
/// every key plain.
pub proof fn lemma_audit_valid(
    which: Relation,
    adding: bool,
    id: int,
    target: int,
    key: Seq<char>,
    old: Option<Seq<char>>,
    new: Seq<char>,
)
    ensures
        distinct_keys(audit_log_set_attr(id, key)) && plain_keys(audit_log_set_attr(id, key)),
        distinct_keys(audit_create(id)) && plain_keys(audit_create(id)),
        distinct_keys(audit_set_desc(id, old, new)) && plain_keys(audit_set_desc(id, old, new)),
        distinct_keys(audit_set_attr(id, key, old, new)) && plain_keys(
            audit_set_attr(id, key, old, new),
        ),
        distinct_keys(audit_del_attr(id, key, new)) && plain_keys(audit_del_attr(id, key, new)),
        distinct_keys(audit_relation(which, adding, id, target)) && plain_keys(
            audit_relation(which, adding, id, target),
        ),
{
    lemma_audit_names();
}

impl State {
    /// What every state of a store satisfies: identifiers were issued in
    /// order from 1, each record is stored under its own identifier, and no
    /// record holds a key twice, a key with a separator, or a relation with a
    /// member twice.
    pub open spec fn valid(self) -> bool {
        &&& 1 <= self.next_log <= id_limit()
        &&& 1 <= self.next_obj <= id_limit()
        &&& forall|id: int| #[trigger]
            self.logs.contains_key(id) ==> 1 <= id < self.next_log && self.logs[id].id == id
                && self.logs[id].valid()
        &&& forall|id: int| #[trigger]
            self.objs.contains_key(id) ==> 1 <= id < self.next_obj && self.objs[id].id == id
                && self.objs[id].valid()
    }

    /// The store before anything was written to it.
    pub open spec fn fresh() -> State {
        State {
            next_log: 1,
            next_obj: 1,
            logs: Map::empty(),
            objs: Map::empty(),
            patterns: Seq::empty(),
            outbox: Seq::empty(),
        }
    }

    /// The time on the log that was written last.
    pub open spec fn stamp(self) -> i64 {
        self.logs[self.next_log - 1].time
    }

    /// Whether the log sequence has an identifier left.
    pub open spec fn can_log(self) -> bool {
        self.next_log < id_limit()
    }

    /// Whether the object sequence has an identifier left.
    pub open spec fn can_make(self) -> bool {
        self.next_obj < id_limit()
    }

    /// Writes a log under the next identifier and leaves it in the outbox
    /// with the handlers whose pattern matches its type. The writing of a log
    /// is not itself recorded by another log.
    pub open spec fn write(self, typ: Seq<char>, attrs: Entries, time: i64) -> State {
        let log = LogView { id: self.next_log, typ, time, attrs };
        State {
            next_log: self.next_log + 1,
            logs: self.logs.insert(self.next_log, log),
            outbox: self.outbox.push(
                DispatchView { log, handlers: matching(self.patterns, typ) },
            ),
            ..self
        }
    }

    /// Registers a handler: its pattern goes behind the others.
    pub open spec fn register(self, pattern: Seq<char>) -> State {
        State { patterns: self.patterns.push(pattern), ..self }
    }

    /// Empties the outbox.
    pub open spec fn drained(self) -> State {
        State { outbox: Seq::empty(), ..self }
    }

    /// Creates a log. Fails on a key with a separator, naming the first such
    /// key, and when no identifier is left.
    pub open spec fn create_log(self, typ: Seq<char>, attrs: Entries, time: i64) -> Step<i32> {
        if !plain_keys(attrs) {
            Step { next: self, reply: Err(ErrorView::InvalidKey(attrs[first_dotted(attrs)].0)) }
        } else if !self.can_log() {
            Step { next: self, reply: Err(ErrorView::StoreUnavailable) }
        } else {
            Step { next: self.write(typ, attrs, time), reply: Ok(self.next_log as i32) }
        }
    }

    /// Sets an attribute of a log unless the log already has the key, and
    /// records the attempt whether or not anything changed, also where there
    /// is no such log.
    pub open spec fn log_set_attr(
        self,
        id: int,
        key: Seq<char>,
        value: Seq<char>,
        time: i64,
    ) -> Step<()> {
        if !plain_key(key) {
            Step { next: self, reply: Err(ErrorView::InvalidKey(key)) }
        } else if !self.can_log() {
            Step { next: self, reply: Err(ErrorView::StoreUnavailable) }
        } else {
            let logs = if self.logs.contains_key(id) {
                let log = self.logs[id];
                self.logs.insert(
                    id,
                    LogView { attrs: put_if_absent(log.attrs, key, value), ..log },
                )
            } else {
                self.logs
            };
            Step {
                next: State { logs, ..self }.write(
                    "log.set_attr"@,
                    audit_log_set_attr(id, key),
                    time,
                ),
                reply: Ok(()),
            }
        }
    }

    /// Looks a log up.
    pub open spec fn get_log(self, id: int) -> Result<LogView, ErrorView> {
        if self.logs.contains_key(id) {
            Ok(self.logs[id])
        } else {
            Err(ErrorView::InvalidLogID(id))
        }
    }

    /// Creates an object and records it.
    pub open spec fn create_obj(self, name: Seq<char>, typ: Seq<char>, time: i64) -> Step<i32> {
        if !self.can_make() || !self.can_log() {
            Step { next: self, reply: Err(ErrorView::StoreUnavailable) }
        } else {
            let id = self.next_obj;
            let made = State {
                next_obj: id + 1,
                objs: self.objs.insert(id, ObjectView::created(id, name, typ)),
                ..self
            };
            Step { next: made.write("obj.create"@, audit_create(id), time), reply: Ok(id as i32) }
        }
    }

    /// Replaces the description of an object and records the change.
    pub open spec fn obj_set_desc(self, id: int, desc: Seq<char>, time: i64) -> Step<()> {
        if !self.objs.contains_key(id) {
            Step { next: self, reply: Err(ErrorView::InvalidObjID(id)) }
        } else if !self.can_log() {
            Step { next: self, reply: Err(ErrorView::StoreUnavailable) }
        } else {
            let obj = self.objs[id];
            let changed = State {
                objs: self.objs.insert(id, ObjectView { desc: Some(desc), ..obj }),
                ..self
            };
            Step {
                next: changed.write("obj.set_desc"@, audit_set_desc(id, obj.desc, desc), time),
                reply: Ok(()),
            }
        }
    }

    /// Adds a target to a relation of an object, or deletes it, and records
    /// the attempt whether or not anything changed, also where there is no
    /// such object.
    pub open spec fn relate(
        self,
        which: Relation,
        adding: bool,
        id: int,
        target: i32,
        time: i64,
    ) -> Step<()> {
        if !self.can_log() {
            Step { next: self, reply: Err(ErrorView::StoreUnavailable) }
        } else {
            let objs = if self.objs.contains_key(id) {
                let obj = self.objs[id];
                let members = if adding {
                    joined(obj.relation(which), target)
                } else {
                    parted(obj.relation(which), target)
                };
                self.objs.insert(id, obj.with_relation(which, members))
            } else {
                self.objs
            };
            Step {
                next: State { objs, ..self }.write(
                    relation_event(which, adding),
                    audit_relation(which, adding, id, target as int),
                    time,
                ),
                reply: Ok(()),
            }
        }
    }

    /// Sets an attribute of an object, over a value that is there, and
    /// records the change.
    pub open spec fn obj_set_attr(
        self,
        id: int,
        key: Seq<char>,
        value: Seq<char>,
        time: i64,
    ) -> Step<()> {
        if !plain_key(key) {
            Step { next: self, reply: Err(ErrorView::InvalidKey(key)) }
        } else if !self.objs.contains_key(id) {
            Step { next: self, reply: Err(ErrorView::InvalidObjID(id)) }
        } else if !self.can_log() {
            Step { next: self, reply: Err(ErrorView::StoreUnavailable) }
        } else {
            let obj = self.objs[id];
            let changed = State {
                objs: self.objs.insert(
                    id,
                    ObjectView { attrs: put(obj.attrs, key, value), ..obj },
                ),
                ..self
            };
            Step {
                next: changed.write(
                    "obj.set_attr"@,
                    audit_set_attr(id, key, value_of(obj.attrs, key), value),
                    time,
                ),
                reply: Ok(()),
            }
        }
    }

    /// Deletes an attribute of an object. Only the deletion of a key that was
    /// there changes anything and is recorded.
    pub open spec fn obj_del_attr(self, id: int, key: Seq<char>, time: i64) -> Step<()> {
        if !plain_key(key) {
            Step { next: self, reply: Err(ErrorView::InvalidKey(key)) }
        } else if !self.objs.contains_key(id) {
            Step { next: self, reply: Err(ErrorView::InvalidObjID(id)) }
        } else if !has_key(self.objs[id].attrs, key) {
            Step { next: self, reply: Ok(()) }
        } else if !self.can_log() {
            Step { next: self, reply: Err(ErrorView::StoreUnavailable) }
        } else {
            let obj = self.objs[id];
            let changed = State {
                objs: self.objs.insert(id, ObjectView { attrs: without(obj.attrs, key), ..obj }),
                ..self
            };
            Step {
                next: changed.write(
                    "obj.del_attr"@,
                    audit_del_attr(id, key, value_of(obj.attrs, key)->0),
                    time,
                ),
                reply: Ok(()),
            }
        }
    }

    /// Looks an object up.
    pub open spec fn get_obj(self, id: int) -> Result<ObjectView, ErrorView> {
        if self.objs.contains_key(id) {
            Ok(self.objs[id])
        } else {
            Err(ErrorView::InvalidObjID(id))
        }
    }
}

} // verus!
