//! What holds of the store whatever is done to it, proved of the steps in
//! `model`, which are what the operations of `Storage` promise to take.

use crate::attrs::{
    distinct_keys, has_key, lemma_key_found, lemma_plain_put, lemma_plain_without, lemma_put,
    lemma_put_if_absent, lemma_without, put, value_of, without, Entries,
};
use crate::error::ErrorView;
use crate::event::matching;
use crate::ids::id_limit;
use crate::model::{
    audit_create, audit_del_attr, audit_log_set_attr, audit_relation, audit_set_attr,
    lemma_audit_names, lemma_audit_valid, relation_event, DispatchView, State,
};
use crate::pattern::pattern_matches;
use crate::record::{joined, lemma_joined, lemma_parted, parted, LogView, ObjectView, Relation};
use crate::text::{decimal, plain_key};
use vstd::prelude::*;

verus! {

/// One operation on a store, with the time for the log that it may write.
pub enum Op {
    CreateLog { typ: Seq<char>, attrs: Entries, time: i64 },
    LogSetAttr { id: int, key: Seq<char>, value: Seq<char>, time: i64 },
    CreateObj { name: Seq<char>, typ: Seq<char>, time: i64 },
    SetDesc { id: int, desc: Seq<char>, time: i64 },
    Relate { which: Relation, adding: bool, id: int, target: i32, time: i64 },
    SetAttr { id: int, key: Seq<char>, value: Seq<char>, time: i64 },
    DelAttr { id: int, key: Seq<char>, time: i64 },
    Register { pattern: Seq<char> },
    TakeDispatches,
}

impl Op {
    /// Whether the operation's arguments are ones that a caller can pass:
    /// the attributes of a new log hold no key twice.
    pub open spec fn admissible(self) -> bool {
        match self {
            Op::CreateLog { typ, attrs, time } => distinct_keys(attrs),
            _ => true,
        }
    }
}

impl State {
    /// The state after an operation.
    pub open spec fn apply(self, op: Op) -> State {
        match op {
            Op::CreateLog { typ, attrs, time } => self.create_log(typ, attrs, time).next,
            Op::LogSetAttr { id, key, value, time } => self.log_set_attr(
                id,
                key,
                value,
                time,
            ).next,
            Op::CreateObj { name, typ, time } => self.create_obj(name, typ, time).next,
            Op::SetDesc { id, desc, time } => self.obj_set_desc(id, desc, time).next,
            Op::Relate { which, adding, id, target, time } => self.relate(
                which,
                adding,
                id,
                target,
                time,
            ).next,
            Op::SetAttr { id, key, value, time } => self.obj_set_attr(id, key, value, time).next,
            Op::DelAttr { id, key, time } => self.obj_del_attr(id, key, time).next,
            Op::Register { pattern } => self.register(pattern),
            Op::TakeDispatches => self.drained(),
        }
    }

    /// The identifier that the operation hands out, if it creates a log.
    pub open spec fn issued_log(self, op: Op) -> Option<i32> {
        match op {
            Op::CreateLog { typ, attrs, time } => match self.create_log(typ, attrs, time).reply {
                Ok(id) => Some(id),
                Err(_) => None,
            },
            _ => None,
        }
    }

    /// The identifier that the operation hands out, if it creates an object.
    pub open spec fn issued_obj(self, op: Op) -> Option<i32> {
        match op {
            Op::CreateObj { name, typ, time } => match self.create_obj(name, typ, time).reply {
                Ok(id) => Some(id),
                Err(_) => None,
            },
            _ => None,
        }
    }

    /// The state after a run of operations.
    pub open spec fn run(self, ops: Seq<Op>) -> State
        decreases ops.len(),
    {
        if ops.len() == 0 {
            self
        } else {
            self.run(ops.drop_last()).apply(ops.last())
        }
    }
}

/// Every operation takes a valid state to a valid state.
pub proof fn law_valid_is_kept(s: State, op: Op)
    requires
        s.valid(),
        op.admissible(),
    ensures
        s.apply(op).valid(),
{
    let t = s.apply(op);
    match op {
        Op::CreateLog { typ, attrs, time } => {},
        Op::LogSetAttr { id, key, value, time } => {
            lemma_audit_valid(Relation::Dep, true, id, 0, key, None, value);
            if s.logs.contains_key(id) && plain_key(key) {
                lemma_put_if_absent(s.logs[id].attrs, key, value);
                lemma_plain_put(s.logs[id].attrs, key, value);
            }
        },
        Op::CreateObj { name, typ, time } => {
            lemma_audit_valid(Relation::Dep, true, s.next_obj, 0, name, None, name);
        },
        Op::SetDesc { id, desc, time } => {
            if s.objs.contains_key(id) {
                lemma_audit_valid(Relation::Dep, true, id, 0, desc, s.objs[id].desc, desc);
            }
        },
        Op::Relate { which, adding, id, target, time } => {
            lemma_audit_valid(which, adding, id, target as int, seq![], None, seq![]);
            if s.objs.contains_key(id) {
                lemma_joined(s.objs[id].relation(which), target);
                lemma_parted(s.objs[id].relation(which), target);
            }
        },
        Op::SetAttr { id, key, value, time } => {
            if s.objs.contains_key(id) && plain_key(key) {
                lemma_audit_valid(
                    Relation::Dep,
                    true,
                    id,
                    0,
                    key,
                    value_of(s.objs[id].attrs, key),
                    value,
                );
                lemma_put(s.objs[id].attrs, key, value);
                lemma_plain_put(s.objs[id].attrs, key, value);
            }
        },
        Op::DelAttr { id, key, time } => {
            if s.objs.contains_key(id) && has_key(s.objs[id].attrs, key) {
                lemma_audit_valid(
                    Relation::Dep,
                    true,
                    id,
                    0,
                    key,
                    None,
                    value_of(s.objs[id].attrs, key)->0,
                );
                lemma_without(s.objs[id].attrs, key);
                lemma_plain_without(s.objs[id].attrs, key);
            }
        },
        Op::Register { pattern } => {},
        Op::TakeDispatches => {},
    }
}

/// A run of operations takes a valid state to a valid state.
pub proof fn law_run_is_valid(s: State, ops: Seq<Op>)
    requires
        s.valid(),
        forall|k: int| 0 <= k < ops.len() ==> (#[trigger] ops[k]).admissible(),
    ensures
        s.run(ops).valid(),
    decreases ops.len(),
{
    if ops.len() > 0 {
        law_run_is_valid(s, ops.drop_last());
        law_valid_is_kept(s.run(ops.drop_last()), ops.last());
    }
}

/// No operation takes an identifier sequence back, and none writes more
/// than one log or makes more than one object: the logs after it are those
/// before it, and one more under the next identifier if the sequence moved.
pub proof fn law_sequences_move_forward(s: State, op: Op)
    requires
        s.valid(),
    ensures
        s.next_log <= s.apply(op).next_log <= s.next_log + 1,
        s.next_obj <= s.apply(op).next_obj <= s.next_obj + 1,
        s.apply(op).logs.dom() == (if s.apply(op).next_log == s.next_log {
            s.logs.dom()
        } else {
            s.logs.dom().insert(s.next_log)
        }),
        s.apply(op).objs.dom() == (if s.apply(op).next_obj == s.next_obj {
            s.objs.dom()
        } else {
            s.objs.dom().insert(s.next_obj)
        }),
{
    let t = s.apply(op);
    if t.next_log == s.next_log {
        assert(t.logs.dom() =~= s.logs.dom());
    } else {
        assert(t.logs.dom() =~= s.logs.dom().insert(s.next_log));
    }
    if t.next_obj == s.next_obj {
        assert(t.objs.dom() =~= s.objs.dom());
    } else {
        assert(t.objs.dom() =~= s.objs.dom().insert(s.next_obj));
    }
}

/// Nothing changes unrecorded: an operation that writes no log leaves every
/// log and every object as it was.
pub proof fn law_every_change_is_recorded(s: State, op: Op)
    requires
        s.valid(),
    ensures
        s.apply(op).next_log == s.next_log ==> s.apply(op).logs == s.logs && s.apply(op).objs
            == s.objs && s.apply(op).next_obj == s.next_obj,
{
}

/// An identifier that is handed out is the next of its sequence, was held by
/// no record before, is held by the new record after, and moves the sequence
/// past itself.
pub proof fn law_issued_identifier_is_new(s: State, op: Op)
    requires
        s.valid(),
    ensures
        s.issued_log(op) matches Some(id) ==> id == s.next_log && !s.logs.contains_key(id as int)
            && s.apply(op).logs.contains_key(id as int) && s.apply(op).next_log == id + 1,
        s.issued_obj(op) matches Some(id) ==> id == s.next_obj && !s.objs.contains_key(id as int)
            && s.apply(op).objs.contains_key(id as int) && s.apply(op).next_obj == id + 1,
{
}

/// Along a run of operations the identifier sequences never fall.
pub proof fn lemma_run_moves_forward(s: State, ops: Seq<Op>, i: int, j: int)
    requires
        s.valid(),
        forall|k: int| 0 <= k < ops.len() ==> (#[trigger] ops[k]).admissible(),
        0 <= i <= j <= ops.len(),
    ensures
        s.run(ops.take(i)).next_log <= s.run(ops.take(j)).next_log,
        s.run(ops.take(i)).next_obj <= s.run(ops.take(j)).next_obj,
    decreases j - i,
{
    if i < j {
        lemma_run_moves_forward(s, ops, i, j - 1);
        assert(ops.take(j).drop_last() =~= ops.take(j - 1));
        assert(ops.take(j).last() == ops[j - 1]);
        law_run_is_valid(s, ops.take(j - 1));
        law_sequences_move_forward(s.run(ops.take(j - 1)), ops[j - 1]);
    }
}

/// In any run of operations, of two logs that are created the later one gets
/// the greater identifier, and so does the later of two objects: identifiers
/// rise strictly and none is handed out twice.
pub proof fn law_identifiers_rise(s: State, ops: Seq<Op>, i: int, j: int)
    requires
        s.valid(),
        forall|k: int| 0 <= k < ops.len() ==> (#[trigger] ops[k]).admissible(),
        0 <= i < j < ops.len(),
    ensures
        s.run(ops.take(i)).issued_log(ops[i]) is Some && s.run(ops.take(j)).issued_log(ops[j])
            is Some ==> s.run(ops.take(i)).issued_log(ops[i])->0 < s.run(ops.take(j)).issued_log(
            ops[j],
        )->0,
        s.run(ops.take(i)).issued_obj(ops[i]) is Some && s.run(ops.take(j)).issued_obj(ops[j])
            is Some ==> s.run(ops.take(i)).issued_obj(ops[i])->0 < s.run(ops.take(j)).issued_obj(
            ops[j],
        )->0,
{
    let before = s.run(ops.take(i));
    let after = s.run(ops.take(i + 1));
    let later = s.run(ops.take(j));
    law_run_is_valid(s, ops.take(i));
    law_run_is_valid(s, ops.take(j));
    assert(ops.take(i + 1).drop_last() =~= ops.take(i));
    assert(ops.take(i + 1).last() == ops[i]);
    assert(after == before.apply(ops[i]));
    law_issued_identifier_is_new(before, ops[i]);
    law_issued_identifier_is_new(later, ops[j]);
    lemma_run_moves_forward(s, ops, i + 1, j);
}

/// Logs are never deleted or rewritten: after any operation every log is
/// still there with its identifier, type and time, and every attribute that
/// it had has the value that it had.
pub proof fn law_logs_are_kept(s: State, op: Op, id: int)
    requires
        s.valid(),
        s.logs.contains_key(id),
    ensures
        s.apply(op).logs.contains_key(id),
        s.apply(op).logs[id].id == id,
        s.apply(op).logs[id].typ == s.logs[id].typ,
        s.apply(op).logs[id].time == s.logs[id].time,
        forall|key: Seq<char>| #[trigger]
            has_key(s.logs[id].attrs, key) ==> value_of(s.apply(op).logs[id].attrs, key)
                == value_of(s.logs[id].attrs, key),
{
    match op {
        Op::LogSetAttr { id: target, key, value, time } => {
            if target == id {
                lemma_put_if_absent(s.logs[id].attrs, key, value);
            }
        },
        _ => {},
    }
}

/// Objects are never deleted, and no operation changes the name or the type
/// of one.
pub proof fn law_objects_are_kept(s: State, op: Op, id: int)
    requires
        s.valid(),
        s.objs.contains_key(id),
    ensures
        s.apply(op).objs.contains_key(id),
        s.apply(op).objs[id].id == id,
        s.apply(op).objs[id].name == s.objs[id].name,
        s.apply(op).objs[id].typ == s.objs[id].typ,
{
}

/// An object that was just created reads back with the name and the type it
/// was given, no description, no relations and no attributes.
pub proof fn law_created_object_reads_back(s: State, name: Seq<char>, typ: Seq<char>, time: i64)
    requires
        s.valid(),
    ensures
        s.create_obj(name, typ, time).reply matches Ok(id) ==> s.create_obj(
            name,
            typ,
            time,
        ).next.get_obj(id as int) == Ok::<ObjectView, ErrorView>(
            ObjectView::created(id as int, name, typ),
        ),
{
}

/// Every object but the one named is as it was, and no object came or went.
pub open spec fn others_kept(s: State, t: State, id: int) -> bool {
    &&& t.next_obj == s.next_obj
    &&& t.objs.dom() == s.objs.dom()
    &&& forall|other: int| other != id && #[trigger] s.objs.contains_key(other) ==> t.objs[other]
        == s.objs[other]
}

/// Exactly one log was written on the way from `s` to `t`: it has the next
/// identifier, the given type and attributes, and lies in the outbox behind
/// what was there, due at the handlers whose pattern matches its type. The
/// registrations are as they were.
pub open spec fn recorded(s: State, t: State, typ: Seq<char>, attrs: Entries) -> bool {
    &&& t.next_log == s.next_log + 1
    &&& t.logs.dom() == s.logs.dom().insert(s.next_log)
    &&& t.logs[s.next_log].id == s.next_log
    &&& t.logs[s.next_log].typ == typ
    &&& t.logs[s.next_log].attrs == attrs
    &&& t.patterns == s.patterns
    &&& t.outbox == s.outbox.push(
        DispatchView { log: t.logs[s.next_log], handlers: matching(s.patterns, typ) },
    )
}

/// Every log that was there is as it was.
pub open spec fn logs_untouched(s: State, t: State) -> bool {
    forall|id: int| #[trigger] s.logs.contains_key(id) ==> t.logs[id] == s.logs[id]
}

/// Setting an attribute of a log that is there, under a plain key, while a
/// log identifier is left, succeeds. A key that the log has keeps its value
/// and the log stays as it was: the call is a silent no-op. A key that the
/// log lacks is added behind the others with the value. Either way every
/// other key, every other log and every object stay, and one log of type
/// `log.set_attr` records the call.
pub proof fn law_log_attr_is_set_once(
    s: State,
    id: int,
    key: Seq<char>,
    value: Seq<char>,
    time: i64,
)
    requires
        s.valid(),
        s.logs.contains_key(id),
        plain_key(key),
        s.can_log(),
    ensures
        ({
            let t = s.log_set_attr(id, key, value, time).next;
            &&& s.log_set_attr(id, key, value, time).reply == Ok::<(), ErrorView>(())
            &&& has_key(s.logs[id].attrs, key) ==> t.logs[id] == s.logs[id]
            &&& !has_key(s.logs[id].attrs, key) ==> t.logs[id] == (LogView {
                attrs: s.logs[id].attrs.push((key, value)),
                ..s.logs[id]
            }) && value_of(t.logs[id].attrs, key) == Some(value)
            &&& forall|other: Seq<char>|
                other != key ==> #[trigger] value_of(t.logs[id].attrs, other) == value_of(
                    s.logs[id].attrs,
                    other,
                )
            &&& forall|other: int|
                other != id && #[trigger] s.logs.contains_key(other) ==> t.logs[other]
                    == s.logs[other]
            &&& t.objs == s.objs
            &&& t.next_obj == s.next_obj
            &&& recorded(s, t, "log.set_attr"@, audit_log_set_attr(id, key))
        }),
{
    let t = s.log_set_attr(id, key, value, time).next;
    lemma_put_if_absent(s.logs[id].attrs, key, value);
    assert(t.logs.dom() =~= s.logs.dom().insert(s.next_log));
}

/// Setting an attribute of a log twice under one key leaves the value of the
/// first call (or the value that the log had before both), and the second
/// call, though it changes no attribute, still writes its one audit log.
pub proof fn law_log_attr_first_write_wins(
    s: State,
    id: int,
    key: Seq<char>,
    first: Seq<char>,
    second: Seq<char>,
    t1: i64,
    t2: i64,
)
    requires
        s.valid(),
        s.logs.contains_key(id),
        plain_key(key),
        s.next_log + 1 < id_limit(),
    ensures
        ({
            let once = s.log_set_attr(id, key, first, t1).next;
            let twice = once.log_set_attr(id, key, second, t2).next;
            &&& s.log_set_attr(id, key, first, t1).reply == Ok::<(), ErrorView>(())
            &&& once.log_set_attr(id, key, second, t2).reply == Ok::<(), ErrorView>(())
            &&& value_of(once.logs[id].attrs, key) == (if has_key(s.logs[id].attrs, key) {
                value_of(s.logs[id].attrs, key)
            } else {
                Some(first)
            })
            &&& twice.logs[id] == once.logs[id]
            &&& recorded(once, twice, "log.set_attr"@, audit_log_set_attr(id, key))
        }),
{
    let once = s.log_set_attr(id, key, first, t1).next;
    lemma_put_if_absent(s.logs[id].attrs, key, first);
    law_valid_is_kept(s, Op::LogSetAttr { id, key, value: first, time: t1 });
    assert(once == s.apply(Op::LogSetAttr { id, key, value: first, time: t1 }));
    assert(has_key(once.logs[id].attrs, key));
    law_log_attr_is_set_once(once, id, key, second, t2);
}

/// Setting an attribute of an object that is there, under a plain key,
/// while a log identifier is left, succeeds and puts the value under the
/// key, over a value that was there. Every other key of the object, its
/// name, type, description and relations, and every other object stay. One
/// log of type `obj.set_attr` records the key, the object, the new value,
/// and the old value where there was one.
pub proof fn law_obj_attr_is_set(s: State, id: int, key: Seq<char>, value: Seq<char>, time: i64)
    requires
        s.valid(),
        s.objs.contains_key(id),
        plain_key(key),
        s.can_log(),
    ensures
        ({
            let t = s.obj_set_attr(id, key, value, time).next;
            &&& s.obj_set_attr(id, key, value, time).reply == Ok::<(), ErrorView>(())
            &&& t.objs[id] == (ObjectView {
                attrs: put(s.objs[id].attrs, key, value),
                ..s.objs[id]
            })
            &&& value_of(t.objs[id].attrs, key) == Some(value)
            &&& forall|other: Seq<char>|
                other != key ==> #[trigger] value_of(t.objs[id].attrs, other) == value_of(
                    s.objs[id].attrs,
                    other,
                )
            &&& others_kept(s, t, id)
            &&& logs_untouched(s, t)
            &&& recorded(
                s,
                t,
                "obj.set_attr"@,
                audit_set_attr(id, key, value_of(s.objs[id].attrs, key), value),
            )
        }),
{
    let t = s.obj_set_attr(id, key, value, time).next;
    lemma_put(s.objs[id].attrs, key, value);
    assert(t.logs.dom() =~= s.logs.dom().insert(s.next_log));
    assert(t.objs.dom() =~= s.objs.dom());
}

/// Setting an attribute of an object twice under one key leaves the second
/// value, and the audit log of the second call holds the first value as the
/// old one and the second as the new one.
pub proof fn law_obj_attr_overwrites(
    s: State,
    id: int,
    key: Seq<char>,
    first: Seq<char>,
    second: Seq<char>,
    t1: i64,
    t2: i64,
)
    requires
        s.valid(),
        s.objs.contains_key(id),
        plain_key(key),
        s.next_log + 1 < id_limit(),
    ensures
        ({
            let once = s.obj_set_attr(id, key, first, t1).next;
            let twice = once.obj_set_attr(id, key, second, t2).next;
            &&& s.obj_set_attr(id, key, first, t1).reply == Ok::<(), ErrorView>(())
            &&& once.obj_set_attr(id, key, second, t2).reply == Ok::<(), ErrorView>(())
            &&& value_of(once.objs[id].attrs, key) == Some(first)
            &&& value_of(twice.objs[id].attrs, key) == Some(second)
            &&& recorded(
                once,
                twice,
                "obj.set_attr"@,
                audit_set_attr(id, key, Some(first), second),
            )
            &&& value_of(twice.logs[once.next_log].attrs, "old"@) == Some(first)
            &&& value_of(twice.logs[once.next_log].attrs, "new"@) == Some(second)
        }),
{
    let once = s.obj_set_attr(id, key, first, t1).next;
    law_obj_attr_is_set(s, id, key, first, t1);
    law_valid_is_kept(s, Op::SetAttr { id, key, value: first, time: t1 });
    assert(once == s.apply(Op::SetAttr { id, key, value: first, time: t1 }));
    law_obj_attr_is_set(once, id, key, second, t2);
    let audit = audit_set_attr(id, key, Some(first), second);
    lemma_audit_valid(Relation::Dep, true, id, 0, key, Some(first), second);
    lemma_audit_names();
    lemma_key_found(audit, "old"@, 2);
    lemma_key_found(audit, "new"@, 3);
}

/// Adding a target to a relation of an object that is there, while a log
/// identifier is left, succeeds: the target is a member, once, whether or
/// not an object has its identifier; every other member stays; the other
/// two relations, the name, type, description and attributes of the object,
/// and every other object stay. One log records the call.
pub proof fn law_member_is_added(
    s: State,
    which: Relation,
    id: int,
    target: i32,
    time: i64,
)
    requires
        s.valid(),
        s.objs.contains_key(id),
        s.can_log(),
    ensures
        ({
            let t = s.relate(which, true, id, target, time).next;
            &&& s.relate(which, true, id, target, time).reply == Ok::<(), ErrorView>(())
            &&& t.objs[id] == s.objs[id].with_relation(
                which,
                joined(s.objs[id].relation(which), target),
            )
            &&& t.objs[id].relation(which).contains(target)
            &&& t.objs[id].relation(which).no_duplicates()
            &&& forall|other: i32|
                other != target ==> #[trigger] t.objs[id].relation(which).contains(other)
                    == s.objs[id].relation(which).contains(other)
            &&& forall|other: Relation|
                other != which ==> #[trigger] t.objs[id].relation(other) == s.objs[id].relation(
                    other,
                )
            &&& others_kept(s, t, id)
            &&& logs_untouched(s, t)
            &&& recorded(
                s,
                t,
                relation_event(which, true),
                audit_relation(which, true, id, target as int),
            )
        }),
{
    let t = s.relate(which, true, id, target, time).next;
    lemma_joined(s.objs[id].relation(which), target);
    assert(t.logs.dom() =~= s.logs.dom().insert(s.next_log));
    assert(t.objs.dom() =~= s.objs.dom());
}

/// Deleting a target from a relation of an object that is there, while a
/// log identifier is left, succeeds whether or not the target is a member:
/// afterwards it is none, every other member stays, and the other two
/// relations, the other fields of the object and every other object stay.
/// Where the target was no member, every object is as it was. One log
/// records the call either way.
pub proof fn law_member_is_deleted(
    s: State,
    which: Relation,
    id: int,
    target: i32,
    time: i64,
)
    requires
        s.valid(),
        s.objs.contains_key(id),
        s.can_log(),
    ensures
        ({
            let t = s.relate(which, false, id, target, time).next;
            &&& s.relate(which, false, id, target, time).reply == Ok::<(), ErrorView>(())
            &&& t.objs[id] == s.objs[id].with_relation(
                which,
                parted(s.objs[id].relation(which), target),
            )
            &&& !t.objs[id].relation(which).contains(target)
            &&& t.objs[id].relation(which).no_duplicates()
            &&& forall|other: i32|
                other != target ==> #[trigger] t.objs[id].relation(which).contains(other)
                    == s.objs[id].relation(which).contains(other)
            &&& forall|other: Relation|
                other != which ==> #[trigger] t.objs[id].relation(other) == s.objs[id].relation(
                    other,
                )
            &&& !s.objs[id].relation(which).contains(target) ==> t.objs == s.objs
            &&& others_kept(s, t, id)
            &&& logs_untouched(s, t)
            &&& recorded(
                s,
                t,
                relation_event(which, false),
                audit_relation(which, false, id, target as int),
            )
        }),
{
    let t = s.relate(which, false, id, target, time).next;
    lemma_parted(s.objs[id].relation(which), target);
    assert(t.logs.dom() =~= s.logs.dom().insert(s.next_log));
    assert(t.objs.dom() =~= s.objs.dom());
    if !s.objs[id].relation(which).contains(target) {
        assert(t.objs[id] == s.objs[id]);
        assert(t.objs =~= s.objs);
    }
}

/// A dependency that was added is a member when the object is read, and no
/// member once it was deleted.
pub proof fn law_dependency_comes_and_goes(s: State, id: int, dep: i32, t1: i64, t2: i64)
    requires
        s.valid(),
        s.objs.contains_key(id),
        s.next_log + 1 < id_limit(),
    ensures
        ({
            let added = s.relate(Relation::Dep, true, id, dep, t1).next;
            let deleted = added.relate(Relation::Dep, false, id, dep, t2).next;
            &&& s.relate(Relation::Dep, true, id, dep, t1).reply == Ok::<(), ErrorView>(())
            &&& added.relate(Relation::Dep, false, id, dep, t2).reply == Ok::<(), ErrorView>(())
            &&& added.get_obj(id) is Ok
            &&& added.get_obj(id)->Ok_0.deps.contains(dep)
            &&& deleted.get_obj(id) is Ok
            &&& !deleted.get_obj(id)->Ok_0.deps.contains(dep)
        }),
{
    let added = s.relate(Relation::Dep, true, id, dep, t1).next;
    law_member_is_added(s, Relation::Dep, id, dep, t1);
    let op = Op::Relate { which: Relation::Dep, adding: true, id, target: dep, time: t1 };
    law_valid_is_kept(s, op);
    assert(added == s.apply(op));
    law_member_is_deleted(added, Relation::Dep, id, dep, t2);
}

/// Deleting an attribute of an object that is there, under a plain key:
/// where the key is not set the call succeeds, changes nothing and writes no
/// log; where it is set and a log identifier is left, the call succeeds,
/// removes that key alone, keeps the other fields of the object and every
/// other object, and writes exactly one log, of type `obj.del_attr`, that
/// holds the object, the key and the value that went.
pub proof fn law_del_attr_is_recorded_once(s: State, id: int, key: Seq<char>, time: i64)
    requires
        s.valid(),
        s.objs.contains_key(id),
        plain_key(key),
    ensures
        !has_key(s.objs[id].attrs, key) ==> s.obj_del_attr(id, key, time).reply == Ok::<
            (),
            ErrorView,
        >(()) && s.obj_del_attr(id, key, time).next == s,
        has_key(s.objs[id].attrs, key) && s.can_log() ==> ({
            let t = s.obj_del_attr(id, key, time).next;
            &&& s.obj_del_attr(id, key, time).reply == Ok::<(), ErrorView>(())
            &&& t.objs[id] == (ObjectView {
                attrs: without(s.objs[id].attrs, key),
                ..s.objs[id]
            })
            &&& value_of(t.objs[id].attrs, key) is None
            &&& forall|other: Seq<char>|
                other != key ==> #[trigger] value_of(t.objs[id].attrs, other) == value_of(
                    s.objs[id].attrs,
                    other,
                )
            &&& others_kept(s, t, id)
            &&& logs_untouched(s, t)
            &&& recorded(
                s,
                t,
                "obj.del_attr"@,
                audit_del_attr(id, key, value_of(s.objs[id].attrs, key)->0),
            )
        }),
{
    if has_key(s.objs[id].attrs, key) && s.can_log() {
        let t = s.obj_del_attr(id, key, time).next;
        lemma_without(s.objs[id].attrs, key);
        assert(t.logs.dom() =~= s.logs.dom().insert(s.next_log));
        assert(t.objs.dom() =~= s.objs.dom());
    }
}

/// Creating an object, while both sequences have an identifier left,
/// succeeds and leaves exactly one log in the outbox: of type `obj.create`,
/// with the new identifier under `id`, due at exactly the handlers whose
/// pattern matches that type, in the order of their registration.
pub proof fn law_created_object_fires_once(s: State, name: Seq<char>, typ: Seq<char>, time: i64)
    requires
        s.valid(),
        s.can_make(),
        s.can_log(),
    ensures
        ({
            let t = s.create_obj(name, typ, time).next;
            &&& s.create_obj(name, typ, time).reply == Ok::<i32, ErrorView>(s.next_obj as i32)
            &&& logs_untouched(s, t)
            &&& recorded(s, t, "obj.create"@, audit_create(s.next_obj))
            &&& value_of(t.logs[s.next_log].attrs, "id"@) == Some(decimal(s.next_obj))
        }),
{
    let t = s.create_obj(name, typ, time).next;
    assert(t.logs.dom() =~= s.logs.dom().insert(s.next_log));
    lemma_audit_valid(Relation::Dep, true, s.next_obj, 0, name, None, name);
    lemma_key_found(audit_create(s.next_obj), "id"@, 0);
}

/// Where one handler is registered, a log that is written is due at that
/// handler, once, if its pattern matches the log's type, and at no handler
/// if it does not.
pub proof fn law_lone_handler_fires_on_a_match(pattern: Seq<char>, typ: Seq<char>)
    ensures
        matching(seq![pattern], typ) == (if pattern_matches(pattern, typ) {
            seq![0usize]
        } else {
            Seq::<usize>::empty()
        }),
{
    let one = seq![pattern];
    assert(one.drop_last() =~= Seq::<Seq<char>>::empty());
    assert(matching(one.drop_last(), typ) =~= Seq::<usize>::empty());
    assert(one.last() == pattern);
    assert(matching(one, typ) =~= (if pattern_matches(pattern, typ) {
        seq![0usize]
    } else {
        Seq::<usize>::empty()
    }));
}

/// An attribute key that holds the separator is refused with `InvalidKey` by
/// every operation on the attributes of a log or an object, and the refused
/// call changes nothing: it writes no log.
pub proof fn law_dotted_key_is_refused(
    s: State,
    id: int,
    key: Seq<char>,
    value: Seq<char>,
    time: i64,
)
    requires
        !plain_key(key),
    ensures
        s.log_set_attr(id, key, value, time).reply == Err::<(), ErrorView>(
            ErrorView::InvalidKey(key),
        ),
        s.log_set_attr(id, key, value, time).next == s,
        s.obj_set_attr(id, key, value, time).reply == Err::<(), ErrorView>(
            ErrorView::InvalidKey(key),
        ),
        s.obj_set_attr(id, key, value, time).next == s,
        s.obj_del_attr(id, key, time).reply == Err::<(), ErrorView>(ErrorView::InvalidKey(key)),
        s.obj_del_attr(id, key, time).next == s,
{
}

/// Looking up an identifier that no record has fails with the error of its
/// kind. A lookup is no step: it has no next state.
pub proof fn law_missing_record_is_reported(s: State, id: int)
    ensures
        !s.logs.contains_key(id) ==> s.get_log(id) == Err::<LogView, ErrorView>(
            ErrorView::InvalidLogID(id),
        ),
        !s.objs.contains_key(id) ==> s.get_obj(id) == Err::<ObjectView, ErrorView>(
            ErrorView::InvalidObjID(id),
        ),
{
}

/// An operation that fails leaves the state as it was.
pub proof fn law_failure_changes_nothing(s: State, op: Op)
    ensures
        (match op {
            Op::CreateLog { typ, attrs, time } => s.create_log(typ, attrs, time).reply is Err,
            Op::LogSetAttr { id, key, value, time } => s.log_set_attr(id, key, value, time).reply
                is Err,
            Op::CreateObj { name, typ, time } => s.create_obj(name, typ, time).reply is Err,
            Op::SetDesc { id, desc, time } => s.obj_set_desc(id, desc, time).reply is Err,
            Op::Relate { which, adding, id, target, time } => s.relate(
                which,
                adding,
                id,
                target,
                time,
            ).reply is Err,
            Op::SetAttr { id, key, value, time } => s.obj_set_attr(id, key, value, time).reply
                is Err,
            Op::DelAttr { id, key, time } => s.obj_del_attr(id, key, time).reply is Err,
            Op::Register { pattern } => false,
            Op::TakeDispatches => false,
        }) ==> s.apply(op) == s,
{
}

} // verus!
