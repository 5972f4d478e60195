//! The two kinds of record: logs, which are written once, and objects, which
//! change and point at one another.

use crate::attrs::{distinct_keys, plain_keys, Attrs, Entries};
use vstd::prelude::*;

verus! {

/// A timestamped audit record of one event.
#[derive(Debug)]
pub struct Log {
    /// The identifier, unique among logs.
    pub id: i32,
    /// The type, by which handlers are picked.
    pub typ: String,
    /// When the log was written, in milliseconds since the Unix epoch.
    pub time: i64,
    /// The attributes.
    pub attrs: Attrs,
}

/// What a log holds.
pub struct LogView {
    pub id: int,
    pub typ: Seq<char>,
    pub time: i64,
    pub attrs: Entries,
}

impl View for Log {
    type V = LogView;

    open spec fn view(&self) -> LogView {
        LogView { id: self.id as int, typ: self.typ@, time: self.time, attrs: self.attrs@ }
    }
}

impl Log {
    /// A log is well formed when its attributes are.
    pub open spec fn wf(&self) -> bool {
        self.attrs.wf()
    }
}

impl Clone for Log {
    fn clone(&self) -> (r: Log)
        ensures
            r@ == self@,
    {
        Log {
            id: self.id,
            typ: self.typ.clone(),
            time: self.time,
            attrs: self.attrs.clone(),
        }
    }
}

/// A relation after `x` joins it: a member stays where it is, a new one goes
/// to the end.
pub open spec fn joined(s: Seq<i32>, x: i32) -> Seq<i32> {
    if s.contains(x) {
        s
    } else {
        s.push(x)
    }
}

/// A relation after `x` leaves it.
pub open spec fn parted(s: Seq<i32>, x: i32) -> Seq<i32> {
    if s.contains(x) {
        s.remove(s.index_of(x))
    } else {
        s
    }
}

/// Joining keeps a relation free of duplicates and makes `x` a member; every
/// other identifier is a member after it exactly if it was before.
pub proof fn lemma_joined(s: Seq<i32>, x: i32)
    requires
        s.no_duplicates(),
    ensures
        joined(s, x).no_duplicates(),
        joined(s, x).contains(x),
        forall|y: i32| y != x ==> joined(s, x).contains(y) == s.contains(y),
{
    let t = joined(s, x);
    if !s.contains(x) {
        assert(t[s.len() as int] == x);
        assert forall|y: i32| y != x implies t.contains(y) == s.contains(y) by {
            if s.contains(y) {
                let i = s.index_of(y);
                assert(t[i] == y);
            }
            if t.contains(y) {
                let i = t.index_of(y);
                assert(s[i] == y);
            }
        }
    }
}

/// Leaving keeps a relation free of duplicates and makes `x` no member; every
/// other identifier is a member after it exactly if it was before.
pub proof fn lemma_parted(s: Seq<i32>, x: i32)
    requires
        s.no_duplicates(),
    ensures
        parted(s, x).no_duplicates(),
        !parted(s, x).contains(x),
        forall|y: i32| y != x ==> parted(s, x).contains(y) == s.contains(y),
{
    let t = parted(s, x);
    if s.contains(x) {
        let k = s.index_of(x);
        assert forall|a: int| 0 <= a < t.len() implies #[trigger] t[a] == s[if a < k {
            a
        } else {
            a + 1
        }] by {}
        if t.contains(x) {
            let i = t.index_of(x);
            assert(t[i] == x);
        }
        assert forall|y: i32| y != x implies t.contains(y) == s.contains(y) by {
            if s.contains(y) {
                let i = s.index_of(y);
                let i1 = if i < k {
                    i
                } else {
                    i - 1
                };
                assert(t[i1] == y);
            }
            if t.contains(y) {
                let i = t.index_of(y);
                assert(t[i] == y);
            }
        }
    }
}

fn member_position(v: &Vec<i32>, x: i32) -> (r: Option<usize>)
    requires
        v@.no_duplicates(),
    ensures
        match r {
            Some(i) => i < v@.len() && v@[i as int] == x && v@.contains(x) && v@.index_of(x) == i,
            None => !v@.contains(x),
        },
{
    let mut i: usize = 0;
    while i < v.len()
        invariant
            v@.no_duplicates(),
            i <= v@.len(),
            forall|j: int| 0 <= j < i ==> v@[j] != x,
        decreases v@.len() - i,
    {
        if v[i] == x {
            return Some(i);
        }
        i += 1;
    }
    None
}

/// Makes `x` a member of the relation.
pub fn join(v: &mut Vec<i32>, x: i32)
    requires
        old(v)@.no_duplicates(),
    ensures
        final(v)@ == joined(old(v)@, x),
        final(v)@.no_duplicates(),
{
    proof {
        lemma_joined(v@, x);
    }
    if member_position(v, x).is_none() {
        v.push(x);
    }
}

/// Takes `x` out of the relation.
pub fn part(v: &mut Vec<i32>, x: i32)
    requires
        old(v)@.no_duplicates(),
    ensures
        final(v)@ == parted(old(v)@, x),
        final(v)@.no_duplicates(),
{
    proof {
        lemma_parted(v@, x);
    }
    match member_position(v, x) {
        Some(i) => {
            v.remove(i);
        },
        None => {},
    }
}

/// The three relations that an object has to other objects.
#[derive(Debug, Clone, Copy, PartialEq, Eq, Structural)]
pub enum Relation {
    /// Depends on.
    Dep,
    /// Has as a subordinate.
    Sub,
    /// Refers to.
    Ref,
}

/// A node of the graph: a named thing with a description, attributes, and
/// three relations to other objects.
#[derive(Debug)]
pub struct Object {
    /// The identifier, unique among objects.
    pub id: i32,
    /// The name, fixed when the object is made.
    pub name: String,
    /// The type, fixed when the object is made.
    pub typ: String,
    /// The description, if one was set.
    pub desc: Option<String>,
    /// The objects that this one depends on.
    pub deps: Vec<i32>,
    /// The objects that are subordinate to this one.
    pub subs: Vec<i32>,
    /// The objects that this one refers to.
    pub refs: Vec<i32>,
    /// The attributes.
    pub attrs: Attrs,
}

/// What an object holds.
pub struct ObjectView {
    pub id: int,
    pub name: Seq<char>,
    pub typ: Seq<char>,
    pub desc: Option<Seq<char>>,
    pub deps: Seq<i32>,
    pub subs: Seq<i32>,
    pub refs: Seq<i32>,
    pub attrs: Entries,
}

/// The text of an optional string.
pub open spec fn text_of(s: Option<String>) -> Option<Seq<char>> {
    match s {
        Some(t) => Some(t@),
        None => None,
    }
}

impl View for Object {
    type V = ObjectView;

    open spec fn view(&self) -> ObjectView {
        ObjectView {
            id: self.id as int,
            name: self.name@,
            typ: self.typ@,
            desc: text_of(self.desc),
            deps: self.deps@,
            subs: self.subs@,
            refs: self.refs@,
            attrs: self.attrs@,
        }
    }
}

impl Object {
    /// An object is well formed when its attributes are.
    pub open spec fn wf(&self) -> bool {
        self.attrs.wf()
    }
}

impl Clone for Object {
    fn clone(&self) -> (r: Object)
        ensures
            r@ == self@,
    {
        let desc = match &self.desc {
            Some(d) => Some(d.clone()),
            None => None,
        };
        Object {
            id: self.id,
            name: self.name.clone(),
            typ: self.typ.clone(),
            desc,
            deps: self.deps.clone(),
            subs: self.subs.clone(),
            refs: self.refs.clone(),
            attrs: self.attrs.clone(),
        }
    }
}

impl ObjectView {
    /// A new object: no description, no relations, no attributes.
    pub open spec fn created(id: int, name: Seq<char>, typ: Seq<char>) -> ObjectView {
        ObjectView {
            id,
            name,
            typ,
            desc: None,
            deps: Seq::empty(),
            subs: Seq::empty(),
            refs: Seq::empty(),
            attrs: Seq::empty(),
        }
    }

    /// The members of one relation.
    pub open spec fn relation(self, which: Relation) -> Seq<i32> {
        match which {
            Relation::Dep => self.deps,
            Relation::Sub => self.subs,
            Relation::Ref => self.refs,
        }
    }

    /// The object with one relation replaced.
    pub open spec fn with_relation(self, which: Relation, members: Seq<i32>) -> ObjectView {
        match which {
            Relation::Dep => ObjectView { deps: members, ..self },
            Relation::Sub => ObjectView { subs: members, ..self },
            Relation::Ref => ObjectView { refs: members, ..self },
        }
    }

    /// What a stored object must satisfy.
    pub open spec fn valid(self) -> bool {
        &&& self.deps.no_duplicates()
        &&& self.subs.no_duplicates()
        &&& self.refs.no_duplicates()
        &&& distinct_keys(self.attrs)
        &&& plain_keys(self.attrs)
    }
}

impl LogView {
    /// What a stored log must satisfy.
    pub open spec fn valid(self) -> bool {
        &&& distinct_keys(self.attrs)
        &&& plain_keys(self.attrs)
    }
}

} // verus!
