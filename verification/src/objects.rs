//! The object store: the nodes of the graph. An object is made once, changes
//! any number of times, and is never deleted.

use crate::attrs::{
    has_key, lemma_plain_put, lemma_plain_without, lemma_put, lemma_without, put, value_of,
    without,
};
use crate::logs::all_plain;
use crate::record::{join, joined, part, parted, text_of, Object, ObjectView, Relation};
use crate::table::{ascending, lemma_table_at, lemma_table_push, lemma_table_update, table};
use crate::text::plain_key;
use vstd::prelude::*;

verus! {

/// The identifiers of a run of objects.
pub open spec fn obj_keys(objs: Seq<Object>) -> Seq<int> {
    Seq::new(objs.len(), |i: int| objs[i].id as int)
}

/// What a run of objects holds.
pub open spec fn obj_views(objs: Seq<Object>) -> Seq<ObjectView> {
    Seq::new(objs.len(), |i: int| objs[i]@)
}

/// What a run of objects must satisfy to be stored: the objects lie in the
/// order of their identifiers, which are positive, and each object is valid.
pub open spec fn storable_objects(objs: Seq<Object>) -> bool {
    &&& ascending(obj_keys(objs))
    &&& forall|i: int| 0 <= i < objs.len() ==> 1 <= (#[trigger] objs[i]).id && objs[i]@.valid()
}

/// Tells whether no identifier occurs twice.
pub fn no_repeats(v: &Vec<i32>) -> (ok: bool)
    ensures
        ok == v@.no_duplicates(),
{
    let mut i: usize = 0;
    while i < v.len()
        invariant
            i <= v@.len(),
            forall|a: int, b: int| 0 <= a < b < i ==> v@[a] != v@[b],
        decreases v@.len() - i,
    {
        let mut j: usize = 0;
        while j < i
            invariant
                j <= i < v@.len(),
                forall|a: int| 0 <= a < j ==> v@[a] != v@[i as int],
            decreases i - j,
        {
            if v[j] == v[i] {
                return false;
            }
            j += 1;
        }
        i += 1;
    }
    assert forall|a: int, b: int| 0 <= a < v@.len() && 0 <= b < v@.len() && a != b implies v@[a]
        != v@[b] by {
        if a < b {
            assert(v@[a] != v@[b]);
        } else {
            assert(v@[b] != v@[a]);
        }
    }
    true
}

/// The objects, in the order of their identifiers.
pub struct ObjectStore {
    objs: Vec<Object>,
}

impl View for ObjectStore {
    type V = Map<int, ObjectView>;

    closed spec fn view(&self) -> Map<int, ObjectView> {
        table(obj_keys(self.objs@), obj_views(self.objs@))
    }
}

impl ObjectStore {
    /// The objects lie in the order of their identifiers and are fit to be
    /// stored.
    pub closed spec fn wf(&self) -> bool {
        storable_objects(self.objs@)
    }

    /// An object is held under its own identifier, which is positive, and is
    /// valid.
    pub proof fn lemma_held(&self, id: int)
        requires
            self.wf(),
            self@.contains_key(id),
        ensures
            1 <= id,
            self@[id].id == id,
            self@[id].valid(),
    {
        let keys = obj_keys(self.objs@);
        let i = keys.index_of(id);
        assert(keys[i] == id);
        assert(obj_views(self.objs@)[i] == self.objs@[i]@);
    }

    /// A store without objects.
    pub fn new() -> (s: Self)
        ensures
            s.wf(),
            s@ == Map::<int, ObjectView>::empty(),
    {
        let s = ObjectStore { objs: Vec::new() };
        assert(s@ =~= Map::<int, ObjectView>::empty());
        s
    }

    /// A store of the given objects, if they are fit to be stored.
    pub fn from_records(objs: Vec<Object>) -> (r: Option<Self>)
        requires
            forall|i: int| 0 <= i < objs@.len() ==> (#[trigger] objs@[i]).wf(),
        ensures
            match r {
                Some(s) => storable_objects(objs@) && s.wf() && s@ == table(
                    obj_keys(objs@),
                    obj_views(objs@),
                ),
                None => !storable_objects(objs@),
            },
    {
        let ghost keys = obj_keys(objs@);
        let mut prev: i32 = 0;
        let mut i: usize = 0;
        while i < objs.len()
            invariant
                i <= objs@.len(),
                keys == obj_keys(objs@),
                forall|k: int| 0 <= k < objs@.len() ==> (#[trigger] objs@[k]).wf(),
                forall|a: int, b: int| 0 <= a < b < i ==> keys[a] < keys[b],
                forall|a: int| 0 <= a < i ==> 1 <= (#[trigger] objs@[a]).id && objs@[a]@.valid(),
                i == 0 ==> prev == 0,
                i > 0 ==> prev == keys[i - 1],
            decreases objs@.len() - i,
        {
            let id = objs[i].id;
            assert(keys[i as int] == id);
            if id <= prev {
                assert(i > 0 && 1 <= id ==> !(keys[i - 1] < keys[i as int]));
                return None;
            }
            if !all_plain(&objs[i].attrs) {
                return None;
            }
            if !no_repeats(&objs[i].deps) || !no_repeats(&objs[i].subs) || !no_repeats(
                &objs[i].refs,
            ) {
                return None;
            }
            assert forall|a: int, b: int| 0 <= a < b < i + 1 implies keys[a] < keys[b] by {
                if b == i && a < i - 1 {
                    assert(keys[a] < keys[i - 1]);
                }
            }
            prev = id;
            i += 1;
        }
        Some(ObjectStore { objs })
    }

    /// The greatest identifier that an object has.
    pub fn last_id(&self) -> (r: Option<i32>)
        requires
            self.wf(),
        ensures
            match r {
                Some(m) => self@.contains_key(m as int) && forall|id: int|
                    self@.contains_key(id) ==> id <= m,
                None => forall|id: int| !self@.contains_key(id),
            },
    {
        let n = self.objs.len();
        let ghost keys = obj_keys(self.objs@);
        if n == 0 {
            assert forall|id: int| !self@.contains_key(id) by {
                if keys.contains(id) {
                    let i = keys.index_of(id);
                    assert(keys[i] == id);
                }
            }
            None
        } else {
            let m = self.objs[n - 1].id;
            proof {
                assert(keys[n - 1] == m);
                lemma_table_at(keys, obj_views(self.objs@), n - 1);
                assert forall|id: int| self@.contains_key(id) implies id <= m by {
                    let i = keys.index_of(id);
                    assert(keys[i] == id);
                    if i < n - 1 {
                        assert(keys[i] < keys[n - 1]);
                    }
                }
            }
            Some(m)
        }
    }

    fn position(&self, id: i32) -> (r: Option<usize>)
        requires
            self.wf(),
        ensures
            match r {
                Some(i) => i < self.objs@.len() && self.objs@[i as int].id == id
                    && self@.contains_key(id as int) && self@[id as int] == self.objs@[i as int]@,
                None => !self@.contains_key(id as int),
            },
    {
        let ghost keys = obj_keys(self.objs@);
        let mut lo: usize = 0;
        let mut hi: usize = self.objs.len();
        while lo < hi
            invariant
                self.wf(),
                keys == obj_keys(self.objs@),
                lo <= hi <= self.objs@.len(),
                forall|j: int| 0 <= j < lo ==> keys[j] < id,
                forall|j: int| hi <= j < keys.len() ==> keys[j] > id,
            decreases hi - lo,
        {
            let mid = lo + (hi - lo) / 2;
            let at = self.objs[mid].id;
            assert(keys[mid as int] == at);
            if at == id {
                proof {
                    lemma_table_at(keys, obj_views(self.objs@), mid as int);
                }
                return Some(mid);
            } else if at < id {
                assert forall|j: int| 0 <= j < mid + 1 implies keys[j] < id by {
                    if j < mid {
                        assert(keys[j] < keys[mid as int]);
                    }
                }
                lo = mid + 1;
            } else {
                assert forall|j: int| mid <= j < keys.len() implies keys[j] > id by {
                    if mid < j {
                        assert(keys[mid as int] < keys[j]);
                    }
                }
                hi = mid;
            }
        }
        assert(!keys.contains(id as int));
        None
    }

    /// An object changed in place is held under the same identifier, and
    /// every other object is as it was.
    proof fn lemma_amended(pre: &Self, post: &Self, i: int)
        requires
            pre.wf(),
            0 <= i < pre.objs@.len(),
            post.objs@ == pre.objs@.update(i, post.objs@[i]),
            post.objs@[i].id == pre.objs@[i].id,
            post.objs@[i]@.valid(),
        ensures
            post.wf(),
            post@ == pre@.insert(pre.objs@[i].id as int, post.objs@[i]@),
    {
        assert(obj_keys(post.objs@) =~= obj_keys(pre.objs@));
        assert(obj_views(post.objs@) =~= obj_views(pre.objs@).update(i, post.objs@[i]@));
        lemma_table_update(obj_keys(pre.objs@), obj_views(pre.objs@), i, post.objs@[i]@);
        assert forall|j: int| 0 <= j < post.objs@.len() implies 1 <= (#[trigger] post.objs@[j]).id
            && post.objs@[j]@.valid() by {
            if j != i {
                assert(post.objs@[j] == pre.objs@[j]);
            }
        }
    }

    /// Whether an object has the identifier.
    pub fn contains(&self, id: i32) -> (b: bool)
        requires
            self.wf(),
        ensures
            b == self@.contains_key(id as int),
    {
        self.position(id).is_some()
    }

    /// The object with the identifier.
    pub fn get(&self, id: i32) -> (r: Option<&Object>)
        requires
            self.wf(),
        ensures
            match r {
                Some(obj) => self@.contains_key(id as int) && obj@ == self@[id as int]
                    && obj.wf(),
                None => !self@.contains_key(id as int),
            },
    {
        match self.position(id) {
            Some(i) => Some(&self.objs[i]),
            None => None,
        }
    }

    /// Takes in an object whose identifier is above all that are there.
    pub fn insert(&mut self, obj: Object)
        requires
            old(self).wf(),
            1 <= obj.id,
            obj@.valid(),
            forall|id: int| old(self)@.contains_key(id) ==> id < obj.id,
        ensures
            final(self).wf(),
            final(self)@ == old(self)@.insert(obj.id as int, obj@),
    {
        proof {
            let keys = obj_keys(self.objs@);
            assert forall|i: int| 0 <= i < keys.len() implies keys[i] < obj.id by {
                lemma_table_at(keys, obj_views(self.objs@), i);
                assert(self@.contains_key(keys[i]));
            }
            lemma_table_push(keys, obj_views(self.objs@), obj.id as int, obj@);
        }
        self.objs.push(obj);
        proof {
            assert(obj_keys(self.objs@) =~= obj_keys(old(self).objs@).push(obj.id as int));
            assert(obj_views(self.objs@) =~= obj_views(old(self).objs@).push(obj@));
        }
    }

    /// Replaces the description of an object and hands back the one it had.
    pub fn set_desc(&mut self, id: i32, desc: &str) -> (prev: Option<String>)
        requires
            old(self).wf(),
            old(self)@.contains_key(id as int),
        ensures
            final(self).wf(),
            final(self)@ == old(self)@.insert(
                id as int,
                ObjectView { desc: Some(desc@), ..old(self)@[id as int] },
            ),
            text_of(prev) == old(self)@[id as int].desc,
    {
        match self.position(id) {
            Some(i) => {
                let mut next = Some(String::from_str(desc));
                core::mem::swap(&mut self.objs[i].desc, &mut next);
                proof {
                    Self::lemma_amended(old(self), self, i as int);
                }
                next
            },
            None => None,
        }
    }

    /// Adds a target to a relation of an object, or deletes it from the
    /// relation: a member is held once, and deleting what is no member
    /// changes nothing. Tells whether there is such an object; where there is
    /// none, nothing changes.
    pub fn relate(&mut self, id: i32, which: Relation, adding: bool, target: i32) -> (found: bool)
        requires
            old(self).wf(),
        ensures
            final(self).wf(),
            found == old(self)@.contains_key(id as int),
            final(self)@ == (if found {
                let obj = old(self)@[id as int];
                old(self)@.insert(
                    id as int,
                    obj.with_relation(
                        which,
                        if adding {
                            joined(obj.relation(which), target)
                        } else {
                            parted(obj.relation(which), target)
                        },
                    ),
                )
            } else {
                old(self)@
            }),
    {
        match self.position(id) {
            Some(i) => {
                match which {
                    Relation::Dep => if adding {
                        join(&mut self.objs[i].deps, target);
                    } else {
                        part(&mut self.objs[i].deps, target);
                    },
                    Relation::Sub => if adding {
                        join(&mut self.objs[i].subs, target);
                    } else {
                        part(&mut self.objs[i].subs, target);
                    },
                    Relation::Ref => if adding {
                        join(&mut self.objs[i].refs, target);
                    } else {
                        part(&mut self.objs[i].refs, target);
                    },
                }
                proof {
                    Self::lemma_amended(old(self), self, i as int);
                }
                true
            },
            None => false,
        }
    }

    /// Whether an object has an attribute under the key.
    pub fn has_attr(&self, id: i32, key: &str) -> (b: bool)
        requires
            self.wf(),
            self@.contains_key(id as int),
        ensures
            b == has_key(self@[id as int].attrs, key@),
    {
        match self.position(id) {
            Some(i) => self.objs[i].attrs.contains_key(key),
            None => false,
        }
    }

    /// Sets an attribute of an object, over a value that is there, and hands
    /// back the value that was there.
    pub fn set_attr(&mut self, id: i32, key: &str, val: &str) -> (prev: Option<String>)
        requires
            old(self).wf(),
            old(self)@.contains_key(id as int),
            plain_key(key@),
        ensures
            final(self).wf(),
            final(self)@ == old(self)@.insert(
                id as int,
                ObjectView {
                    attrs: put(old(self)@[id as int].attrs, key@, val@),
                    ..old(self)@[id as int]
                },
            ),
            text_of(prev) == value_of(old(self)@[id as int].attrs, key@),
    {
        match self.position(id) {
            Some(i) => {
                proof {
                    lemma_put(self.objs@[i as int].attrs@, key@, val@);
                    lemma_plain_put(self.objs@[i as int].attrs@, key@, val@);
                }
                let prev = self.objs[i].attrs.insert(
                    String::from_str(key),
                    String::from_str(val),
                );
                proof {
                    Self::lemma_amended(old(self), self, i as int);
                }
                prev
            },
            None => None,
        }
    }

    /// Deletes an attribute of an object and hands back the value that was
    /// there.
    pub fn del_attr(&mut self, id: i32, key: &str) -> (prev: Option<String>)
        requires
            old(self).wf(),
            old(self)@.contains_key(id as int),
        ensures
            final(self).wf(),
            final(self)@ == old(self)@.insert(
                id as int,
                ObjectView {
                    attrs: without(old(self)@[id as int].attrs, key@),
                    ..old(self)@[id as int]
                },
            ),
            text_of(prev) == value_of(old(self)@[id as int].attrs, key@),
    {
        match self.position(id) {
            Some(i) => {
                proof {
                    lemma_without(self.objs@[i as int].attrs@, key@);
                    lemma_plain_without(self.objs@[i as int].attrs@, key@);
                }
                let prev = self.objs[i].attrs.remove(key);
                proof {
                    Self::lemma_amended(old(self), self, i as int);
                }
                prev
            },
            None => None,
        }
    }
}

} // verus!
