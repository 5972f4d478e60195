//! The log store: the audit trail. A log is written once and stays; the one
//! change that it allows is a new attribute.

use crate::attrs::{lemma_plain_put, lemma_put_if_absent, plain_keys, put_if_absent, Attrs};
use crate::record::{Log, LogView};
use crate::table::{ascending, lemma_table_at, lemma_table_push, lemma_table_update, table};
use crate::text::{is_plain_key, plain_key};
use vstd::prelude::*;

verus! {

/// The identifiers of a run of logs.
pub open spec fn log_keys(logs: Seq<Log>) -> Seq<int> {
    Seq::new(logs.len(), |i: int| logs[i].id as int)
}

/// What a run of logs holds.
pub open spec fn log_views(logs: Seq<Log>) -> Seq<LogView> {
    Seq::new(logs.len(), |i: int| logs[i]@)
}

/// What a run of logs must satisfy to be stored: the logs lie in the order
/// of their identifiers, which are positive, and each log is valid.
pub open spec fn storable_logs(logs: Seq<Log>) -> bool {
    &&& ascending(log_keys(logs))
    &&& forall|i: int| 0 <= i < logs.len() ==> 1 <= (#[trigger] logs[i]).id && logs[i]@.valid()
}

/// Tells whether every key of the attributes is plain.
pub fn all_plain(attrs: &Attrs) -> (ok: bool)
    requires
        attrs.wf(),
    ensures
        ok == plain_keys(attrs@),
{
    let mut i: usize = 0;
    while i < attrs.len()
        invariant
            attrs.wf(),
            i <= attrs@.len(),
            forall|j: int| 0 <= j < i ==> plain_key((#[trigger] attrs@[j]).0),
        decreases attrs@.len() - i,
    {
        match attrs.entry(i) {
            Some((k, _)) => {
                if !is_plain_key(k.as_str()) {
                    assert(!plain_key(attrs@[i as int].0));
                    return false;
                }
            },
            None => {},
        }
        i += 1;
    }
    true
}

/// The logs, in the order of their identifiers.
pub struct LogStore {
    logs: Vec<Log>,
}

impl View for LogStore {
    type V = Map<int, LogView>;

    closed spec fn view(&self) -> Map<int, LogView> {
        table(log_keys(self.logs@), log_views(self.logs@))
    }
}

impl LogStore {
    /// The logs lie in the order of their identifiers and are fit to be
    /// stored.
    pub closed spec fn wf(&self) -> bool {
        storable_logs(self.logs@)
    }

    /// A log is held under its own identifier, which is positive, and is
    /// valid.
    pub proof fn lemma_held(&self, id: int)
        requires
            self.wf(),
            self@.contains_key(id),
        ensures
            1 <= id,
            self@[id].id == id,
            self@[id].valid(),
    {
        let keys = log_keys(self.logs@);
        let i = keys.index_of(id);
        assert(keys[i] == id);
        assert(log_views(self.logs@)[i] == self.logs@[i]@);
    }

    /// A store without logs.
    pub fn new() -> (s: Self)
        ensures
            s.wf(),
            s@ == Map::<int, LogView>::empty(),
    {
        let s = LogStore { logs: Vec::new() };
        assert(s@ =~= Map::<int, LogView>::empty());
        s
    }

    /// A store of the given logs, if they are fit to be stored.
    pub fn from_records(logs: Vec<Log>) -> (r: Option<Self>)
        requires
            forall|i: int| 0 <= i < logs@.len() ==> (#[trigger] logs@[i]).wf(),
        ensures
            match r {
                Some(s) => storable_logs(logs@) && s.wf() && s@ == table(
                    log_keys(logs@),
                    log_views(logs@),
                ),
                None => !storable_logs(logs@),
            },
    {
        let ghost keys = log_keys(logs@);
        let mut prev: i32 = 0;
        let mut i: usize = 0;
        while i < logs.len()
            invariant
                i <= logs@.len(),
                keys == log_keys(logs@),
                forall|k: int| 0 <= k < logs@.len() ==> (#[trigger] logs@[k]).wf(),
                forall|a: int, b: int| 0 <= a < b < i ==> keys[a] < keys[b],
                forall|a: int| 0 <= a < i ==> 1 <= (#[trigger] logs@[a]).id && logs@[a]@.valid(),
                i == 0 ==> prev == 0,
                i > 0 ==> prev == keys[i - 1],
            decreases logs@.len() - i,
        {
            let id = logs[i].id;
            assert(keys[i as int] == id);
            if id <= prev {
                assert(i > 0 && 1 <= id ==> !(keys[i - 1] < keys[i as int]));
                return None;
            }
            if !all_plain(&logs[i].attrs) {
                return None;
            }
            assert forall|a: int, b: int| 0 <= a < b < i + 1 implies keys[a] < keys[b] by {
                if b == i && a < i - 1 {
                    assert(keys[a] < keys[i - 1]);
                }
            }
            prev = id;
            i += 1;
        }
        Some(LogStore { logs })
    }

    /// The greatest identifier that a log has.
    pub fn last_id(&self) -> (r: Option<i32>)
        requires
            self.wf(),
        ensures
            match r {
                Some(m) => self@.contains_key(m as int) && forall|id: int|
                    self@.contains_key(id) ==> id <= m,
                None => forall|id: int| !self@.contains_key(id),
            },
    {
        let n = self.logs.len();
        let ghost keys = log_keys(self.logs@);
        if n == 0 {
            assert forall|id: int| !self@.contains_key(id) by {
                if keys.contains(id) {
                    let i = keys.index_of(id);
                    assert(keys[i] == id);
                }
            }
            None
        } else {
            let m = self.logs[n - 1].id;
            proof {
                assert(keys[n - 1] == m);
                lemma_table_at(keys, log_views(self.logs@), n - 1);
                assert forall|id: int| self@.contains_key(id) implies id <= m by {
                    let i = keys.index_of(id);
                    assert(keys[i] == id);
                    if i < n - 1 {
                        assert(keys[i] < keys[n - 1]);
                    }
                }
            }
            Some(m)
        }
    }

    fn position(&self, id: i32) -> (r: Option<usize>)
        requires
            self.wf(),
        ensures
            match r {
                Some(i) => i < self.logs@.len() && self.logs@[i as int].id == id
                    && self@.contains_key(id as int) && self@[id as int] == self.logs@[i as int]@,
                None => !self@.contains_key(id as int),
            },
    {
        let ghost keys = log_keys(self.logs@);
        let mut lo: usize = 0;
        let mut hi: usize = self.logs.len();
        while lo < hi
            invariant
                self.wf(),
                keys == log_keys(self.logs@),
                lo <= hi <= self.logs@.len(),
                forall|j: int| 0 <= j < lo ==> keys[j] < id,
                forall|j: int| hi <= j < keys.len() ==> keys[j] > id,
            decreases hi - lo,
        {
            let mid = lo + (hi - lo) / 2;
            let at = self.logs[mid].id;
            assert(keys[mid as int] == at);
            if at == id {
                proof {
                    lemma_table_at(keys, log_views(self.logs@), mid as int);
                }
                return Some(mid);
            } else if at < id {
                assert forall|j: int| 0 <= j < mid + 1 implies keys[j] < id by {
                    if j < mid {
                        assert(keys[j] < keys[mid as int]);
                    }
                }
                lo = mid + 1;
            } else {
                assert forall|j: int| mid <= j < keys.len() implies keys[j] > id by {
                    if mid < j {
                        assert(keys[mid as int] < keys[j]);
                    }
                }
                hi = mid;
            }
        }
        assert(!keys.contains(id as int));
        None
    }

    /// Whether a log has the identifier.
    pub fn contains(&self, id: i32) -> (b: bool)
        requires
            self.wf(),
        ensures
            b == self@.contains_key(id as int),
    {
        self.position(id).is_some()
    }

    /// The log with the identifier.
    pub fn get(&self, id: i32) -> (r: Option<&Log>)
        requires
            self.wf(),
        ensures
            match r {
                Some(log) => self@.contains_key(id as int) && log@ == self@[id as int]
                    && log.wf(),
                None => !self@.contains_key(id as int),
            },
    {
        match self.position(id) {
            Some(i) => Some(&self.logs[i]),
            None => None,
        }
    }

    /// Takes in a log whose identifier is above all that are there.
    pub fn insert(&mut self, log: Log)
        requires
            old(self).wf(),
            1 <= log.id,
            log@.valid(),
            forall|id: int| old(self)@.contains_key(id) ==> id < log.id,
        ensures
            final(self).wf(),
            final(self)@ == old(self)@.insert(log.id as int, log@),
    {
        proof {
            let keys = log_keys(self.logs@);
            assert forall|i: int| 0 <= i < keys.len() implies keys[i] < log.id by {
                lemma_table_at(keys, log_views(self.logs@), i);
                assert(self@.contains_key(keys[i]));
            }
            lemma_table_push(keys, log_views(self.logs@), log.id as int, log@);
        }
        self.logs.push(log);
        proof {
            assert(log_keys(self.logs@) =~= log_keys(old(self).logs@).push(log.id as int));
            assert(log_views(self.logs@) =~= log_views(old(self).logs@).push(log@));
        }
    }

    /// Gives the log with the identifier an attribute unless it has the key
    /// already: the first value that a key was given stays. Tells whether
    /// there is such a log; where there is none, nothing changes.
    pub fn set_attr(&mut self, id: i32, key: &str, val: &str) -> (found: bool)
        requires
            old(self).wf(),
            plain_key(key@),
        ensures
            final(self).wf(),
            found == old(self)@.contains_key(id as int),
            final(self)@ == (if found {
                old(self)@.insert(
                    id as int,
                    LogView {
                        attrs: put_if_absent(old(self)@[id as int].attrs, key@, val@),
                        ..old(self)@[id as int]
                    },
                )
            } else {
                old(self)@
            }),
    {
        match self.position(id) {
            Some(i) => {
                proof {
                    lemma_plain_put(self.logs@[i as int].attrs@, key@, val@);
                    lemma_put_if_absent(self.logs@[i as int].attrs@, key@, val@);
                }
                self.logs[i].attrs.insert_if_absent(String::from_str(key), String::from_str(val));
                proof {
                    let pre = old(self).logs@;
                    let post = self.logs@;
                    assert(log_keys(post) =~= log_keys(pre));
                    assert(log_views(post) =~= log_views(pre).update(i as int, post[i as int]@));
                    lemma_table_update(log_keys(pre), log_views(pre), i as int, post[i as int]@);
                    assert forall|j: int| 0 <= j < post.len() implies 1 <= (#[trigger] post[j]).id
                        && post[j]@.valid() by {
                        if j != i {
                            assert(post[j] == pre[j]);
                        }
                    }
                }
                true
            },
            None => false,
        }
    }
}

} // verus!
