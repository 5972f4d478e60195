//! Records as a document store keeps them, and the way from a record to its
//! document and back.
//!
//! A document leaves out what is empty: a log without attributes has no
//! attributes field, an object has a field for its description, for each
//! relation and for its attributes only where there is something to keep.
//! The attributes of a stored log may hold integers beside strings; a log
//! that is read takes an integer as its decimal text.

use crate::attrs::{distinct_keys, key_index, Attrs, Entries};
use crate::error::{Error, ErrorView};
use crate::record::{text_of, Log, LogView, Object, ObjectView};
use crate::text::{decimal, render};
use vstd::prelude::*;

verus! {

/// A value among the attributes of a stored log.
#[derive(Debug, PartialEq, Eq)]
pub enum Scalar {
    Int(i32),
    Text(String),
}

/// What a scalar holds.
pub enum ScalarView {
    Int(i32),
    Text(Seq<char>),
}

impl View for Scalar {
    type V = ScalarView;

    open spec fn view(&self) -> ScalarView {
        match self {
            Scalar::Int(i) => ScalarView::Int(*i),
            Scalar::Text(t) => ScalarView::Text(t@),
        }
    }
}

/// The text that a log takes for a stored value: an integer in decimal, a
/// string as it is.
pub open spec fn written(v: ScalarView) -> Seq<char> {
    match v {
        ScalarView::Int(i) => decimal(i as int),
        ScalarView::Text(t) => t,
    }
}

/// What a list of stored attributes holds.
pub open spec fn scalar_entries(list: Seq<(String, Scalar)>) -> Seq<(Seq<char>, ScalarView)> {
    Seq::new(list.len(), |i: int| (list[i].0@, list[i].1@))
}

/// What a list of string pairs holds.
pub open spec fn text_entries(list: Seq<(String, String)>) -> Entries {
    Seq::new(list.len(), |i: int| (list[i].0@, list[i].1@))
}

/// Attributes as they are stored: each value a string.
pub open spec fn as_text(entries: Entries) -> Seq<(Seq<char>, ScalarView)> {
    Seq::new(entries.len(), |i: int| (entries[i].0, ScalarView::Text(entries[i].1)))
}

/// Stored attributes as a log takes them: each value as text.
pub open spec fn as_written(list: Seq<(Seq<char>, ScalarView)>) -> Entries {
    Seq::new(list.len(), |i: int| (list[i].0, written(list[i].1)))
}

/// A stored log.
#[derive(Debug)]
pub struct LogDocument {
    pub id: i32,
    pub typ: String,
    pub time: i64,
    /// The attributes; absent where the log has none.
    pub attrs: Option<Vec<(String, Scalar)>>,
}

/// What a stored log holds.
pub struct LogDocumentView {
    pub id: int,
    pub typ: Seq<char>,
    pub time: i64,
    pub attrs: Option<Seq<(Seq<char>, ScalarView)>>,
}

impl View for LogDocument {
    type V = LogDocumentView;

    open spec fn view(&self) -> LogDocumentView {
        LogDocumentView {
            id: self.id as int,
            typ: self.typ@,
            time: self.time,
            attrs: match self.attrs {
                Some(list) => Some(scalar_entries(list@)),
                None => None,
            },
        }
    }
}

impl LogView {
    /// The document of a log: its attributes are left out when there are
    /// none.
    pub open spec fn document(self) -> LogDocumentView {
        LogDocumentView {
            id: self.id,
            typ: self.typ,
            time: self.time,
            attrs: if self.attrs.len() == 0 {
                None
            } else {
                Some(as_text(self.attrs))
            },
        }
    }
}

impl LogDocumentView {
    /// The attributes that the document gives its log: none where the field
    /// is absent.
    pub open spec fn entries(self) -> Entries {
        match self.attrs {
            Some(list) => as_written(list),
            None => Seq::empty(),
        }
    }

    /// The log of a document; there is none where a key occurs twice.
    pub open spec fn record(self) -> Option<LogView> {
        if distinct_keys(self.entries()) {
            Some(LogView { id: self.id, typ: self.typ, time: self.time, attrs: self.entries() })
        } else {
            None
        }
    }
}

/// A stored object.
#[derive(Debug)]
pub struct ObjectDocument {
    pub id: i32,
    pub name: String,
    pub typ: String,
    /// The description; absent where none was set.
    pub desc: Option<String>,
    /// The dependencies; absent where there are none.
    pub deps: Option<Vec<i32>>,
    /// The subordinates; absent where there are none.
    pub subs: Option<Vec<i32>>,
    /// The references; absent where there are none.
    pub refs: Option<Vec<i32>>,
    /// The attributes; absent where there are none.
    pub attrs: Option<Vec<(String, String)>>,
}

/// What a stored object holds.
pub struct ObjectDocumentView {
    pub id: int,
    pub name: Seq<char>,
    pub typ: Seq<char>,
    pub desc: Option<Seq<char>>,
    pub deps: Option<Seq<i32>>,
    pub subs: Option<Seq<i32>>,
    pub refs: Option<Seq<i32>>,
    pub attrs: Option<Entries>,
}

/// What an optional list of identifiers holds.
pub open spec fn members_of(v: Option<Vec<i32>>) -> Option<Seq<i32>> {
    match v {
        Some(list) => Some(list@),
        None => None,
    }
}

/// A relation as it is stored: left out when it has no member.
pub open spec fn stored_members(s: Seq<i32>) -> Option<Seq<i32>> {
    if s.len() == 0 {
        None
    } else {
        Some(s)
    }
}

/// A stored relation as an object takes it: empty where the field is absent.
pub open spec fn read_members(s: Option<Seq<i32>>) -> Seq<i32> {
    match s {
        Some(list) => list,
        None => Seq::empty(),
    }
}

impl View for ObjectDocument {
    type V = ObjectDocumentView;

    open spec fn view(&self) -> ObjectDocumentView {
        ObjectDocumentView {
            id: self.id as int,
            name: self.name@,
            typ: self.typ@,
            desc: text_of(self.desc),
            deps: members_of(self.deps),
            subs: members_of(self.subs),
            refs: members_of(self.refs),
            attrs: match self.attrs {
                Some(list) => Some(text_entries(list@)),
                None => None,
            },
        }
    }
}

impl ObjectView {
    /// The document of an object: relations without members and attributes
    /// without entries are left out.
    pub open spec fn document(self) -> ObjectDocumentView {
        ObjectDocumentView {
            id: self.id,
            name: self.name,
            typ: self.typ,
            desc: self.desc,
            deps: stored_members(self.deps),
            subs: stored_members(self.subs),
            refs: stored_members(self.refs),
            attrs: if self.attrs.len() == 0 {
                None
            } else {
                Some(self.attrs)
            },
        }
    }
}

impl ObjectDocumentView {
    /// The attributes that the document gives its object: none where the
    /// field is absent.
    pub open spec fn entries(self) -> Entries {
        match self.attrs {
            Some(list) => list,
            None => Seq::empty(),
        }
    }

    /// The object of a document; there is none where a key occurs twice.
    pub open spec fn record(self) -> Option<ObjectView> {
        if distinct_keys(self.entries()) {
            Some(
                ObjectView {
                    id: self.id,
                    name: self.name,
                    typ: self.typ,
                    desc: self.desc,
                    deps: read_members(self.deps),
                    subs: read_members(self.subs),
                    refs: read_members(self.refs),
                    attrs: self.entries(),
                },
            )
        } else {
            None
        }
    }
}

/// A record that is stored and read again is the record that it was.
pub proof fn law_document_round_trip(log: LogView, obj: ObjectView)
    requires
        distinct_keys(log.attrs),
        distinct_keys(obj.attrs),
    ensures
        log.document().record() == Some(log),
        obj.document().record() == Some(obj),
{
    assert(log.document().entries() =~= log.attrs);
    assert(obj.document().entries() =~= obj.attrs);
    assert(read_members(stored_members(obj.deps)) =~= obj.deps);
    assert(read_members(stored_members(obj.subs)) =~= obj.subs);
    assert(read_members(stored_members(obj.refs)) =~= obj.refs);
}

fn copy_members(v: &Vec<i32>) -> (r: Option<Vec<i32>>)
    ensures
        members_of(r) == stored_members(v@),
{
    if v.len() == 0 {
        None
    } else {
        let c = v.clone();
        assert(c@ =~= v@);
        Some(c)
    }
}

fn take_members(v: Option<Vec<i32>>) -> (r: Vec<i32>)
    ensures
        r@ == read_members(members_of(v)),
{
    match v {
        Some(list) => list,
        None => Vec::new(),
    }
}

impl Log {
    /// The document under which the log is stored.
    pub fn to_document(&self) -> (doc: LogDocument)
        ensures
            doc@ == self@.document(),
    {
        let attrs = if self.attrs.len() == 0 {
            None
        } else {
            let mut list: Vec<(String, Scalar)> = Vec::new();
            let mut i: usize = 0;
            while i < self.attrs.len()
                invariant
                    i <= self.attrs@.len(),
                    list@.len() == i,
                    scalar_entries(list@) == as_text(self.attrs@.take(i as int)),
                decreases self.attrs@.len() - i,
            {
                match self.attrs.entry(i) {
                    Some((k, v)) => {
                        list.push((k.clone(), Scalar::Text(v.clone())));
                    },
                    None => {},
                }
                assert forall|j: int| 0 <= j < i implies scalar_entries(list@)[j] == as_text(
                    self.attrs@.take(i as int + 1),
                )[j] by {
                    assert(as_text(self.attrs@.take(i as int))[j] == as_text(
                        self.attrs@.take(i as int + 1),
                    )[j]);
                }
                assert(scalar_entries(list@) =~= as_text(self.attrs@.take(i as int + 1)));
                i += 1;
            }
            assert(self.attrs@.take(i as int) =~= self.attrs@);
            Some(list)
        };
        LogDocument { id: self.id, typ: self.typ.clone(), time: self.time, attrs }
    }

    /// The log that a document stands for. A document in which a key occurs
    /// twice stands for none and gives `CorruptRecord`.
    pub fn from_document(doc: LogDocument) -> (res: Result<Log, Error>)
        ensures
            match res {
                Ok(log) => doc@.record() == Some(log@) && log.wf(),
                Err(e) => doc@.record() is None && e@ == ErrorView::CorruptRecord,
            },
    {
        let mut attrs = Attrs::new();
        match &doc.attrs {
            Some(list) => {
                let ghost all = as_written(scalar_entries(list@));
                let mut i: usize = 0;
                while i < list.len()
                    invariant
                        i <= list@.len(),
                        doc.attrs == Some(*list),
                        all == as_written(scalar_entries(list@)),
                        attrs.wf(),
                        attrs@ == all.take(i as int),
                    decreases list@.len() - i,
                {
                    let key = list[i].0.as_str();
                    if attrs.contains_key(key) {
                        proof {
                            let j = key_index(attrs@, key@);
                            assert(all[j] == attrs@[j]);
                            assert(all[j].0 == all[i as int].0);
                        }
                        return Err(Error::CorruptRecord);
                    }
                    let value = match &list[i].1 {
                        Scalar::Int(n) => render(*n),
                        Scalar::Text(t) => t.clone(),
                    };
                    attrs.append(key, value);
                    assert(attrs@ =~= all.take(i as int + 1));
                    i += 1;
                }
                assert(all.take(i as int) =~= all);
            },
            None => {},
        }
        Ok(Log { id: doc.id, typ: doc.typ, time: doc.time, attrs })
    }
}

impl Object {
    /// The document under which the object is stored.
    pub fn to_document(&self) -> (doc: ObjectDocument)
        ensures
            doc@ == self@.document(),
    {
        let attrs = if self.attrs.len() == 0 {
            None
        } else {
            let mut list: Vec<(String, String)> = Vec::new();
            let mut i: usize = 0;
            while i < self.attrs.len()
                invariant
                    i <= self.attrs@.len(),
                    list@.len() == i,
                    text_entries(list@) == self.attrs@.take(i as int),
                decreases self.attrs@.len() - i,
            {
                match self.attrs.entry(i) {
                    Some((k, v)) => {
                        list.push((k.clone(), v.clone()));
                    },
                    None => {},
                }
                assert(text_entries(list@) =~= self.attrs@.take(i as int + 1));
                i += 1;
            }
            assert(self.attrs@.take(i as int) =~= self.attrs@);
            Some(list)
        };
        let desc = match &self.desc {
            Some(d) => Some(d.clone()),
            None => None,
        };
        ObjectDocument {
            id: self.id,
            name: self.name.clone(),
            typ: self.typ.clone(),
            desc,
            deps: copy_members(&self.deps),
            subs: copy_members(&self.subs),
            refs: copy_members(&self.refs),
            attrs,
        }
    }

    /// The object that a document stands for. A document in which a key
    /// occurs twice stands for none and gives `CorruptRecord`.
    pub fn from_document(doc: ObjectDocument) -> (res: Result<Object, Error>)
        ensures
            match res {
                Ok(obj) => doc@.record() == Some(obj@) && obj.wf(),
                Err(e) => doc@.record() is None && e@ == ErrorView::CorruptRecord,
            },
    {
        let mut attrs = Attrs::new();
        match &doc.attrs {
            Some(list) => {
                let ghost all = text_entries(list@);
                let mut i: usize = 0;
                while i < list.len()
                    invariant
                        i <= list@.len(),
                        doc.attrs == Some(*list),
                        all == text_entries(list@),
                        attrs.wf(),
                        attrs@ == all.take(i as int),
                    decreases list@.len() - i,
                {
                    let key = list[i].0.as_str();
                    if attrs.contains_key(key) {
                        proof {
                            let j = key_index(attrs@, key@);
                            assert(all[j] == attrs@[j]);
                            assert(all[j].0 == all[i as int].0);
                        }
                        return Err(Error::CorruptRecord);
                    }
                    attrs.append(key, list[i].1.clone());
                    assert(attrs@ =~= all.take(i as int + 1));
                    i += 1;
                }
                assert(all.take(i as int) =~= all);
            },
            None => {},
        }
        Ok(
            Object {
                id: doc.id,
                name: doc.name,
                typ: doc.typ,
                desc: doc.desc,
                deps: take_members(doc.deps),
                subs: take_members(doc.subs),
                refs: take_members(doc.refs),
                attrs,
            },
        )
    }
}

} // verus!
