//! The event dispatcher: handlers registered under patterns, and the choice
//! of the handlers that a log fires.
//!
//! Patterns are regular expressions of the `regex` crate. A handler is any
//! value that the caller can run; the dispatcher keeps it and says when it is
//! due, and never runs it itself.

use crate::error::{outcome, Error, ErrorView};
use crate::pattern::{
    compile, pattern_compiles, pattern_matches, pattern_source, regex_matches,
};
use vstd::prelude::*;

verus! {

/// The handlers that a log of type `typ` fires: the places of the patterns
/// that match, lowest first.
pub open spec fn matching(patterns: Seq<Seq<char>>, typ: Seq<char>) -> Seq<usize>
    decreases patterns.len(),
{
    if patterns.len() == 0 {
        Seq::empty()
    } else {
        let rest = matching(patterns.drop_last(), typ);
        if pattern_matches(patterns.last(), typ) {
            rest.push((patterns.len() - 1) as usize)
        } else {
            rest
        }
    }
}

/// A log fires exactly the handlers whose pattern matches its type, each
/// once, in the order in which they were registered.
pub proof fn lemma_matching(patterns: Seq<Seq<char>>, typ: Seq<char>)
    requires
        patterns.len() <= usize::MAX,
    ensures
        forall|k: int|
            0 <= k < matching(patterns, typ).len() ==> (#[trigger] matching(patterns, typ)[k])
                < patterns.len() && pattern_matches(
                patterns[matching(patterns, typ)[k] as int],
                typ,
            ),
        forall|j: int, k: int|
            0 <= j < k < matching(patterns, typ).len() ==> matching(patterns, typ)[j] < matching(
                patterns,
                typ,
            )[k],
        forall|i: int|
            0 <= i < patterns.len() && pattern_matches(#[trigger] patterns[i], typ) ==> matching(
                patterns,
                typ,
            ).contains(i as usize),
    decreases patterns.len(),
{
    if patterns.len() > 0 {
        let front = patterns.drop_last();
        let rest = matching(front, typ);
        let all = matching(patterns, typ);
        lemma_matching(front, typ);
        assert forall|i: int| 0 <= i < patterns.len() && pattern_matches(
            #[trigger] patterns[i],
            typ,
        ) implies all.contains(i as usize) by {
            if i < front.len() {
                assert(front[i] == patterns[i]);
                let k = rest.index_of(i as usize);
                assert(all[k] == i as usize);
            } else {
                assert(all[rest.len() as int] == i as usize);
            }
        }
        assert forall|k: int| 0 <= k < all.len() implies (#[trigger] all[k]) < patterns.len()
            && pattern_matches(patterns[all[k] as int], typ) by {
            if k < rest.len() {
                assert(all[k] == rest[k]);
                assert(front[rest[k] as int] == patterns[rest[k] as int]);
            }
        }
        assert forall|j: int, k: int| 0 <= j < k < all.len() implies all[j] < all[k] by {
            if k < rest.len() {
                assert(rest[j] < rest[k]);
            } else {
                assert(all[j] == rest[j]);
            }
        }
    }
}

/// One registration.
pub struct Entry<H> {
    matcher: regex::Regex,
    handler: H,
}

/// The registrations, oldest first.
pub struct EventHandlers<H> {
    entries: Vec<Entry<H>>,
}

impl<H> EventHandlers<H> {
    /// The registered patterns, oldest first.
    pub closed spec fn patterns(&self) -> Seq<Seq<char>> {
        Seq::new(self.entries@.len(), |i: int| pattern_source(self.entries@[i].matcher))
    }

    /// The registered handlers, each at the place of its pattern.
    pub closed spec fn handlers(&self) -> Seq<H> {
        Seq::new(self.entries@.len(), |i: int| self.entries@[i].handler)
    }

    /// Every registered regex matches as its pattern does: each was compiled
    /// from its pattern with the default flags.
    pub closed spec fn wf(&self) -> bool {
        forall|i: int, text: Seq<char>|
            0 <= i < self.entries@.len() ==> #[trigger] regex_matches(
                self.entries@[i].matcher,
                text,
            ) == pattern_matches(pattern_source(self.entries@[i].matcher), text)
    }

    /// Every pattern has its handler, and the places fit a `usize`.
    pub proof fn lemma_paired(&self)
        ensures
            self.patterns().len() == self.handlers().len(),
            self.patterns().len() <= usize::MAX,
    {
        assert(self.entries.len() == self.entries@.len());
    }

    /// A dispatcher with no registration.
    pub fn new() -> (e: Self)
        ensures
            e.wf(),
            e.patterns() == Seq::<Seq<char>>::empty(),
            e.handlers() == Seq::<H>::empty(),
    {
        let e = EventHandlers { entries: Vec::new() };
        assert(e.patterns() =~= Seq::<Seq<char>>::empty());
        assert(e.handlers() =~= Seq::<H>::empty());
        e
    }

    /// The number of registrations.
    pub fn len(&self) -> (n: usize)
        ensures
            n == self.patterns().len(),
            n == self.handlers().len(),
    {
        self.entries.len()
    }

    /// Registers a handler under a pattern, behind the registrations that are
    /// there. A pattern that does not compile is refused and changes nothing.
    pub fn register(&mut self, pattern: &str, handler: H) -> (res: Result<(), Error>)
        requires
            old(self).wf(),
        ensures
            final(self).wf(),
            pattern_compiles(pattern@) ==> res is Ok && final(self).patterns() == old(
                self,
            ).patterns().push(pattern@) && final(self).handlers() == old(self).handlers().push(
                handler,
            ),
            !pattern_compiles(pattern@) ==> outcome(res) == Err::<(), ErrorView>(
                ErrorView::Regex(pattern@),
            ) && final(self).patterns() == old(self).patterns() && final(self).handlers() == old(
                self,
            ).handlers(),
    {
        match compile(pattern) {
            Some(matcher) => {
                self.entries.push(Entry { matcher, handler });
                assert forall|i: int, text: Seq<char>|
                    0 <= i < self.entries@.len() implies #[trigger] regex_matches(
                    self.entries@[i].matcher,
                    text,
                ) == pattern_matches(pattern_source(self.entries@[i].matcher), text) by {
                    if i < old(self).entries@.len() {
                        assert(self.entries@[i] == old(self).entries@[i]);
                    }
                }
                assert(self.patterns() =~= old(self).patterns().push(pattern@));
                assert(self.handlers() =~= old(self).handlers().push(handler));
                Ok(())
            },
            None => Err(Error::Regex(String::from_str(pattern))),
        }
    }

    /// The handlers that a log of the given type fires, in the order in which
    /// they were registered.
    pub fn dispatch(&self, typ: &str) -> (fired: Vec<usize>)
        requires
            self.wf(),
        ensures
            fired@ == matching(self.patterns(), typ@),
    {
        let mut fired: Vec<usize> = Vec::new();
        let mut i: usize = 0;
        while i < self.entries.len()
            invariant
                self.wf(),
                i <= self.entries@.len(),
                fired@ == matching(self.patterns().take(i as int), typ@),
            decreases self.entries@.len() - i,
        {
            let ghost upto = self.patterns().take(i as int + 1);
            assert(upto.drop_last() =~= self.patterns().take(i as int));
            assert(upto.last() == self.patterns()[i as int]);
            if self.entries[i].matcher.is_match(typ) {
                fired.push(i);
            }
            i += 1;
        }
        assert(self.patterns().take(i as int) =~= self.patterns());
        fired
    }

    /// The pattern at a place.
    pub fn pattern(&self, i: usize) -> (p: Option<&str>)
        ensures
            match p {
                Some(text) => i < self.patterns().len() && text@ == self.patterns()[i as int],
                None => i >= self.patterns().len(),
            },
    {
        if i < self.entries.len() {
            Some(self.entries[i].matcher.as_str())
        } else {
            None
        }
    }

    /// The handler at a place.
    pub fn handler(&self, i: usize) -> (h: Option<&H>)
        ensures
            match h {
                Some(f) => i < self.handlers().len() && *f == self.handlers()[i as int],
                None => i >= self.handlers().len(),
            },
    {
        if i < self.entries.len() {
            Some(&self.entries[i].handler)
        } else {
            None
        }
    }
}

/// The greatest number of handlers that may run inside one another: a
/// handler whose writes set off a handler whose writes set off a handler, and
/// so on.
pub const MAX_DISPATCH_DEPTH: u32 = 32;

/// The number of handlers that are running inside one another. Whoever runs
/// the handlers enters before each and leaves after it.
pub struct DispatchDepth {
    depth: u32,
}

impl View for DispatchDepth {
    type V = nat;

    closed spec fn view(&self) -> nat {
        self.depth as nat
    }
}

impl DispatchDepth {
    /// No handler is running.
    pub fn new() -> (d: Self)
        ensures
            d@ == 0,
    {
        DispatchDepth { depth: 0 }
    }

    /// Whether as many handlers are running inside one another as may.
    pub fn at_limit(&self) -> (b: bool)
        ensures
            b == (self@ >= MAX_DISPATCH_DEPTH),
    {
        self.depth >= MAX_DISPATCH_DEPTH
    }

    /// Counts a handler that is about to run. At the limit the handler is
    /// refused with `RecursiveDispatch` and the count stays.
    pub fn enter(&mut self) -> (res: Result<(), Error>)
        ensures
            old(self)@ < MAX_DISPATCH_DEPTH ==> res is Ok && final(self)@ == old(self)@ + 1,
            old(self)@ >= MAX_DISPATCH_DEPTH ==> outcome(res) == Err::<(), ErrorView>(
                ErrorView::RecursiveDispatch,
            ) && final(self)@ == old(self)@,
    {
        if self.depth >= MAX_DISPATCH_DEPTH {
            Err(Error::RecursiveDispatch)
        } else {
            self.depth = self.depth + 1;
            Ok(())
        }
    }

    /// Counts a handler that has returned.
    pub fn leave(&mut self)
        ensures
            final(self)@ == (if old(self)@ > 0 {
                old(self)@ - 1
            } else {
                0
            }),
    {
        if self.depth > 0 {
            self.depth = self.depth - 1;
        }
    }
}

} // verus!
