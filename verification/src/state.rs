//! The accumulator the translation threads through its traversal: the output
//! fragments, the bounded history of recently processed sibling kinds, the
//! class-body nesting depth, the queue of hoisted initializer statements, and
//! the advisory warnings collected along the way.

use vstd::prelude::*;
use std::collections::VecDeque;

verus! {

/// The mathematical value of a [`TransState`]: every text as a sequence of
/// characters, the history front at index `0`.
#[verifier::ext_equal]
pub struct StateModel {
    pub tokens: Seq<Seq<char>>,
    pub recent: Seq<Seq<char>>,
    pub depth: nat,
    pub init: Seq<Seq<char>>,
    pub warnings: Seq<Seq<char>>,
}

/// The accumulator: an ordered stream of output fragments plus the auxiliary
/// traversal state.
pub struct TransState {
    /// The translated output, in order; concatenated it is the whole program.
    pub tokens: Vec<String>,
    /// Kinds of the most recently fully processed sibling nodes, newest first.
    pub last_kind: VecDeque<String>,
    /// How many class/object bodies enclose the current node.
    pub depth: usize,
    /// Fully rendered statements waiting to be spliced into an `init` block.
    pub init: Vec<String>,
    /// Advisory diagnostics; the caller may print them to a side channel.
    pub warnings: Vec<String>,
}

impl View for TransState {
    type V = StateModel;

    open spec fn view(&self) -> StateModel {
        StateModel {
            tokens: self.tokens.deep_view(),
            recent: self.last_kind.deep_view(),
            depth: self.depth as nat,
            init: self.init.deep_view(),
            warnings: self.warnings.deep_view(),
        }
    }
}

impl TransState {
    /// Appends one output fragment.
    pub fn push_tok(&mut self, t: String)
        ensures
            final(self)@ == (StateModel { tokens: old(self)@.tokens.push(t@), ..old(self)@ }),
    {
        let ghost v0 = self.tokens;
        let ghost tv = t@;
        self.tokens.push(t);
        proof {
            assert(self.tokens.deep_view() =~= v0.deep_view().push(tv));
            assert(self@ =~~= (StateModel { tokens: v0.deep_view().push(tv), ..old(self)@ }));
        }
    }

    /// Appends one pending initializer statement.
    pub fn push_init(&mut self, t: String)
        ensures
            final(self)@ == (StateModel { init: old(self)@.init.push(t@), ..old(self)@ }),
    {
        let ghost v0 = self.init;
        let ghost tv = t@;
        self.init.push(t);
        proof {
            assert(self.init.deep_view() =~= v0.deep_view().push(tv));
            assert(self@ =~~= (StateModel { init: v0.deep_view().push(tv), ..old(self)@ }));
        }
    }

    /// Appends one advisory warning.
    pub fn push_warning(&mut self, t: String)
        ensures
            final(self)@ == (StateModel { warnings: old(self)@.warnings.push(t@), ..old(self)@ }),
    {
        let ghost v0 = self.warnings;
        let ghost tv = t@;
        self.warnings.push(t);
        proof {
            assert(self.warnings.deep_view() =~= v0.deep_view().push(tv));
            assert(self@ =~~= (StateModel { warnings: v0.deep_view().push(tv), ..old(self)@ }));
        }
    }

    /// Splices one fragment into the output at position `pos`.
    pub fn insert_tok(&mut self, pos: usize, t: String)
        requires
            pos <= old(self)@.tokens.len(),
        ensures
            final(self)@ == (StateModel {
                tokens: old(self)@.tokens.insert(pos as int, t@),
                ..old(self)@
            }),
    {
        let ghost v0 = self.tokens;
        let ghost tv = t@;
        self.tokens.insert(pos, t);
        proof {
            assert(self.tokens.deep_view() =~= v0.deep_view().insert(pos as int, tv));
            assert(self@ =~~= (StateModel {
                tokens: v0.deep_view().insert(pos as int, tv),
                ..old(self)@
            }));
        }
    }

    /// Drops every output fragment from position `n` on.
    pub fn truncate_toks(&mut self, n: usize)
        requires
            n <= old(self)@.tokens.len(),
        ensures
            final(self)@ == (StateModel { tokens: old(self)@.tokens.take(n as int), ..old(self)@ }),
    {
        let ghost v0 = self.tokens;
        self.tokens.truncate(n);
        proof {
            assert(self.tokens.deep_view() =~= v0.deep_view().take(n as int));
            assert(self@ =~~= (StateModel { tokens: v0.deep_view().take(n as int), ..old(self)@ }));
        }
    }

    /// Drops every pending initializer from position `n` on.
    pub fn truncate_init(&mut self, n: usize)
        requires
            n <= old(self)@.init.len(),
        ensures
            final(self)@ == (StateModel { init: old(self)@.init.take(n as int), ..old(self)@ }),
    {
        let ghost v0 = self.init;
        self.init.truncate(n);
        proof {
            assert(self.init.deep_view() =~= v0.deep_view().take(n as int));
            assert(self@ =~~= (StateModel { init: v0.deep_view().take(n as int), ..old(self)@ }));
        }
    }

    /// A fresh accumulator: everything empty, depth zero.
    pub fn new() -> (s: TransState)
        ensures
            s@.tokens =~= Seq::<Seq<char>>::empty(),
            s@.recent =~= Seq::<Seq<char>>::empty(),
            s@.depth == 0,
            s@.init =~= Seq::<Seq<char>>::empty(),
            s@.warnings =~= Seq::<Seq<char>>::empty(),
    {
        TransState {
            tokens: Vec::new(),
            last_kind: VecDeque::new(),
            depth: 0,
            init: Vec::new(),
            warnings: Vec::new(),
        }
    }
}

} // verus!
