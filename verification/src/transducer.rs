//! Binary transducer tables and the transducer built from them.
//!
//! A transducer combines an index table, a transition table and an
//! alphabet behind one capability set: look up the index-table entry for a
//! given context, enumerate outgoing transitions from a transition-table
//! position, test and fetch final weights, and resolve symbols via the
//! alphabet. The concrete on-disk layout (monolithic, or split across
//! fixed-size chunk files) is chosen once at load time and is invisible to
//! the search engine beyond this capability set.

pub mod alphabet;
pub mod index_table;
pub mod transition_table;

use vstd::prelude::*;

use crate::transducer::alphabet::Alphabet;
use crate::transducer::index_table::IndexTable;
use crate::transducer::transition_table::TransitionTable;
use crate::types::{SymbolNumber, TransitionTableIndex, Weight, NO_TARGET};

verus! {

/// One outgoing transition read from the transition table: its input
/// symbol, the output symbol it emits (the "no symbol" sentinel mapped to
/// epsilon is kept as the raw symbol), its target position, and its
/// weight.
#[derive(Clone, Copy, Debug, PartialEq, Eq, Structural)]
pub struct Transition {
    pub input: SymbolNumber,
    pub output: SymbolNumber,
    pub target: TransitionTableIndex,
    pub weight: Weight,
}

/// A weighted finite-state transducer: an index table, a transition table
/// and an alphabet, all immutable after construction and shared read-only
/// by any number of concurrent searches.
#[derive(Debug)]
pub struct Transducer {
    pub index_table: IndexTable,
    pub transition_table: TransitionTable,
    pub alphabet: Alphabet,
}

impl Transducer {
    pub open spec fn wf(self) -> bool {
        &&& self.index_table.wf()
        &&& self.transition_table.wf()
        &&& self.alphabet.wf()
    }

    /// The index-table entry for the context `(s, sym)`: the entry at
    /// `s + sym`, valid only when that entry's own input symbol is `sym`.
    pub open spec fn spec_index_target(
        self,
        s: TransitionTableIndex,
        sym: SymbolNumber,
    ) -> Option<TransitionTableIndex> {
        if s + sym <= NO_TARGET && self.index_table.spec_input_symbol((s + sym) as u32)
            == Some(sym) {
            self.index_table.spec_target((s + sym) as u32)
        } else {
            None
        }
    }

    /// The outgoing transitions that start at position `s` of the
    /// transition table: the consecutive records from `s` up to the first
    /// record whose input-symbol slot holds the sentinel (a final or
    /// separator record) or the end of the table. Records without a
    /// target are skipped.
    pub open spec fn spec_transitions_from(self, s: TransitionTableIndex) -> Seq<Transition>
        decreases self.transition_table.size - s,
    {
        if s >= self.transition_table.size {
            Seq::<Transition>::empty()
        } else {
            match self.transition_table.spec_input_symbol(s) {
                None => Seq::<Transition>::empty(),
                Some(in_sym) => {
                    let rest = self.spec_transitions_from((s + 1) as u32);
                    match self.transition_table.spec_target(s) {
                        Some(t) => seq![
                            Transition {
                                input: in_sym,
                                output: match self.transition_table.spec_output_symbol(s) {
                                    Some(o) => o,
                                    None => crate::types::EPSILON,
                                },
                                target: t,
                                weight: self.transition_table.spec_weight(s).unwrap_or(0),
                            },
                        ] + rest,
                        None => rest,
                    }
                },
            }
        }
    }

    /// Whether position `i` of the transition table is an accepting
    /// position, and at what weight: the weight field of the final record
    /// at `i`, absent when `i` is not final.
    pub open spec fn spec_final_weight(self, i: TransitionTableIndex) -> Option<Weight> {
        if self.transition_table.spec_is_final(i) {
            self.transition_table.spec_weight(i)
        } else {
            None
        }
    }

    pub fn new(
        index_table: IndexTable,
        transition_table: TransitionTable,
        alphabet: Alphabet,
    ) -> (t: Transducer)
        requires
            index_table.wf(),
            transition_table.wf(),
            alphabet.wf(),
        ensures
            t.wf(),
            t.index_table == index_table,
            t.transition_table == transition_table,
            t.alphabet == alphabet,
    {
        Transducer { index_table, transition_table, alphabet }
    }

    /// Look up the index-table entry for the context `(s, sym)`.
    pub fn index_target(&self, s: TransitionTableIndex, sym: SymbolNumber) -> (r: Option<
        TransitionTableIndex,
    >)
        requires
            self.wf(),
        ensures
            r == self.spec_index_target(s, sym),
    {
        let e: u64 = s as u64 + sym as u64;
        if e > NO_TARGET as u64 {
            return None;
        }
        let e32: TransitionTableIndex = e as TransitionTableIndex;
        match self.index_table.input_symbol(e32) {
            Some(v) if v == sym => self.index_table.target(e32),
            _ => None,
        }
    }

    /// Test whether `i` is an accepting position and fetch its final
    /// weight.
    pub fn final_weight(&self, i: TransitionTableIndex) -> (r: Option<Weight>)
        requires
            self.wf(),
        ensures
            r == self.spec_final_weight(i),
    {
        if self.transition_table.is_final(i) {
            self.transition_table.weight(i)
        } else {
            None
        }
    }

    /// Whether `i` is an accepting position.
    pub fn is_final(&self, i: TransitionTableIndex) -> (r: bool)
        requires
            self.wf(),
        ensures
            r == (self.spec_final_weight(i) is Some),
    {
        self.transition_table.is_final(i)
    }

    /// The outgoing transitions of the state at position `s`: a final
    /// record, where present, sits at the state's own position, and the
    /// transition records follow it.
    pub open spec fn spec_outgoing(self, s: TransitionTableIndex) -> Seq<Transition> {
        if self.transition_table.spec_is_final(s) {
            self.spec_transitions_from((s + 1) as u32)
        } else {
            self.spec_transitions_from(s)
        }
    }

    /// Enumerate the outgoing transitions of the state at position `s`,
    /// skipping the state's own final record where present.
    pub fn outgoing(&self, s: TransitionTableIndex) -> (r: Vec<Transition>)
        requires
            self.wf(),
        ensures
            r@ == self.spec_outgoing(s),
    {
        if self.transition_table.is_final(s) {
            proof {
                assert(s < self.transition_table.size);
            }
            self.transitions_from(s + 1)
        } else {
            self.transitions_from(s)
        }
    }

    /// Enumerate the outgoing transitions that start at position `s`.
    pub fn transitions_from(&self, s: TransitionTableIndex) -> (r: Vec<Transition>)
        requires
            self.wf(),
        ensures
            r@ == self.spec_transitions_from(s),
    {
        let mut out: Vec<Transition> = Vec::new();
        let mut p: TransitionTableIndex = s;
        let size = self.transition_table.size;
        while p < size
            invariant
                self.wf(),
                s <= p,
                size == self.transition_table.size,
                self.spec_transitions_from(s) == out@ + self.spec_transitions_from(p),
            decreases size - p,
        {
            let in_sym = match self.transition_table.input_symbol(p) {
                Some(v) => v,
                None => {
                    proof {
                        assert(self.spec_transitions_from(p) =~= Seq::<Transition>::empty());
                        assert(out@ + Seq::<Transition>::empty() =~= out@);
                    }
                    return out;
                },
            };
            match self.transition_table.target(p) {
                Some(t) => {
                    let o = match self.transition_table.output_symbol(p) {
                        Some(o) => o,
                        None => crate::types::EPSILON,
                    };
                    let w = match self.transition_table.weight(p) {
                        Some(w) => w,
                        None => 0,
                    };
                    let tr = Transition { input: in_sym, output: o, target: t, weight: w };
                    proof {
                        let rest = self.spec_transitions_from((p + 1) as u32);
                        assert(self.spec_transitions_from(p) == seq![tr] + rest);
                        assert(out@ + (seq![tr] + rest) =~= (out@ + seq![tr]) + rest);
                        assert(out@.push(tr) =~= out@ + seq![tr]);
                    }
                    out.push(tr);
                },
                None => {
                    proof {
                        assert(self.spec_transitions_from(p) == self.spec_transitions_from(
                            (p + 1) as u32,
                        ));
                    }
                },
            }
            p += 1;
        }
        proof {
            assert(self.spec_transitions_from(p) =~= Seq::<Transition>::empty());
            assert(out@ + Seq::<Transition>::empty() =~= out@);
        }
        out
    }
}

} // verus!
