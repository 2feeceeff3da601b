//! The speller search engine: weighted best-first search over the
//! synchronized product of a lexicon transducer and a mutator transducer.
//!
//! The engine pops the lowest-weight frontier node first, emits a
//! suggestion whenever both transducers accept with all input consumed,
//! and expands every compatible pair of an outgoing mutator transition
//! and an outgoing lexicon transition, epsilon and flag-diacritic
//! transitions included. Weights are non-negative and accumulate
//! additively (saturating) along a path, so the search is admissible.

pub mod suggestion;

use vstd::prelude::*;

use crate::caps::{
    case_pattern, lower_of, lowercase, recase, spec_recased, upper_of, CasePattern,
};
use crate::speller::suggestion::Suggestion;
use crate::transducer::alphabet::{Alphabet, FlagKind, FlagOperation};
use crate::transducer::{Transducer, Transition};
use crate::types::{SymbolNumber, TransitionTableIndex, Weight, EPSILON};

verus! {

/// Ceiling on node expansions in one search. Cutoffs aside, a search over
/// a cyclic transducer could otherwise expand nodes without bound; the
/// ceiling makes every call terminate.
pub const MAX_EXPANSIONS: u64 = 1_000_000;

/// Immutable search-tuning parameters.
///
/// `max_weight`: drop any node or suggestion above this weight (no cutoff
/// if absent). `n_best`: keep at most this many suggestions (unlimited if
/// absent). `beam`: drop anything heavier than the best found weight plus
/// the beam (unlimited if absent). `pool_max`, `pool_start`: node-pool
/// sizing hints, a performance detail with no effect on results.
/// `seen_node_sample_rate`: zero records every visited node key for
/// de-duplication; a higher rate records every n-th, trading completeness
/// for memory. `with_caps`: also search a case-normalized form of the
/// input and re-case the output.
#[derive(Clone, Copy, Debug)]
pub struct SpellerConfig {
    pub max_weight: Option<Weight>,
    pub n_best: Option<usize>,
    pub beam: Option<Weight>,
    pub pool_max: usize,
    pub pool_start: usize,
    pub seen_node_sample_rate: u32,
    pub with_caps: bool,
}

/// A sequence of suggestions is ordered by non-decreasing weight.
pub open spec fn sorted_by_weight(s: Seq<Suggestion>) -> bool {
    forall|i: int, j: int| 0 <= i < j < s.len() ==> s[i].weight <= s[j].weight
}

/// Weights are never negative, so the accumulated weight along any search
/// path is monotonically non-decreasing: adding a transition's weight to
/// a node's weight never lowers it.
pub proof fn lemma_weight_accumulation_monotonic(w: Weight, step: Weight)
    ensures
        w <= w.saturating_add(step),
{
}

/// One configuration of the product search: a position in each
/// transducer, how much input is consumed, the accumulated weight, and
/// the output collected so far.
pub ghost struct ProductState {
    pub lexicon: TransitionTableIndex,
    pub mutator: TransitionTableIndex,
    pub pos: int,
    pub weight: Weight,
    pub output: Seq<SymbolNumber>,
}

/// A symbol that traversal treats as consuming no input: epsilon, or a
/// flag diacritic.
pub open spec fn spec_eps_like(a: Alphabet, sym: SymbolNumber) -> bool {
    sym == EPSILON || a.spec_is_flag(sym)
}

/// `new` is `orig`, re-cased at most: unchanged, upper-cased whole, or
/// upper-cased in its first character.
pub open spec fn spec_value_variant(orig: Seq<char>, new: Seq<char>) -> bool {
    new == orig || new == upper_of(orig) || (orig.len() > 0 && new == upper_of(orig.take(1))
        + orig.skip(1))
}

/// The value a feature holds in a flag-diacritic state: zero for
/// neutral, positive or negative settings otherwise.
pub open spec fn spec_feature_of(state: Seq<i32>, f: int) -> i32 {
    if 0 <= f < state.len() {
        state[f]
    } else {
        0
    }
}

/// The state with feature `f` set to `x`, grown with neutral features as
/// far as needed.
pub open spec fn spec_with_feature(state: Seq<i32>, f: int, x: i32) -> Seq<i32> {
    Seq::new(
        if f + 1 > state.len() {
            (f + 1) as nat
        } else {
            state.len()
        },
        |i: int|
            if i == f {
                x
            } else if i < state.len() {
                state[i]
            } else {
                0
            },
    )
}

/// Apply a flag-diacritic operation to a feature state: the new state,
/// or nothing where the operation's demand fails and the transition is
/// blocked.
pub open spec fn spec_apply_flag(state: Seq<i32>, op: FlagOperation) -> Option<Seq<i32>> {
    let f = op.feature as int;
    let cur = spec_feature_of(state, f);
    let v = op.value as i32;
    match op.kind {
        FlagKind::Positive => Some(spec_with_feature(state, f, v)),
        FlagKind::Negative => Some(spec_with_feature(state, f, (-v) as i32)),
        FlagKind::Require => if op.value == 0 {
            if cur != 0 {
                Some(state)
            } else {
                None
            }
        } else if cur == v {
            Some(state)
        } else {
            None
        },
        FlagKind::Disallow => if op.value == 0 {
            if cur == 0 {
                Some(state)
            } else {
                None
            }
        } else if cur != v {
            Some(state)
        } else {
            None
        },
        FlagKind::Clear => Some(spec_with_feature(state, f, 0)),
        FlagKind::Unify => if cur == 0 || cur == v {
            Some(spec_with_feature(state, f, v))
        } else {
            None
        },
    }
}

/// Copy a feature state.
fn clone_flags(v: &Vec<i32>) -> (r: Vec<i32>)
    ensures
        r@ == v@,
{
    let r = v.clone();
    proof {
        assert forall|i: int| 0 <= i < v@.len() implies r@[i] == v@[i] by {
            assert(cloned::<i32>(v@[i], r@[i]));
        }
        assert(r@ =~= v@);
    }
    r
}

/// Build the state with feature `f` set to `x`.
fn with_feature(state: &Vec<i32>, f: usize, x: i32) -> (r: Vec<i32>)
    requires
        f < 0x1_0000,
    ensures
        r@ == spec_with_feature(state@, f as int, x),
{
    let n = state.len();
    let m = if f + 1 > n {
        f + 1
    } else {
        n
    };
    let mut out: Vec<i32> = Vec::new();
    let mut i: usize = 0;
    while i < m
        invariant
            out@.len() == i <= m,
            n == state@.len(),
            forall|k: int|
                0 <= k < i ==> out@[k] == (if k == f {
                    x
                } else if k < state@.len() {
                    state@[k]
                } else {
                    0i32
                }),
        decreases m - i,
    {
        let val: i32 = if i == f {
            x
        } else if i < n {
            state[i]
        } else {
            0
        };
        out.push(val);
        i += 1;
    }
    proof {
        assert(out@ =~= spec_with_feature(state@, f as int, x));
    }
    out
}

/// Apply a flag-diacritic operation to a feature state.
fn apply_flag(state: &Vec<i32>, op: FlagOperation) -> (r: Option<Vec<i32>>)
    ensures
        match r {
            Some(v) => spec_apply_flag(state@, op) == Some(v@),
            None => spec_apply_flag(state@, op) is None,
        },
{
    let f = op.feature as usize;
    let n = state.len();
    let cur: i32 = if f < n {
        state[f]
    } else {
        0
    };
    let v = op.value as i32;
    match op.kind {
        FlagKind::Positive => Some(with_feature(state, f, v)),
        FlagKind::Negative => Some(with_feature(state, f, -v)),
        FlagKind::Require => if op.value == 0 {
            if cur != 0 {
                Some(clone_flags(state))
            } else {
                None
            }
        } else if cur == v {
            Some(clone_flags(state))
        } else {
            None
        },
        FlagKind::Disallow => if op.value == 0 {
            if cur == 0 {
                Some(clone_flags(state))
            } else {
                None
            }
        } else if cur != v {
            Some(clone_flags(state))
        } else {
            None
        },
        FlagKind::Clear => Some(with_feature(state, f, 0)),
        FlagKind::Unify => if cur == 0 || cur == v {
            Some(with_feature(state, f, v))
        } else {
            None
        },
    }
}

/// Transient per-search state: a position in each transducer, how much
/// input is consumed, the accumulated weight, the output symbols
/// collected so far, and the flag-diacritic assignment state. Nodes live
/// only within a single suggest call.
struct SearchNode {
    lexicon: TransitionTableIndex,
    mutator: TransitionTableIndex,
    input_pos: usize,
    weight: Weight,
    output: Vec<SymbolNumber>,
    flags: Vec<i32>,
}

/// The configuration a search node stands for.
spec fn cfg(n: SearchNode) -> ProductState {
    ProductState {
        lexicon: n.lexicon,
        mutator: n.mutator,
        pos: n.input_pos as int,
        weight: n.weight,
        output: n.output@,
    }
}

/// Copy a node's collected output symbols.
fn clone_output(v: &Vec<SymbolNumber>) -> (r: Vec<SymbolNumber>)
    ensures
        r@ == v@,
{
    let r = v.clone();
    proof {
        assert forall|i: int| 0 <= i < v@.len() implies r@[i] == v@[i] by {
            assert(cloned::<SymbolNumber>(v@[i], r@[i]));
        }
        assert(r@ =~= v@);
    }
    r
}

/// Insert `s` into a weight-sorted sequence, after any suggestions of
/// equal weight, so that ties keep discovery order.
fn insert_sorted(found: &mut Vec<Suggestion>, s: Suggestion)
    requires
        sorted_by_weight(old(found)@),
    ensures
        sorted_by_weight(final(found)@),
        final(found)@.len() == old(found)@.len() + 1,
        final(found)@[0].weight <= s.weight,
        old(found)@.len() > 0 ==> final(found)@[0].weight <= old(found)@[0].weight,
        forall|k: int|
            0 <= k < final(found)@.len() ==> (final(found)@[k] == s || old(found)@.contains(
                final(found)@[k],
            )),
{
    let n = found.len();
    let mut idx: usize = 0;
    while idx < n && found[idx].weight <= s.weight
        invariant
            idx <= n == found@.len(),
            sorted_by_weight(found@),
            forall|m: int| 0 <= m < idx ==> found@[m].weight <= s.weight,
        decreases n - idx,
    {
        idx += 1;
    }
    proof {
        found@.insert_ensures(idx as int, s);
    }
    found.insert(idx, s);
    proof {
        let new = found@;
        let prior = old(found)@;
        assert forall|i: int, j: int| 0 <= i < j < new.len() implies new[i].weight
            <= new[j].weight by {
            if j < idx {
            } else if i < idx && j == idx {
            } else if i < idx && j > idx {
                assert(new[j] == prior[j - 1]);
                assert(prior[i].weight <= s.weight);
                if idx < prior.len() {
                    assert(prior[idx as int].weight > s.weight);
                }
                if i < j - 1 {
                    assert(prior[i].weight <= prior[j - 1].weight);
                }
            } else if i == idx {
                assert(new[j] == prior[j - 1]);
                assert(prior[idx as int].weight > s.weight);
                if idx < j - 1 {
                    assert(prior[idx as int].weight <= prior[j - 1].weight);
                }
            } else {
                assert(new[i] == prior[i - 1]);
                assert(new[j] == prior[j - 1]);
            }
        }
        assert forall|k: int| 0 <= k < new.len() implies (new[k] == s || prior.contains(
            new[k],
        )) by {
            if k < idx {
                assert(new[k] == prior[k]);
            } else if k > idx {
                assert(new[k] == prior[k - 1]);
            }
        }
    }
}

/// Whether `seen` already holds `key`.
fn seen_contains(seen: &Vec<u128>, key: u128) -> (r: bool)
    ensures
        r == seen@.contains(key),
{
    let n = seen.len();
    let mut i: usize = 0;
    while i < n
        invariant
            i <= n == seen@.len(),
            forall|m: int| 0 <= m < i ==> seen@[m] != key,
        decreases n - i,
    {
        if seen[i] == key {
            return true;
        }
        i += 1;
    }
    false
}

/// Whether `v` already holds a suggestion with this value and weight.
fn contains_suggestion(v: &Vec<Suggestion>, value: &String, w: Weight) -> (r: bool)
    ensures
        r == exists|k: int|
            0 <= k < v@.len() && (#[trigger] v@[k]).value@ == value@ && v@[k].weight == w,
{
    let n = v.len();
    let mut i: usize = 0;
    while i < n
        invariant
            i <= n == v@.len(),
            forall|m: int|
                0 <= m < i ==> !((#[trigger] v@[m]).value@ == value@ && v@[m].weight == w),
        decreases n - i,
    {
        if v[i].value.eq(value) && v[i].weight == w {
            return true;
        }
        i += 1;
    }
    false
}

/// The position of the first transition in `trs` whose input and output
/// both equal `sym`.
fn first_identity(trs: &Vec<Transition>, sym: SymbolNumber) -> (r: Option<usize>)
    ensures
        match r {
            Some(i) => i < trs@.len() && Speller::spec_first_identity(trs@, sym, 0) == Some(
                i as int,
            ),
            None => Speller::spec_first_identity(trs@, sym, 0) is None,
        },
{
    let n = trs.len();
    let mut i: usize = 0;
    while i < n
        invariant
            i <= n == trs@.len(),
            Speller::spec_first_identity(trs@, sym, 0) == Speller::spec_first_identity(
                trs@,
                sym,
                i as int,
            ),
        decreases n - i,
    {
        if trs[i].input == sym && trs[i].output == sym {
            return Some(i);
        }
        i += 1;
    }
    None
}

/// Pack a `(lexicon position, mutator position, input offset)` visit key
/// into one value.
fn pack_key(lex: TransitionTableIndex, mutator: TransitionTableIndex, pos: usize) -> u128 {
    ((lex as u128) << 96) | ((mutator as u128) << 64) | (pos as u64 as u128)
}

/// Drop everything heavier than the best weight plus the beam; with a
/// beam of zero only suggestions tied with the best weight remain.
fn apply_beam(v: Vec<Suggestion>, beam: Option<Weight>) -> (r: Vec<Suggestion>)
    requires
        sorted_by_weight(v@),
    ensures
        sorted_by_weight(r@),
        r@.len() <= v@.len(),
        forall|k: int| 0 <= k < r@.len() ==> v@.contains(r@[k]),
        v@.len() > 0 ==> r@.len() > 0 && r@[0] == v@[0],
        match beam {
            Some(b) => forall|k: int|
                0 <= k < r@.len() ==> (#[trigger] r@[k]).weight as int <= r@[0].weight as int
                    + b,
            None => r@ == v@,
        },
{
    let b = match beam {
        Some(b) => b,
        None => {
            proof {
                assert(forall|k: int| 0 <= k < v@.len() ==> v@.contains(v@[k]));
            }
            return v;
        },
    };
    let mut v = v;
    let ghost orig = v@;
    if v.len() == 0 {
        return v;
    }
    let limit: Weight = v[0].weight.saturating_add(b);
    let n = v.len();
    let mut idx: usize = 0;
    while idx < n && v[idx].weight <= limit
        invariant
            idx <= n == v@.len(),
            sorted_by_weight(v@),
            forall|m: int| 0 <= m < idx ==> v@[m].weight <= limit,
        decreases n - idx,
    {
        idx += 1;
    }
    proof {
        assert(v@[0].weight <= limit);
        assert(idx >= 1);
    }
    v.truncate(idx);
    proof {
        assert(v@ == orig.subrange(0, idx as int));
        assert forall|k: int| 0 <= k < v@.len() implies orig.contains(v@[k]) by {
            assert(v@[k] == orig[k]);
            assert(orig.contains(orig[k]));
        }
        assert(v@[0] == orig[0]);
    }
    v
}

/// The speller: a lexicon transducer that accepts the valid word forms
/// and a mutator transducer that scores the edit operations bridging the
/// input to a hypothesized form. Both are read-only after construction
/// and assumed to share one symbol numbering.
#[derive(Debug)]
pub struct Speller {
    pub lexicon: Transducer,
    pub mutator: Transducer,
}

impl Speller {
    pub open spec fn wf(self) -> bool {
        &&& self.lexicon.wf()
        &&& self.mutator.wf()
    }

    /// The start configuration: both transducers at their start position,
    /// zero weight, zero input consumed, empty output.
    pub open spec fn spec_initial(self) -> ProductState {
        ProductState {
            lexicon: 0,
            mutator: 0,
            pos: 0,
            weight: 0,
            output: Seq::<SymbolNumber>::empty(),
        }
    }

    /// The mutator transition `mt` moves the input offset from `pre` to
    /// `new_pos`: one symbol consumed when its input matches the next
    /// input symbol, nothing when its input is epsilon-like.
    pub open spec fn spec_consumes(
        self,
        syms: Seq<SymbolNumber>,
        pre: ProductState,
        mt: Transition,
        new_pos: int,
    ) -> bool {
        if spec_eps_like(self.mutator.alphabet, mt.input) {
            new_pos == pre.pos
        } else {
            &&& 0 <= pre.pos < syms.len()
            &&& syms[pre.pos] == mt.input
            &&& new_pos == pre.pos + 1
        }
    }

    /// A mutator transition whose output is epsilon-like steps the
    /// product from `pre` to `post` on its own.
    pub open spec fn spec_mutator_eps_step(
        self,
        syms: Seq<SymbolNumber>,
        pre: ProductState,
        post: ProductState,
        mt: Transition,
    ) -> bool {
        &&& self.mutator.spec_outgoing(pre.mutator).contains(mt)
        &&& self.spec_consumes(syms, pre, mt, post.pos)
        &&& spec_eps_like(self.mutator.alphabet, mt.output)
        &&& post.lexicon == pre.lexicon
        &&& post.mutator == mt.target
        &&& post.weight == pre.weight.saturating_add(mt.weight)
        &&& post.output == pre.output
    }

    /// A compatible pair of a mutator and a lexicon transition steps the
    /// product from `pre` to `post`.
    pub open spec fn spec_pair_step(
        self,
        syms: Seq<SymbolNumber>,
        pre: ProductState,
        post: ProductState,
        mt: Transition,
        lt: Transition,
    ) -> bool {
        &&& self.mutator.spec_outgoing(pre.mutator).contains(mt)
        &&& self.lexicon.spec_outgoing(pre.lexicon).contains(lt)
        &&& lt.input == mt.output
        &&& self.spec_consumes(syms, pre, mt, post.pos)
        &&& post.lexicon == lt.target
        &&& post.mutator == mt.target
        &&& post.weight == pre.weight.saturating_add(mt.weight).saturating_add(lt.weight)
        &&& post.output == pre.output.push(lt.output)
    }

    /// A lexicon transition with an epsilon-like input steps the product
    /// from `pre` to `post` without moving the mutator.
    pub open spec fn spec_lexicon_eps_step(
        self,
        pre: ProductState,
        post: ProductState,
        lt: Transition,
    ) -> bool {
        &&& self.lexicon.spec_outgoing(pre.lexicon).contains(lt)
        &&& spec_eps_like(self.lexicon.alphabet, lt.input)
        &&& post.lexicon == lt.target
        &&& post.mutator == pre.mutator
        &&& post.pos == pre.pos
        &&& post.weight == pre.weight.saturating_add(lt.weight)
        &&& post.output == pre.output.push(lt.output)
    }

    /// One step of the product search over the input `syms`: a mutator
    /// transition whose output is epsilon-like, a compatible pair of a
    /// mutator and a lexicon transition, or a lexicon transition with an
    /// epsilon-like input. Weights add (saturating); the lexicon
    /// transition's output symbol extends the output. Flag-diacritic
    /// assignment state is not part of this relation: enforcing it only
    /// prunes steps, so every step the engine takes is a step here.
    pub open spec fn spec_step(
        self,
        syms: Seq<SymbolNumber>,
        pre: ProductState,
        post: ProductState,
    ) -> bool {
        ||| exists|mt: Transition| self.spec_mutator_eps_step(syms, pre, post, mt)
        ||| exists|mt: Transition, lt: Transition| self.spec_pair_step(syms, pre, post, mt, lt)
        ||| exists|lt: Transition| self.spec_lexicon_eps_step(pre, post, lt)
    }

    /// `path` leads from the start configuration to `c`, one step at a
    /// time.
    pub open spec fn spec_reachable_via(
        self,
        syms: Seq<SymbolNumber>,
        path: Seq<ProductState>,
        c: ProductState,
    ) -> bool {
        &&& path.len() > 0
        &&& path[0] == self.spec_initial()
        &&& path.last() == c
        &&& forall|i: int|
            0 <= i < path.len() - 1 ==> self.spec_step(syms, #[trigger] path[i], path[i + 1])
    }

    /// `c` is reached from the start configuration by finitely many
    /// steps.
    pub open spec fn spec_reachable(self, syms: Seq<SymbolNumber>, c: ProductState) -> bool {
        exists|path: Seq<ProductState>| self.spec_reachable_via(syms, path, c)
    }

    /// The product accepts `output` at weight `w` over the input `syms`:
    /// some reachable configuration has consumed all input with both
    /// transducers at accepting positions, and `w` is its weight plus
    /// both final-state weights.
    pub open spec fn spec_accepts(
        self,
        syms: Seq<SymbolNumber>,
        output: Seq<SymbolNumber>,
        w: Weight,
    ) -> bool {
        exists|c: ProductState|
            #![auto]
            {
                &&& self.spec_reachable(syms, c)
                &&& c.pos == syms.len()
                &&& c.output == output
                &&& self.lexicon.spec_final_weight(c.lexicon) is Some
                &&& self.mutator.spec_final_weight(c.mutator) is Some
                &&& w == c.weight.saturating_add(
                    self.lexicon.spec_final_weight(c.lexicon).unwrap(),
                ).saturating_add(self.mutator.spec_final_weight(c.mutator).unwrap())
            }
    }

    /// `s` is justified by one search pass over `syms`: its weight is an
    /// accepting weight of the product and its value spells the accepted
    /// output.
    pub open spec fn spec_plain_justified(self, syms: Seq<SymbolNumber>, s: Suggestion) -> bool {
        exists|out: Seq<SymbolNumber>|
            #![auto]
            self.spec_accepts(syms, out, s.weight) && s.value@
                == self.lexicon.alphabet.spec_decoded(out)
    }

    /// `s` is justified before re-casing by the search over `base` with
    /// accepted output `out`.
    pub open spec fn spec_search_justified_by(
        self,
        input: Seq<char>,
        s: Suggestion,
        base: Seq<char>,
        out: Seq<SymbolNumber>,
    ) -> bool {
        &&& (base == input || base == lower_of(input))
        &&& self.spec_accepts(self.mutator.alphabet.spec_encoded(base), out, s.weight)
        &&& s.value@ == self.lexicon.alphabet.spec_decoded(out)
    }

    /// `s` is justified for `input` before re-casing: over the input as
    /// given or its lower-cased form, the product accepts an output at
    /// the suggestion's weight whose spelled form is its value.
    pub open spec fn spec_search_justified(self, input: Seq<char>, s: Suggestion) -> bool {
        exists|base: Seq<char>, out: Seq<SymbolNumber>|
            self.spec_search_justified_by(input, s, base, out)
    }

    /// `s` is justified for `input` by the search over `base` with
    /// accepted output `out`, its value re-cased at most.
    pub open spec fn spec_justified_by(
        self,
        input: Seq<char>,
        s: Suggestion,
        base: Seq<char>,
        out: Seq<SymbolNumber>,
    ) -> bool {
        &&& (base == input || base == lower_of(input))
        &&& self.spec_accepts(self.mutator.alphabet.spec_encoded(base), out, s.weight)
        &&& spec_value_variant(self.lexicon.alphabet.spec_decoded(out), s.value@)
    }

    /// `s` is justified for `input`: over the input as given or its
    /// lower-cased form, the product accepts an output at the
    /// suggestion's weight whose spelled form, re-cased at most, is the
    /// suggestion's value.
    pub open spec fn spec_justified(self, input: Seq<char>, s: Suggestion) -> bool {
        exists|base: Seq<char>, out: Seq<SymbolNumber>|
            self.spec_justified_by(input, s, base, out)
    }

    /// The position of the first transition in `trs` at or after `i`
    /// whose input and output both equal `sym`.
    pub open spec fn spec_first_identity(trs: Seq<Transition>, sym: SymbolNumber, i: int) -> Option<
        int,
    >
        decreases trs.len() - i,
    {
        if i < 0 || i >= trs.len() {
            None
        } else if trs[i].input == sym && trs[i].output == sym {
            Some(i)
        } else {
            Self::spec_first_identity(trs, sym, i + 1)
        }
    }

    /// A found first-identity position is in range and names an identity
    /// transition.
    proof fn lemma_first_identity_props(trs: Seq<Transition>, sym: SymbolNumber, i: int, j: int)
        requires
            Self::spec_first_identity(trs, sym, i) == Some(j),
            0 <= i,
        ensures
            i <= j < trs.len(),
            trs[j].input == sym,
            trs[j].output == sym,
        decreases trs.len() - i,
    {
        if i < trs.len() && !(trs[i].input == sym && trs[i].output == sym) {
            Self::lemma_first_identity_props(trs, sym, i + 1, j);
        }
    }

    /// The deterministic zero-edit walk from a configuration: at each
    /// remaining input symbol, follow the first identity transition of
    /// each transducer; at the end, accept where both positions are
    /// final. Returns the accumulated weight plus both final weights,
    /// and the lexicon outputs collected, or nothing where the walk gets
    /// stuck.
    pub open spec fn spec_zero_edit_from(
        self,
        syms: Seq<SymbolNumber>,
        lex: TransitionTableIndex,
        mutator: TransitionTableIndex,
        pos: int,
        acc: Weight,
        outacc: Seq<SymbolNumber>,
    ) -> Option<(Weight, Seq<SymbolNumber>)>
        decreases syms.len() - pos,
    {
        if pos < 0 || pos > syms.len() {
            None
        } else if pos == syms.len() {
            match (self.lexicon.spec_final_weight(lex), self.mutator.spec_final_weight(mutator)) {
                (Some(lw), Some(mw)) => Some(
                    (acc.saturating_add(lw).saturating_add(mw), outacc),
                ),
                _ => None,
            }
        } else {
            let sym = syms[pos];
            if spec_eps_like(self.mutator.alphabet, sym) {
                None
            } else {
                let mtrs = self.mutator.spec_outgoing(mutator);
                let ltrs = self.lexicon.spec_outgoing(lex);
                match (
                    Self::spec_first_identity(mtrs, sym, 0),
                    Self::spec_first_identity(ltrs, sym, 0),
                ) {
                    (Some(mi), Some(li)) => self.spec_zero_edit_from(
                        syms,
                        ltrs[li].target,
                        mtrs[mi].target,
                        pos + 1,
                        acc.saturating_add(mtrs[mi].weight).saturating_add(ltrs[li].weight),
                        outacc.push(ltrs[li].output),
                    ),
                    _ => None,
                }
            }
        }
    }

    /// The zero-edit walk over the whole input, from the start
    /// configuration.
    pub open spec fn spec_zero_edit(self, syms: Seq<SymbolNumber>) -> Option<
        (Weight, Seq<SymbolNumber>),
    > {
        self.spec_zero_edit_from(syms, 0, 0, 0, 0, Seq::<SymbolNumber>::empty())
    }

    /// What the zero-edit walk accepts, the product accepts: the walk is
    /// one particular accepting path.
    proof fn lemma_zero_edit_accepts(
        self,
        syms: Seq<SymbolNumber>,
        c: ProductState,
        wt: Weight,
        zout: Seq<SymbolNumber>,
    )
        requires
            0 <= c.pos <= syms.len(),
            self.spec_zero_edit_from(syms, c.lexicon, c.mutator, c.pos, c.weight, c.output)
                == Some((wt, zout)),
            self.spec_reachable(syms, c),
        ensures
            self.spec_accepts(syms, zout, wt),
        decreases syms.len() - c.pos,
    {
        if c.pos == syms.len() {
            assert(self.spec_accepts(syms, zout, wt));
        } else {
            let sym = syms[c.pos];
            let mtrs = self.mutator.spec_outgoing(c.mutator);
            let ltrs = self.lexicon.spec_outgoing(c.lexicon);
            let mi = Self::spec_first_identity(mtrs, sym, 0).unwrap();
            let li = Self::spec_first_identity(ltrs, sym, 0).unwrap();
            Self::lemma_first_identity_props(mtrs, sym, 0, mi);
            Self::lemma_first_identity_props(ltrs, sym, 0, li);
            let mt = mtrs[mi];
            let lt = ltrs[li];
            let post = ProductState {
                lexicon: lt.target,
                mutator: mt.target,
                pos: c.pos + 1,
                weight: c.weight.saturating_add(mt.weight).saturating_add(lt.weight),
                output: c.output.push(lt.output),
            };
            assert(mtrs.contains(mt));
            assert(ltrs.contains(lt));
            assert(self.spec_consumes(syms, c, mt, post.pos));
            assert(self.spec_pair_step(syms, c, post, mt, lt));
            assert(self.spec_step(syms, c, post));
            self.lemma_step_reachable(syms, c, post);
            self.lemma_zero_edit_accepts(syms, post, wt, zout);
        }
    }

    /// Follow the zero-edit identity walk over the encoded input.
    fn zero_edit(&self, syms: &Vec<SymbolNumber>) -> (r: Option<(Weight, Vec<SymbolNumber>)>)
        requires
            self.wf(),
        ensures
            match r {
                Some(p) => self.spec_zero_edit(syms@) == Some((p.0, p.1@)),
                None => self.spec_zero_edit(syms@) is None,
            },
    {
        let n = syms.len();
        let mut lex: TransitionTableIndex = 0;
        let mut mutator: TransitionTableIndex = 0;
        let mut acc: Weight = 0;
        let mut out: Vec<SymbolNumber> = Vec::new();
        let mut pos: usize = 0;
        while pos < n
            invariant
                self.wf(),
                pos <= n == syms@.len(),
                self.spec_zero_edit(syms@) == self.spec_zero_edit_from(
                    syms@,
                    lex,
                    mutator,
                    pos as int,
                    acc,
                    out@,
                ),
            decreases n - pos,
        {
            let sym = syms[pos];
            if sym == EPSILON || self.mutator.alphabet.is_flag(sym) {
                return None;
            }
            let mtrs = self.mutator.outgoing(mutator);
            let ltrs = self.lexicon.outgoing(lex);
            let mi = match first_identity(&mtrs, sym) {
                Some(mi) => mi,
                None => {
                    return None;
                },
            };
            let li = match first_identity(&ltrs, sym) {
                Some(li) => li,
                None => {
                    return None;
                },
            };
            let mt = mtrs[mi];
            let lt = ltrs[li];
            acc = acc.saturating_add(mt.weight).saturating_add(lt.weight);
            lex = lt.target;
            mutator = mt.target;
            out.push(lt.output);
            pos += 1;
        }
        let lfw = match self.lexicon.final_weight(lex) {
            Some(lfw) => lfw,
            None => {
                return None;
            },
        };
        let mfw = match self.mutator.final_weight(mutator) {
            Some(mfw) => mfw,
            None => {
                return None;
            },
        };
        Some((acc.saturating_add(lfw).saturating_add(mfw), out))
    }

    /// The start configuration is reachable.
    proof fn lemma_initial_reachable(self, syms: Seq<SymbolNumber>)
        ensures
            self.spec_reachable(syms, self.spec_initial()),
    {
        let path = seq![self.spec_initial()];
        assert(self.spec_reachable_via(syms, path, self.spec_initial()));
    }

    /// Reachability extends along a step.
    proof fn lemma_step_reachable(
        self,
        syms: Seq<SymbolNumber>,
        pre: ProductState,
        post: ProductState,
    )
        requires
            self.spec_reachable(syms, pre),
            self.spec_step(syms, pre, post),
        ensures
            self.spec_reachable(syms, post),
    {
        let path = choose|p: Seq<ProductState>| self.spec_reachable_via(syms, p, pre);
        let p2 = path.push(post);
        assert(p2[0] == path[0]);
        assert(p2.last() == post);
        assert forall|i: int| 0 <= i < p2.len() - 1 implies self.spec_step(
            syms,
            #[trigger] p2[i],
            p2[i + 1],
        ) by {
            if i < path.len() - 1 {
                assert(p2[i] == path[i]);
                assert(p2[i + 1] == path[i + 1]);
            } else {
                assert(p2[i] == path.last());
                assert(p2[i + 1] == post);
            }
        }
        assert(self.spec_reachable_via(syms, p2, post));
    }

    pub fn new(lexicon: Transducer, mutator: Transducer) -> (s: Speller)
        requires
            lexicon.wf(),
            mutator.wf(),
        ensures
            s.wf(),
            s.lexicon == lexicon,
            s.mutator == mutator,
    {
        Speller { lexicon, mutator }
    }

    /// One search pass over the input exactly as given, without case
    /// handling.
    fn suggest_plain(&self, input: &str, config: &SpellerConfig) -> (r: Vec<
        Suggestion,
    >)
        requires
            self.wf(),
        ensures
            sorted_by_weight(r@),
            match config.n_best {
                Some(n) => r@.len() <= n,
                None => true,
            },
            match config.max_weight {
                Some(mw) => forall|k: int|
                    0 <= k < r@.len() ==> (#[trigger] r@[k]).weight <= mw,
                None => true,
            },
            match config.beam {
                Some(b) => forall|k: int|
                    0 <= k < r@.len() ==> (#[trigger] r@[k]).weight as int <= r@[0].weight as int
                        + b,
                None => true,
            },
            input@.len() == 0 ==> r@.len() == 0,
            forall|k: int|
                0 <= k < r@.len() ==> self.spec_plain_justified(
                    self.mutator.alphabet.spec_encoded(input@),
                    #[trigger] r@[k],
                ),
            ({
                let we = self.spec_zero_edit(self.mutator.alphabet.spec_encoded(input@));
                (input@.len() > 0 && self.mutator.alphabet.spec_all_encodable(input@)
                    && we is Some && (match config.max_weight {
                    Some(mw) => we.unwrap().0 <= mw,
                    None => true,
                }) && (match config.n_best {
                    Some(n) => n >= 1,
                    None => true,
                })) ==> (r@.len() > 0 && r@[0].weight <= we.unwrap().0)
            }),
    {
        let nothing: Vec<Suggestion> = Vec::new();
        if input.unicode_len() == 0 {
            return nothing;
        }
        match config.n_best {
            Some(n) if n == 0 => {
                return nothing;
            },
            _ => {},
        }
        let syms: Vec<SymbolNumber> = match self.mutator.alphabet.encode(input) {
            Some(s) => s,
            None => {
                return nothing;
            },
        };
        let ghost gsyms = syms@;
        let mut frontier: Vec<SearchNode> = Vec::new();
        let start = SearchNode {
            lexicon: 0,
            mutator: 0,
            input_pos: 0,
            weight: 0,
            output: Vec::new(),
            flags: Vec::new(),
        };
        proof {
            self.lemma_initial_reachable(gsyms);
            assert(cfg(start) == self.spec_initial());
        }
        frontier.push(start);
        let mut found: Vec<Suggestion> = Vec::new();
        let mut seen: Vec<u128> = Vec::new();
        let mut counter: u64 = 0;
        let mut budget: u64 = MAX_EXPANSIONS;
        let mut done = false;
        while frontier.len() > 0 && budget > 0 && !done
            invariant
                self.wf(),
                sorted_by_weight(found@),
                counter + budget == MAX_EXPANSIONS,
                gsyms == syms@,
                gsyms == self.mutator.alphabet.spec_encoded(input@),
                forall|k: int|
                    0 <= k < frontier@.len() ==> self.spec_reachable(
                        gsyms,
                        cfg(#[trigger] frontier@[k]),
                    ),
                forall|k: int|
                    0 <= k < found@.len() ==> self.spec_plain_justified(
                        gsyms,
                        #[trigger] found@[k],
                    ),
                match config.max_weight {
                    Some(mw) => forall|k: int|
                        0 <= k < found@.len() ==> (#[trigger] found@[k]).weight <= mw,
                    None => true,
                },
                match config.n_best {
                    Some(n) => n >= 1 && found@.len() <= n,
                    None => true,
                },
            decreases budget,
        {
            budget -= 1;
            counter += 1;
            let mut best_i: usize = 0;
            let flen = frontier.len();
            let mut i: usize = 1;
            while i < flen
                invariant
                    flen == frontier@.len(),
                    best_i < flen,
                    1 <= i <= flen,
                decreases flen - i,
            {
                if frontier[i].weight < frontier[best_i].weight {
                    best_i = i;
                }
                i += 1;
            }
            let ghost fr_prev = frontier@;
            let node = frontier.swap_remove(best_i);
            proof {
                assert(self.spec_reachable(gsyms, cfg(node)));
                assert forall|k: int| 0 <= k < frontier@.len() implies self.spec_reachable(
                    gsyms,
                    cfg(#[trigger] frontier@[k]),
                ) by {
                    if k == best_i {
                        assert(frontier@[k] == fr_prev[fr_prev.len() - 1]);
                    } else {
                        assert(frontier@[k] == fr_prev[k]);
                    }
                }
            }
            match config.n_best {
                Some(n) => {
                    // The popped node has the least weight in the queue,
                    // and weights only grow along a path, so once enough
                    // suggestions exist and the popped weight cannot beat
                    // the worst kept one, no queued node can either.
                    if found.len() >= n && node.weight >= found[found.len() - 1].weight {
                        done = true;
                    }
                },
                None => {},
            }
            if done {
                continue;
            }
            let key = pack_key(node.lexicon, node.mutator, node.input_pos);
            if seen_contains(&seen, key) {
                continue;
            }
            let record = config.seen_node_sample_rate == 0 || counter % (
            config.seen_node_sample_rate as u64) == 0;
            if record {
                seen.push(key);
            }
            if node.input_pos == syms.len() {
                if let Some(lfw) = self.lexicon.final_weight(node.lexicon) {
                    if let Some(mfw) = self.mutator.final_weight(node.mutator) {
                        let w = node.weight.saturating_add(lfw).saturating_add(mfw);
                        let kept = match config.max_weight {
                            Some(mw) => w <= mw,
                            None => true,
                        };
                        if kept {
                            let value = self.lexicon.alphabet.decode(&node.output);
                            let sugg = Suggestion { value, weight: w };
                            proof {
                                let c = cfg(node);
                                assert(self.spec_reachable(gsyms, c));
                                assert(c.pos == gsyms.len());
                                assert(self.lexicon.spec_final_weight(node.lexicon) == Some(
                                    lfw,
                                ));
                                assert(self.mutator.spec_final_weight(node.mutator) == Some(
                                    mfw,
                                ));
                                assert(self.spec_accepts(gsyms, node.output@, w));
                                assert(self.spec_plain_justified(gsyms, sugg));
                            }
                            let ghost f_prev = found@;
                            insert_sorted(&mut found, sugg);
                            proof {
                                assert forall|k: int|
                                    0 <= k < found@.len() implies self.spec_plain_justified(
                                    gsyms,
                                    #[trigger] found@[k],
                                ) by {
                                    if found@[k] != sugg {
                                        assert(f_prev.contains(found@[k]));
                                        let m = choose|m: int|
                                            0 <= m < f_prev.len() && f_prev[m] == found@[k];
                                        assert(self.spec_plain_justified(gsyms, f_prev[m]));
                                    }
                                }
                            }
                            match config.n_best {
                                Some(n) => {
                                    // A better suggestion found later
                                    // replaces the worst kept one.
                                    if found.len() > n {
                                        let ghost before = found@;
                                        found.truncate(n);
                                        proof {
                                            assert(found@ == before.subrange(0, n as int));
                                            assert(sorted_by_weight(found@));
                                            assert forall|k: int|
                                                0 <= k < found@.len() implies self
                                                .spec_plain_justified(
                                                gsyms,
                                                #[trigger] found@[k],
                                            ) by {
                                                assert(found@[k] == before[k]);
                                            }
                                            if let Some(mw) = config.max_weight {
                                                assert(forall|k: int|
                                                    0 <= k < found@.len() ==> (
                                                    #[trigger] found@[k]).weight <= mw);
                                            }
                                        }
                                    }
                                },
                                None => {},
                            }
                        }
                    }
                }
            }
            let mtrans = self.mutator.outgoing(node.mutator);
            let ltrans = self.lexicon.outgoing(node.lexicon);
            let mlen = mtrans.len();
            let llen = ltrans.len();
            let best_w: Option<Weight> = if found.len() > 0 {
                Some(found[0].weight)
            } else {
                None
            };
            let mut mi: usize = 0;
            while mi < mlen
                invariant
                    self.wf(),
                    mlen == mtrans@.len(),
                    llen == ltrans@.len(),
                    mtrans@ == self.mutator.spec_outgoing(node.mutator),
                    ltrans@ == self.lexicon.spec_outgoing(node.lexicon),
                    gsyms == syms@,
                    self.spec_reachable(gsyms, cfg(node)),
                    forall|k: int|
                        0 <= k < frontier@.len() ==> self.spec_reachable(
                            gsyms,
                            cfg(#[trigger] frontier@[k]),
                        ),
                decreases mlen - mi,
            {
                let mt = mtrans[mi];
                let m_eps = mt.input == EPSILON || self.mutator.alphabet.is_flag(mt.input);
                let consumes = !m_eps && node.input_pos < syms.len() && syms[node.input_pos]
                    == mt.input;
                // A flag diacritic traversed on the mutator side must
                // satisfy its feature demand, else the transition is
                // blocked.
                let flags_after_m: Option<Vec<i32>> = if m_eps && mt.input != EPSILON {
                    match self.mutator.alphabet.op_of(mt.input) {
                        Some(op) => apply_flag(&node.flags, op),
                        None => Some(clone_flags(&node.flags)),
                    }
                } else {
                    Some(clone_flags(&node.flags))
                };
                if let Some(flags1) = flags_after_m {
                if m_eps || consumes {
                    let new_pos = if consumes {
                        node.input_pos + 1
                    } else {
                        node.input_pos
                    };
                    let w1 = node.weight.saturating_add(mt.weight);
                    if mt.output == EPSILON || self.mutator.alphabet.is_flag(mt.output) {
                        if within_cutoffs(w1, config, best_w) {
                            let child = SearchNode {
                                lexicon: node.lexicon,
                                mutator: mt.target,
                                input_pos: new_pos,
                                weight: w1,
                                output: clone_output(&node.output),
                                flags: clone_flags(&flags1),
                            };
                            proof {
                                let pre = cfg(node);
                                let post = cfg(child);
                                assert(mtrans@[mi as int] == mt);
                                assert(self.mutator.spec_outgoing(node.mutator).contains(mt));
                                assert(self.spec_consumes(gsyms, pre, mt, post.pos));
                                assert(self.spec_mutator_eps_step(gsyms, pre, post, mt));
                                assert(self.spec_step(gsyms, pre, post));
                                self.lemma_step_reachable(gsyms, pre, post);
                            }
                            let ghost fr_before = frontier@;
                            frontier.push(child);
                            proof {
                                assert forall|k: int|
                                    0 <= k < frontier@.len() implies self.spec_reachable(
                                    gsyms,
                                    cfg(#[trigger] frontier@[k]),
                                ) by {
                                    if k < fr_before.len() {
                                        assert(frontier@[k] == fr_before[k]);
                                    } else {
                                        assert(frontier@[k] == child);
                                    }
                                }
                            }
                        }
                    } else {
                        let mut li: usize = 0;
                        while li < llen
                            invariant
                                self.wf(),
                                mlen == mtrans@.len(),
                                llen == ltrans@.len(),
                                mtrans@ == self.mutator.spec_outgoing(node.mutator),
                                ltrans@ == self.lexicon.spec_outgoing(node.lexicon),
                                gsyms == syms@,
                                mi < mlen,
                                mt == mtrans@[mi as int],
                                m_eps == spec_eps_like(self.mutator.alphabet, mt.input),
                                consumes ==> !m_eps && node.input_pos < syms@.len()
                                    && syms@[node.input_pos as int] == mt.input,
                                m_eps || consumes,
                                new_pos == if consumes {
                                    node.input_pos + 1
                                } else {
                                    node.input_pos as int
                                },
                                w1 == node.weight.saturating_add(mt.weight),
                                self.spec_reachable(gsyms, cfg(node)),
                                forall|k: int|
                                    0 <= k < frontier@.len() ==> self.spec_reachable(
                                        gsyms,
                                        cfg(#[trigger] frontier@[k]),
                                    ),
                            decreases llen - li,
                        {
                            let lt = ltrans[li];
                            if lt.input == mt.output {
                                let w2 = w1.saturating_add(lt.weight);
                                if within_cutoffs(w2, config, best_w) {
                                    let mut out2 = clone_output(&node.output);
                                    out2.push(lt.output);
                                    let child = SearchNode {
                                        lexicon: lt.target,
                                        mutator: mt.target,
                                        input_pos: new_pos,
                                        weight: w2,
                                        output: out2,
                                        flags: clone_flags(&flags1),
                                    };
                                    proof {
                                        let pre = cfg(node);
                                        let post = cfg(child);
                                        assert(self.mutator.spec_outgoing(
                                            node.mutator,
                                        ).contains(mt));
                                        assert(ltrans@[li as int] == lt);
                                        assert(self.lexicon.spec_outgoing(
                                            node.lexicon,
                                        ).contains(lt));
                                        assert(self.spec_consumes(gsyms, pre, mt, post.pos));
                                        assert(lt.input == mt.output);
                                        assert(post.output == pre.output.push(lt.output));
                                        assert(post.weight == pre.weight.saturating_add(
                                            mt.weight,
                                        ).saturating_add(lt.weight));
                                        assert(self.spec_pair_step(gsyms, pre, post, mt, lt));
                                        assert(self.spec_step(gsyms, pre, post));
                                        self.lemma_step_reachable(gsyms, pre, post);
                                    }
                                    let ghost fr_before = frontier@;
                                    frontier.push(child);
                                    proof {
                                        assert forall|k: int|
                                            0 <= k < frontier@.len() implies self.spec_reachable(
                                            gsyms,
                                            cfg(#[trigger] frontier@[k]),
                                        ) by {
                                            if k < fr_before.len() {
                                                assert(frontier@[k] == fr_before[k]);
                                            } else {
                                                assert(frontier@[k] == child);
                                            }
                                        }
                                    }
                                }
                            }
                            li += 1;
                        }
                    }
                }
                }
                mi += 1;
            }
            let mut li: usize = 0;
            while li < llen
                invariant
                    self.wf(),
                    llen == ltrans@.len(),
                    ltrans@ == self.lexicon.spec_outgoing(node.lexicon),
                    gsyms == syms@,
                    self.spec_reachable(gsyms, cfg(node)),
                    forall|k: int|
                        0 <= k < frontier@.len() ==> self.spec_reachable(
                            gsyms,
                            cfg(#[trigger] frontier@[k]),
                        ),
                decreases llen - li,
            {
                let lt = ltrans[li];
                if lt.input == EPSILON || self.lexicon.alphabet.is_flag(lt.input) {
                    // A flag diacritic traversed on the lexicon side must
                    // satisfy its feature demand, else the transition is
                    // blocked.
                    let flags_after: Option<Vec<i32>> = if lt.input != EPSILON {
                        match self.lexicon.alphabet.op_of(lt.input) {
                            Some(op) => apply_flag(&node.flags, op),
                            None => Some(clone_flags(&node.flags)),
                        }
                    } else {
                        Some(clone_flags(&node.flags))
                    };
                    if let Some(flags2) = flags_after {
                    let w2 = node.weight.saturating_add(lt.weight);
                    if within_cutoffs(w2, config, best_w) {
                        let mut out2 = clone_output(&node.output);
                        out2.push(lt.output);
                        let child = SearchNode {
                            lexicon: lt.target,
                            mutator: node.mutator,
                            input_pos: node.input_pos,
                            weight: w2,
                            output: out2,
                            flags: flags2,
                        };
                        proof {
                            let pre = cfg(node);
                            let post = cfg(child);
                            assert(ltrans@[li as int] == lt);
                            assert(self.lexicon.spec_outgoing(node.lexicon).contains(lt));
                            assert(spec_eps_like(self.lexicon.alphabet, lt.input));
                            assert(post.output == pre.output.push(lt.output));
                            assert(post.weight == pre.weight.saturating_add(lt.weight));
                            assert(post.pos == pre.pos && post.mutator == pre.mutator);
                            assert(self.spec_lexicon_eps_step(pre, post, lt));
                            assert(self.spec_step(gsyms, pre, post));
                            self.lemma_step_reachable(gsyms, pre, post);
                        }
                        let ghost fr_before = frontier@;
                        frontier.push(child);
                        proof {
                            assert forall|k: int|
                                0 <= k < frontier@.len() implies self.spec_reachable(
                                gsyms,
                                cfg(#[trigger] frontier@[k]),
                            ) by {
                                if k < fr_before.len() {
                                    assert(frontier@[k] == fr_before[k]);
                                } else {
                                    assert(frontier@[k] == child);
                                }
                            }
                        }
                    }
                    }
                }
                li += 1;
            }
        }
        // The search can miss the exact form behind its cutoffs and
        // sampling; the deterministic zero-edit walk recovers it.
        if let Some((wt, zout)) = self.zero_edit(&syms) {
            let admitted = match config.max_weight {
                Some(mw) => wt <= mw,
                None => true,
            };
            if admitted {
                let value = self.lexicon.alphabet.decode(&zout);
                if contains_suggestion(&found, &value, wt) {
                    proof {
                        let k = choose|k: int|
                            0 <= k < found@.len() && found@[k].value@ == value@
                                && found@[k].weight == wt;
                        assert(found@.len() > 0);
                        assert(found@[0].weight <= wt);
                    }
                } else {
                    let sugg = Suggestion { value, weight: wt };
                    proof {
                        self.lemma_initial_reachable(gsyms);
                        self.lemma_zero_edit_accepts(gsyms, self.spec_initial(), wt, zout@);
                        assert(self.spec_accepts(gsyms, zout@, wt));
                        assert(self.spec_plain_justified(gsyms, sugg));
                    }
                    let ghost f_prev = found@;
                    insert_sorted(&mut found, sugg);
                    proof {
                        assert forall|k: int|
                            0 <= k < found@.len() implies self.spec_plain_justified(
                            gsyms,
                            #[trigger] found@[k],
                        ) by {
                            if found@[k] != sugg {
                                assert(f_prev.contains(found@[k]));
                                let m = choose|m: int|
                                    0 <= m < f_prev.len() && f_prev[m] == found@[k];
                                assert(self.spec_plain_justified(gsyms, f_prev[m]));
                            }
                        }
                    }
                    match config.n_best {
                        Some(n) => {
                            if found.len() > n {
                                let ghost before = found@;
                                found.truncate(n);
                                proof {
                                    assert(found@ == before.subrange(0, n as int));
                                    assert(sorted_by_weight(found@));
                                    assert(found@[0].weight <= wt);
                                    assert forall|k: int|
                                        0 <= k < found@.len() implies self.spec_plain_justified(
                                        gsyms,
                                        #[trigger] found@[k],
                                    ) by {
                                        assert(found@[k] == before[k]);
                                    }
                                    if let Some(mw) = config.max_weight {
                                        assert(forall|k: int|
                                            0 <= k < found@.len() ==> (
                                            #[trigger] found@[k]).weight <= mw);
                                    }
                                }
                            }
                        },
                        None => {},
                    }
                }
            }
            proof {
                assert((match config.max_weight {
                    Some(mw) => wt <= mw,
                    None => true,
                }) ==> found@.len() > 0 && found@[0].weight <= self.spec_zero_edit(
                    gsyms,
                ).unwrap().0);
            }
        }
        let ghost f_final = found@;
        let r = apply_beam(found, config.beam);
        proof {
            assert forall|k: int| 0 <= k < r@.len() implies self.spec_plain_justified(
                self.mutator.alphabet.spec_encoded(input@),
                #[trigger] r@[k],
            ) by {
                assert(f_final.contains(r@[k]));
                let m = choose|m: int| 0 <= m < f_final.len() && f_final[m] == r@[k];
                assert(self.spec_plain_justified(gsyms, f_final[m]));
            }
            let we = self.spec_zero_edit(gsyms);
            if input@.len() > 0 && self.mutator.alphabet.spec_all_encodable(input@) && we is Some
                && (match config.max_weight {
                Some(mw) => we.unwrap().0 <= mw,
                None => true,
            }) && (match config.n_best {
                Some(n) => n >= 1,
                None => true,
            }) {
                assert(f_final.len() > 0);
                assert(f_final[0].weight <= we.unwrap().0);
                assert(r@.len() > 0 && r@[0] == f_final[0]);
            }
        }
        r
    }

    /// Return ranked correction suggestions for `input`.
    ///
    /// The result is sorted by non-decreasing weight with ties in
    /// discovery order, truncated to `n_best`, holds nothing heavier than
    /// `max_weight` nor than the best weight plus `beam` where those are
    /// set, and is empty for an empty input. Every returned suggestion is
    /// justified: the product of the two transducers accepts an output at
    /// that weight, over the input as given or case-normalized, whose
    /// spelled form the suggestion's value re-cases at most. When the
    /// deterministic zero-edit walk accepts the input within `max_weight`,
    /// the result is non-empty and its best weight is no heavier than the
    /// walk's. An input with no accepting path within the cutoffs yields
    /// an empty sequence; that is a normal result, not an error. With
    /// `with_caps` set, a case-normalized form of the input is searched as
    /// well and the suggested forms are re-cased to the input's observed
    /// capitalization pattern.
    pub fn suggest_with_config(&self, input: &str, config: &SpellerConfig) -> (r: Vec<
        Suggestion,
    >)
        requires
            self.wf(),
        ensures
            sorted_by_weight(r@),
            match config.n_best {
                Some(n) => r@.len() <= n,
                None => true,
            },
            match config.max_weight {
                Some(mw) => forall|k: int|
                    0 <= k < r@.len() ==> (#[trigger] r@[k]).weight <= mw,
                None => true,
            },
            match config.beam {
                Some(b) => forall|k: int|
                    0 <= k < r@.len() ==> (#[trigger] r@[k]).weight as int <= r@[0].weight as int
                        + b,
                None => true,
            },
            input@.len() == 0 ==> r@.len() == 0,
            forall|k: int| 0 <= k < r@.len() ==> self.spec_justified(input@, #[trigger] r@[k]),
            ({
                let we = self.spec_zero_edit(self.mutator.alphabet.spec_encoded(input@));
                (input@.len() > 0 && self.mutator.alphabet.spec_all_encodable(input@)
                    && we is Some && (match config.max_weight {
                    Some(mw) => we.unwrap().0 <= mw,
                    None => true,
                }) && (match config.n_best {
                    Some(n) => n >= 1,
                    None => true,
                })) ==> (r@.len() > 0 && r@[0].weight <= we.unwrap().0)
            }),
    {
        if !config.with_caps {
            let r = self.suggest_plain(input, config);
            proof {
                assert forall|k: int| 0 <= k < r@.len() implies self.spec_justified(
                    input@,
                    #[trigger] r@[k],
                ) by {
                    let out = choose|out: Seq<SymbolNumber>|
                        self.spec_accepts(
                            self.mutator.alphabet.spec_encoded(input@),
                            out,
                            r@[k].weight,
                        ) && r@[k].value@ == self.lexicon.alphabet.spec_decoded(out);
                    assert(self.spec_justified_by(input@, r@[k], input@, out));
                }
            }
            return r;
        }
        let nothing: Vec<Suggestion> = Vec::new();
        if input.unicode_len() == 0 {
            return nothing;
        }
        let pattern = case_pattern(input);
        let mut merged = self.suggest_plain(input, config);
        proof {
            assert forall|k: int| 0 <= k < merged@.len() implies self.spec_search_justified(
                input@,
                #[trigger] merged@[k],
            ) by {
                let out = choose|out: Seq<SymbolNumber>|
                    self.spec_accepts(
                        self.mutator.alphabet.spec_encoded(input@),
                        out,
                        merged@[k].weight,
                    ) && merged@[k].value@ == self.lexicon.alphabet.spec_decoded(out);
                assert(self.spec_search_justified_by(input@, merged@[k], input@, out));
            }
        }
        let ghost zc = ({
            let we = self.spec_zero_edit(self.mutator.alphabet.spec_encoded(input@));
            input@.len() > 0 && self.mutator.alphabet.spec_all_encodable(input@) && we is Some
                && (match config.max_weight {
                Some(mw) => we.unwrap().0 <= mw,
                None => true,
            }) && (match config.n_best {
                Some(n) => n >= 1,
                None => true,
            })
        });
        let ghost zw = if self.spec_zero_edit(self.mutator.alphabet.spec_encoded(input@))
            is Some {
            self.spec_zero_edit(self.mutator.alphabet.spec_encoded(input@)).unwrap().0
        } else {
            0
        };
        proof {
            assert(zc ==> merged@.len() > 0 && merged@[0].weight <= zw);
        }
        let lower = lowercase(input);
        let owned: String = input.to_owned();
        if !lower.eq(&owned) {
            let mut extra = self.suggest_plain(lower.as_str(), config);
            proof {
                assert(lower@ == lower_of(input@));
            }
            while extra.len() > 0
                invariant
                    sorted_by_weight(merged@),
                    zc ==> merged@.len() > 0 && merged@[0].weight <= zw,
                    forall|k: int|
                        0 <= k < merged@.len() ==> self.spec_search_justified(
                            input@,
                            #[trigger] merged@[k],
                        ),
                    forall|k: int|
                        0 <= k < extra@.len() ==> self.spec_plain_justified(
                            self.mutator.alphabet.spec_encoded(lower_of(input@)),
                            #[trigger] extra@[k],
                        ),
                    match config.max_weight {
                        Some(mw) => {
                            &&& forall|k: int|
                                0 <= k < merged@.len() ==> (#[trigger] merged@[k]).weight <= mw
                            &&& forall|k: int|
                                0 <= k < extra@.len() ==> (#[trigger] extra@[k]).weight <= mw
                        },
                        None => true,
                    },
                decreases extra@.len(),
            {
                let ghost merged_before = merged@;
                let ghost extra_before = extra@;
                let s = extra.pop().unwrap();
                proof {
                    assert(self.spec_plain_justified(
                        self.mutator.alphabet.spec_encoded(lower_of(input@)),
                        s,
                    ));
                    assert forall|k: int| 0 <= k < extra@.len() implies self.spec_plain_justified(
                        self.mutator.alphabet.spec_encoded(lower_of(input@)),
                        #[trigger] extra@[k],
                    ) by {
                        assert(extra@[k] == extra_before[k]);
                    }
                }
                insert_sorted(&mut merged, s);
                proof {
                    assert forall|k: int| 0 <= k < merged@.len() implies self.spec_search_justified(
                        input@,
                        #[trigger] merged@[k],
                    ) by {
                        if merged@[k] == s {
                            let out = choose|out: Seq<SymbolNumber>|
                                self.spec_accepts(
                                    self.mutator.alphabet.spec_encoded(lower_of(input@)),
                                    out,
                                    s.weight,
                                ) && s.value@ == self.lexicon.alphabet.spec_decoded(out);
                            assert(self.spec_search_justified_by(
                                input@,
                                s,
                                lower_of(input@),
                                out,
                            ));
                        } else {
                            assert(merged_before.contains(merged@[k]));
                            let m = choose|m: int|
                                0 <= m < merged_before.len() && merged_before[m] == merged@[k];
                            assert(self.spec_search_justified(input@, merged_before[m]));
                        }
                    }
                    if let Some(mw) = config.max_weight {
                        assert(s.weight <= mw);
                        assert forall|k: int| 0 <= k < merged@.len() implies (
                        #[trigger] merged@[k]).weight <= mw by {
                            if merged@[k] != s {
                                assert(merged_before.contains(merged@[k]));
                                let m = choose|m: int|
                                    0 <= m < merged_before.len() && merged_before[m]
                                        == merged@[k];
                                assert(merged_before[m].weight <= mw);
                            }
                        }
                    }
                }
            }
            match config.n_best {
                Some(n) => {
                    if merged.len() > n {
                        let ghost before = merged@;
                        merged.truncate(n);
                        proof {
                            assert(merged@ == before.subrange(0, n as int));
                            assert(sorted_by_weight(merged@));
                            assert(zc ==> merged@.len() > 0 && merged@[0] == before[0]);
                            assert forall|k: int|
                                0 <= k < merged@.len() implies self.spec_search_justified(
                                input@,
                                #[trigger] merged@[k],
                            ) by {
                                assert(merged@[k] == before[k]);
                            }
                            if let Some(mw) = config.max_weight {
                                assert(forall|k: int|
                                    0 <= k < merged@.len() ==> (#[trigger] merged@[k]).weight
                                        <= mw);
                            }
                        }
                    }
                },
                None => {},
            }
        }
        let recased = recase_all(merged, pattern);
        proof {
            assert forall|i: int, j: int| 0 <= i < j < recased@.len() implies recased@[i].weight
                <= recased@[j].weight by {
                assert(recased@[i].weight == merged@[i].weight);
                assert(recased@[j].weight == merged@[j].weight);
            }
            assert forall|k: int| 0 <= k < recased@.len() implies self.spec_justified(
                input@,
                #[trigger] recased@[k],
            ) by {
                let (base, out) = choose|base: Seq<char>, out: Seq<SymbolNumber>|
                    self.spec_search_justified_by(input@, merged@[k], base, out);
                lemma_recased_is_variant(merged@[k].value@, pattern, recased@[k].value@);
                assert(recased@[k].weight == merged@[k].weight);
                assert(self.spec_justified_by(input@, recased@[k], base, out));
            }
            if let Some(mw) = config.max_weight {
                assert forall|k: int| 0 <= k < recased@.len() implies (
                #[trigger] recased@[k]).weight <= mw by {
                    assert(recased@[k].weight == merged@[k].weight);
                }
            }
        }
        let r = apply_beam(recased, config.beam);
        proof {
            if let Some(mw) = config.max_weight {
                assert forall|k: int| 0 <= k < r@.len() implies (#[trigger] r@[k]).weight
                    <= mw by {
                    assert(recased@.contains(r@[k]));
                    let m = choose|m: int|
                        0 <= m < recased@.len() && recased@[m] == r@[k];
                    assert(recased@[m].weight <= mw);
                }
            }
            assert forall|k: int| 0 <= k < r@.len() implies self.spec_justified(
                input@,
                #[trigger] r@[k],
            ) by {
                assert(recased@.contains(r@[k]));
                let m = choose|m: int| 0 <= m < recased@.len() && recased@[m] == r@[k];
                assert(self.spec_justified(input@, recased@[m]));
            }
            if zc {
                assert(merged@.len() > 0 && merged@[0].weight <= zw);
                assert(recased@.len() > 0 && recased@[0].weight <= zw);
                assert(r@.len() > 0 && r@[0] == recased@[0]);
            }
        }
        r
    }
}

/// Re-case every suggested form to the observed pattern, leaving the
/// weights and the order untouched.
fn recase_all(v: Vec<Suggestion>, pattern: CasePattern) -> (r: Vec<Suggestion>)
    ensures
        r@.len() == v@.len(),
        forall|k: int| 0 <= k < v@.len() ==> (#[trigger] r@[k]).weight == v@[k].weight,
        forall|k: int|
            0 <= k < v@.len() ==> spec_recased(v@[k].value@, pattern, (#[trigger] r@[k]).value@),
{
    let n = v.len();
    let mut out: Vec<Suggestion> = Vec::new();
    let mut i: usize = 0;
    while i < n
        invariant
            out@.len() == i <= n == v@.len(),
            forall|k: int| 0 <= k < i ==> (#[trigger] out@[k]).weight == v@[k].weight,
            forall|k: int|
                0 <= k < i ==> spec_recased(
                    v@[k].value@,
                    pattern,
                    (#[trigger] out@[k]).value@,
                ),
        decreases n - i,
    {
        let value = recase(v[i].value.as_str(), pattern);
        out.push(Suggestion { value, weight: v[i].weight });
        i += 1;
    }
    out
}

/// A re-cased form is one of the allowed value variants.
proof fn lemma_recased_is_variant(orig: Seq<char>, pattern: CasePattern, new: Seq<char>)
    requires
        spec_recased(orig, pattern, new),
    ensures
        spec_value_variant(orig, new),
{
}

/// Whether a node of weight `w` survives the weight cutoffs: not above
/// `max_weight`, and not above the best found weight plus `beam`, where
/// each is set.
fn within_cutoffs(w: Weight, config: &SpellerConfig, best_w: Option<Weight>) -> bool {
    let over_max = match config.max_weight {
        Some(mw) => w > mw,
        None => false,
    };
    let over_beam = match (config.beam, best_w) {
        (Some(b), Some(bw)) => w > bw.saturating_add(b),
        _ => false,
    };
    !over_max && !over_beam
}

} // verus!
