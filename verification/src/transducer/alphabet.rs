//! The alphabet: symbol-number to string and flag-diacritic mapping,
//! looked up read-only during search.

use vstd::prelude::*;

use vstd::string::StrSliceExecFns;
use vstd::string::StringExecFns;

use crate::types::SymbolNumber;

verus! {

/// What a flag diacritic does to the feature state it is traversed over.
#[derive(Clone, Copy, Debug, PartialEq, Eq, Structural)]
pub enum FlagKind {
    /// Set the feature to the value.
    Positive,
    /// Set the feature to the negation of the value.
    Negative,
    /// Demand the feature set (to the value, where one is named).
    Require,
    /// Demand the feature unset (or not the value, where one is named).
    Disallow,
    /// Reset the feature.
    Clear,
    /// Set the feature to the value, or demand it already equal.
    Unify,
}

/// A parsed flag diacritic: its operation, the feature it acts on, and
/// the value it names; value zero means no value named.
#[derive(Clone, Copy, Debug, PartialEq, Eq, Structural)]
pub struct FlagOperation {
    pub kind: FlagKind,
    pub feature: u16,
    pub value: u16,
}

/// Maps each symbol number to its surface string, and to its parsed flag
/// operation where the symbol is a flag diacritic; flag diacritics
/// enforce feature constraints during traversal without consuming input
/// or emitting output.
#[derive(Debug)]
pub struct Alphabet {
    pub symbols: Vec<String>,
    pub ops: Vec<Option<FlagOperation>>,
}

impl Alphabet {
    /// Each symbol has a flag entry, and every symbol number fits below
    /// the "no symbol" sentinel.
    pub open spec fn wf(self) -> bool {
        &&& self.symbols@.len() == self.ops@.len()
        &&& self.symbols@.len() <= 0xFFFF
    }

    /// How many symbols the alphabet holds.
    pub open spec fn spec_len(self) -> nat {
        self.symbols@.len()
    }

    /// Whether `sym` names a flag diacritic.
    pub open spec fn spec_is_flag(self, sym: SymbolNumber) -> bool {
        sym < self.ops@.len() && self.ops@[sym as int] is Some
    }

    /// The flag operation of `sym`: present exactly when `sym` names a
    /// flag diacritic.
    pub open spec fn spec_op_of(self, sym: SymbolNumber) -> Option<FlagOperation> {
        if sym < self.ops@.len() {
            self.ops@[sym as int]
        } else {
            None
        }
    }

    /// The characters that `sym` contributes to a surface string: its
    /// symbol string, or nothing when `sym` is out of range or marks a
    /// flag diacritic.
    pub open spec fn spec_emitted(self, sym: SymbolNumber) -> Seq<char> {
        if sym < self.symbols@.len() && !self.spec_is_flag(sym) {
            self.symbols@[sym as int]@
        } else {
            Seq::<char>::empty()
        }
    }

    /// The surface string spelled by a sequence of output symbols.
    pub open spec fn spec_decoded(self, syms: Seq<SymbolNumber>) -> Seq<char>
        decreases syms.len(),
    {
        if syms.len() == 0 {
            Seq::<char>::empty()
        } else {
            self.spec_decoded(syms.drop_last()) + self.spec_emitted(syms.last())
        }
    }

    /// The first symbol number at or after `j` (the epsilon symbol at
    /// position zero excluded) whose symbol string is exactly the
    /// character `c`.
    pub open spec fn spec_first_key_from(self, c: char, j: int) -> Option<SymbolNumber>
        decreases self.symbols@.len() - j,
    {
        if j < 0 || j >= self.symbols@.len() {
            None
        } else if self.symbols@[j]@ == seq![c] {
            Some(j as SymbolNumber)
        } else {
            self.spec_first_key_from(c, j + 1)
        }
    }

    /// The symbol number that encodes the input character `c`.
    pub open spec fn spec_key_for(self, c: char) -> Option<SymbolNumber> {
        self.spec_first_key_from(c, 1)
    }

    /// Whether every character of `s` has an encoding symbol.
    pub open spec fn spec_all_encodable(self, s: Seq<char>) -> bool {
        forall|k: int| 0 <= k < s.len() ==> self.spec_key_for(s[k]) is Some
    }

    /// The symbol sequence that encodes `s`; meaningful only when every
    /// character is encodable.
    pub open spec fn spec_encoded(self, s: Seq<char>) -> Seq<SymbolNumber> {
        Seq::new(s.len(), |k: int| self.spec_key_for(s[k]).unwrap_or(0))
    }

    pub fn new(symbols: Vec<String>, ops: Vec<Option<FlagOperation>>) -> (a: Alphabet)
        requires
            symbols@.len() == ops@.len(),
            symbols@.len() <= 0xFFFF,
        ensures
            a.wf(),
            a.symbols == symbols,
            a.ops == ops,
    {
        Alphabet { symbols, ops }
    }

    pub fn len(&self) -> (r: usize)
        requires
            self.wf(),
        ensures
            r == self.spec_len(),
    {
        self.symbols.len()
    }

    pub fn is_flag(&self, sym: SymbolNumber) -> (r: bool)
        ensures
            r == self.spec_is_flag(sym),
    {
        (sym as usize) < self.ops.len() && self.ops[sym as usize].is_some()
    }

    /// Look up the flag operation of `sym`.
    pub fn op_of(&self, sym: SymbolNumber) -> (r: Option<FlagOperation>)
        ensures
            r == self.spec_op_of(sym),
    {
        if (sym as usize) < self.ops.len() {
            self.ops[sym as usize]
        } else {
            None
        }
    }

    /// Resolve a symbol number to its surface string; absent when `sym`
    /// is out of range.
    pub fn string_of(&self, sym: SymbolNumber) -> (r: Option<&String>)
        ensures
            match r {
                Some(s) => sym < self.symbols@.len() && s@ == self.symbols@[sym as int]@,
                None => sym >= self.symbols@.len(),
            },
    {
        if (sym as usize) < self.symbols.len() {
            Some(&self.symbols[sym as usize])
        } else {
            None
        }
    }

    /// Resolve the symbol number `c` stands for: the first non-epsilon
    /// symbol whose string is exactly that character.
    pub fn key_for_char(&self, c: char) -> (r: Option<SymbolNumber>)
        requires
            self.wf(),
        ensures
            r == self.spec_key_for(c),
    {
        let n = self.symbols.len();
        let mut j: usize = 1;
        while j < n
            invariant
                1 <= j,
                n == self.symbols@.len() <= 0xFFFF,
                self.spec_key_for(c) == self.spec_first_key_from(c, j as int),
            decreases n - j,
        {
            let s: &String = &self.symbols[j];
            if s.as_str().unicode_len() == 1 && s.as_str().get_char(0) == c {
                proof {
                    assert(s@ =~= seq![c]);
                }
                return Some(j as SymbolNumber);
            }
            proof {
                assert(self.symbols@[j as int]@ != seq![c]);
            }
            j += 1;
        }
        None
    }

    /// Encode an input string, one symbol per character; `None` when some
    /// character has no encoding symbol.
    pub fn encode(&self, input: &str) -> (r: Option<Vec<SymbolNumber>>)
        requires
            self.wf(),
        ensures
            match r {
                Some(syms) => {
                    &&& self.spec_all_encodable(input@)
                    &&& syms@ == self.spec_encoded(input@)
                },
                None => !self.spec_all_encodable(input@),
            },
    {
        let n = input.unicode_len();
        let mut syms: Vec<SymbolNumber> = Vec::new();
        let mut k: usize = 0;
        while k < n
            invariant
                k <= n == input@.len(),
                self.wf(),
                syms@.len() == k,
                forall|m: int|
                    0 <= m < k ==> self.spec_key_for(input@[m]) == Some(syms@[m]),
            decreases n - k,
        {
            let c = input.get_char(k);
            match self.key_for_char(c) {
                Some(sym) => {
                    syms.push(sym);
                },
                None => {
                    return None;
                },
            }
            k += 1;
        }
        proof {
            assert(syms@ =~= self.spec_encoded(input@));
        }
        Some(syms)
    }

    /// Spell the surface string of a sequence of output symbols, skipping
    /// flag diacritics and out-of-range symbols.
    pub fn decode(&self, syms: &Vec<SymbolNumber>) -> (r: String)
        requires
            self.wf(),
        ensures
            r@ == self.spec_decoded(syms@),
    {
        let mut out = String::new();
        let n = syms.len();
        let mut k: usize = 0;
        while k < n
            invariant
                k <= n == syms@.len(),
                self.wf(),
                out@ == self.spec_decoded(syms@.take(k as int)),
            decreases n - k,
        {
            let sym = syms[k];
            if (sym as usize) < self.symbols.len() && !self.is_flag(sym) {
                out.append(self.symbols[sym as usize].as_str());
            }
            proof {
                assert(syms@.take(k + 1).drop_last() =~= syms@.take(k as int));
                assert(syms@.take(k + 1).last() == syms@[k as int]);
            }
            k += 1;
        }
        proof {
            assert(syms@.take(n as int) =~= syms@);
        }
        out
    }
}

} // verus!
