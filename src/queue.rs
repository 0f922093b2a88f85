//! The universe of symbols to scan, handed out in a never-ending cycle, and the
//! symbols to leave out.

use vstd::prelude::*;

verus! {

/// The state of a queue over `len` symbols after one more claim: the cursor
/// moves on by one, wrapping to the first symbol, and each wrap counts a pass
/// (the count stops at `u64::MAX`).
pub open spec fn step(len: int, state: (int, int)) -> (int, int) {
    let (cursor, passes) = state;
    if cursor + 1 >= len {
        (0, if passes < u64::MAX { passes + 1 } else { passes })
    } else {
        (cursor + 1, passes)
    }
}

/// The state after `k` claims.
pub open spec fn steps(len: int, state: (int, int), k: nat) -> (int, int)
    decreases k,
{
    if k == 0 {
        state
    } else {
        step(len, steps(len, state, (k - 1) as nat))
    }
}

/// Claims made one at a time keep the cursor within the symbols; up to a full
/// cycle they move it on by one each, wrapping once; and every `len` claims
/// bring it back where it was with the pass count up by exactly one.
pub proof fn lemma_claims_cycle(len: int, cursor: int, passes: int, k: nat)
    requires
        0 <= cursor < len,
        0 <= passes < u64::MAX,
        k <= len,
    ensures
        steps(len, (cursor, passes), k) == if cursor + k < len {
            (cursor + k, passes)
        } else {
            (cursor + k - len, passes + 1)
        },
        0 <= steps(len, (cursor, passes), k).0 < len,
        k == len ==> steps(len, (cursor, passes), k) == (cursor, passes + 1),
    decreases k,
{
    if k > 0 {
        lemma_claims_cycle(len, cursor, passes, (k - 1) as nat);
    }
}

/// Any number `k` of claims made one at a time: the cursor ends at
/// `(cursor + k) % len`, and the pass count has risen by exactly the number of
/// wraps, `(cursor + k) / len`, stopping at `u64::MAX`. So every `len`
/// consecutive claims return each position once and count one pass.
pub proof fn lemma_claims_closed_form(len: int, cursor: int, passes: int, k: nat)
    requires
        0 <= cursor < len,
        0 <= passes <= u64::MAX,
    ensures
        steps(len, (cursor, passes), k).0 == (cursor + k) % len,
        steps(len, (cursor, passes), k).1 == if passes + (cursor + k) / len <= u64::MAX {
            passes + (cursor + k) / len
        } else {
            u64::MAX as int
        },
    decreases k,
{
    if k == 0 {
        vstd::arithmetic::div_mod::lemma_fundamental_div_mod_converse(cursor, len, 0, cursor);
    } else {
        let j = (k - 1) as nat;
        lemma_claims_closed_form(len, cursor, passes, j);
        let n = cursor + j;
        let q = n / len;
        let r = n % len;
        vstd::arithmetic::div_mod::lemma_fundamental_div_mod(n, len);
        assert(0 <= r < len) by {
            vstd::arithmetic::div_mod::lemma_mod_bound(n, len);
        }
        if r + 1 >= len {
            assert(n + 1 == (q + 1) * len + 0) by (nonlinear_arith)
                requires
                    n == len * q + r,
                    r + 1 == len,
            ;
            vstd::arithmetic::div_mod::lemma_fundamental_div_mod_converse(n + 1, len, q + 1, 0);
        } else {
            assert(n + 1 == q * len + (r + 1)) by (nonlinear_arith)
                requires
                    n == len * q + r,
            ;
            vstd::arithmetic::div_mod::lemma_fundamental_div_mod_converse(n + 1, len, q, r + 1);
        }
    }
}

/// Whatever the number of claims, the cursor stays within the symbols and the
/// pass count never falls.
pub proof fn lemma_claims_in_range(len: int, cursor: int, passes: int, k: nat)
    requires
        0 <= cursor < len,
        0 <= passes <= u64::MAX,
    ensures
        0 <= steps(len, (cursor, passes), k).0 < len,
        passes <= steps(len, (cursor, passes), k).1 <= u64::MAX,
    decreases k,
{
    if k > 0 {
        lemma_claims_in_range(len, cursor, passes, (k - 1) as nat);
    }
}

/// A non-empty list of symbols with a cursor that cycles through it, counting
/// full passes.
pub struct SymbolQueue {
    symbols: Vec<String>,
    cursor: usize,
    passes: u64,
}

impl SymbolQueue {
    #[verifier::type_invariant]
    spec fn inv(self) -> bool {
        0 <= self.cursor < self.symbols@.len()
    }

    pub closed spec fn symbols(&self) -> Seq<String> {
        self.symbols@
    }

    pub closed spec fn cursor(&self) -> int {
        self.cursor as int
    }

    pub closed spec fn passes(&self) -> int {
        self.passes as int
    }

    /// A queue over `symbols` with the cursor on the first one; `None` when
    /// there is none.
    pub fn new(symbols: Vec<String>) -> (r: Option<SymbolQueue>)
        ensures
            r is Some <==> symbols@.len() > 0,
            r is Some ==> r->Some_0.symbols() == symbols@ && r->Some_0.cursor() == 0
                && r->Some_0.passes() == 0,
    {
        if symbols.len() == 0 {
            None
        } else {
            Some(SymbolQueue { symbols, cursor: 0, passes: 0 })
        }
    }

    pub fn len(&self) -> (r: usize)
        ensures
            r == self.symbols().len(),
            r > 0,
    {
        proof {
            use_type_invariant(self);
        }
        self.symbols.len()
    }

    pub fn pass_count(&self) -> (r: u64)
        ensures
            r == self.passes(),
    {
        self.passes
    }

    /// Claims the next symbol: moves the cursor on (see `step`) and returns
    /// its new position with the symbol there.
    pub fn next(&mut self) -> (r: (usize, String))
        ensures
            final(self).symbols() == old(self).symbols(),
            (final(self).cursor(), final(self).passes()) == step(
                old(self).symbols().len() as int,
                (old(self).cursor(), old(self).passes()),
            ),
            r.0 == final(self).cursor(),
            0 <= r.0 < final(self).symbols().len(),
            r.1@ == final(self).symbols()[r.0 as int]@,
    {
        proof {
            use_type_invariant(&*self);
        }
        let len = self.symbols.len();
        if self.cursor + 1 >= len {
            self.cursor = 0;
            if self.passes < u64::MAX {
                self.passes = self.passes + 1;
            }
        } else {
            self.cursor = self.cursor + 1;
        }
        let i = self.cursor;
        (i, self.symbols[i].clone())
    }
}

/// The folder names that are symbols, in order: all but `.DS_Store`, which
/// desktop systems leave in folders.
pub open spec fn symbol_names(names: Seq<String>) -> Seq<Seq<char>>
    decreases names.len(),
{
    if names.len() == 0 {
        Seq::empty()
    } else if names.last()@ == ".DS_Store"@ {
        symbol_names(names.drop_last())
    } else {
        symbol_names(names.drop_last()).push(names.last()@)
    }
}

/// Keeps the folder names that are symbols (see `symbol_names`).
pub fn symbols_from_folders(names: Vec<String>) -> (r: Vec<String>)
    ensures
        r@.map_values(|s: String| s@) == symbol_names(names@),
{
    let skip = String::from_str(".DS_Store");
    let mut r: Vec<String> = Vec::new();
    let mut i: usize = 0;
    while i < names.len()
        invariant
            i <= names@.len(),
            skip@ == ".DS_Store"@,
            r@.map_values(|s: String| s@) == symbol_names(names@.take(i as int)),
        decreases names@.len() - i,
    {
        proof {
            assert(names@.take(i + 1).drop_last() =~= names@.take(i as int));
        }
        if names[i] != skip {
            let ghost before = r@;
            r.push(names[i].clone());
            proof {
                assert(r@.map_values(|s: String| s@) =~= before.map_values(|s: String| s@).push(
                    names@[i as int]@,
                ));
            }
        }
        i += 1;
    }
    proof {
        assert(names@.take(i as int) =~= names@);
    }
    r
}

/// One entry of the exclusion list.
pub struct Ticker {
    ticker: String,
}

impl Ticker {
    pub fn new(ticker: String) -> (r: Ticker)
        ensures
            r.symbol() == ticker@,
    {
        Ticker { ticker }
    }

    pub closed spec fn symbol(&self) -> Seq<char> {
        self.ticker@
    }

    pub fn ticker(&self) -> (r: &String)
        ensures
            r@ == self.symbol(),
    {
        &self.ticker
    }
}

/// Symbols that the scan skips.
///
/// Held in a `Vec`: vstd gives std's `HashSet` a contract only for keys whose
/// hashing it models, and `String` is not one of them.
pub struct ExclusionSet {
    symbols: Vec<String>,
}

impl ExclusionSet {
    /// Whether `symbol` is excluded.
    pub closed spec fn excludes(&self, symbol: Seq<char>) -> bool {
        exists|i: int| 0 <= i < self.symbols@.len() && #[trigger] self.symbols@[i]@ == symbol
    }

    /// The set of the tickers' symbols.
    pub fn from_tickers(tickers: &Vec<Ticker>) -> (r: ExclusionSet)
        ensures
            forall|s: Seq<char>|
                r.excludes(s) <==> exists|i: int|
                    0 <= i < tickers@.len() && #[trigger] tickers@[i].symbol() == s,
    {
        let mut symbols: Vec<String> = Vec::new();
        let mut i: usize = 0;
        while i < tickers.len()
            invariant
                i <= tickers@.len(),
                symbols@.len() == i,
                forall|k: int| 0 <= k < i ==> #[trigger] symbols@[k]@ == tickers@[k].symbol(),
            decreases tickers@.len() - i,
        {
            symbols.push(tickers[i].ticker().clone());
            i += 1;
        }
        let r = ExclusionSet { symbols };
        proof {
            assert forall|s: Seq<char>| r.excludes(s) <==> exists|i: int|
                0 <= i < tickers@.len() && #[trigger] tickers@[i].symbol() == s by {
                if r.excludes(s) {
                    let k = choose|k: int| 0 <= k < r.symbols@.len() && #[trigger] r.symbols@[k]@ == s;
                    assert(tickers@[k].symbol() == s);
                }
                if exists|i: int| 0 <= i < tickers@.len() && #[trigger] tickers@[i].symbol() == s {
                    let k = choose|k: int| 0 <= k < tickers@.len() && #[trigger] tickers@[k].symbol() == s;
                    assert(r.symbols@[k]@ == s);
                }
            }
        }
        r
    }

    /// Whether `symbol` is excluded.
    pub fn contains(&self, symbol: &String) -> (r: bool)
        ensures
            r == self.excludes(symbol@),
    {
        let mut i: usize = 0;
        while i < self.symbols.len()
            invariant
                i <= self.symbols@.len(),
                forall|k: int| 0 <= k < i ==> #[trigger] self.symbols@[k]@ != symbol@,
            decreases self.symbols@.len() - i,
        {
            if self.symbols[i] == *symbol {
                return true;
            }
            i += 1;
        }
        false
    }
}

} // verus!
