//! The leaderboard: analyses kept unique by symbol, ordered by score from the
//! highest down, and bounded in length.

use vstd::prelude::*;

use crate::clock::Timestamp;
use crate::selection::StatefulList;

verus! {

/// How many analyses a leaderboard holds at most unless told otherwise.
pub const DEFAULT_CAPACITY: usize = 50;

/// One symbol's relative-volume analysis.
pub struct Analysis {
    pub symbol: String,
    /// Mean volume traded by the cutoff time over the reference days.
    pub average_dvat: u64,
    /// Volume traded in the current session.
    pub analysis_dvat: u64,
    /// Volume traded in the current session over the exact mean by the cutoff,
    /// in thousandths, rounded down.
    pub score_milli: u64,
    /// Price change over the session, `(first close - last close) / first close`,
    /// in hundredths of a percent.
    pub pnl_basis_points: i128,
    /// When the symbol was first seen on the leaderboard.
    pub created_at: Timestamp,
}

/// Same symbol.
pub open spec fn same_symbol(a: Analysis, b: Analysis) -> bool {
    a.symbol@ == b.symbol@
}

/// Scores never rise from one entry to a later one.
pub open spec fn sorted_by_score(s: Seq<Analysis>) -> bool {
    forall|i: int, j: int| 0 <= i < j < s.len() ==> s[i].score_milli >= s[j].score_milli
}

/// No two entries share a symbol.
pub open spec fn unique_symbols(s: Seq<Analysis>) -> bool {
    forall|i: int, j: int| 0 <= i < s.len() && 0 <= j < s.len() && i != j ==> !same_symbol(s[i], s[j])
}

/// What a leaderboard of the given capacity always satisfies.
pub open spec fn well_ranked(s: Seq<Analysis>, capacity: nat) -> bool {
    &&& s.len() <= capacity
    &&& sorted_by_score(s)
    &&& unique_symbols(s)
}

/// Some entry holds the symbol of `a`.
pub open spec fn holds_symbol(s: Seq<Analysis>, a: Analysis) -> bool {
    exists|j: int| 0 <= j < s.len() && same_symbol(#[trigger] s[j], a)
}

/// The index of the entry holding the symbol of `a`, where there is one.
pub open spec fn symbol_index(s: Seq<Analysis>, a: Analysis) -> int {
    choose|j: int| 0 <= j < s.len() && same_symbol(#[trigger] s[j], a)
}

/// The first index whose score is below `score`, or the length when there is none.
pub open spec fn first_lower(s: Seq<Analysis>, score: u64) -> int
    decreases s.len(),
{
    if s.len() == 0 {
        0
    } else if s[0].score_milli < score {
        0
    } else {
        1 + first_lower(s.drop_first(), score)
    }
}

/// `a`, keeping the first-seen time of `b`.
pub open spec fn keeping_created_at(a: Analysis, b: Analysis) -> Analysis {
    Analysis { created_at: b.created_at, ..a }
}

/// The leaderboard after recording `a`.
///
/// A symbol already present is taken out and `a` put back, with the old
/// first-seen time, before the first entry that scores lower. A new symbol goes
/// before the first entry that scores lower, and the list is then cut back to
/// `capacity`.
pub open spec fn upserted(s: Seq<Analysis>, a: Analysis, capacity: nat) -> Seq<Analysis> {
    if holds_symbol(s, a) {
        let j = symbol_index(s, a);
        let rest = s.remove(j);
        rest.insert(first_lower(rest, a.score_milli), keeping_created_at(a, s[j]))
    } else {
        let grown = s.insert(first_lower(s, a.score_milli), a);
        if grown.len() > capacity {
            grown.take(capacity as int)
        } else {
            grown
        }
    }
}

/// The leaderboard after recording each of `items` in turn.
pub open spec fn upserted_all(s: Seq<Analysis>, items: Seq<Analysis>, capacity: nat) -> Seq<Analysis>
    decreases items.len(),
{
    if items.len() == 0 {
        s
    } else {
        upserted_all(upserted(s, items[0], capacity), items.drop_first(), capacity)
    }
}

proof fn lemma_first_lower_bounds(s: Seq<Analysis>, score: u64)
    ensures
        0 <= first_lower(s, score) <= s.len(),
        forall|i: int| 0 <= i < first_lower(s, score) ==> s[i].score_milli >= score,
        first_lower(s, score) < s.len() ==> s[first_lower(s, score)].score_milli < score,
    decreases s.len(),
{
    if s.len() > 0 && s[0].score_milli >= score {
        lemma_first_lower_bounds(s.drop_first(), score);
        assert forall|i: int| 0 <= i < first_lower(s, score) implies s[i].score_milli >= score by {
            if i > 0 {
                assert(s[i] == s.drop_first()[i - 1]);
            }
        }
    }
}

proof fn lemma_first_lower_is(s: Seq<Analysis>, score: u64, k: int)
    requires
        0 <= k <= s.len(),
        forall|i: int| 0 <= i < k ==> s[i].score_milli >= score,
        k < s.len() ==> s[k].score_milli < score,
    ensures
        first_lower(s, score) == k,
    decreases s.len(),
{
    if s.len() > 0 && k > 0 {
        assert forall|i: int| 0 <= i < k - 1 implies s.drop_first()[i].score_milli >= score by {
            assert(s.drop_first()[i] == s[i + 1]);
        }
        lemma_first_lower_is(s.drop_first(), score, k - 1);
    }
}

proof fn lemma_insert_sorted(s: Seq<Analysis>, a: Analysis)
    requires
        sorted_by_score(s),
    ensures
        sorted_by_score(s.insert(first_lower(s, a.score_milli), a)),
{
    lemma_first_lower_bounds(s, a.score_milli);
    let p = first_lower(s, a.score_milli);
    let t = s.insert(p, a);
    assert forall|i: int, j: int| 0 <= i < j < t.len() implies t[i].score_milli >= t[j].score_milli by {
        if j < p {
        } else if j == p {
        } else if i < p {
            assert(t[j] == s[j - 1]);
        } else if i == p {
            assert(t[j] == s[j - 1]);
            assert(s[p].score_milli < a.score_milli);
        } else {
            assert(t[j] == s[j - 1]);
            assert(t[i] == s[i - 1]);
        }
    }
}

proof fn lemma_insert_unique(s: Seq<Analysis>, p: int, a: Analysis)
    requires
        unique_symbols(s),
        !holds_symbol(s, a),
        0 <= p <= s.len(),
    ensures
        unique_symbols(s.insert(p, a)),
{
    let t = s.insert(p, a);
    assert forall|i: int, j: int|
        0 <= i < t.len() && 0 <= j < t.len() && i != j implies !same_symbol(t[i], t[j]) by {
        let si = if i < p { i } else { i - 1 };
        let sj = if j < p { j } else { j - 1 };
        if i == p {
            assert(t[j] == s[sj]);
            assert(same_symbol(s[sj], a) ==> holds_symbol(s, a));
        } else if j == p {
            assert(t[i] == s[si]);
            assert(same_symbol(s[si], a) ==> holds_symbol(s, a));
        } else {
            assert(t[i] == s[si]);
            assert(t[j] == s[sj]);
        }
    }
}

/// Recording an analysis keeps the leaderboard bounded, ordered by score and
/// unique by symbol.
pub proof fn lemma_upsert_well_ranked(s: Seq<Analysis>, a: Analysis, capacity: nat)
    requires
        well_ranked(s, capacity),
    ensures
        well_ranked(upserted(s, a, capacity), capacity),
{
    if holds_symbol(s, a) {
        let j = symbol_index(s, a);
        let rest = s.remove(j);
        let b = keeping_created_at(a, s[j]);
        assert(sorted_by_score(rest)) by {
            assert forall|x: int, y: int| 0 <= x < y < rest.len() implies
                rest[x].score_milli >= rest[y].score_milli by {
                let sx = if x < j { x } else { x + 1 };
                let sy = if y < j { y } else { y + 1 };
                assert(rest[x] == s[sx]);
                assert(rest[y] == s[sy]);
            }
        }
        assert(unique_symbols(rest)) by {
            assert forall|x: int, y: int|
                0 <= x < rest.len() && 0 <= y < rest.len() && x != y implies
                !same_symbol(rest[x], rest[y]) by {
                let sx = if x < j { x } else { x + 1 };
                let sy = if y < j { y } else { y + 1 };
                assert(rest[x] == s[sx]);
                assert(rest[y] == s[sy]);
            }
        }
        assert(!holds_symbol(rest, b)) by {
            if holds_symbol(rest, b) {
                let x = choose|x: int| 0 <= x < rest.len() && same_symbol(#[trigger] rest[x], b);
                let sx = if x < j { x } else { x + 1 };
                assert(rest[x] == s[sx]);
                assert(same_symbol(s[sx], s[j]));
            }
        }
        lemma_first_lower_bounds(rest, a.score_milli);
        lemma_insert_sorted(rest, b);
        lemma_insert_unique(rest, first_lower(rest, a.score_milli), b);
    } else {
        lemma_first_lower_bounds(s, a.score_milli);
        let grown = s.insert(first_lower(s, a.score_milli), a);
        lemma_insert_sorted(s, a);
        lemma_insert_unique(s, first_lower(s, a.score_milli), a);
        if grown.len() > capacity {
            let t = grown.take(capacity as int);
            assert forall|x: int, y: int| 0 <= x < y < t.len() implies
                t[x].score_milli >= t[y].score_milli by {
                assert(t[x] == grown[x]);
                assert(t[y] == grown[y]);
            }
            assert forall|x: int, y: int|
                0 <= x < t.len() && 0 <= y < t.len() && x != y implies
                !same_symbol(t[x], t[y]) by {
                assert(t[x] == grown[x]);
                assert(t[y] == grown[y]);
            }
        }
    }
}

/// Where every entry and `a` have a mean volume of at least `floor`, so does
/// every entry after recording `a`.
pub proof fn lemma_upsert_keeps_floor(s: Seq<Analysis>, a: Analysis, capacity: nat, floor: u64)
    requires
        well_ranked(s, capacity),
        forall|i: int| 0 <= i < s.len() ==> #[trigger] s[i].average_dvat >= floor,
        a.average_dvat >= floor,
    ensures
        forall|i: int|
            0 <= i < upserted(s, a, capacity).len() ==> #[trigger] upserted(s, a, capacity)[i].average_dvat
                >= floor,
{
    let t = upserted(s, a, capacity);
    assert forall|i: int| 0 <= i < t.len() implies #[trigger] t[i].average_dvat >= floor by {
        if holds_symbol(s, a) {
            let j = symbol_index(s, a);
            let rest = s.remove(j);
            let k = first_lower(rest, a.score_milli);
            lemma_first_lower_bounds(rest, a.score_milli);
            if i != k {
                let ri = if i < k { i } else { i - 1 };
                assert(t[i] == rest[ri]);
                let si = if ri < j { ri } else { ri + 1 };
                assert(rest[ri] == s[si]);
            }
        } else {
            let k = first_lower(s, a.score_milli);
            lemma_first_lower_bounds(s, a.score_milli);
            let grown = s.insert(k, a);
            assert(t[i] == grown[i]);
            if i != k {
                let si = if i < k { i } else { i - 1 };
                assert(grown[i] == s[si]);
            }
        }
    }
}

/// Whatever analyses are recorded, one after another, the leaderboard stays
/// within its capacity, ordered by score from the highest down, and unique by
/// symbol.
pub proof fn lemma_upserts_well_ranked(s: Seq<Analysis>, items: Seq<Analysis>, capacity: nat)
    requires
        well_ranked(s, capacity),
    ensures
        well_ranked(upserted_all(s, items, capacity), capacity),
    decreases items.len(),
{
    if items.len() > 0 {
        lemma_upsert_well_ranked(s, items[0], capacity);
        lemma_upserts_well_ranked(upserted(s, items[0], capacity), items.drop_first(), capacity);
    }
}

/// Recording a symbol that is already present keeps its first-seen time and
/// takes everything else, score and volumes included, from the new analysis.
pub proof fn lemma_upsert_keeps_created_at(s: Seq<Analysis>, a: Analysis, capacity: nat, j: int)
    requires
        well_ranked(s, capacity),
        0 <= j < s.len(),
        same_symbol(s[j], a),
    ensures
        ({
            let r = upserted(s, a, capacity);
            let k = first_lower(s.remove(j), a.score_milli);
            &&& 0 <= k < r.len()
            &&& r[k] == keeping_created_at(a, s[j])
            &&& r[k].created_at == s[j].created_at
            &&& r[k].score_milli == a.score_milli
            &&& r[k].average_dvat == a.average_dvat
            &&& r[k].analysis_dvat == a.analysis_dvat
            &&& r.len() == s.len()
        }),
{
    assert(holds_symbol(s, a));
    let i = symbol_index(s, a);
    assert(i == j) by {
        if i != j {
            assert(same_symbol(s[i], s[j]));
        }
    }
    lemma_first_lower_bounds(s.remove(j), a.score_milli);
}

/// The leaderboard and the status line shown above it.
pub struct App {
    items: StatefulList<Analysis>,
    title: String,
    capacity: usize,
}

impl App {
    #[verifier::type_invariant]
    spec fn inv(self) -> bool {
        well_ranked(self.items.items@, self.capacity as nat)
    }

    /// How many analyses the leaderboard holds at most.
    pub closed spec fn capacity(&self) -> nat {
        self.capacity as nat
    }

    /// The analyses, from the highest score down.
    pub closed spec fn results(&self) -> Seq<Analysis> {
        self.items.items@
    }

    /// The operator's cursor into the results.
    pub closed spec fn selection(&self) -> Option<usize> {
        self.items.selected
    }

    /// The status line.
    pub closed spec fn title_view(&self) -> Seq<char> {
        self.title@
    }

    /// An empty leaderboard of `DEFAULT_CAPACITY`.
    pub fn new() -> (r: App)
        ensures
            r.results().len() == 0,
            r.selection() is None,
            r.title_view() == "RVAT Scanner"@,
            r.capacity() == DEFAULT_CAPACITY,
    {
        App::with_capacity(DEFAULT_CAPACITY)
    }

    /// An empty leaderboard that holds at most `capacity` analyses.
    pub fn with_capacity(capacity: usize) -> (r: App)
        ensures
            r.results().len() == 0,
            r.selection() is None,
            r.title_view() == "RVAT Scanner"@,
            r.capacity() == capacity,
    {
        App {
            items: StatefulList::with_items(Vec::new()),
            title: String::from_str("RVAT Scanner"),
            capacity,
        }
    }

    pub fn items(&self) -> (r: &Vec<Analysis>)
        ensures
            r@ == self.results(),
            well_ranked(r@, self.capacity()),
    {
        proof {
            use_type_invariant(self);
        }
        &self.items.items
    }

    pub fn capacity_limit(&self) -> (r: usize)
        ensures
            r == self.capacity(),
    {
        self.capacity
    }

    pub fn selected(&self) -> (r: Option<usize>)
        ensures
            r == self.selection(),
    {
        self.items.selected
    }

    pub fn title(&self) -> (r: &String)
        ensures
            r@ == self.title_view(),
    {
        &self.title
    }

    pub fn set_title(&mut self, title: &str)
        ensures
            final(self).capacity() == old(self).capacity(),
            final(self).title_view() == title@,
            final(self).results() == old(self).results(),
            final(self).selection() == old(self).selection(),
    {
        proof {
            use_type_invariant(&*self);
        }
        self.title = String::from_str(title);
    }

    /// Moves the operator's cursor one entry down, wrapping to the top.
    pub fn select_next(&mut self)
        ensures
            final(self).capacity() == old(self).capacity(),
            final(self).results() == old(self).results(),
            final(self).title_view() == old(self).title_view(),
            final(self).selection() == Some(
                crate::selection::next_position(old(self).selection(), old(self).results().len()),
            ),
    {
        proof {
            use_type_invariant(&*self);
        }
        self.items.next();
    }

    /// Moves the operator's cursor one entry up, wrapping to the bottom.
    pub fn select_previous(&mut self)
        ensures
            final(self).capacity() == old(self).capacity(),
            final(self).results() == old(self).results(),
            final(self).title_view() == old(self).title_view(),
            final(self).selection() == Some(
                crate::selection::previous_position(old(self).selection(), old(self).results().len()),
            ),
    {
        proof {
            use_type_invariant(&*self);
        }
        self.items.previous();
    }

    /// Clears the operator's cursor.
    pub fn unselect(&mut self)
        ensures
            final(self).capacity() == old(self).capacity(),
            final(self).results() == old(self).results(),
            final(self).title_view() == old(self).title_view(),
            final(self).selection() is None,
    {
        proof {
            use_type_invariant(&*self);
        }
        self.items.unselect();
    }

    /// Records an analysis: see `upserted`.
    pub fn add_analysis(&mut self, item: Analysis)
        ensures
            final(self).results() == upserted(old(self).results(), item, old(self).capacity()),
            well_ranked(final(self).results(), old(self).capacity()),
            final(self).capacity() == old(self).capacity(),
            final(self).title_view() == old(self).title_view(),
            final(self).selection() == old(self).selection(),
    {
        proof {
            use_type_invariant(&*self);
        }
        let mut items: Vec<Analysis> = Vec::new();
        std::mem::swap(&mut items, &mut self.items.items);
        let ghost s = items@;
        proof {
            lemma_upsert_well_ranked(s, item, self.capacity as nat);
        }
        upsert(&mut items, item, self.capacity);
        self.items.items = items;
    }
}

/// Records `item` in `items`: see `upserted`.
fn upsert(items: &mut Vec<Analysis>, item: Analysis, capacity: usize)
    requires
        well_ranked(old(items)@, capacity as nat),
    ensures
        final(items)@ == upserted(old(items)@, item, capacity as nat),
{
    let ghost s = items@;
    let ghost given = item;
    let mut item = item;
    let len = items.len();
    let mut index: usize = 0;
    let mut found = false;
    while index < len
        invariant_except_break
            !found,
        invariant
            len == s.len(),
            items@ == s,
            0 <= index <= len,
            forall|k: int| 0 <= k < index ==> !same_symbol(#[trigger] s[k], item),
        ensures
            found ==> index < len && same_symbol(s[index as int], item),
            !found ==> forall|k: int| 0 <= k < len ==> !same_symbol(#[trigger] s[k], item),
        decreases len - index,
    {
        if items[index].symbol == item.symbol {
            found = true;
            break;
        }
        index += 1;
    }
    if found {
        proof {
            assert(holds_symbol(s, item));
            let j = symbol_index(s, item);
            if j != index as int {
                assert(same_symbol(s[j], s[index as int]));
            }
        }
        let old_entry = items.remove(index);
        item.created_at = old_entry.created_at;
        let pos = insert_position(items, item.score_milli);
        items.insert(pos, item);
        proof {
            assert(item == keeping_created_at(given, s[index as int]));
            assert(items@ =~= upserted(s, given, capacity as nat));
        }
    } else {
        let pos = insert_position(items, item.score_milli);
        items.insert(pos, item);
        if items.len() > capacity {
            items.truncate(capacity);
        }
        proof {
            assert(!holds_symbol(s, item));
            assert(items@ =~= upserted(s, item, capacity as nat));
        }
    }
}

/// The first index whose score is below `score`.
fn insert_position(items: &Vec<Analysis>, score: u64) -> (r: usize)
    ensures
        r == first_lower(items@, score),
        r <= items@.len(),
{
    let len = items.len();
    let mut index: usize = 0;
    while index < len
        invariant
            len == items@.len(),
            0 <= index <= len,
            forall|k: int| 0 <= k < index ==> items@[k].score_milli >= score,
        decreases len - index,
    {
        if score > items[index].score_milli {
            proof {
                lemma_first_lower_is(items@, score, index as int);
            }
            return index;
        }
        index += 1;
    }
    proof {
        lemma_first_lower_is(items@, score, index as int);
    }
    index
}

} // verus!
