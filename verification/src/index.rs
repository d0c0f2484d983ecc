//! An ordered index from keys to row ordinals.
//!
//! The index keeps its entries in a vector sorted by key, each key once: a
//! key that is inserted again takes the ordinal that comes with it, in
//! place of the one it had. So an index tells the rows of a column apart
//! only where no value occurs twice, and a table keeps one on its primary
//! keys alone.
//!
//! Specifications see an index as the sequence of its entries in ascending
//! key order, every key taken as the [`Cell`] it stands for.

use crate::parser::select::Binary;
use crate::text::chars_of;
use crate::value::{
    cell_lt, lemma_cell_lt_asymmetric, lemma_cell_lt_irreflexive, lemma_cell_lt_total,
    lemma_cell_lt_transitive, text_lt, Cell,
};
use vstd::prelude::*;

verus! {

/// A value that can key an index.
pub trait IndexKey: Sized {
    /// The cell that this key stands for.
    spec fn cell(&self) -> Cell;

    /// Whether `self` comes before `other` in the order of cells.
    fn comes_before(&self, other: &Self) -> (r: bool)
        ensures
            r == cell_lt(self.cell(), other.cell()),
    ;

    /// A key that stands for the same cell.
    fn duplicate(&self) -> (r: Self)
        ensures
            r.cell() == self.cell(),
    ;
}

impl IndexKey for i32 {
    open spec fn cell(&self) -> Cell {
        Cell::Int(*self)
    }

    fn comes_before(&self, other: &Self) -> (r: bool) {
        *self < *other
    }

    fn duplicate(&self) -> (r: Self) {
        *self
    }
}

impl IndexKey for bool {
    open spec fn cell(&self) -> Cell {
        Cell::Bool(*self)
    }

    fn comes_before(&self, other: &Self) -> (r: bool) {
        !*self && *other
    }

    fn duplicate(&self) -> (r: Self) {
        *self
    }
}

impl IndexKey for String {
    open spec fn cell(&self) -> Cell {
        Cell::Str(self@)
    }

    fn comes_before(&self, other: &Self) -> (r: bool) {
        text_less(self.as_str(), other.as_str())
    }

    fn duplicate(&self) -> (r: Self) {
        self.clone()
    }
}

/// Whether the text `a` comes before the text `b`.
pub fn text_less(a: &str, b: &str) -> (r: bool)
    ensures
        r == text_lt(a@, b@),
{
    let x = chars_of(a);
    let y = chars_of(b);
    let mut i: usize = 0;
    assert(x@.skip(0) =~= x@ && y@.skip(0) =~= y@);
    while i < x.len() && i < y.len()
        invariant
            x@ == a@,
            y@ == b@,
            i <= x.len(),
            i <= y.len(),
            text_lt(x@, y@) == text_lt(x@.skip(i as int), y@.skip(i as int)),
        decreases x.len() - i,
    {
        assert(x@.skip(i as int).drop_first() =~= x@.skip(i + 1));
        assert(y@.skip(i as int).drop_first() =~= y@.skip(i + 1));
        assert(x@.skip(i as int)[0] == x@[i as int]);
        assert(y@.skip(i as int)[0] == y@[i as int]);
        if x[i] != y[i] {
            return x[i] < y[i];
        }
        i += 1;
    }
    x.len() < y.len()
}

/// Whether the keys of `s` ascend strictly.
pub open spec fn sorted(s: Seq<(Cell, usize)>) -> bool {
    forall|i: int, j: int| 0 <= i < j < s.len() ==> cell_lt(#[trigger] s[i].0, #[trigger] s[j].0)
}

/// Whether some entry of `s` has the key `key`.
pub open spec fn has_key(s: Seq<(Cell, usize)>, key: Cell) -> bool {
    exists|i: int| 0 <= i < s.len() && (#[trigger] s[i]).0 == key
}

/// The ordinal that `s` holds for `key`, if it holds one.
pub open spec fn lookup(s: Seq<(Cell, usize)>, key: Cell) -> Option<usize> {
    if has_key(s, key) {
        let i = choose|i: int| 0 <= i < s.len() && (#[trigger] s[i]).0 == key;
        Some(s[i].1)
    } else {
        None
    }
}

/// Whether `index` is the index of the values `cells`: it holds for each
/// value the ordinal of the row that has it, and nothing else. This can
/// only be where no value occurs twice.
pub open spec fn index_tracks(index: Seq<(Cell, usize)>, cells: Seq<Cell>) -> bool {
    &&& sorted(index)
    &&& forall|j: int|
        0 <= j < cells.len() ==> lookup(index, #[trigger] cells[j]) == Some(j as usize)
    &&& forall|c: Cell|
        match #[trigger] lookup(index, c) {
            Some(o) => o < cells.len() && cells[o as int] == c,
            None => true,
        }
}

/// The cells that the keys `keys` stand for.
pub open spec fn key_cells<K: IndexKey>(keys: Seq<K>) -> Seq<Cell> {
    Seq::new(keys.len(), |a: int| keys[a].cell())
}

/// Whether a key stands in the relation `op` to `bound`.
pub open spec fn key_matches(key: Cell, op: Binary, bound: Cell) -> bool {
    match op {
        Binary::Eq => key == bound,
        Binary::Lt => cell_lt(key, bound),
        Binary::Gt => cell_lt(bound, key),
    }
}

/// The ordinals of the entries of `s` whose key stands in the relation `op`
/// to `bound`, in the order of the entries.
pub open spec fn matching_ordinals(s: Seq<(Cell, usize)>, op: Binary, bound: Cell) -> Seq<usize>
    decreases s.len(),
{
    if s.len() == 0 {
        Seq::empty()
    } else if key_matches(s.last().0, op, bound) {
        matching_ordinals(s.drop_last(), op, bound).push(s.last().1)
    } else {
        matching_ordinals(s.drop_last(), op, bound)
    }
}

/// The ordinals of all entries of `s`, in the order of the entries.
pub open spec fn ordinals(s: Seq<(Cell, usize)>) -> Seq<usize> {
    Seq::new(s.len(), |i: int| s[i].1)
}

/// In a sorted sequence each key has one entry, which `lookup` finds.
pub proof fn lemma_lookup_at(s: Seq<(Cell, usize)>, i: int)
    requires
        sorted(s),
        0 <= i < s.len(),
    ensures
        lookup(s, s[i].0) == Some(s[i].1),
{
    let j = choose|j: int| 0 <= j < s.len() && (#[trigger] s[j]).0 == s[i].0;
    lemma_cell_lt_irreflexive(s[i].0);
    if j < i {
        assert(cell_lt(s[j].0, s[i].0));
    } else if i < j {
        assert(cell_lt(s[i].0, s[j].0));
    }
}

/// Matching distributes over concatenation.
pub proof fn lemma_matching_concat(
    a: Seq<(Cell, usize)>,
    b: Seq<(Cell, usize)>,
    op: Binary,
    bound: Cell,
)
    ensures
        matching_ordinals(a + b, op, bound) == matching_ordinals(a, op, bound) + matching_ordinals(
            b,
            op,
            bound,
        ),
    decreases b.len(),
{
    if b.len() == 0 {
        assert(a + b =~= a);
        assert(matching_ordinals(a, op, bound) + matching_ordinals(b, op, bound)
            =~= matching_ordinals(a, op, bound));
    } else {
        assert((a + b).drop_last() =~= a + b.drop_last());
        assert((a + b).last() == b.last());
        lemma_matching_concat(a, b.drop_last(), op, bound);
        assert(matching_ordinals(a + b, op, bound) =~= matching_ordinals(a, op, bound)
            + matching_ordinals(b, op, bound));
    }
}

/// Where every key matches, every ordinal is selected.
pub proof fn lemma_matching_all(s: Seq<(Cell, usize)>, op: Binary, bound: Cell)
    requires
        forall|i: int| 0 <= i < s.len() ==> key_matches((#[trigger] s[i]).0, op, bound),
    ensures
        matching_ordinals(s, op, bound) == ordinals(s),
    decreases s.len(),
{
    if s.len() > 0 {
        assert forall|i: int| 0 <= i < s.drop_last().len() implies key_matches(
            (#[trigger] s.drop_last()[i]).0,
            op,
            bound,
        ) by {
            assert(s.drop_last()[i] == s[i]);
        }
        lemma_matching_all(s.drop_last(), op, bound);
        assert(key_matches(s[s.len() - 1].0, op, bound));
    }
    assert(matching_ordinals(s, op, bound) =~= ordinals(s));
}

/// Where no key matches, no ordinal is selected.
pub proof fn lemma_matching_none(s: Seq<(Cell, usize)>, op: Binary, bound: Cell)
    requires
        forall|i: int| 0 <= i < s.len() ==> !key_matches((#[trigger] s[i]).0, op, bound),
    ensures
        matching_ordinals(s, op, bound) == Seq::<usize>::empty(),
    decreases s.len(),
{
    if s.len() > 0 {
        assert forall|i: int| 0 <= i < s.drop_last().len() implies !key_matches(
            (#[trigger] s.drop_last()[i]).0,
            op,
            bound,
        ) by {
            assert(s.drop_last()[i] == s[i]);
        }
        lemma_matching_none(s.drop_last(), op, bound);
        assert(!key_matches(s[s.len() - 1].0, op, bound));
    }
}

/// Where the matching entries of `s` are those from `lo` up to `hi`, their
/// ordinals are what is selected.
pub proof fn lemma_matching_window(
    s: Seq<(Cell, usize)>,
    lo: int,
    hi: int,
    op: Binary,
    bound: Cell,
)
    requires
        0 <= lo <= hi <= s.len(),
        forall|i: int| 0 <= i < lo ==> !key_matches((#[trigger] s[i]).0, op, bound),
        forall|i: int| lo <= i < hi ==> key_matches((#[trigger] s[i]).0, op, bound),
        forall|i: int| hi <= i < s.len() ==> !key_matches((#[trigger] s[i]).0, op, bound),
    ensures
        matching_ordinals(s, op, bound) == ordinals(s.subrange(lo, hi)),
{
    let a = s.subrange(0, lo);
    let b = s.subrange(lo, hi);
    let c = s.subrange(hi, s.len() as int);
    assert(s =~= (a + b) + c);
    lemma_matching_concat(a + b, c, op, bound);
    lemma_matching_concat(a, b, op, bound);
    lemma_matching_none(a, op, bound);
    lemma_matching_all(b, op, bound);
    lemma_matching_none(c, op, bound);
    assert(matching_ordinals(s, op, bound) =~= ordinals(b));
}

/// Replacing the ordinal of one entry keeps the sequence sorted and changes
/// what is held for that entry's key alone.
pub proof fn lemma_replace_entry(s: Seq<(Cell, usize)>, p: int, ordinal: usize)
    requires
        sorted(s),
        0 <= p < s.len(),
    ensures
        sorted(s.update(p, (s[p].0, ordinal))),
        forall|c: Cell|
            lookup(s.update(p, (s[p].0, ordinal)), c) == if c == s[p].0 {
                Some(ordinal)
            } else {
                #[trigger] lookup(s, c)
            },
{
    let t = s.update(p, (s[p].0, ordinal));
    assert forall|i: int, j: int| 0 <= i < j < t.len() implies cell_lt(
        #[trigger] t[i].0,
        #[trigger] t[j].0,
    ) by {
        assert(t[i].0 == s[i].0 && t[j].0 == s[j].0);
    }
    assert forall|c: Cell|
        lookup(t, c) == if c == s[p].0 {
            Some(ordinal)
        } else {
            #[trigger] lookup(s, c)
        } by {
        if has_key(t, c) {
            let i = choose|i: int| 0 <= i < t.len() && (#[trigger] t[i]).0 == c;
            lemma_lookup_at(t, i);
            assert(s[i].0 == c);
            lemma_lookup_at(s, i);
            if c == s[p].0 {
                lemma_lookup_at(t, p);
            }
        } else {
            if has_key(s, c) {
                let i = choose|i: int| 0 <= i < s.len() && (#[trigger] s[i]).0 == c;
                assert(t[i].0 == c);
            }
            assert(t[p].0 == s[p].0);
        }
    }
}

/// Putting a new key at its place keeps the sequence sorted and adds the
/// key with its ordinal, changing nothing else.
pub proof fn lemma_insert_entry(s: Seq<(Cell, usize)>, p: int, key: Cell, ordinal: usize)
    requires
        sorted(s),
        0 <= p <= s.len(),
        forall|i: int| 0 <= i < p ==> cell_lt((#[trigger] s[i]).0, key),
        forall|i: int| p <= i < s.len() ==> cell_lt(key, (#[trigger] s[i]).0),
    ensures
        sorted(s.insert(p, (key, ordinal))),
        !has_key(s, key),
        forall|c: Cell|
            lookup(s.insert(p, (key, ordinal)), c) == if c == key {
                Some(ordinal)
            } else {
                #[trigger] lookup(s, c)
            },
{
    let t = s.insert(p, (key, ordinal));
    lemma_cell_lt_irreflexive(key);
    assert forall|i: int, j: int| 0 <= i < j < t.len() implies cell_lt(
        #[trigger] t[i].0,
        #[trigger] t[j].0,
    ) by {
        if j < p {
            assert(t[i] == s[i] && t[j] == s[j]);
        } else if j == p {
            assert(t[i] == s[i]);
        } else if i < p {
            assert(t[i] == s[i] && t[j] == s[j - 1]);
            if j - 1 == i {
            } else {
                assert(cell_lt(s[i].0, s[j - 1].0));
            }
            lemma_cell_lt_transitive(s[i].0, key, s[j - 1].0);
        } else if i == p {
            assert(t[j] == s[j - 1]);
        } else {
            assert(t[i] == s[i - 1] && t[j] == s[j - 1]);
        }
    }
    assert(!has_key(s, key)) by {
        if has_key(s, key) {
            let i = choose|i: int| 0 <= i < s.len() && (#[trigger] s[i]).0 == key;
            assert(cell_lt(s[i].0, key) || cell_lt(key, s[i].0));
        }
    }
    assert forall|c: Cell|
        lookup(t, c) == if c == key {
            Some(ordinal)
        } else {
            #[trigger] lookup(s, c)
        } by {
        assert(t[p] == (key, ordinal));
        if c == key {
            lemma_lookup_at(t, p);
        } else if has_key(s, c) {
            let i = choose|i: int| 0 <= i < s.len() && (#[trigger] s[i]).0 == c;
            lemma_lookup_at(s, i);
            if i < p {
                assert(t[i] == s[i]);
                lemma_lookup_at(t, i);
            } else {
                assert(t[i + 1] == s[i]);
                lemma_lookup_at(t, i + 1);
            }
        } else if has_key(t, c) {
            let i = choose|i: int| 0 <= i < t.len() && (#[trigger] t[i]).0 == c;
            if i < p {
                assert(s[i] == t[i]);
            } else {
                assert(s[i - 1] == t[i]);
            }
        }
    }
}

/// An index from keys to row ordinals that holds each key once and keeps its
/// entries in ascending key order.
#[derive(Debug, PartialEq)]
pub struct SortedIndex<K> {
    entries: Vec<(K, usize)>,
}

impl<K: IndexKey> View for SortedIndex<K> {
    type V = Seq<(Cell, usize)>;

    /// The entries in the order they are held, each key as its cell.
    closed spec fn view(&self) -> Seq<(Cell, usize)> {
        Seq::new(self.entries@.len(), |i: int| (self.entries@[i].0.cell(), self.entries@[i].1))
    }
}

impl<K: IndexKey> SortedIndex<K> {
    /// Whether the index is well formed: its keys ascend strictly.
    pub open spec fn wf(&self) -> bool {
        sorted(self@)
    }

    /// An index without entries.
    pub fn new() -> (r: Self)
        ensures
            r.wf(),
            r@ == Seq::<(Cell, usize)>::empty(),
    {
        let r = SortedIndex { entries: Vec::new() };
        assert(r@ =~= Seq::<(Cell, usize)>::empty());
        r
    }

    /// The number of entries.
    pub fn len(&self) -> (n: usize)
        ensures
            n == self@.len(),
    {
        self.entries.len()
    }

    /// The position of the first entry whose key does not come before `key`.
    fn lower_bound(&self, key: &K) -> (p: usize)
        requires
            self.wf(),
        ensures
            p <= self@.len(),
            forall|i: int| 0 <= i < p ==> cell_lt((#[trigger] self@[i]).0, key.cell()),
            forall|i: int| p <= i < self@.len() ==> !cell_lt((#[trigger] self@[i]).0, key.cell()),
    {
        let mut lo: usize = 0;
        let mut hi: usize = self.entries.len();
        while lo < hi
            invariant
                self.wf(),
                lo <= hi <= self.entries.len(),
                self@.len() == self.entries.len(),
                forall|i: int| 0 <= i < lo ==> cell_lt((#[trigger] self@[i]).0, key.cell()),
                forall|i: int|
                    hi <= i < self@.len() ==> !cell_lt((#[trigger] self@[i]).0, key.cell()),
            decreases hi - lo,
        {
            let mid = lo + (hi - lo) / 2;
            assert(self@[mid as int].0 == self.entries@[mid as int].0.cell());
            if self.entries[mid].0.comes_before(key) {
                assert forall|i: int| 0 <= i < mid + 1 implies cell_lt(
                    (#[trigger] self@[i]).0,
                    key.cell(),
                ) by {
                    if i < mid {
                        assert(cell_lt(self@[i].0, self@[mid as int].0));
                        lemma_cell_lt_transitive(self@[i].0, self@[mid as int].0, key.cell());
                    }
                }
                lo = mid + 1;
            } else {
                assert forall|i: int| mid <= i < self@.len() implies !cell_lt(
                    (#[trigger] self@[i]).0,
                    key.cell(),
                ) by {
                    if i > mid && cell_lt(self@[i].0, key.cell()) {
                        assert(cell_lt(self@[mid as int].0, self@[i].0));
                        lemma_cell_lt_transitive(self@[mid as int].0, self@[i].0, key.cell());
                    }
                }
                hi = mid;
            }
        }
        lo
    }

    /// Where `key` stands among the entries: the position of the first entry
    /// whose key does not come before it, and whether that entry has the key.
    fn locate(&self, key: &K) -> (r: (usize, bool))
        requires
            self.wf(),
        ensures
            r.0 <= self@.len(),
            r.1 ==> r.0 < self@.len() && self@[r.0 as int].0 == key.cell(),
            forall|i: int| 0 <= i < r.0 ==> cell_lt((#[trigger] self@[i]).0, key.cell()),
            forall|i: int|
                r.0 + (if r.1 {
                    1int
                } else {
                    0int
                }) <= i < self@.len() ==> cell_lt(key.cell(), (#[trigger] self@[i]).0),
    {
        let p = self.lower_bound(key);
        if p < self.entries.len() {
            assert(self@[p as int].0 == self.entries@[p as int].0.cell());
            let found = !key.comes_before(&self.entries[p].0);
            proof {
                lemma_cell_lt_total(self@[p as int].0, key.cell());
                assert forall|i: int|
                    p + (if found {
                        1int
                    } else {
                        0int
                    }) <= i < self@.len() implies cell_lt(key.cell(), (#[trigger] self@[i]).0) by {
                    if i > p {
                        assert(cell_lt(self@[p as int].0, self@[i].0));
                        if !found {
                            lemma_cell_lt_transitive(key.cell(), self@[p as int].0, self@[i].0);
                        }
                    }
                }
            }
            (p, found)
        } else {
            (p, false)
        }
    }

    /// The ordinal held for `key`, if one is held.
    pub fn get(&self, key: &K) -> (r: Option<usize>)
        requires
            self.wf(),
        ensures
            r == lookup(self@, key.cell()),
    {
        let (p, found) = self.locate(key);
        if found {
            proof {
                lemma_lookup_at(self@, p as int);
            }
            Some(self.entries[p].1)
        } else {
            proof {
                if has_key(self@, key.cell()) {
                    let i = choose|i: int|
                        0 <= i < self@.len() && (#[trigger] self@[i]).0 == key.cell();
                    lemma_cell_lt_irreflexive(key.cell());
                }
            }
            None
        }
    }

    /// Whether an ordinal is held for `key`.
    pub fn contains_key(&self, key: &K) -> (r: bool)
        requires
            self.wf(),
        ensures
            r == has_key(self@, key.cell()),
    {
        self.get(key).is_some()
    }

    /// Holds `ordinal` for `key` from now on, in place of what was held for
    /// it before, if anything.
    pub fn insert(&mut self, key: K, ordinal: usize)
        requires
            old(self).wf(),
        ensures
            final(self).wf(),
            forall|c: Cell|
                #![trigger lookup(final(self)@, c)]
                #![trigger lookup(old(self)@, c)]
                lookup(final(self)@, c) == if c == key.cell() {
                    Some(ordinal)
                } else {
                    lookup(old(self)@, c)
                },
            final(self)@.len() == old(self)@.len() + if has_key(old(self)@, key.cell()) {
                0int
            } else {
                1int
            },
    {
        let (p, found) = self.locate(&key);
        let ghost before = self@;
        let ghost c = key.cell();
        if found {
            proof {
                lemma_replace_entry(before, p as int, ordinal);
            }
            self.entries.set(p, (key, ordinal));
            assert(self@ =~= before.update(p as int, (c, ordinal)));
        } else {
            proof {
                lemma_insert_entry(before, p as int, c, ordinal);
            }
            self.entries.insert(p, (key, ordinal));
            assert(self@ =~= before.insert(p as int, (c, ordinal)));
        }
    }

    /// The ordinals of the entries from position `lo` up to `hi`.
    fn ordinals_between(&self, lo: usize, hi: usize) -> (r: Vec<usize>)
        requires
            lo <= hi <= self@.len(),
        ensures
            r@ == ordinals(self@.subrange(lo as int, hi as int)),
    {
        let mut r: Vec<usize> = Vec::new();
        let mut i: usize = lo;
        while i < hi
            invariant
                lo <= i <= hi <= self.entries.len(),
                self@.len() == self.entries.len(),
                r@ == ordinals(self@.subrange(lo as int, i as int)),
            decreases hi - i,
        {
            r.push(self.entries[i].1);
            assert(r@ =~= ordinals(self@.subrange(lo as int, i + 1)));
            i += 1;
        }
        r
    }

    /// The ordinals held for the keys that stand in the relation `op` to
    /// `key`, in ascending key order.
    pub fn select(&self, op: Binary, key: &K) -> (r: Vec<usize>)
        requires
            self.wf(),
        ensures
            r@ == matching_ordinals(self@, op, key.cell()),
    {
        let (p, found) = self.locate(key);
        assert(self@.len() == self.entries.len());
        let after: usize = if found {
            p + 1
        } else {
            p
        };
        let (lo, hi) = match op {
            Binary::Eq => (p, after),
            Binary::Lt => (0, p),
            Binary::Gt => (after, self.entries.len()),
        };
        proof {
            let s = self@;
            let c = key.cell();
            lemma_cell_lt_irreflexive(c);
            assert forall|i: int| 0 <= i < p implies cell_lt((#[trigger] s[i]).0, c) && !cell_lt(
                c,
                s[i].0,
            ) && s[i].0 != c by {
                lemma_cell_lt_asymmetric(s[i].0, c);
            }
            assert forall|i: int| after <= i < s.len() implies cell_lt(c, (#[trigger] s[i]).0)
                && !cell_lt(s[i].0, c) && s[i].0 != c by {
                lemma_cell_lt_asymmetric(c, s[i].0);
            }
            lemma_matching_window(s, lo as int, hi as int, op, c);
        }
        self.ordinals_between(lo, hi)
    }
}

/// Where an index tracks the values `cells`, further values keep all
/// values distinct exactly if they are new to the index and differ from
/// each other.
pub proof fn lemma_fresh_iff_unique(
    index: Seq<(Cell, usize)>,
    cells: Seq<Cell>,
    staged: Seq<Cell>,
)
    requires
        index_tracks(index, cells),
        cells.len() <= usize::MAX,
    ensures
        (staged.no_duplicates() && forall|a: int|
            0 <= a < staged.len() ==> !has_key(index, #[trigger] staged[a])) <==> (cells
            + staged).no_duplicates(),
{
    let all = cells + staged;
    if staged.no_duplicates() && forall|a: int|
        0 <= a < staged.len() ==> !has_key(index, #[trigger] staged[a]) {
        assert forall|i: int, j: int|
            0 <= i < all.len() && 0 <= j < all.len() && i != j implies all[i] != all[j] by {
            if i < cells.len() && j < cells.len() {
                assert(lookup(index, cells[i]) == Some(i as usize));
                assert(lookup(index, cells[j]) == Some(j as usize));
            } else if i < cells.len() {
                assert(lookup(index, cells[i]) == Some(i as usize));
                assert(all[j] == staged[j - cells.len()]);
                assert(!has_key(index, staged[j - cells.len()]));
            } else if j < cells.len() {
                assert(lookup(index, cells[j]) == Some(j as usize));
                assert(all[i] == staged[i - cells.len()]);
                assert(!has_key(index, staged[i - cells.len()]));
            } else {
                assert(all[i] == staged[i - cells.len()]);
                assert(all[j] == staged[j - cells.len()]);
            }
        }
    }
    if all.no_duplicates() {
        assert forall|a: int, b: int| 0 <= a < staged.len() && 0 <= b < staged.len() && a
            != b implies staged[a] != staged[b] by {
            assert(all[cells.len() + a] == staged[a]);
            assert(all[cells.len() + b] == staged[b]);
        }
        assert forall|a: int| 0 <= a < staged.len() implies !has_key(
            index,
            #[trigger] staged[a],
        ) by {
            if has_key(index, staged[a]) {
                let o = lookup(index, staged[a])->0;
                assert(all[o as int] == cells[o as int]);
                assert(all[cells.len() + a] == staged[a]);
            }
        }
    }
}

/// The positions of the entries of `s` whose key stands in the relation
/// `op` to `bound`, ascending.
pub open spec fn matching_positions(s: Seq<(Cell, usize)>, op: Binary, bound: Cell) -> Seq<int>
    decreases s.len(),
{
    if s.len() == 0 {
        Seq::empty()
    } else if key_matches(s.last().0, op, bound) {
        matching_positions(s.drop_last(), op, bound).push(s.len() - 1)
    } else {
        matching_positions(s.drop_last(), op, bound)
    }
}

/// The selected ordinals are those of the matching entries, position by
/// position; the positions ascend, and no matching entry is left out.
pub proof fn lemma_matching_positions(s: Seq<(Cell, usize)>, op: Binary, bound: Cell)
    ensures
        ({
            let p = matching_positions(s, op, bound);
            let m = matching_ordinals(s, op, bound);
            &&& p.len() == m.len()
            &&& forall|k: int|
                0 <= k < p.len() ==> 0 <= #[trigger] p[k] < s.len() && key_matches(
                    s[p[k]].0,
                    op,
                    bound,
                ) && m[k] == s[p[k]].1
            &&& forall|k1: int, k2: int|
                0 <= k1 < k2 < p.len() ==> #[trigger] p[k1] < #[trigger] p[k2]
            &&& forall|i: int|
                0 <= i < s.len() && key_matches((#[trigger] s[i]).0, op, bound) ==> p.contains(i)
        }),
    decreases s.len(),
{
    if s.len() > 0 {
        let t = s.drop_last();
        lemma_matching_positions(t, op, bound);
        let p0 = matching_positions(t, op, bound);
        let p = matching_positions(s, op, bound);
        let m = matching_ordinals(s, op, bound);
        assert forall|k: int| 0 <= k < p0.len() implies s[p0[k]] == t[#[trigger] p0[k]] by {}
        assert forall|i: int|
            0 <= i < s.len() && key_matches((#[trigger] s[i]).0, op, bound) implies p.contains(
            i,
        ) by {
            if i < t.len() {
                assert(t[i] == s[i]);
                assert(p0.contains(i));
                let k = choose|k: int| 0 <= k < p0.len() && p0[k] == i;
                assert(p[k] == i);
            } else {
                assert(p[p.len() - 1] == i);
            }
        }
    }
}

/// What an index selects, said of the rows: where an index tracks the
/// values `cells`, the ordinals it selects are those of the rows whose
/// value stands in the relation `op` to `bound`, each once, in ascending
/// order of the values.
pub proof fn lemma_selected_rows(
    index: Seq<(Cell, usize)>,
    cells: Seq<Cell>,
    op: Binary,
    bound: Cell,
)
    requires
        index_tracks(index, cells),
        cells.len() <= usize::MAX,
    ensures
        ({
            let m = matching_ordinals(index, op, bound);
            &&& forall|k: int|
                0 <= k < m.len() ==> (#[trigger] m[k]) < cells.len() && key_matches(
                    cells[m[k] as int],
                    op,
                    bound,
                )
            &&& forall|j: int|
                0 <= j < cells.len() && key_matches(#[trigger] cells[j], op, bound) ==> m.contains(
                    j as usize,
                )
            &&& forall|k1: int, k2: int|
                0 <= k1 < k2 < m.len() ==> cell_lt(
                    cells[(#[trigger] m[k1]) as int],
                    cells[(#[trigger] m[k2]) as int],
                )
        }),
{
    let m = matching_ordinals(index, op, bound);
    let p = matching_positions(index, op, bound);
    lemma_matching_positions(index, op, bound);
    assert forall|k: int| 0 <= k < m.len() implies (#[trigger] m[k]) < cells.len()
        && cells[m[k] as int] == index[p[k]].0 && key_matches(cells[m[k] as int], op, bound) by {
        assert(0 <= p[k] < index.len());
        lemma_lookup_at(index, p[k]);
    }
    assert forall|j: int|
        0 <= j < cells.len() && key_matches(#[trigger] cells[j], op, bound) implies m.contains(
        j as usize,
    ) by {
        assert(lookup(index, cells[j]) == Some(j as usize));
        let i = choose|i: int| 0 <= i < index.len() && (#[trigger] index[i]).0 == cells[j];
        lemma_lookup_at(index, i);
        assert(p.contains(i));
        let k = choose|k: int| 0 <= k < p.len() && p[k] == i;
        assert(m[k] == j as usize);
    }
    assert forall|k1: int, k2: int| 0 <= k1 < k2 < m.len() implies cell_lt(
        cells[(#[trigger] m[k1]) as int],
        cells[(#[trigger] m[k2]) as int],
    ) by {
        assert(p[k1] < p[k2]);
        assert(cell_lt(index[p[k1]].0, index[p[k2]].0));
    }
}

/// A comparison for equality selects the ordinal held for the key, if one
/// is held, and nothing else.
pub proof fn lemma_matching_eq(s: Seq<(Cell, usize)>, key: Cell)
    requires
        sorted(s),
    ensures
        matching_ordinals(s, Binary::Eq, key) == match lookup(s, key) {
            Some(o) => seq![o],
            None => Seq::<usize>::empty(),
        },
{
    if has_key(s, key) {
        let p = choose|i: int| 0 <= i < s.len() && (#[trigger] s[i]).0 == key;
        lemma_lookup_at(s, p);
        lemma_cell_lt_irreflexive(key);
        assert forall|i: int| 0 <= i < s.len() && i != p implies (#[trigger] s[i]).0 != key by {
            if i < p {
                assert(cell_lt(s[i].0, s[p].0));
            } else {
                assert(cell_lt(s[p].0, s[i].0));
            }
        }
        lemma_matching_window(s, p, p + 1, Binary::Eq, key);
        assert(ordinals(s.subrange(p, p + 1)) =~= seq![s[p].1]);
    } else {
        lemma_matching_none(s, Binary::Eq, key);
    }
}

/// Without its last entry a sorted sequence holds what it held, but for
/// the key of that entry.
pub proof fn lemma_lookup_drop_last(s: Seq<(Cell, usize)>, c: Cell)
    requires
        sorted(s),
        s.len() > 0,
    ensures
        sorted(s.drop_last()),
        lookup(s.drop_last(), c) == if c == s.last().0 {
            None
        } else {
            lookup(s, c)
        },
{
    let t = s.drop_last();
    assert forall|i: int, j: int| 0 <= i < j < t.len() implies cell_lt(
        #[trigger] t[i].0,
        #[trigger] t[j].0,
    ) by {
        assert(t[i] == s[i] && t[j] == s[j]);
    }
    lemma_cell_lt_irreflexive(c);
    if has_key(t, c) {
        let i = choose|i: int| 0 <= i < t.len() && (#[trigger] t[i]).0 == c;
        assert(s[i] == t[i]);
        lemma_lookup_at(t, i);
        lemma_lookup_at(s, i);
        assert(cell_lt(s[i].0, s[s.len() - 1].0));
    } else if has_key(s, c) {
        let i = choose|i: int| 0 <= i < s.len() && (#[trigger] s[i]).0 == c;
        if i < t.len() {
            assert(t[i] == s[i]);
        }
    }
}

/// A sorted sequence of entries is determined by what it holds for each
/// key.
pub proof fn lemma_entries_determined(a: Seq<(Cell, usize)>, b: Seq<(Cell, usize)>)
    requires
        sorted(a),
        sorted(b),
        forall|c: Cell|
            #![trigger lookup(a, c)]
            #![trigger lookup(b, c)]
            lookup(a, c) == lookup(b, c),
    ensures
        a == b,
    decreases a.len(),
{
    if a.len() == 0 {
        if b.len() > 0 {
            lemma_lookup_at(b, 0);
            assert(lookup(a, b[0].0) is None);
        }
        assert(a =~= b);
    } else {
        let n = a.len() - 1;
        lemma_lookup_at(a, n);
        assert(lookup(b, a[n].0) is Some);
        assert(b.len() > 0);
        let m = b.len() - 1;
        lemma_lookup_at(b, m);
        assert(lookup(a, b[m].0) is Some);
        let j = choose|j: int| 0 <= j < b.len() && (#[trigger] b[j]).0 == a[n].0;
        let i = choose|i: int| 0 <= i < a.len() && (#[trigger] a[i]).0 == b[m].0;
        if a[n].0 != b[m].0 {
            assert(cell_lt(b[j].0, b[m].0));
            assert(cell_lt(a[i].0, a[n].0));
            lemma_cell_lt_asymmetric(a[n].0, b[m].0);
        }
        assert(a[n] == b[m]);
        assert forall|c: Cell|
            #![trigger lookup(a.drop_last(), c)]
            #![trigger lookup(b.drop_last(), c)]
            lookup(a.drop_last(), c) == lookup(b.drop_last(), c) by {
            lemma_lookup_drop_last(a, c);
            lemma_lookup_drop_last(b, c);
        }
        lemma_lookup_drop_last(a, a[n].0);
        lemma_lookup_drop_last(b, a[n].0);
        lemma_entries_determined(a.drop_last(), b.drop_last());
        assert(a =~= a.drop_last().push(a[n]));
        assert(b =~= b.drop_last().push(b[m]));
    }
}

/// The index of given values is determined by them: two indexes that track
/// the same values hold the same entries.
pub proof fn lemma_index_determined(
    a: Seq<(Cell, usize)>,
    b: Seq<(Cell, usize)>,
    cells: Seq<Cell>,
)
    requires
        index_tracks(a, cells),
        index_tracks(b, cells),
    ensures
        a == b,
{
    assert forall|c: Cell|
        #![trigger lookup(a, c)]
        #![trigger lookup(b, c)]
        lookup(a, c) == lookup(b, c) by {
        match lookup(a, c) {
            Some(o) => {
                assert(lookup(b, cells[o as int]) == Some(o as int as usize));
            },
            None => {
                match lookup(b, c) {
                    Some(o) => {
                        assert(lookup(a, cells[o as int]) == Some(o as int as usize));
                    },
                    None => {},
                }
            },
        }
    }
    lemma_entries_determined(a, b);
}

} // verus!
