//! The steps of an insertion on one column: read the texts, check the keys,
//! append the values.
//!
//! An insertion changes nothing before every text of every row is read and
//! every key is checked; only then are the values appended, column by column.

use crate::column::{ColumnData, ColumnHeader, ColumnIndex};
use crate::datatype::{indexable, DataType};
use crate::index::{has_key, index_tracks, key_cells, lookup, IndexKey, SortedIndex};
use crate::text::{is_float_literal, parse_bool, parse_int};
use crate::value::{cell_has_type, nested_texts, parse_cell, Cell};
use vstd::prelude::*;

verus! {

/// The texts that the rows hold at the position `slot`.
pub open spec fn column_texts(rows: Seq<Seq<Seq<char>>>, slot: int) -> Seq<Seq<char>> {
    Seq::new(rows.len(), |r: int| rows[r][slot])
}

/// Whether every text of `ts` denotes a value of the type `datatype`.
pub open spec fn all_parse(datatype: DataType, ts: Seq<Seq<char>>) -> bool {
    forall|r: int| 0 <= r < ts.len() ==> parse_cell(datatype, #[trigger] ts[r]) is Some
}

/// The values of the type `datatype` that the texts `ts` denote.
pub open spec fn parsed(datatype: DataType, ts: Seq<Seq<char>>) -> Seq<Cell> {
    Seq::new(ts.len(), |r: int| parse_cell(datatype, ts[r]).unwrap())
}

/// The column as specifications see it.
pub open spec fn column_view(header: ColumnHeader, data: ColumnData) -> crate::table::ColumnView {
    crate::table::ColumnView {
        name: header.name@,
        datatype: header.datatype,
        is_primary_key: header.is_primary_key,
        cells: data.cells(),
        index: header.index.entries(),
    }
}

/// What a table keeps true of the parts of each of its columns: the column
/// is indexed when it is a primary key, its index is of its type or absent,
/// and its storage is of its type.
pub open spec fn column_inv(header: ColumnHeader, data: ColumnData) -> bool {
    &&& header.is_indexed == header.is_primary_key
    &&& header.index.wf()
    &&& header.index.key_type() == if indexable(header.datatype) {
        header.datatype
    } else {
        DataType::Invalid
    }
    &&& data.value_type() == header.datatype
}

/// Reads the texts that the rows hold at `slot` as values of the type
/// `datatype`. `None` if one of them does not denote such a value.
#[verifier::loop_isolation(false)]
pub fn parse_column(datatype: DataType, values: &Vec<Vec<String>>, slot: usize) -> (r: Option<
    ColumnData,
>)
    requires
        forall|r: int| 0 <= r < values@.len() ==> slot < (#[trigger] values@[r])@.len(),
    ensures
        match r {
            Some(d) => {
                &&& all_parse(datatype, column_texts(nested_texts(values@), slot as int))
                &&& d.value_type() == datatype
                &&& d.cells() == parsed(datatype, column_texts(nested_texts(values@), slot as int))
            },
            None => !all_parse(datatype, column_texts(nested_texts(values@), slot as int)),
        },
{
    let ghost ts = column_texts(nested_texts(values@), slot as int);
    assert forall|r: int| 0 <= r < values@.len() implies #[trigger] ts[r]
        == values@[r]@[slot as int]@ by {}
    let n = values.len();
    let mut i: usize = 0;
    match datatype {
        DataType::Int => {
            let mut v: Vec<i32> = Vec::new();
            while i < n
                invariant
                    i <= n,
                    v@.len() == i,
                    forall|r: int|
                        0 <= r < i ==> parse_cell(datatype, #[trigger] ts[r]) == Some(
                            Cell::Int(v@[r]),
                        ),
                decreases n - i,
            {
                match parse_int(values[i][slot].as_str()) {
                    Some(x) => v.push(x),
                    None => {
                        assert(parse_cell(datatype, ts[i as int]) is None);
                        return None;
                    },
                }
                i += 1;
            }
            let d = ColumnData::Int(v);
            assert(d.cells() =~= parsed(datatype, ts));
            Some(d)
        },
        DataType::Bool => {
            let mut v: Vec<bool> = Vec::new();
            while i < n
                invariant
                    i <= n,
                    v@.len() == i,
                    forall|r: int|
                        0 <= r < i ==> parse_cell(datatype, #[trigger] ts[r]) == Some(
                            Cell::Bool(v@[r]),
                        ),
                decreases n - i,
            {
                match parse_bool(values[i][slot].as_str()) {
                    Some(x) => v.push(x),
                    None => {
                        assert(parse_cell(datatype, ts[i as int]) is None);
                        return None;
                    },
                }
                i += 1;
            }
            let d = ColumnData::Bool(v);
            assert(d.cells() =~= parsed(datatype, ts));
            Some(d)
        },
        DataType::Str => {
            let mut v: Vec<String> = Vec::new();
            while i < n
                invariant
                    i <= n,
                    v@.len() == i,
                    forall|r: int| 0 <= r < i ==> (#[trigger] v@[r])@ == ts[r],
                decreases n - i,
            {
                v.push(values[i][slot].clone());
                i += 1;
            }
            let d = ColumnData::Str(v);
            assert(d.cells() =~= parsed(datatype, ts));
            Some(d)
        },
        DataType::Float => {
            let mut v: Vec<String> = Vec::new();
            while i < n
                invariant
                    i <= n,
                    v@.len() == i,
                    forall|r: int| 0 <= r < i ==> (#[trigger] v@[r])@ == ts[r],
                    forall|r: int|
                        0 <= r < i ==> parse_cell(datatype, #[trigger] ts[r]) is Some,
                decreases n - i,
            {
                if !is_float_literal(values[i][slot].as_str()) {
                    assert(parse_cell(datatype, ts[i as int]) is None);
                    return None;
                }
                v.push(values[i][slot].clone());
                i += 1;
            }
            let d = ColumnData::Float(v);
            assert(d.cells() =~= parsed(datatype, ts));
            Some(d)
        },
        DataType::Invalid => {
            if n == 0 {
                let d = ColumnData::Absent;
                assert(d.cells() =~= parsed(datatype, ts));
                Some(d)
            } else {
                assert(parse_cell(datatype, ts[0]) is None);
                None
            }
        },
    }
}

/// Whether the keys are new to the index and differ from each other.
#[verifier::loop_isolation(false)]
pub fn keys_fresh<K: IndexKey>(index: &SortedIndex<K>, keys: &Vec<K>) -> (r: bool)
    requires
        index.wf(),
    ensures
        r == (key_cells(keys@).no_duplicates() && forall|a: int|
            0 <= a < keys@.len() ==> !has_key(index@, #[trigger] key_cells(keys@)[a])),
{
    let ghost cells = key_cells(keys@);
    let mut seen: SortedIndex<K> = SortedIndex::new();
    let mut a: usize = 0;
    while a < keys.len()
        invariant
            a <= keys@.len(),
            seen.wf(),
            forall|b: int| 0 <= b < a ==> !has_key(index@, #[trigger] cells[b]),
            forall|b: int, c: int| 0 <= b < c < a ==> cells[b] != cells[c],
            forall|c: Cell|
                (#[trigger] lookup(seen@, c)) is Some <==> exists|b: int|
                    0 <= b < a && #[trigger] cells[b] == c,
        decreases keys@.len() - a,
    {
        let ghost key = cells[a as int];
        assert(key == keys@[a as int].cell());
        if index.contains_key(&keys[a]) {
            return false;
        }
        if seen.contains_key(&keys[a]) {
            proof {
                assert(lookup(seen@, key) is Some);
                let b = choose|b: int| 0 <= b < a && #[trigger] cells[b] == key;
                assert(cells[b] == cells[a as int]);
            }
            return false;
        }
        let ghost before = seen@;
        seen.insert(keys[a].duplicate(), a);
        proof {
            assert forall|c: Cell|
                (#[trigger] lookup(seen@, c)) is Some <==> exists|b: int|
                    0 <= b < a + 1 && #[trigger] cells[b] == c by {
                if c == key {
                    assert(cells[a as int] == c);
                } else {
                    assert(lookup(seen@, c) == lookup(before, c));
                    if lookup(before, c) is Some {
                        let b = choose|b: int| 0 <= b < a && #[trigger] cells[b] == c;
                        assert(0 <= b < a + 1 && cells[b] == c);
                    }
                    if exists|b: int| 0 <= b < a + 1 && #[trigger] cells[b] == c {
                        let b = choose|b: int| 0 <= b < a + 1 && #[trigger] cells[b] == c;
                        assert(0 <= b < a && cells[b] == c);
                    }
                }
            }
            assert forall|b: int, c: int| 0 <= b < c < a + 1 implies cells[b] != cells[c] by {
                if c == a && cells[b] == key {
                    assert(lookup(before, key) is Some);
                }
            }
        }
        a += 1;
    }
    true
}

/// Whether the staged values of a column are new to its index and differ
/// from each other.
pub fn staged_keys_fresh(index: &ColumnIndex, staged: &ColumnData) -> (r: bool)
    requires
        index.wf(),
        index.key_type() == staged.value_type(),
        indexable(staged.value_type()),
    ensures
        r == (staged.cells().no_duplicates() && forall|a: int|
            0 <= a < staged.cells().len() ==> !has_key(
                index.entries(),
                #[trigger] staged.cells()[a],
            )),
{
    match (index, staged) {
        (ColumnIndex::Int(i), ColumnData::Int(v)) => {
            assert(key_cells(v@) =~= staged.cells());
            keys_fresh(i, v)
        },
        (ColumnIndex::Str(i), ColumnData::Str(v)) => {
            assert(key_cells(v@) =~= staged.cells());
            keys_fresh(i, v)
        },
        (ColumnIndex::Bool(i), ColumnData::Bool(v)) => {
            assert(key_cells(v@) =~= staged.cells());
            keys_fresh(i, v)
        },
        _ => true,
    }
}

/// Holds `ordinal` for `key`, the value of a new row.
fn index_push<K: IndexKey>(
    index: &mut SortedIndex<K>,
    key: K,
    ordinal: usize,
    Ghost(cells): Ghost<Seq<Cell>>,
)
    requires
        index_tracks(old(index)@, cells),
        ordinal == cells.len(),
        !cells.contains(key.cell()),
    ensures
        index_tracks(final(index)@, cells.push(key.cell())),
{
    let ghost c = key.cell();
    let ghost s0 = index@;
    index.insert(key, ordinal);
    proof {
        let s1 = index@;
        let cells1 = cells.push(c);
        assert forall|j: int| 0 <= j < cells1.len() implies lookup(s1, #[trigger] cells1[j])
            == Some(j as usize) by {
            if j < cells.len() {
                assert(cells1[j] == cells[j]);
                assert(cells.contains(cells[j]));
                assert(lookup(s1, cells[j]) == lookup(s0, cells[j]));
            }
        }
        assert forall|k: Cell|
            match #[trigger] lookup(s1, k) {
                Some(o) => o < cells1.len() && cells1[o as int] == k,
                None => true,
            } by {
            if k != c {
                assert(lookup(s1, k) == lookup(s0, k));
            }
        }
    }
}

/// Appends the staged values to a column: to its storage, and to its
/// index if the column is indexed.
#[verifier::loop_isolation(false)]
pub fn append_column(header: &mut ColumnHeader, data: &mut ColumnData, staged: &ColumnData)
    requires
        column_inv(*old(header), *old(data)),
        column_view(*old(header), *old(data)).wf(),
        staged.value_type() == old(header).datatype,
        forall|j: int|
            0 <= j < staged.cells().len() ==> cell_has_type(
                #[trigger] staged.cells()[j],
                old(header).datatype,
            ),
        old(header).is_primary_key && indexable(old(header).datatype) ==> (old(data).cells()
            + staged.cells()).no_duplicates(),
    ensures
        column_inv(*final(header), *final(data)),
        column_view(*final(header), *final(data)).wf(),
        final(header).name == old(header).name,
        final(header).datatype == old(header).datatype,
        final(header).is_primary_key == old(header).is_primary_key,
        final(data).cells() == old(data).cells() + staged.cells(),
{
    let ghost before = old(data).cells();
    let ghost all = before + staged.cells();
    let n = staged.count();
    let mut r: usize = 0;
    assert(data.cells() =~= before + staged.cells().take(0));
    while r < n
        invariant
            r <= n,
            column_inv(*header, *data),
            column_view(*header, *data).wf(),
            header.name == old(header).name,
            header.datatype == old(header).datatype,
            header.is_primary_key == old(header).is_primary_key,
            data.cells() == before + staged.cells().take(r as int),
        decreases n - r,
    {
        let ghost current = data.cells();
        let ghost value = staged.cells()[r as int];
        let ordinal = data.count();
        proof {
            assert(all[before.len() + r] == value);
            assert(cell_has_type(value, header.datatype));
            if header.is_primary_key && indexable(header.datatype) {
                assert forall|j: int| 0 <= j < current.len() implies current[j] != value by {
                    assert(current[j] == all[j]);
                }
            }
        }
        match (&mut *data, staged) {
            (ColumnData::Int(v), ColumnData::Int(s)) => {
                let x = s[r];
                if header.is_primary_key {
                    match &mut header.index {
                        ColumnIndex::Int(index) => index_push(index, x, ordinal, Ghost(current)),
                        _ => {},
                    }
                }
                v.push(x);
            },
            (ColumnData::Bool(v), ColumnData::Bool(s)) => {
                let x = s[r];
                if header.is_primary_key {
                    match &mut header.index {
                        ColumnIndex::Bool(index) => index_push(index, x, ordinal, Ghost(current)),
                        _ => {},
                    }
                }
                v.push(x);
            },
            (ColumnData::Str(v), ColumnData::Str(s)) => {
                if header.is_primary_key {
                    match &mut header.index {
                        ColumnIndex::Str(index) => index_push(
                            index,
                            s[r].clone(),
                            ordinal,
                            Ghost(current),
                        ),
                        _ => {},
                    }
                }
                v.push(s[r].clone());
            },
            (ColumnData::Float(v), ColumnData::Float(s)) => {
                v.push(s[r].clone());
            },
            _ => {},
        }
        assert(data.cells() =~= current.push(value));
        assert(current.push(value) =~= before + staged.cells().take(r + 1));
        r += 1;
    }
    assert(staged.cells().take(n as int) =~= staged.cells());
}

} // verus!
