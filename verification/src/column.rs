//! One column of a table: its header, its index and its storage.

use crate::datatype::{datatype_of_token, indexable, DataType};
use crate::error::Error;
use crate::index::{lookup, matching_ordinals, IndexKey, SortedIndex};
use crate::parser::select::Binary;
use crate::text::{bool_to_text, int_to_text, parse_bool, parse_int};
use crate::text::is_float_literal;
use crate::value::{cell_has_type, parse_cell, picked, rendered, texts, Cell};
use vstd::prelude::*;

verus! {

/// The index of a column: ordered, from the column's values to row
/// ordinals. Columns of a type that cannot key an index have none.
#[derive(Debug, PartialEq)]
pub enum ColumnIndex {
    Int(SortedIndex<i32>),
    Str(SortedIndex<String>),
    Bool(SortedIndex<bool>),
    /// No index: the column's type cannot key one.
    Absent,
}

impl ColumnIndex {
    /// Whether the index is well formed.
    pub open spec fn wf(&self) -> bool {
        match self {
            ColumnIndex::Int(index) => index.wf(),
            ColumnIndex::Str(index) => index.wf(),
            ColumnIndex::Bool(index) => index.wf(),
            ColumnIndex::Absent => true,
        }
    }

    /// The entries of the index in ascending key order.
    pub open spec fn entries(&self) -> Seq<(Cell, usize)> {
        match self {
            ColumnIndex::Int(index) => index@,
            ColumnIndex::Str(index) => index@,
            ColumnIndex::Bool(index) => index@,
            ColumnIndex::Absent => Seq::empty(),
        }
    }

    /// The type of the keys; `Invalid` where there is no index.
    pub open spec fn key_type(&self) -> DataType {
        match self {
            ColumnIndex::Int(_) => DataType::Int,
            ColumnIndex::Str(_) => DataType::Str,
            ColumnIndex::Bool(_) => DataType::Bool,
            ColumnIndex::Absent => DataType::Invalid,
        }
    }

    /// The empty index for a column of the type `datatype`.
    pub fn new(datatype: DataType) -> (r: ColumnIndex)
        ensures
            r.wf(),
            r.entries() == Seq::<(Cell, usize)>::empty(),
            r.key_type() == if indexable(datatype) {
                datatype
            } else {
                DataType::Invalid
            },
    {
        match datatype {
            DataType::Int => ColumnIndex::Int(SortedIndex::new()),
            DataType::Str => ColumnIndex::Str(SortedIndex::new()),
            DataType::Bool => ColumnIndex::Bool(SortedIndex::new()),
            DataType::Float => ColumnIndex::Absent,
            DataType::Invalid => ColumnIndex::Absent,
        }
    }

    /// Point lookup: the ordinal held for the key that `val` denotes.
    ///
    /// Without an index nothing is found. With one, a text that does not
    /// denote a key of the index's type is a `ParseError`.
    pub fn get_idx_data(&self, val: &String) -> (r: Result<Option<usize>, Error>)
        requires
            self.wf(),
        ensures
            r == match self {
                ColumnIndex::Absent => Ok(None),
                _ => match parse_cell(self.key_type(), val@) {
                    Some(key) => Ok(lookup(self.entries(), key)),
                    None => Err(Error::ParseError),
                },
            },
    {
        match self {
            ColumnIndex::Int(index) => match parse_int(val.as_str()) {
                Some(key) => Ok(index.get(&key)),
                None => Err(Error::ParseError),
            },
            ColumnIndex::Bool(index) => match parse_bool(val.as_str()) {
                Some(key) => Ok(index.get(&key)),
                None => Err(Error::ParseError),
            },
            ColumnIndex::Str(index) => Ok(index.get(val)),
            ColumnIndex::Absent => Ok(None),
        }
    }

    /// Range lookup: the ordinals held for the keys that stand in the
    /// relation `op` to the key that `val` denotes, in ascending key order.
    ///
    /// Without an index nothing is found. With one, a text that does not
    /// denote a key of the index's type is a `ParseError`.
    pub fn get_idx_data_by_range(&self, val: &String, op: Binary) -> (r: Result<Vec<usize>, Error>)
        requires
            self.wf(),
        ensures
            match self {
                ColumnIndex::Absent => r matches Ok(v) && v@ == Seq::<usize>::empty(),
                _ => match parse_cell(self.key_type(), val@) {
                    Some(key) => r matches Ok(v) && v@ == matching_ordinals(
                        self.entries(),
                        op,
                        key,
                    ),
                    None => r == Err::<Vec<usize>, Error>(Error::ParseError),
                },
            },
    {
        match self {
            ColumnIndex::Int(index) => match parse_int(val.as_str()) {
                Some(key) => Ok(index.select(op, &key)),
                None => Err(Error::ParseError),
            },
            ColumnIndex::Bool(index) => match parse_bool(val.as_str()) {
                Some(key) => Ok(index.select(op, &key)),
                None => Err(Error::ParseError),
            },
            ColumnIndex::Str(index) => Ok(index.select(op, val)),
            ColumnIndex::Absent => Ok(Vec::new()),
        }
    }
}

/// The storage of a column: its values in the order of insertion. The
/// position of a value is the ordinal of its row.
///
/// A floating-point value is kept as the literal it was written with.
#[derive(Debug, PartialEq)]
pub enum ColumnData {
    Int(Vec<i32>),
    Str(Vec<String>),
    Float(Vec<String>),
    Bool(Vec<bool>),
    /// The storage of a column of the type `Invalid`: it holds nothing.
    Absent,
}

impl ColumnData {
    /// The values held, in the order of insertion.
    pub open spec fn cells(&self) -> Seq<Cell> {
        match self {
            ColumnData::Int(v) => Seq::new(v@.len(), |i: int| Cell::Int(v@[i])),
            ColumnData::Str(v) => Seq::new(v@.len(), |i: int| Cell::Str(v@[i]@)),
            ColumnData::Float(v) => Seq::new(v@.len(), |i: int| Cell::Float(v@[i]@)),
            ColumnData::Bool(v) => Seq::new(v@.len(), |i: int| Cell::Bool(v@[i])),
            ColumnData::Absent => Seq::empty(),
        }
    }

    /// The type of the values; `Invalid` for the storage that holds nothing.
    pub open spec fn value_type(&self) -> DataType {
        match self {
            ColumnData::Int(_) => DataType::Int,
            ColumnData::Str(_) => DataType::Str,
            ColumnData::Float(_) => DataType::Float,
            ColumnData::Bool(_) => DataType::Bool,
            ColumnData::Absent => DataType::Invalid,
        }
    }

    /// The empty storage for a column of the type `datatype`.
    pub fn new(datatype: DataType) -> (r: ColumnData)
        ensures
            r.cells() == Seq::<Cell>::empty(),
            r.value_type() == datatype,
    {
        let r = match datatype {
            DataType::Int => ColumnData::Int(Vec::new()),
            DataType::Str => ColumnData::Str(Vec::new()),
            DataType::Float => ColumnData::Float(Vec::new()),
            DataType::Bool => ColumnData::Bool(Vec::new()),
            DataType::Invalid => ColumnData::Absent,
        };
        assert(r.cells() =~= Seq::<Cell>::empty());
        r
    }

    /// A storage holds no more values than can be counted.
    pub proof fn lemma_cells_bounded(&self)
        ensures
            self.cells().len() <= usize::MAX,
    {
        match self {
            ColumnData::Int(v) => {
                assert(v@.len() == v.len());
            },
            ColumnData::Str(v) => {
                assert(v@.len() == v.len());
            },
            ColumnData::Float(v) => {
                assert(v@.len() == v.len());
            },
            ColumnData::Bool(v) => {
                assert(v@.len() == v.len());
            },
            ColumnData::Absent => {},
        }
    }

    /// The number of values held.
    pub fn count(&self) -> (n: usize)
        ensures
            n == self.cells().len(),
    {
        match self {
            ColumnData::Int(cd) => cd.len(),
            ColumnData::Float(cd) => cd.len(),
            ColumnData::Str(cd) => cd.len(),
            ColumnData::Bool(cd) => cd.len(),
            ColumnData::Absent => 0,
        }
    }

    /// The type of the values; `Invalid` for the storage that holds nothing.
    pub fn type_of(&self) -> (r: DataType)
        ensures
            r == self.value_type(),
    {
        match self {
            ColumnData::Int(_) => DataType::Int,
            ColumnData::Str(_) => DataType::Str,
            ColumnData::Float(_) => DataType::Float,
            ColumnData::Bool(_) => DataType::Bool,
            ColumnData::Absent => DataType::Invalid,
        }
    }

    /// Whether every value held is a value of the storage's type: whether
    /// every floating-point value is a literal.
    #[verifier::loop_isolation(false)]
    pub fn holds_values_of_its_type(&self) -> (r: bool)
        ensures
            r == forall|j: int|
                0 <= j < self.cells().len() ==> cell_has_type(
                    #[trigger] self.cells()[j],
                    self.value_type(),
                ),
    {
        match self {
            ColumnData::Float(v) => {
                let mut i: usize = 0;
                while i < v.len()
                    invariant
                        i <= v@.len(),
                        forall|j: int|
                            0 <= j < i ==> cell_has_type(
                                #[trigger] self.cells()[j],
                                DataType::Float,
                            ),
                    decreases v@.len() - i,
                {
                    if !is_float_literal(v[i].as_str()) {
                        assert(!cell_has_type(self.cells()[i as int], DataType::Float));
                        return false;
                    }
                    i += 1;
                }
                true
            },
            _ => true,
        }
    }

    /// A storage with the same values.
    #[verifier::loop_isolation(false)]
    pub fn duplicate(&self) -> (r: ColumnData)
        ensures
            r.cells() == self.cells(),
            r.value_type() == self.value_type(),
    {
        let mut i: usize = 0;
        let r = match self {
            ColumnData::Int(v) => {
                let mut w: Vec<i32> = Vec::new();
                while i < v.len()
                    invariant
                        i <= v@.len(),
                        w@ == v@.take(i as int),
                    decreases v@.len() - i,
                {
                    w.push(v[i]);
                    assert(w@ =~= v@.take(i + 1));
                    i += 1;
                }
                assert(w@ =~= v@);
                ColumnData::Int(w)
            },
            ColumnData::Bool(v) => {
                let mut w: Vec<bool> = Vec::new();
                while i < v.len()
                    invariant
                        i <= v@.len(),
                        w@ == v@.take(i as int),
                    decreases v@.len() - i,
                {
                    w.push(v[i]);
                    assert(w@ =~= v@.take(i + 1));
                    i += 1;
                }
                assert(w@ =~= v@);
                ColumnData::Bool(w)
            },
            ColumnData::Str(v) => {
                let mut w: Vec<String> = Vec::new();
                while i < v.len()
                    invariant
                        i <= v@.len(),
                        w@ == v@.take(i as int),
                    decreases v@.len() - i,
                {
                    w.push(v[i].clone());
                    assert(w@ =~= v@.take(i + 1));
                    i += 1;
                }
                assert(w@ =~= v@);
                ColumnData::Str(w)
            },
            ColumnData::Float(v) => {
                let mut w: Vec<String> = Vec::new();
                while i < v.len()
                    invariant
                        i <= v@.len(),
                        w@ == v@.take(i as int),
                    decreases v@.len() - i,
                {
                    w.push(v[i].clone());
                    assert(w@ =~= v@.take(i + 1));
                    i += 1;
                }
                assert(w@ =~= v@);
                ColumnData::Float(w)
            },
            ColumnData::Absent => ColumnData::Absent,
        };
        assert(r.cells() =~= self.cells());
        r
    }

    /// The text of the value at `ordinal`.
    pub fn serialized_at(&self, ordinal: usize) -> (s: String)
        requires
            ordinal < self.cells().len(),
        ensures
            s@ == crate::value::render_cell(self.cells()[ordinal as int]),
    {
        match self {
            ColumnData::Int(cd) => int_to_text(cd[ordinal]),
            ColumnData::Float(cd) => cd[ordinal].clone(),
            ColumnData::Str(cd) => cd[ordinal].clone(),
            ColumnData::Bool(cd) => bool_to_text(cd[ordinal]),
            ColumnData::Absent => String::new(),
        }
    }

    /// The texts of all values, in the order of insertion.
    pub fn get_serialized_col_data(&self) -> (r: Vec<String>)
        ensures
            texts(r@) == rendered(self.cells()),
    {
        let n = self.count();
        let mut r: Vec<String> = Vec::new();
        let mut i: usize = 0;
        while i < n
            invariant
                i <= n,
                n == self.cells().len(),
                r.len() == i,
                forall|k: int| 0 <= k < i ==> r@[k]@ == rendered(self.cells())[k],
            decreases n - i,
        {
            r.push(self.serialized_at(i));
            i += 1;
        }
        assert(texts(r@) =~= rendered(self.cells()));
        r
    }

    /// The texts of the values at the positions `indices`, in the order of
    /// `indices`.
    pub fn get_serialized_col_data_by_index(&self, indices: &Vec<usize>) -> (r: Vec<String>)
        requires
            forall|k: int| 0 <= k < indices.len() ==> indices[k] < self.cells().len(),
        ensures
            texts(r@) == rendered(picked(self.cells(), indices@)),
    {
        let mut r: Vec<String> = Vec::new();
        let mut i: usize = 0;
        while i < indices.len()
            invariant
                i <= indices.len(),
                r.len() == i,
                forall|k: int| 0 <= k < indices.len() ==> indices[k] < self.cells().len(),
                forall|k: int|
                    0 <= k < i ==> r@[k]@ == rendered(picked(self.cells(), indices@))[k],
            decreases indices.len() - i,
        {
            r.push(self.serialized_at(indices[i]));
            i += 1;
        }
        assert(texts(r@) =~= rendered(picked(self.cells(), indices@)));
        r
    }
}

/// What a table knows of one of its columns.
#[derive(Debug, PartialEq)]
pub struct ColumnHeader {
    pub name: String,
    pub datatype: DataType,
    pub is_indexed: bool,
    pub index: ColumnIndex,
    pub is_primary_key: bool,
}

impl ColumnHeader {
    /// The header of a new column: its type is the one that the type name
    /// `datatype` stands for, it is indexed when it is a primary key, and
    /// its index is empty.
    pub fn new(name: String, datatype: String, is_primary_key: bool) -> (r: ColumnHeader)
        ensures
            r.name@ == name@,
            r.datatype == datatype_of_token(datatype@),
            r.is_primary_key == is_primary_key,
            r.is_indexed == is_primary_key,
            r.index.wf(),
            r.index.entries() == Seq::<(Cell, usize)>::empty(),
            r.index.key_type() == if indexable(r.datatype) {
                r.datatype
            } else {
                DataType::Invalid
            },
    {
        let dt = DataType::new(datatype);
        let index = ColumnIndex::new(dt);
        ColumnHeader { name, datatype: dt, is_indexed: is_primary_key, index, is_primary_key }
    }

    /// The column's index, to change it in place.
    pub fn get_mut_index(&mut self) -> (r: &mut ColumnIndex)
        ensures
            *r == old(self).index,
            final(self).index == *final(r),
            final(self).name == old(self).name,
            final(self).datatype == old(self).datatype,
            final(self).is_indexed == old(self).is_indexed,
            final(self).is_primary_key == old(self).is_primary_key,
    {
        &mut self.index
    }
}

} // verus!
