//! The values a table holds, as contracts see them, and their order.

use crate::datatype::DataType;
use crate::text::{bool_of_text, int_of_text, is_float_text, text_of_bool, text_of_int};
use vstd::prelude::*;

verus! {

/// One value of a column, as specifications see it.
///
/// An integer is itself; a string is its characters; a floating-point value
/// is the characters of its literal, since the library never computes with
/// it; a truth value is itself.
pub enum Cell {
    Int(i32),
    Str(Seq<char>),
    Float(Seq<char>),
    Bool(bool),
}

/// The value of type `datatype` that `text` denotes, if it denotes one.
///
/// Every text is a string. A column of the type `Invalid` holds no values,
/// so no text denotes one.
pub open spec fn parse_cell(datatype: DataType, text: Seq<char>) -> Option<Cell> {
    match datatype {
        DataType::Int => match int_of_text(text) {
            Some(v) => Some(Cell::Int(v)),
            None => None,
        },
        DataType::Str => Some(Cell::Str(text)),
        DataType::Float => if is_float_text(text) {
            Some(Cell::Float(text))
        } else {
            None
        },
        DataType::Bool => match bool_of_text(text) {
            Some(b) => Some(Cell::Bool(b)),
            None => None,
        },
        DataType::Invalid => None,
    }
}

/// The text under which a value is handed out.
pub open spec fn render_cell(c: Cell) -> Seq<char> {
    match c {
        Cell::Int(v) => text_of_int(v as int),
        Cell::Str(t) => t,
        Cell::Float(t) => t,
        Cell::Bool(b) => text_of_bool(b),
    }
}

/// Whether `c` is a value of the type `datatype`.
pub open spec fn cell_has_type(c: Cell, datatype: DataType) -> bool {
    match c {
        Cell::Int(_) => datatype == DataType::Int,
        Cell::Str(_) => datatype == DataType::Str,
        Cell::Float(t) => datatype == DataType::Float && is_float_text(t),
        Cell::Bool(_) => datatype == DataType::Bool,
    }
}

/// The texts under which the values `cells` are handed out.
pub open spec fn rendered(cells: Seq<Cell>) -> Seq<Seq<char>> {
    Seq::new(cells.len(), |i: int| render_cell(cells[i]))
}

/// The values of `cells` at the positions `ordinals`, in the order of
/// `ordinals`.
pub open spec fn picked(cells: Seq<Cell>, ordinals: Seq<usize>) -> Seq<Cell> {
    Seq::new(ordinals.len(), |k: int| cells[ordinals[k] as int])
}

/// The character sequences of the strings `v`.
pub open spec fn texts(v: Seq<String>) -> Seq<Seq<char>> {
    Seq::new(v.len(), |i: int| v[i]@)
}

/// The character sequences of the strings of each list of `lists`.
pub open spec fn nested_texts(lists: Seq<Vec<String>>) -> Seq<Seq<Seq<char>>> {
    Seq::new(lists.len(), |r: int| texts(lists[r]@))
}

/// Whether the text `a` comes before the text `b` when the two are compared
/// character by character, a proper prefix coming before what extends it.
pub open spec fn text_lt(a: Seq<char>, b: Seq<char>) -> bool
    decreases a.len(),
{
    if b.len() == 0 {
        false
    } else if a.len() == 0 {
        true
    } else if a[0] != b[0] {
        a[0] < b[0]
    } else {
        text_lt(a.drop_first(), b.drop_first())
    }
}

/// The place of a cell's kind among the kinds.
pub open spec fn kind_rank(c: Cell) -> int {
    match c {
        Cell::Int(_) => 0,
        Cell::Str(_) => 1,
        Cell::Float(_) => 2,
        Cell::Bool(_) => 3,
    }
}

/// The order of cells: integers by value, texts character by character,
/// `false` before `true`; cells of different kinds by kind.
pub open spec fn cell_lt(a: Cell, b: Cell) -> bool {
    match (a, b) {
        (Cell::Int(x), Cell::Int(y)) => x < y,
        (Cell::Str(x), Cell::Str(y)) => text_lt(x, y),
        (Cell::Float(x), Cell::Float(y)) => text_lt(x, y),
        (Cell::Bool(x), Cell::Bool(y)) => !x && y,
        _ => kind_rank(a) < kind_rank(b),
    }
}

/// No text comes before itself.
pub proof fn lemma_text_lt_irreflexive(a: Seq<char>)
    ensures
        !text_lt(a, a),
    decreases a.len(),
{
    if a.len() > 0 {
        lemma_text_lt_irreflexive(a.drop_first());
    }
}

/// Of two different texts, one comes before the other.
pub proof fn lemma_text_lt_total(a: Seq<char>, b: Seq<char>)
    ensures
        a == b || text_lt(a, b) || text_lt(b, a),
    decreases a.len(),
{
    if a.len() == 0 || b.len() == 0 {
        if a.len() == 0 && b.len() == 0 {
            assert(a =~= b);
        }
    } else if a[0] == b[0] {
        lemma_text_lt_total(a.drop_first(), b.drop_first());
        if a.drop_first() == b.drop_first() {
            assert(a =~= seq![a[0]] + a.drop_first());
            assert(b =~= seq![b[0]] + b.drop_first());
        }
    }
}

/// The order of texts is transitive.
pub proof fn lemma_text_lt_transitive(a: Seq<char>, b: Seq<char>, c: Seq<char>)
    requires
        text_lt(a, b),
        text_lt(b, c),
    ensures
        text_lt(a, c),
    decreases a.len(),
{
    if a.len() > 0 && a[0] == b[0] && b[0] == c[0] {
        lemma_text_lt_transitive(a.drop_first(), b.drop_first(), c.drop_first());
    }
}

/// No cell comes before itself.
pub proof fn lemma_cell_lt_irreflexive(a: Cell)
    ensures
        !cell_lt(a, a),
{
    match a {
        Cell::Str(x) => lemma_text_lt_irreflexive(x),
        Cell::Float(x) => lemma_text_lt_irreflexive(x),
        _ => {},
    }
}

/// Of two different cells, one comes before the other.
pub proof fn lemma_cell_lt_total(a: Cell, b: Cell)
    ensures
        a == b || cell_lt(a, b) || cell_lt(b, a),
{
    match (a, b) {
        (Cell::Str(x), Cell::Str(y)) => lemma_text_lt_total(x, y),
        (Cell::Float(x), Cell::Float(y)) => lemma_text_lt_total(x, y),
        _ => {},
    }
}

/// The order of cells is transitive.
pub proof fn lemma_cell_lt_transitive(a: Cell, b: Cell, c: Cell)
    requires
        cell_lt(a, b),
        cell_lt(b, c),
    ensures
        cell_lt(a, c),
{
    match (a, b, c) {
        (Cell::Str(x), Cell::Str(y), Cell::Str(z)) => lemma_text_lt_transitive(x, y, z),
        (Cell::Float(x), Cell::Float(y), Cell::Float(z)) => lemma_text_lt_transitive(x, y, z),
        _ => {},
    }
}

/// No two cells come before each other.
pub proof fn lemma_cell_lt_asymmetric(a: Cell, b: Cell)
    requires
        cell_lt(a, b),
    ensures
        !cell_lt(b, a),
{
    if cell_lt(b, a) {
        lemma_cell_lt_transitive(a, b, a);
        lemma_cell_lt_irreflexive(a);
    }
}

} // verus!
