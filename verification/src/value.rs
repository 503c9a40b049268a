//! The values of cells.

use crate::number::Number;
use vstd::prelude::*;

verus! {

/// What a cell holds.
#[derive(Clone, Debug, PartialEq, Eq)]
pub enum Value {
    Text(String),
    Number(Number),
    Blank,
}

/// What a cell holds, in contracts. A number that is not finite has no numeral.
pub enum ValueView {
    Text(Seq<char>),
    Number(Option<Seq<char>>),
    Blank,
}

impl View for Value {
    type V = ValueView;

    open spec fn view(&self) -> ValueView {
        match self {
            Value::Text(s) => ValueView::Text(s@),
            Value::Number(n) => ValueView::Number(n@),
            Value::Blank => ValueView::Blank,
        }
    }
}

/// Whether nothing is to be seen in the cell.
pub open spec fn is_blank(v: ValueView) -> bool {
    v == ValueView::Blank || v == ValueView::Text(Seq::<char>::empty())
}

/// The values of a row, each by its view.
pub open spec fn row_view(row: Seq<Value>) -> Seq<ValueView> {
    Seq::new(row.len(), |i: int| row[i]@)
}

/// The rows of a table, each by its view.
pub open spec fn table_view(rows: Seq<Vec<Value>>) -> Seq<Seq<ValueView>> {
    Seq::new(rows.len(), |i: int| row_view(rows[i]@))
}

impl Value {
    /// Whether nothing is to be seen in the cell: it is blank or holds an empty text.
    pub fn blank(&self) -> (r: bool)
        ensures
            r == is_blank(self@),
    {
        match self {
            Value::Blank => true,
            Value::Text(s) => {
                let r: bool = s.as_str().is_empty();
                assert(r ==> s@ =~= Seq::<char>::empty());
                r
            },
            Value::Number(_) => false,
        }
    }

    /// The same value once more.
    pub fn duplicate(&self) -> (r: Self)
        ensures
            r@ == self@,
    {
        match self {
            Value::Text(s) => Value::Text(s.clone()),
            Value::Number(n) => Value::Number(n.duplicate()),
            Value::Blank => Value::Blank,
        }
    }
}

/// A value is seen as what it holds, and a table as its values, each at its place.
pub proof fn tables_are_seen_value_by_value(rows: Seq<Vec<Value>>, i: int, j: int)
    requires
        0 <= i < rows.len(),
    ensures
        table_view(rows).len() == rows.len(),
        table_view(rows)[i].len() == rows[i]@.len(),
        0 <= j < rows[i]@.len() ==> match rows[i]@[j] {
            Value::Text(s) => table_view(rows)[i][j] == ValueView::Text(s@),
            Value::Number(Number::Finite(n)) => table_view(rows)[i][j] == ValueView::Number(Some(n@)),
            Value::Number(Number::NotFinite) => table_view(rows)[i][j] == ValueView::Number(None),
            Value::Blank => table_view(rows)[i][j] == ValueView::Blank,
        },
{
}

/// Nothing is to be seen in a blank cell and in one with an empty text, and in no other.
pub proof fn blank_cells_show_nothing(v: Value)
    ensures
        is_blank(v@) <==> (v is Blank || (v matches Value::Text(s) && s@.len() == 0)),
{
    if let Value::Text(s) = v {
        if s@.len() == 0 {
            assert(s@ =~= Seq::<char>::empty());
        }
    }
}

} // verus!
