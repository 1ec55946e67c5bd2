use vstd::prelude::*;

use crate::path::strs;
use crate::table::Table;

verus! {

/// One entry of an environment snapshot.
#[allow(inconsistent_fields)]
pub enum VariableValue {
    /// A scalar marked for export to child processes.
    Exported { value: String },
    /// A scalar that is not exported.
    Var { value: String },
    /// An indexed list; its order is kept.
    Array { value: Vec<String> },
    /// A map from keys to values.
    Associative { value: Table<String> },
}

/// What a `VariableValue` holds, as mathematical values.
pub enum ValueView {
    Exported(Seq<char>),
    Var(Seq<char>),
    Array(Seq<Seq<char>>),
    Associative(Map<Seq<char>, Seq<char>>),
}

impl View for VariableValue {
    type V = ValueView;

    open spec fn view(&self) -> ValueView {
        match self {
            VariableValue::Exported { value } => ValueView::Exported(value@),
            VariableValue::Var { value } => ValueView::Var(value@),
            VariableValue::Array { value } => ValueView::Array(strs(value@)),
            VariableValue::Associative { value } => ValueView::Associative(value@),
        }
    }
}

/// A scalar is empty when it has no characters, a list or a map when it has
/// no elements.
pub open spec fn value_empty(v: ValueView) -> bool {
    match v {
        ValueView::Exported(s) => s.len() == 0,
        ValueView::Var(s) => s.len() == 0,
        ValueView::Array(a) => a.len() == 0,
        ValueView::Associative(m) => m == Map::<Seq<char>, Seq<char>>::empty(),
    }
}

/// A copy of a list of strings.
pub fn copy_strings(v: &Vec<String>) -> (r: Vec<String>)
    ensures
        strs(r@) == strs(v@),
{
    let mut r: Vec<String> = Vec::new();
    let mut i: usize = 0;
    while i < v.len()
        invariant
            i <= v@.len(),
            r@.len() == i,
            forall|j: int| 0 <= j < i ==> r@[j]@ == v@[j]@,
        decreases v@.len() - i,
    {
        r.push(v[i].clone());
        i = i + 1;
    }
    assert(strs(r@) =~= strs(v@));
    r
}

/// A copy of a table of strings.
pub fn copy_string_table(t: &Table<String>) -> (r: Table<String>)
    ensures
        r.pairs() == t.pairs(),
        r@ == t@,
{
    let mut entries: Vec<(String, String)> = Vec::new();
    let mut i: usize = 0;
    while i < t.entries.len()
        invariant
            i <= t.entries@.len(),
            entries@.len() == i,
            forall|j: int|
                0 <= j < i ==> entries@[j].0@ == t.entries@[j].0@ && entries@[j].1@
                    == t.entries@[j].1@,
        decreases t.entries@.len() - i,
    {
        let k = t.entries[i].0.clone();
        let v = t.entries[i].1.clone();
        entries.push((k, v));
        i = i + 1;
    }
    let r = Table { entries };
    assert(r.pairs() =~= t.pairs());
    r
}

impl VariableValue {
    /// A copy of this value.
    pub fn copy(&self) -> (r: Self)
        ensures
            r@ == self@,
    {
        match self {
            VariableValue::Exported { value } => VariableValue::Exported { value: value.clone() },
            VariableValue::Var { value } => VariableValue::Var { value: value.clone() },
            VariableValue::Array { value } => VariableValue::Array { value: copy_strings(value) },
            VariableValue::Associative { value } => VariableValue::Associative {
                value: copy_string_table(value),
            },
        }
    }

    /// Whether the value is empty: no characters, or no elements.
    pub fn is_empty(&self) -> (r: bool)
        ensures
            r == value_empty(self@),
    {
        match self {
            VariableValue::Exported { value } => value.as_str().unicode_len() == 0,
            VariableValue::Var { value } => value.as_str().unicode_len() == 0,
            VariableValue::Array { value } => value.len() == 0,
            VariableValue::Associative { value } => value.is_empty(),
        }
    }
}

} // verus!
