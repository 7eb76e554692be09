//! Variables: the tables of them that manifests declare.
//!
//! Names under `patina.` are built in, and no table may declare one.

use crate::text::around;
use crate::text::put_around;
use crate::text::starts_with;
use vstd::prelude::*;

verus! {

/// Errors in variables.
#[derive(Debug, Clone, PartialEq, Eq)]
#[non_exhaustive]
pub enum VariableError {
    /// A table declares a name that is built in.
    ReservedKey {
        /// The name.
        key: String,
    },
}

impl VariableError {
    /// The name that the error is about.
    pub open spec fn key(self) -> Seq<char> {
        match self {
            VariableError::ReservedKey { key } => key@,
        }
    }

    /// The error in words.
    pub open spec fn words(self) -> Seq<char> {
        around(
            "variable `"@,
            self.key(),
            "` is reserved; names under `patina.` are built in"@,
        )
    }

    /// The error in words.
    pub fn message(&self) -> (r: String)
        ensures
            r@ == self.words(),
    {
        match self {
            VariableError::ReservedKey { key } => put_around(
                "variable `",
                key.as_str(),
                "` is reserved; names under `patina.` are built in",
            ),
        }
    }
}

/// The value of a variable: a text, or anything else that a manifest can write.
#[derive(Debug, Clone, PartialEq, Eq)]
pub enum VariableValue {
    /// A text.
    Text {
        /// The text.
        text: String,
    },
    /// A number, a date, an array or a table.
    Other,
}

/// The value of a variable, if it is a text.
pub open spec fn text_of(value: VariableValue) -> Option<Seq<char>> {
    match value {
        VariableValue::Text { text } => Some(text@),
        VariableValue::Other => None,
    }
}

/// A declared variable.
#[derive(Debug, Clone, PartialEq, Eq)]
pub struct Variable {
    /// The name.
    pub key: String,
    /// The value.
    pub value: VariableValue,
}

/// A table of variables in the order of the manifest.
pub type VariableTable = Vec<Variable>;

/// The names of a table.
pub open spec fn table_keys(table: Seq<Variable>) -> Seq<Seq<char>> {
    table.map_values(|v: Variable| v.key@)
}

/// Whether a name is built in.
pub open spec fn reserved(key: Seq<char>) -> bool {
    "patina."@.is_prefix_of(key)
}

/// The first name of a row that is built in.
pub open spec fn first_reserved(keys: Seq<Seq<char>>) -> Option<Seq<char>>
    decreases keys.len(),
{
    if keys.len() == 0 {
        None
    } else if reserved(keys[0]) {
        Some(keys[0])
    } else {
        first_reserved(keys.drop_first())
    }
}

/// Refuses a table that declares a name that is built in.
pub fn reject_reserved_keys(table: &Vec<Variable>) -> (r: Result<(), VariableError>)
    ensures
        match first_reserved(table_keys(table@)) {
            None => r is Ok,
            Some(key) => r is Err && r->Err_0.key() == key,
        },
{
    let ghost all = table_keys(table@);
    let mut i: usize = 0;
    assert(all.skip(0) =~= all);
    while i < table.len()
        invariant
            i <= table@.len(),
            all == table_keys(table@),
            first_reserved(all) == first_reserved(all.skip(i as int)),
        decreases table@.len() - i,
    {
        assert(all.skip(i as int)[0] == table@[i as int].key@);
        assert(all.skip(i as int).drop_first() =~= all.skip(i + 1));
        if starts_with(table[i].key.as_str(), "patina.") {
            return Err(VariableError::ReservedKey { key: table[i].key.clone() });
        }
        i = i + 1;
    }
    Ok(())
}

/// The names and texts of the variables of a table whose value is a text.
pub open spec fn layer_of(table: Seq<Variable>) -> Seq<(Seq<char>, Seq<char>)>
    decreases table.len(),
{
    if table.len() == 0 {
        Seq::empty()
    } else {
        let before = layer_of(table.drop_last());
        match text_of(table.last().value) {
            Some(text) => before.push((table.last().key@, text)),
            None => before,
        }
    }
}

/// Pairs of texts as sequences of characters.
pub open spec fn pair_views(pairs: Seq<(String, String)>) -> Seq<(Seq<char>, Seq<char>)> {
    pairs.map_values(|p: (String, String)| (p.0@, p.1@))
}

/// The variables of a table whose value is a text, in order. Templates know only
/// texts.
pub fn table_to_layer(table: &Vec<Variable>) -> (layer: Vec<(String, String)>)
    ensures
        pair_views(layer@) == layer_of(table@),
{
    let mut layer: Vec<(String, String)> = Vec::new();
    assert(pair_views(layer@) =~= Seq::<(Seq<char>, Seq<char>)>::empty());
    let mut i: usize = 0;
    while i < table.len()
        invariant
            i <= table@.len(),
            pair_views(layer@) == layer_of(table@.take(i as int)),
        decreases table@.len() - i,
    {
        let ghost before = pair_views(layer@);
        assert(table@.take(i + 1).drop_last() =~= table@.take(i as int));
        match &table[i].value {
            VariableValue::Text { text } => {
                layer.push((table[i].key.clone(), text.clone()));
                assert(pair_views(layer@) =~= before.push((table@[i as int].key@, text@)));
            },
            VariableValue::Other => {},
        }
        i = i + 1;
    }
    assert(table@.take(i as int) =~= table@);
    layer
}

} // verus!
