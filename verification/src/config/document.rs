//! Editing a manifest in place.
//!
//! [`toml_edit`] keeps the comments, the order and the white space of what it does
//! not change. A document is seen here as what stands under each key at its top,
//! down to the last value, with its comments and with the text that it is written
//! out as.

use crate::text::opt_view;
use vstd::multiset::Multiset;
use vstd::prelude::*;

verus! {

/// A TOML document that can be edited.
#[verifier::external_type_specification]
#[verifier::external_body]
pub struct ExDocumentMut(toml_edit::DocumentMut);

/// A table of a document.
#[verifier::external_type_specification]
#[verifier::external_body]
pub struct ExTable(toml_edit::Table);

/// Why a text is no TOML document.
#[verifier::external_type_specification]
#[verifier::external_body]
pub struct ExTomlError(toml_edit::TomlError);

/// What stands under a key.
#[verifier::ext_equal]
pub ghost enum Field {
    /// A text.
    Text { text: Seq<char> },
    /// `true` or `false`.
    Flag { value: bool },
    /// Any other value, as it is written: a number, a time, an array or an inline
    /// table.
    Other { text: Seq<char> },
    /// A table.
    Table { table: TableModel },
    /// An array of tables.
    Tables { tables: Seq<TableModel> },
}

/// A table with everything below it.
#[verifier::ext_equal]
pub ghost struct TableModel {
    /// What stands under its keys.
    pub fields: Map<Seq<char>, Field>,
    /// The comments in it, those right before its header among them.
    pub comments: Multiset<Seq<char>>,
    /// Whether a table below it has a header of its own.
    pub headed: bool,
    /// Whether the header below it that is written last is not the one that its keys
    /// lead to last.
    pub scattered: bool,
}

/// A document.
#[verifier::ext_equal]
pub ghost struct DocumentModel {
    /// What stands under the keys at its top.
    pub fields: Map<Seq<char>, Field>,
    /// All its comments.
    pub comments: Multiset<Seq<char>>,
    /// What it is written out as.
    pub text: Seq<char>,
}

/// No field.
pub open spec fn no_fields() -> Map<Seq<char>, Field> {
    Map::empty()
}

/// A table with the given fields, without comments or headers below it.
pub open spec fn plain_table(fields: Map<Seq<char>, Field>) -> TableModel {
    TableModel { fields, comments: Multiset::empty(), headed: false, scattered: false }
}

/// What a table holds.
pub uninterp spec fn table_contents(table: toml_edit::Table) -> TableModel;

/// Whether a table has nothing but values without a form of their own: no decor, no
/// place and no written form is set on it, its keys or its values, and it is neither
/// implicit nor dotted.
pub uninterp spec fn table_is_bare(table: toml_edit::Table) -> bool;

/// What a document holds.
pub uninterp spec fn document_contents(doc: toml_edit::DocumentMut) -> DocumentModel;

/// Whether a document is laid out in full. Every table with a header has a decor and
/// a place of its own, after that of the table that it stands in and of the one
/// before it in its array. Every other table leads to one with a header or to a
/// value. Each written form stands for its key or value, and what is written around
/// each is the white space and the comments that the parser would put there.
pub uninterp spec fn document_is_laid_out(doc: toml_edit::DocumentMut) -> bool;

/// What the TOML document in a text holds, or why the text is none.
pub uninterp spec fn text_contents(text: Seq<char>) -> Result<DocumentModel, Seq<char>>;

/// An error in the words of [`toml_edit::TomlError`].
pub uninterp spec fn toml_error_words(error: toml_edit::TomlError) -> Seq<char>;

/// Whether an array of tables stands under a key.
pub open spec fn has_tables(fields: Map<Seq<char>, Field>, key: Seq<char>) -> bool {
    fields.contains_key(key) && fields[key] is Tables
}

/// The tables of the array under a key, or none where there is no such array.
pub open spec fn tables_under(fields: Map<Seq<char>, Field>, key: Seq<char>) -> Seq<TableModel> {
    if has_tables(fields, key) {
        fields[key]->tables
    } else {
        Seq::empty()
    }
}

/// What leaves a trace in a text: all but the arrays without tables.
pub open spec fn written(fields: Map<Seq<char>, Field>) -> Map<Seq<char>, Field> {
    fields.restrict(
        Set::new(
            |key: Seq<char>|
                !(has_tables(fields, key) && tables_under(fields, key).len() == 0),
        ),
    )
}

/// Whether a text holds what a document with the given contents holds: the same under
/// every key, and the same comments.
pub open spec fn holds(text: Seq<char>, contents: DocumentModel) -> bool {
    &&& text_contents(text) is Ok
    &&& text_contents(text)->Ok_0.fields == written(contents.fields)
    &&& text_contents(text)->Ok_0.comments == contents.comments
}

/// Whether `longer` is `shorter` with a piece put in at one place.
pub open spec fn grows(shorter: Seq<char>, longer: Seq<char>) -> bool {
    exists|at: int, end: int|
        0 <= at <= end <= longer.len() && shorter == #[trigger] longer.take(at)
            + #[trigger] longer.skip(end)
}

/// Whether `longer` is `shorter` with `piece` put in at one place.
pub open spec fn grows_by(shorter: Seq<char>, piece: Seq<char>, longer: Seq<char>) -> bool {
    exists|at: int|
        0 <= at <= shorter.len() && longer == #[trigger] shorter.take(at) + piece + shorter.skip(at)
}

/// Whether a text by itself holds one table in the array under a key, and nothing else.
pub open spec fn is_table_text(piece: Seq<char>, key: Seq<char>, table: TableModel) -> bool {
    &&& text_contents(piece) is Ok
    &&& text_contents(piece)->Ok_0.fields == no_fields().insert(
        key,
        Field::Tables { tables: seq![table] },
    )
    &&& text_contents(piece)->Ok_0.comments == Multiset::<Seq<char>>::empty()
}

/// Whether `longer` is `shorter` with the text of one table, in the array under a key,
/// put in at one place.
pub open spec fn gains_table(
    shorter: Seq<char>,
    longer: Seq<char>,
    key: Seq<char>,
    table: TableModel,
) -> bool {
    exists|piece: Seq<char>| #[trigger]
        is_table_text(piece, key, table) && grows_by(shorter, piece, longer)
}

/// The TOML document in `text`, by the `FromStr` of [`toml_edit::DocumentMut`]. The
/// contract names what it holds, or the words of the error. The parser gives every
/// table with a header its decor and its place, in the order of the text, and an
/// array of tables comes only from the header of a table in it.
#[verifier::external_body]
pub(crate) fn parse_document(text: &str) -> (r: Result<toml_edit::DocumentMut, toml_edit::TomlError>)
    ensures
        match r {
            Ok(doc) => text_contents(text@) == Ok::<DocumentModel, Seq<char>>(
                document_contents(doc),
            ) && document_is_laid_out(doc) && written(document_contents(doc).fields)
                == document_contents(doc).fields,
            Err(e) => text_contents(text@) == Err::<DocumentModel, Seq<char>>(toml_error_words(e)),
        },
{
    text.parse::<toml_edit::DocumentMut>()
}

/// Why a text is no TOML document, by the `Display` of [`toml_edit::TomlError`]. The
/// contract names the text.
#[verifier::external_body]
pub(crate) fn toml_error_text(e: &toml_edit::TomlError) -> (r: String)
    ensures
        r@ == toml_error_words(*e),
{
    e.to_string()
}

/// The text of a document, by the `Display` of [`toml_edit::DocumentMut`]. The
/// contract names the text.
#[verifier::external_body]
pub(crate) fn render_document(doc: &toml_edit::DocumentMut) -> (r: String)
    ensures
        r@ == document_contents(*doc).text,
{
    doc.to_string()
}

/// An empty document, by [`toml_edit::DocumentMut::new`].
#[verifier::external_body]
pub(crate) fn new_document() -> (doc: toml_edit::DocumentMut)
    ensures
        document_contents(doc) == (DocumentModel {
            fields: no_fields(),
            comments: Multiset::empty(),
            text: Seq::empty(),
        }),
        document_is_laid_out(doc),
{
    toml_edit::DocumentMut::new()
}

/// An empty table, by [`toml_edit::Table::new`].
#[verifier::external_body]
pub(crate) fn new_table() -> (table: toml_edit::Table)
    ensures
        table_contents(table) == plain_table(no_fields()),
        table_is_bare(table),
{
    toml_edit::Table::new()
}

/// Sets a new key of a table to a text, by [`toml_edit::Table::insert`].
#[verifier::external_body]
pub(crate) fn put_text(table: &mut toml_edit::Table, field: &str, text: &str)
    requires
        !table_contents(*old(table)).fields.contains_key(field@),
    ensures
        table_contents(*final(table)) == (TableModel {
            fields: table_contents(*old(table)).fields.insert(field@, Field::Text { text: text@ }),
            ..table_contents(*old(table))
        }),
        table_is_bare(*old(table)) ==> table_is_bare(*final(table)),
{
    table.insert(field, toml_edit::value(text));
}

/// Sets a new key of a table to a flag, by [`toml_edit::Table::insert`].
#[verifier::external_body]
pub(crate) fn put_flag(table: &mut toml_edit::Table, field: &str, flag: bool)
    requires
        !table_contents(*old(table)).fields.contains_key(field@),
    ensures
        table_contents(*final(table)) == (TableModel {
            fields: table_contents(*old(table)).fields.insert(field@, Field::Flag { value: flag }),
            ..table_contents(*old(table))
        }),
        table_is_bare(*old(table)) ==> table_is_bare(*final(table)),
{
    table.insert(field, toml_edit::value(flag));
}

/// Sets a new key at the top of a document to a table, by
/// [`toml_edit::Table::insert`]. In a document that is laid out, a bare table is
/// written whole behind another one, so that parsing the text of the document gives
/// back what it holds.
#[verifier::external_body]
pub(crate) fn put_section(doc: &mut toml_edit::DocumentMut, key: &str, table: toml_edit::Table)
    requires
        !document_contents(*old(doc)).fields.contains_key(key@),
    ensures
        document_contents(*final(doc)).fields == document_contents(*old(doc)).fields.insert(
            key@,
            Field::Table { table: table_contents(table) },
        ),
        document_contents(*final(doc)).comments == document_contents(*old(doc)).comments.add(
            table_contents(table).comments,
        ),
        document_is_laid_out(*old(doc)) && table_is_bare(table) ==> holds(
            document_contents(*final(doc)).text,
            document_contents(*final(doc)),
        ),
{
    doc.insert(key, toml_edit::Item::Table(table));
}

/// The text under a key of a table.
pub open spec fn text_under(table: TableModel, field: Seq<char>) -> Option<Seq<char>> {
    if table.fields.contains_key(field) {
        match table.fields[field] {
            Field::Text { text } => Some(text),
            _ => None,
        }
    } else {
        None
    }
}

/// The texts under `field` in the tables of the array under `key`, by
/// [`toml_edit::Table::get`] and [`toml_edit::Item::as_str`], or `None` where
/// there is no such array.
#[verifier::external_body]
pub(crate) fn column(doc: &toml_edit::DocumentMut, key: &str, field: &str) -> (r: Option<
    Vec<Option<String>>,
>)
    ensures
        r is Some <==> has_tables(document_contents(*doc).fields, key@),
        r matches Some(texts) ==> texts@.len() == tables_under(
            document_contents(*doc).fields,
            key@,
        ).len(),
        r matches Some(texts) ==> forall|i: int|
            0 <= i < texts@.len() ==> opt_view(#[trigger] texts@[i]) == text_under(
                tables_under(document_contents(*doc).fields, key@)[i],
                field@,
            ),
{
    let array = doc.get(key)?.as_array_of_tables()?;
    let text = |t: &toml_edit::Table| Some(t.get(field)?.as_str()?.to_owned());
    Some(array.iter().map(text).collect())
}

/// Takes the table at `index` out of the array under `key`, by
/// [`toml_edit::ArrayOfTables::remove`]. That function panics where there is no
/// such table. Nothing else in the document changes, so that in one that is laid out
/// every other table is written as before and where it was: parsing the text gives
/// back what the document holds, and where no header stands below the table, one
/// piece is missing from the text.
#[verifier::external_body]
pub(crate) fn remove_table(doc: &mut toml_edit::DocumentMut, key: &str, index: usize)
    requires
        index < tables_under(document_contents(*old(doc)).fields, key@).len(),
    ensures
        document_contents(*final(doc)).fields == document_contents(*old(doc)).fields.insert(
            key@,
            Field::Tables {
                tables: tables_under(document_contents(*old(doc)).fields, key@).remove(
                    index as int,
                ),
            },
        ),
        document_contents(*final(doc)).comments == document_contents(*old(doc)).comments.sub(
            tables_under(document_contents(*old(doc)).fields, key@)[index as int].comments,
        ),
        document_is_laid_out(*old(doc)) ==> holds(
            document_contents(*final(doc)).text,
            document_contents(*final(doc)),
        ),
        document_is_laid_out(*old(doc)) && !tables_under(
            document_contents(*old(doc)).fields,
            key@,
        )[index as int].headed ==> grows(
            document_contents(*final(doc)).text,
            document_contents(*old(doc)).text,
        ),
{
    if let Some(array) = doc.get_mut(key).and_then(|item| item.as_array_of_tables_mut()) {
        array.remove(index);
    }
}

/// Whether a table can be put behind the array under a key: the headers below the
/// last table of the array stand in the order of its keys. The new table is written
/// behind the one of them that the keys lead to last.
pub open spec fn has_room(fields: Map<Seq<char>, Field>, key: Seq<char>) -> bool {
    tables_under(fields, key).len() > 0 ==> !tables_under(fields, key).last().scattered
}

/// Adds a table to the end of the array under `key`, which is made where the
/// document has no such key, by [`toml_edit::Table::entry`] and
/// [`toml_edit::ArrayOfTables::push`]. Returns whether that was possible: not
/// where something other than an array of tables stands under the key, and then
/// nothing changes. In a document that is laid out, without an empty array under the
/// key, a bare table is written whole at one place, header and values, and every other
/// table as before: the piece of text that comes in is by itself the one table.
/// Where it has room there, parsing the text gives back what the document holds.
#[verifier::external_body]
pub(crate) fn push_table(doc: &mut toml_edit::DocumentMut, key: &str, table: toml_edit::Table) -> (r: bool)
    ensures
        r == (has_tables(document_contents(*old(doc)).fields, key@) || !document_contents(
            *old(doc),
        ).fields.contains_key(key@)),
        r ==> document_contents(*final(doc)).fields == document_contents(*old(doc)).fields.insert(
            key@,
            Field::Tables {
                tables: tables_under(document_contents(*old(doc)).fields, key@).push(
                    table_contents(table),
                ),
            },
        ),
        r ==> document_contents(*final(doc)).comments == document_contents(*old(doc)).comments.add(
            table_contents(table).comments,
        ),
        r && document_is_laid_out(*old(doc)) && table_is_bare(table) && written(
            document_contents(*old(doc)).fields,
        ) == document_contents(*old(doc)).fields ==> gains_table(
            document_contents(*old(doc)).text,
            document_contents(*final(doc)).text,
            key@,
            table_contents(table),
        ),
        r && document_is_laid_out(*old(doc)) && table_is_bare(table) && has_room(
            document_contents(*old(doc)).fields,
            key@,
        ) ==> holds(document_contents(*final(doc)).text, document_contents(*final(doc))),
        !r ==> *final(doc) == *old(doc),
{
    let none = || toml_edit::Item::ArrayOfTables(toml_edit::ArrayOfTables::new());
    let item = doc.entry(key).or_insert_with(none);
    let Some(array) = item.as_array_of_tables_mut() else { return false };
    array.push(table);
    true
}

} // verus!
