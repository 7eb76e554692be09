//! Writing manifests without disturbing what the user wrote in them.

use crate::text::around;
use crate::text::opt_view;
use crate::text::put_around;
use crate::text::same_text;
use super::document::DocumentModel;
use super::document::Field;
use super::document::TableModel;
use super::document::column;
use super::document::document_contents;
use super::document::gains_table;
use super::document::grows;
use super::document::has_room;
use super::document::has_tables;
use super::document::holds;
use super::document::new_document;
use super::document::new_table;
use super::document::no_fields;
use super::document::parse_document;
use super::document::plain_table;
use super::document::push_table;
use super::document::put_flag;
use super::document::put_section;
use super::document::put_text;
use super::document::remove_table;
use super::document::render_document;
use super::document::table_contents;
use super::document::table_is_bare;
use super::document::tables_under;
use super::document::text_contents;
use super::document::text_under;
use super::document::toml_error_text;
use super::document::written;
use super::file_entry::FileMode;
use vstd::multiset::Multiset;
use vstd::prelude::*;

verus! {

/// Errors in writing a manifest.
#[derive(Debug, Clone, PartialEq, Eq)]
#[non_exhaustive]
pub enum ConfigWriteError {
    /// The text is no TOML document.
    Parse {
        /// What went wrong.
        message: String,
    },
    /// No `[[file]]` has the target.
    EntryNotFound {
        /// The target.
        target: String,
    },
    /// Something other than `[[file]]` tables stands under `file`.
    MalformedFileArray,
}

impl ConfigWriteError {
    /// The error in words.
    pub open spec fn words(self) -> Seq<char> {
        match self {
            ConfigWriteError::Parse { message } => "failed to parse manifest text as TOML: "@
                + message@,
            ConfigWriteError::EntryNotFound { target } => around(
                "no [[file]] entry found with target `"@,
                target@,
                "`"@,
            ),
            ConfigWriteError::MalformedFileArray =>
                "manifest `file` key is not a [[file]] array of tables"@,
        }
    }

    /// The error in words.
    pub fn message(&self) -> (r: String)
        ensures
            r@ == self.words(),
    {
        match self {
            ConfigWriteError::Parse { message } => {
                let mut r: String = "failed to parse manifest text as TOML: ".to_owned();
                r.append(message.as_str());
                r
            },
            ConfigWriteError::EntryNotFound { target } => put_around(
                "no [[file]] entry found with target `",
                target.as_str(),
                "`",
            ),
            ConfigWriteError::MalformedFileArray =>
                "manifest `file` key is not a [[file]] array of tables".to_owned(),
        }
    }
}

/// The `[patina]` table of a root manifest.
pub open spec fn root_fields(created_at: Seq<char>) -> Map<Seq<char>, Field> {
    no_fields().insert("root"@, Field::Flag { value: true }).insert(
        "created_at"@,
        Field::Text { text: created_at },
    )
}

/// The root manifest of a new repository: a `[patina]` table that marks the root
/// and says when it was made.
#[must_use]
pub fn scaffold_root_manifest(created_at: &str) -> (text: String)
    ensures
        holds(
            text@,
            (DocumentModel {
                fields: no_fields().insert(
                    "patina"@,
                    Field::Table { table: plain_table(root_fields(created_at@)) },
                ),
                comments: Multiset::empty(),
                text: text@,
            }),
        ),
{
    proof {
        reveal_strlit("root");
        reveal_strlit("created_at");
        assert("root"@.len() != "created_at"@.len());
    }
    let mut table: toml_edit::Table = new_table();
    put_flag(&mut table, "root", true);
    put_text(&mut table, "created_at", created_at);
    let mut doc: toml_edit::DocumentMut = new_document();
    put_section(&mut doc, "patina", table);
    assert(Multiset::<Seq<char>>::empty().add(Multiset::empty()) =~= Multiset::<
        Seq<char>,
    >::empty());
    render_document(&doc)
}

/// The word for a mode in a manifest. A template declares none.
pub open spec fn mode_word(mode: FileMode) -> Option<Seq<char>> {
    match mode {
        FileMode::Symlink => Some("symlink"@),
        FileMode::SymlinkDir => Some("symlink-dir"@),
        FileMode::SymlinkTree => Some("symlink-tree"@),
        FileMode::Copy => Some("copy"@),
        FileMode::CopyTree => Some("copy-tree"@),
        FileMode::TemplateRender => None,
    }
}

/// The word for a mode in a manifest. A template declares none.
pub fn mode_manifest_str(mode: FileMode) -> (r: Option<&'static str>)
    ensures
        match mode_word(mode) {
            Some(word) => r is Some && r->0@ == word,
            None => r is None,
        },
{
    match mode {
        FileMode::Symlink => Some("symlink"),
        FileMode::SymlinkDir => Some("symlink-dir"),
        FileMode::SymlinkTree => Some("symlink-tree"),
        FileMode::Copy => Some("copy"),
        FileMode::CopyTree => Some("copy-tree"),
        FileMode::TemplateRender => None,
    }
}

/// The fields of a `[[file]]` table.
pub open spec fn entry_fields(source: Seq<char>, target: Seq<char>, mode: FileMode) -> Map<
    Seq<char>,
    Field,
> {
    let two = no_fields().insert(
        "source"@,
        Field::Text { text: source },
    ).insert("target"@, Field::Text { text: target });
    match mode_word(mode) {
        Some(word) => two.insert("mode"@, Field::Text { text: word }),
        None => two,
    }
}

/// A `[[file]]` table: its source, its target, and its mode unless it is a
/// template.
fn file_table(source: &str, target: &str, mode: FileMode) -> (table: toml_edit::Table)
    ensures
        table_contents(table) == plain_table(entry_fields(source@, target@, mode)),
        table_is_bare(table),
{
    proof {
        reveal_strlit("source");
        reveal_strlit("target");
        reveal_strlit("mode");
        assert("source"@[0] != "target"@[0]);
        assert("mode"@.len() == 4);
    }
    let mut table: toml_edit::Table = new_table();
    put_text(&mut table, "source", source);
    put_text(&mut table, "target", target);
    match mode_manifest_str(mode) {
        Some(word) => put_text(&mut table, "mode", word),
        None => {},
    }
    table
}

/// A manifest with one more `[[file]]` table, written out as `text`. Everything else
/// under its keys stays, and so do all comments.
pub open spec fn with_file(contents: DocumentModel, table: TableModel, text: Seq<char>) -> DocumentModel {
    DocumentModel {
        fields: contents.fields.insert(
            "file"@,
            Field::Tables { tables: tables_under(contents.fields, "file"@).push(table) },
        ),
        comments: contents.comments,
        text,
    }
}

/// A manifest without one of its `[[file]]` tables, written out as `text`. Everything
/// else under its keys stays, and so do all comments but those of the table.
pub open spec fn without_file(contents: DocumentModel, place: int, text: Seq<char>) -> DocumentModel {
    DocumentModel {
        fields: contents.fields.insert(
            "file"@,
            Field::Tables { tables: tables_under(contents.fields, "file"@).remove(place) },
        ),
        comments: contents.comments.sub(tables_under(contents.fields, "file"@)[place].comments),
        text,
    }
}

/// Adds a `[[file]]` table to the end of a manifest. Everything else in it stays
/// as it was written. A manifest that is no TOML document is refused, and so is
/// one with something else under `file`.
///
/// The manifest is read and written out again with one piece put in, which is the text
/// of the new table. What was read is in the new text under the same keys, with every
/// comment. The exception is a manifest whose last `[[file]]` has headers below it in
/// another order than its keys: there the piece may stand between them.
pub fn append_file_entry(doc_text: &str, source: &str, target: &str, mode: FileMode) -> (r: Result<
    String,
    ConfigWriteError,
>)
    ensures
        match text_contents(doc_text@) {
            Err(words) => r matches Err(ConfigWriteError::Parse { message }) && message@ == words,
            Ok(contents) => if contents.fields.contains_key("file"@) && !has_tables(
                contents.fields,
                "file"@,
            ) {
                r == Err::<String, ConfigWriteError>(ConfigWriteError::MalformedFileArray)
            } else {
                r matches Ok(text) && gains_table(
                    contents.text,
                    text@,
                    "file"@,
                    plain_table(entry_fields(source@, target@, mode)),
                ) && (has_room(
                    contents.fields,
                    "file"@,
                ) ==> holds(
                    text@,
                    with_file(
                        contents,
                        plain_table(entry_fields(source@, target@, mode)),
                        text@,
                    ),
                ))
            },
        },
{
    let mut doc: toml_edit::DocumentMut = match parse_document(doc_text) {
        Ok(doc) => doc,
        Err(e) => return Err(ConfigWriteError::Parse { message: toml_error_text(&e) }),
    };
    let table: toml_edit::Table = file_table(source, target, mode);
    let ghost comments = document_contents(doc).comments;
    if !push_table(&mut doc, "file", table) {
        return Err(ConfigWriteError::MalformedFileArray);
    }
    assert(comments.add(Multiset::empty()) =~= comments);
    Ok(render_document(&doc))
}

/// The place of the first text of a column that is the given one, or the length
/// of the column.
pub open spec fn place_of(texts: Seq<Option<Seq<char>>>, text: Seq<char>) -> nat
    decreases texts.len(),
{
    if texts.len() == 0 || texts[0] == Some(text) {
        0
    } else {
        1 + place_of(texts.drop_first(), text)
    }
}

/// The texts of a column.
pub open spec fn column_views(texts: Seq<Option<String>>) -> Seq<Option<Seq<char>>> {
    texts.map_values(|t: Option<String>| opt_view(t))
}

/// The place of the first text of a column that is `text`, or `None` where there
/// is none.
pub fn position(texts: &Vec<Option<String>>, text: &str) -> (r: Option<usize>)
    ensures
        match r {
            Some(i) => i < texts@.len() && i == place_of(column_views(texts@), text@),
            None => place_of(column_views(texts@), text@) == texts@.len(),
        },
{
    let ghost all = column_views(texts@);
    let mut i: usize = 0;
    assert(all.skip(0) =~= all);
    while i < texts.len()
        invariant
            i <= texts@.len(),
            all == column_views(texts@),
            place_of(all, text@) == i + place_of(all.skip(i as int), text@),
        decreases texts@.len() - i,
    {
        assert(all.skip(i as int)[0] == opt_view(texts@[i as int]));
        assert(all.skip(i as int).drop_first() =~= all.skip(i + 1));
        match &texts[i] {
            Some(t) => {
                if same_text(t.as_str(), text) {
                    return Some(i);
                }
            },
            None => {},
        }
        i = i + 1;
    }
    None
}

/// The targets of a row of `[[file]]` tables.
pub open spec fn targets_of(tables: Seq<TableModel>) -> Seq<Option<Seq<char>>> {
    tables.map_values(|t: TableModel| text_under(t, "target"@))
}

/// The text under a key that stands first in a row is the one of the first place,
/// and no earlier table has it.
pub proof fn place_is_first(texts: Seq<Option<Seq<char>>>, text: Seq<char>)
    ensures
        place_of(texts, text) <= texts.len(),
        place_of(texts, text) < texts.len() ==> texts[place_of(texts, text) as int] == Some(text),
        forall|i: int| 0 <= i < place_of(texts, text) ==> texts[i] != Some(text),
    decreases texts.len(),
{
    if texts.len() > 0 && texts[0] != Some(text) {
        place_is_first(texts.drop_first(), text);
        let n = place_of(texts.drop_first(), text);
        assert forall|i: int| 0 <= i < n + 1 implies texts[i] != Some(text) by {
            if i > 0 {
                assert(texts.drop_first()[i - 1] == texts[i]);
            }
        }
    }
}

/// Takes the first `[[file]]` table with `target` out of a manifest. Every other
/// table stays, in order, and so does everything else that was written, but for the
/// comments in that table and right before it.
///
/// The manifest is read and written out again. Where no header stands below the
/// table, that takes one piece out of the text.
pub fn remove_file_entry(doc_text: &str, target: &str) -> (r: Result<String, ConfigWriteError>)
    ensures
        match text_contents(doc_text@) {
            Err(words) => r matches Err(ConfigWriteError::Parse { message }) && message@ == words,
            Ok(contents) => {
                let files = tables_under(contents.fields, "file"@);
                let place = place_of(targets_of(files), target@);
                if place == files.len() {
                    r matches Err(ConfigWriteError::EntryNotFound { target: t }) && t@ == target@
                } else {
                    r matches Ok(text) && holds(text@, without_file(contents, place as int, text@))
                        && (!files[place as int].headed ==> grows(text@, contents.text))
                }
            },
        },
{
    let mut doc: toml_edit::DocumentMut = match parse_document(doc_text) {
        Ok(doc) => doc,
        Err(e) => return Err(ConfigWriteError::Parse { message: toml_error_text(&e) }),
    };
    let ghost files = tables_under(document_contents(doc).fields, "file"@);
    let targets: Vec<Option<String>> = match column(&doc, "file", "target") {
        Some(targets) => targets,
        None => {
            assert(targets_of(files) =~= Seq::<Option<Seq<char>>>::empty());
            return Err(ConfigWriteError::EntryNotFound { target: target.to_owned() });
        },
    };
    assert(column_views(targets@) =~= targets_of(files));
    match position(&targets, target) {
        Some(index) => {
            remove_table(&mut doc, "file", index);
            Ok(render_document(&doc))
        },
        None => Err(ConfigWriteError::EntryNotFound { target: target.to_owned() }),
    }
}

/// Removing what was just added to a manifest without that target leaves what the
/// manifest held: the text after both holds what the text before both does, comments
/// and all, whatever the two texts between are.
pub proof fn removing_undoes_appending(
    before: Seq<char>,
    between: Seq<char>,
    after: Seq<char>,
    contents: DocumentModel,
    source: Seq<char>,
    target: Seq<char>,
    mode: FileMode,
)
    requires
        text_contents(before) == Ok::<DocumentModel, Seq<char>>(contents),
        has_tables(contents.fields, "file"@) || !contents.fields.contains_key("file"@),
        forall|i: int|
            0 <= i < tables_under(contents.fields, "file"@).len() ==> text_under(
                #[trigger] tables_under(contents.fields, "file"@)[i],
                "target"@,
            ) != Some(target),
        holds(
            between,
            with_file(contents, plain_table(entry_fields(source, target, mode)), between),
        ),
        holds(
            after,
            without_file(
                text_contents(between)->Ok_0,
                place_of(
                    targets_of(tables_under(text_contents(between)->Ok_0.fields, "file"@)),
                    target,
                ) as int,
                after,
            ),
        ),
    ensures
        place_of(
            targets_of(tables_under(text_contents(between)->Ok_0.fields, "file"@)),
            target,
        ) < tables_under(text_contents(between)->Ok_0.fields, "file"@).len(),
        holds(after, contents),
{
    let table = plain_table(entry_fields(source, target, mode));
    let files = tables_under(contents.fields, "file"@);
    let added = files.push(table);
    let found = text_contents(between)->Ok_0;
    let grown = with_file(contents, table, between);
    assert(tables_under(grown.fields, "file"@) == added);
    assert(tables_under(found.fields, "file"@) == added);
    let texts = targets_of(added);
    reveal_strlit("target");
    reveal_strlit("source");
    reveal_strlit("mode");
    assert("mode"@.len() == 4 && "target"@.len() == 6 && "source"@[0] == 's' && "target"@[0] == 't');
    assert(text_under(table, "target"@) == Some(target));
    place_is_first(texts, target);
    let place = place_of(texts, target);
    assert(texts[files.len() as int] == Some(target));
    assert forall|i: int| 0 <= i < files.len() implies #[trigger] texts[i] != Some(target) by {
        assert(added[i] == files[i]);
    }
    assert(place == files.len());
    assert(added.remove(place as int) =~= files);
    assert(contents.comments.sub(Multiset::empty()) =~= contents.comments);
    let shrunk = without_file(found, place as int, after);
    assert(written(shrunk.fields) =~= written(contents.fields));
}

} // verus!
