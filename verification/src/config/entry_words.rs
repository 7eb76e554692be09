//! The errors of `[[file]]` and `[[directory]]` tables in words.

use crate::text::around;
use crate::text::put_around;
use super::file_entry::EntryFault;
use super::file_entry::FileEntryError;
use vstd::prelude::*;

verus! {

/// A text with its control characters and quotes written as escapes.
pub uninterp spec fn escaped(text: Seq<char>) -> Seq<char>;

/// `text` with its control characters and quotes written as escapes, by
/// [`str::escape_debug`]: an error about an unprintable path must itself be
/// printable.
#[verifier::external_body]
pub(crate) fn escape(text: &str) -> (r: String)
    ensures
        r@ == escaped(text@),
{
    text.escape_debug().to_string()
}

/// A digit of a hexadecimal number, in uppercase.
pub open spec fn hex_digit(n: int) -> char {
    if n < 10 {
        (0x30 + n) as char
    } else {
        (0x37 + n) as char
    }
}

/// The last four hexadecimal digits of a number.
pub open spec fn four_hex(n: int) -> Seq<char> {
    seq![
        hex_digit(n / 4096 % 16),
        hex_digit(n / 256 % 16),
        hex_digit(n / 16 % 16),
        hex_digit(n % 16),
    ]
}

fn hex_char(n: u32) -> (c: char)
    requires
        n < 16,
    ensures
        c == hex_digit(n as int),
{
    match n {
        0 => '0',
        1 => '1',
        2 => '2',
        3 => '3',
        4 => '4',
        5 => '5',
        6 => '6',
        7 => '7',
        8 => '8',
        9 => '9',
        10 => 'A',
        11 => 'B',
        12 => 'C',
        13 => 'D',
        14 => 'E',
        _ => 'F',
    }
}

fn hex_text(n: u32) -> (r: String)
    ensures
        r@ == four_hex(n as int),
{
    let mut r: String = String::new();
    r.push(hex_char(n / 4096 % 16));
    r.push(hex_char(n / 256 % 16));
    r.push(hex_char(n / 16 % 16));
    r.push(hex_char(n % 16));
    assert(r@ =~= four_hex(n as int));
    r
}

/// The error about a control character: `subject`, the path with its escapes, the
/// character and the rule.
pub open spec fn control_words(
    subject: Seq<char>,
    shown: Seq<char>,
    codepoint: int,
    rule: Seq<char>,
) -> Seq<char> {
    around(
        around(subject, shown, "` contains the control character U+"@),
        four_hex(codepoint),
        rule,
    )
}

impl EntryFault {
    /// The error in words.
    pub open spec fn words(self) -> Seq<char> {
        match self {
            EntryFault::TargetAndTargets =>
                "entry declares both `target` and `targets`; exactly one must be set"@,
            EntryFault::TargetMissing =>
                "entry is missing both `target` and `targets`; exactly one must be set"@,
            EntryFault::TargetsEmpty =>
                "entry declares `targets = []`; the array must be non-empty"@,
            EntryFault::TargetControlCharacter { target, codepoint } => control_words(
                "target `"@,
                escaped(target),
                codepoint,
                "; a target path must not contain an ASCII control character"@,
            ),
            EntryFault::SourceControlCharacter { source_path, codepoint } => control_words(
                "entry source `"@,
                escaped(source_path),
                codepoint,
                "; a source path must not contain an ASCII control character"@,
            ),
            EntryFault::UnsupportedFileMode { value } => around(
                "[[file]] entry declares unsupported mode `"@,
                value,
                "`; the accepted `[[file]]` modes are `symlink`, `copy`"@,
            ),
            EntryFault::UnsupportedDirectoryMode { value } => around(
                "[[directory]] entry declares unsupported mode `"@,
                value,
                "`; the accepted `[[directory]]` modes are `symlink`, `symlink-tree`, `copy`"@,
            ),
            EntryFault::ImplicitTemplateModeDeclared { source_path, mode } => around(
                around(
                    "[[file]] entry source `"@,
                    source_path,
                    "` has the `.tmpl` suffix and declares `mode = \""@,
                ),
                mode,
                "\"`; the implicit-template rule forbids declaring any `mode` on a `.tmpl` source"@,
            ),
            EntryFault::DirectoryTemplateSource { source_path } => around(
                "[[directory]] entry source `"@,
                source_path,
                "` has the `.tmpl` suffix; template render is file-only and not valid for a `[[directory]]`"@,
            ),
            EntryFault::FileIgnoreDeclared { source_path } => around(
                "[[file]] entry source `"@,
                source_path,
                "` declares `ignore`; the key is accepted only on a [[directory]] with `mode = \"symlink-tree\"` or `mode = \"copy\"`, the two modes that enumerate a source tree one leaf at a time"@,
            ),
            EntryFault::DirectorySymlinkIgnoreDeclared { source_path } => around(
                "[[directory]] entry source `"@,
                source_path,
                "` declares `ignore` with the whole-directory `symlink` mode; that mode creates one link and exposes the directory through it, so no ignore list can change what appears at the target. Use `mode = \"symlink-tree\"` to materialize one link per leaf and filter them"@,
            ),
            EntryFault::EmptyRemote { source_path } => around(
                "entry source `"@,
                source_path,
                "` declares an empty `remote`; name a `[[remote]]` from the root patina.toml, or drop the key to resolve the source inside this module"@,
            ),
        }
    }
}

fn control_message(subject: &str, shown: &str, codepoint: u32, rule: &str) -> (r: String)
    ensures
        r@ == control_words(subject@, shown@, codepoint as int, rule@),
{
    put_around(
        put_around(subject, shown, "` contains the control character U+").as_str(),
        hex_text(codepoint).as_str(),
        rule,
    )
}

impl FileEntryError {
    /// The error in words.
    pub fn message(&self) -> (r: String)
        ensures
            r@ == self@.words(),
    {
        match self {
            FileEntryError::TargetAndTargets =>
                "entry declares both `target` and `targets`; exactly one must be set".to_owned(),
            FileEntryError::TargetMissing =>
                "entry is missing both `target` and `targets`; exactly one must be set".to_owned(),
            FileEntryError::TargetsEmpty =>
                "entry declares `targets = []`; the array must be non-empty".to_owned(),
            FileEntryError::TargetControlCharacter { target, codepoint } => control_message(
                "target `",
                escape(target.as_str()).as_str(),
                *codepoint,
                "; a target path must not contain an ASCII control character",
            ),
            FileEntryError::SourceControlCharacter { source_path, codepoint } => control_message(
                "entry source `",
                escape(source_path.as_str()).as_str(),
                *codepoint,
                "; a source path must not contain an ASCII control character",
            ),
            FileEntryError::UnsupportedFileMode { value } => put_around(
                "[[file]] entry declares unsupported mode `",
                value.as_str(),
                "`; the accepted `[[file]]` modes are `symlink`, `copy`",
            ),
            FileEntryError::UnsupportedDirectoryMode { value } => put_around(
                "[[directory]] entry declares unsupported mode `",
                value.as_str(),
                "`; the accepted `[[directory]]` modes are `symlink`, `symlink-tree`, `copy`",
            ),
            FileEntryError::ImplicitTemplateModeDeclared { source_path, mode } => put_around(
                put_around(
                    "[[file]] entry source `",
                    source_path.as_str(),
                    "` has the `.tmpl` suffix and declares `mode = \"",
                ).as_str(),
                mode.as_str(),
                "\"`; the implicit-template rule forbids declaring any `mode` on a `.tmpl` source",
            ),
            FileEntryError::DirectoryTemplateSource { source_path } => put_around(
                "[[directory]] entry source `",
                source_path.as_str(),
                "` has the `.tmpl` suffix; template render is file-only and not valid for a `[[directory]]`",
            ),
            FileEntryError::FileIgnoreDeclared { source_path } => put_around(
                "[[file]] entry source `",
                source_path.as_str(),
                "` declares `ignore`; the key is accepted only on a [[directory]] with `mode = \"symlink-tree\"` or `mode = \"copy\"`, the two modes that enumerate a source tree one leaf at a time",
            ),
            FileEntryError::DirectorySymlinkIgnoreDeclared { source_path } => put_around(
                "[[directory]] entry source `",
                source_path.as_str(),
                "` declares `ignore` with the whole-directory `symlink` mode; that mode creates one link and exposes the directory through it, so no ignore list can change what appears at the target. Use `mode = \"symlink-tree\"` to materialize one link per leaf and filter them",
            ),
            FileEntryError::EmptyRemote { source_path } => put_around(
                "entry source `",
                source_path.as_str(),
                "` declares an empty `remote`; name a `[[remote]]` from the root patina.toml, or drop the key to resolve the source inside this module",
            ),
        }
    }
}

} // verus!
