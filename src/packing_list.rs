//! The packing list: a free-text manifest that names the physical files of a
//! dataset and the columns each logical table occupies in them.
//!
//! The manifest is read line by line. Three kinds of line matter, all others
//! are commentary:
//! - the jurisdiction line, `STUSAB: XX`, with a two-letter code;
//! - file-information lines, `filename|YYYY-MM-DD hh:mm:ss|size|rows|`;
//! - data-segmentation lines, `table|file:width file:width ...|`.
//!
//! The schema is inferred from every word of the text that reads as a file
//! name of the dataset: the jurisdiction code in lower case, an identifier,
//! a four-digit year, a dot and an extension (`ak000012010.pl`).
use vstd::prelude::*;

use std::collections::BTreeMap;

use crate::census2010;
use crate::census2020;
use crate::schema::{Schema, Table};
use crate::text::{
    all_digits, bytes_eq, copy_range, is_digit, lemma_split_on_nonempty, parse_decimal, parse_u64, split,
    split_on, trim, trimmed,
};

verus! {

/// The column at which the first table of every tabular file starts, after
/// the record-code columns.
pub const FIRST_TABLE_COLUMN: usize = 5;

/// Why a packing list could not be read.
#[derive(Clone, Copy, Debug, PartialEq, Eq, Structural)]
pub enum PackingListError {
    /// No `STUSAB: XX` line.
    MissingJurisdiction,
    /// No word of the text names a file of the dataset.
    NoSchema,
    /// File names of two different schemas occur.
    ConflictingSchemas,
    /// A file name has a year and extension that name no known schema.
    UnsupportedSchema,
    /// A listed file is neither the header file nor a numbered tabular file.
    UnknownFileIdentifier,
    /// A size or row count does not fit in 64 bits.
    MalformedNumber,
    /// A segmentation line names a table that the schema does not have.
    UnknownTable,
    /// The columns of a file run past the largest machine index.
    ColumnOverflow,
    /// No header file is listed.
    MissingHeaderFile,
}

/// The role of a physical file.
#[derive(Clone, Copy, Debug, PartialEq, Eq, Structural)]
pub enum FileType {
    /// A tabular file, with its 1-based file index.
    Tabular(u32),
    /// The geographic header file.
    GeographicalHeader,
}

/// A `file:width` pair as a segmentation line declares it.
#[derive(Clone, Copy, Debug, PartialEq, Eq, Structural)]
pub struct TableSegmentSpecifier {
    pub file: u32,
    pub columns: usize,
}

/// A table segment resolved to its columns `start..end` in tabular file `file`.
#[derive(Clone, Copy, Debug, PartialEq, Eq, Structural)]
pub struct TableSegmentLocation {
    pub file: u32,
    pub start: usize,
    pub end: usize,
}

/// A file-information line, as read.
pub struct FileInformation {
    pub filename: Vec<u8>,
    pub date: Vec<u8>,
    pub size: u64,
    pub rows: u64,
    pub ty: FileType,
}

/// A file-information line, as a value.
pub struct FileModel {
    pub filename: Seq<u8>,
    pub date: Seq<u8>,
    pub size: u64,
    pub rows: u64,
    pub ty: FileType,
}

impl View for FileInformation {
    type V = FileModel;

    open spec fn view(&self) -> FileModel {
        FileModel {
            filename: self.filename@,
            date: self.date@,
            size: self.size,
            rows: self.rows,
            ty: self.ty,
        }
    }
}

/// The segments of one declared table, in declaration order.
pub struct TableLocations {
    pub table: Table,
    pub locations: Vec<TableSegmentLocation>,
}

impl View for TableLocations {
    type V = (Table, Seq<TableSegmentLocation>);

    open spec fn view(&self) -> (Table, Seq<TableSegmentLocation>) {
        (self.table, self.locations@)
    }
}

/// A packing list, as a value.
pub struct PackingListModel {
    pub schema: Schema,
    /// The jurisdiction code, in lower case.
    pub stusab: Seq<u8>,
    /// The file-information lines, in order.
    pub files: Seq<FileModel>,
    /// The data-segmentation lines, in order, resolved to columns.
    pub tables: Seq<(Table, Seq<TableSegmentLocation>)>,
    /// Position in `files` of the first header file.
    pub header: int,
}

// ---------------------------------------------------------------------------
// The grammar, as spec functions.
// ---------------------------------------------------------------------------

/// The lines of a text; a `\r` of a `\r\n` ending leaves an empty line, which
/// is commentary like any other.
pub open spec fn spec_lines(text: Seq<u8>) -> Seq<Seq<u8>> {
    split_on(text, seq![0x0au8, 0x0du8])
}

/// The bytes that separate words when file names are looked for.
pub open spec fn word_separators() -> Seq<u8> {
    seq![0x20u8, 0x09u8, 0x0au8, 0x0du8, 0x7cu8]
}

/// The words of a text.
pub open spec fn spec_words(text: Seq<u8>) -> Seq<Seq<u8>> {
    split_on(text, word_separators())
}

pub open spec fn is_upper(b: u8) -> bool {
    0x41u8 <= b <= 0x5au8
}

pub open spec fn is_lower(b: u8) -> bool {
    0x61u8 <= b <= 0x7au8
}

pub open spec fn to_lower(b: u8) -> u8 {
    if is_upper(b) {
        (b + 0x20u8) as u8
    } else {
        b
    }
}

/// The label of the jurisdiction line.
pub open spec fn stusab_label() -> Seq<u8> {
    seq![0x53u8, 0x54u8, 0x55u8, 0x53u8, 0x41u8, 0x42u8, 0x3au8]
}

/// The jurisdiction code of a line `STUSAB: XX`, in lower case.
pub open spec fn jurisdiction_of(line: Seq<u8>) -> Option<Seq<u8>> {
    let rest = trim(line.skip(7));
    if line.len() >= 7 && line.take(7) == stusab_label() && rest.len() == 2 && is_upper(rest[0])
        && is_upper(rest[1]) {
        Some(seq![to_lower(rest[0]), to_lower(rest[1])])
    } else {
        None
    }
}

/// The jurisdiction code of the first jurisdiction line.
pub open spec fn find_jurisdiction(lines: Seq<Seq<u8>>) -> Option<Seq<u8>>
    decreases lines.len(),
{
    if lines.len() == 0 {
        None
    } else {
        match jurisdiction_of(lines[0]) {
            Some(code) => Some(code),
            None => find_jurisdiction(lines.drop_first()),
        }
    }
}

pub open spec fn is_word_byte(b: u8) -> bool {
    is_digit(b) || is_upper(b) || is_lower(b) || b == 0x5fu8
}

pub open spec fn is_extension_byte(b: u8) -> bool {
    is_digit(b) || is_lower(b) || b == 0x2du8
}

/// A file name of the dataset taken apart: identifier, year, extension.
/// `ak000012010.pl` gives `00001`, `2010`, `pl`; `akgeo2010.pl` gives `geo`.
pub open spec fn file_name_parts(word: Seq<u8>, stusab: Seq<u8>) -> Option<
    (Seq<u8>, Seq<u8>, Seq<u8>),
> {
    let parts = split_on(word, seq![0x2eu8]);
    let stem = parts[0];
    let ext = parts[1];
    if parts.len() >= 2 && stem.len() >= stusab.len() + 4 && stem.take(stusab.len() as int)
        == stusab && all_digits(stem.skip(stem.len() - 4)) && (forall|i: int|
        stusab.len() <= i < stem.len() - 4 ==> is_word_byte(#[trigger] stem[i])) && ext.len() > 0
        && (forall|i: int| 0 <= i < ext.len() ==> is_extension_byte(#[trigger] ext[i])) {
        Some((stem.subrange(stusab.len() as int, stem.len() - 4), stem.skip(stem.len() - 4), ext))
    } else {
        None
    }
}

/// The ASCII bytes of `2010`, `2020` and `pl`.
pub open spec fn year_2010() -> Seq<u8> {
    seq![0x32u8, 0x30u8, 0x31u8, 0x30u8]
}

pub open spec fn year_2020() -> Seq<u8> {
    seq![0x32u8, 0x30u8, 0x32u8, 0x30u8]
}

pub open spec fn extension_pl() -> Seq<u8> {
    seq![0x70u8, 0x6cu8]
}

/// The schema that a year and extension name.
pub open spec fn schema_of(year: Seq<u8>, ext: Seq<u8>) -> Option<Schema> {
    if year == year_2010() && ext == extension_pl() {
        Some(Schema::Census2010(census2010::Schema::Pl94_171))
    } else if year == year_2020() && ext == extension_pl() {
        Some(Schema::Census2020(census2020::Schema::Pl94_171))
    } else {
        None
    }
}

/// One word's effect on schema inference.
pub open spec fn infer_step(
    acc: Result<Option<Schema>, PackingListError>,
    word: Seq<u8>,
    stusab: Seq<u8>,
) -> Result<Option<Schema>, PackingListError> {
    match acc {
        Err(e) => Err(e),
        Ok(found) => match file_name_parts(word, stusab) {
            None => Ok(found),
            Some((_, year, ext)) => match schema_of(year, ext) {
                None => Err(PackingListError::UnsupportedSchema),
                Some(s) => match found {
                    None => Ok(Some(s)),
                    Some(t) => if t == s {
                        Ok(Some(t))
                    } else {
                        Err(PackingListError::ConflictingSchemas)
                    },
                },
            },
        },
    }
}

/// The schema that the file names among `words` agree on, so far.
pub open spec fn infer_schema(words: Seq<Seq<u8>>, stusab: Seq<u8>) -> Result<
    Option<Schema>,
    PackingListError,
>
    decreases words.len(),
{
    if words.len() == 0 {
        Ok(None)
    } else {
        infer_step(infer_schema(words.drop_last(), stusab), words.last(), stusab)
    }
}

/// The shape of a date field: `d` stands for a digit.
pub open spec fn date_pattern() -> Seq<u8> {
    seq![
        0x64u8, 0x64u8, 0x64u8, 0x64u8, 0x2du8, 0x64u8, 0x64u8, 0x2du8, 0x64u8, 0x64u8,
        0x20u8, 0x64u8, 0x64u8, 0x3au8, 0x64u8, 0x64u8, 0x3au8, 0x64u8, 0x64u8,
    ]
}

pub open spec fn is_date(s: Seq<u8>) -> bool {
    s.len() == date_pattern().len() && forall|i: int|
        0 <= i < s.len() ==> if date_pattern()[i] == 0x64u8 {
            is_digit(#[trigger] s[i])
        } else {
            s[i] == date_pattern()[i]
        }
}

pub open spec fn is_number(s: Seq<u8>) -> bool {
    s.len() > 0 && all_digits(s)
}

/// The identifier of the header file.
pub open spec fn geo_ident() -> Seq<u8> {
    seq![0x67u8, 0x65u8, 0x6fu8]
}

/// The role of a file with identifier `ident`.
pub open spec fn file_type_of(ident: Seq<u8>) -> Option<FileType> {
    if ident == geo_ident() {
        Some(FileType::GeographicalHeader)
    } else {
        match parse_decimal(ident) {
            Some(n) => if n <= u32::MAX {
                Some(FileType::Tabular(n as u32))
            } else {
                None
            },
            None => None,
        }
    }
}

/// A file-information line: `None` where the line is not one.
pub open spec fn file_information_of(line: Seq<u8>, stusab: Seq<u8>) -> Option<
    Result<FileModel, PackingListError>,
> {
    let f = split_on(line, seq![0x7cu8]);
    if f.len() == 5 && f[4].len() == 0 && is_date(f[1]) && is_number(f[2]) && is_number(f[3])
        && file_name_parts(f[0], stusab) is Some {
        let ident = file_name_parts(f[0], stusab)->Some_0.0;
        Some(
            match (file_type_of(ident), parse_decimal(f[2]), parse_decimal(f[3])) {
                (None, _, _) => Err(PackingListError::UnknownFileIdentifier),
                (Some(ty), Some(size), Some(rows)) => Ok(
                    FileModel { filename: f[0], date: f[1], size, rows, ty },
                ),
                _ => Err(PackingListError::MalformedNumber),
            },
        )
    } else {
        None
    }
}

pub open spec fn is_table_name_byte(b: u8) -> bool {
    is_digit(b) || is_lower(b)
}

pub open spec fn is_descriptor_byte(b: u8) -> bool {
    is_digit(b) || b == 0x3au8 || b == 0x20u8
}

/// One `file:width` chunk; chunks that are not one are passed over.
pub open spec fn specifier_of(chunk: Seq<u8>) -> Option<TableSegmentSpecifier> {
    let parts = split_on(chunk, seq![0x3au8]);
    if parts.len() == 2 {
        match (parse_decimal(parts[0]), parse_decimal(parts[1])) {
            (Some(file), Some(columns)) => if file <= u32::MAX && columns <= usize::MAX {
                Some(TableSegmentSpecifier { file: file as u32, columns: columns as usize })
            } else {
                None
            },
            _ => None,
        }
    } else {
        None
    }
}

/// The specifiers among the chunks, in order.
pub open spec fn specifiers_of(chunks: Seq<Seq<u8>>) -> Seq<TableSegmentSpecifier>
    decreases chunks.len(),
{
    if chunks.len() == 0 {
        Seq::empty()
    } else {
        match specifier_of(chunks.last()) {
            Some(s) => specifiers_of(chunks.drop_last()).push(s),
            None => specifiers_of(chunks.drop_last()),
        }
    }
}

/// A data-segmentation line: its table name and its specifiers.
pub open spec fn segmentation_of(line: Seq<u8>) -> Option<(Seq<u8>, Seq<TableSegmentSpecifier>)> {
    let f = split_on(line, seq![0x7cu8]);
    if f.len() == 3 && f[2].len() == 0 && f[0].len() > 0 && (forall|i: int|
        0 <= i < f[0].len() ==> is_table_name_byte(#[trigger] f[0][i])) && (forall|i: int|
        0 <= i < f[1].len() ==> is_descriptor_byte(#[trigger] f[1][i])) {
        Some((f[0], specifiers_of(split_on(f[1], seq![0x20u8]))))
    } else {
        None
    }
}

/// The table a name denotes under a schema.
pub open spec fn table_of(schema: Schema, name: Seq<u8>) -> Option<Table> {
    let p1 = seq![0x70u8, 0x31u8];
    let p2 = seq![0x70u8, 0x32u8];
    let p3 = seq![0x70u8, 0x33u8];
    let p4 = seq![0x70u8, 0x34u8];
    let p5 = seq![0x70u8, 0x35u8];
    let h1 = seq![0x68u8, 0x31u8];
    match schema {
        Schema::Census2010(census2010::Schema::Pl94_171) => {
            let t = if name == p1 {
                Some(census2010::pl94_171::Table::P1)
            } else if name == p2 {
                Some(census2010::pl94_171::Table::P2)
            } else if name == p3 {
                Some(census2010::pl94_171::Table::P3)
            } else if name == p4 {
                Some(census2010::pl94_171::Table::P4)
            } else if name == h1 {
                Some(census2010::pl94_171::Table::H1)
            } else {
                None
            };
            match t {
                Some(t) => Some(Table::Census2010(census2010::Table::Pl94_171(t))),
                None => None,
            }
        },
        Schema::Census2020(census2020::Schema::Pl94_171) => {
            let t = if name == p1 {
                Some(census2020::pl94_171::Table::P1)
            } else if name == p2 {
                Some(census2020::pl94_171::Table::P2)
            } else if name == p3 {
                Some(census2020::pl94_171::Table::P3)
            } else if name == p4 {
                Some(census2020::pl94_171::Table::P4)
            } else if name == p5 {
                Some(census2020::pl94_171::Table::P5)
            } else if name == h1 {
                Some(census2020::pl94_171::Table::H1)
            } else {
                None
            };
            match t {
                Some(t) => Some(Table::Census2020(census2020::Table::Pl94_171(t))),
                None => None,
            }
        },
    }
}

/// The next free column of a file.
pub open spec fn cursor_of(cursors: Map<u32, usize>, file: u32) -> usize {
    if cursors.contains_key(file) {
        cursors[file]
    } else {
        FIRST_TABLE_COLUMN
    }
}

/// Specifiers resolved to columns, each file's cursor advancing by the width
/// of each of its segments; `None` where a column runs past `usize::MAX`.
pub open spec fn resolve(cursors: Map<u32, usize>, specs: Seq<TableSegmentSpecifier>) -> Option<
    (Map<u32, usize>, Seq<TableSegmentLocation>),
>
    decreases specs.len(),
{
    if specs.len() == 0 {
        Some((cursors, Seq::empty()))
    } else {
        match resolve(cursors, specs.drop_last()) {
            None => None,
            Some((c, locations)) => {
                let s = specs.last();
                let start = cursor_of(c, s.file);
                if start + s.columns > usize::MAX {
                    None
                } else {
                    let end = (start + s.columns) as usize;
                    Some(
                        (
                            c.insert(s.file, end),
                            locations.push(TableSegmentLocation { file: s.file, start, end }),
                        ),
                    )
                }
            },
        }
    }
}

/// What the lines read so far have declared.
pub struct Declarations {
    pub files: Seq<FileModel>,
    pub tables: Seq<(Table, Seq<TableSegmentLocation>)>,
    pub cursors: Map<u32, usize>,
}

/// One line's effect on the declarations.
pub open spec fn scan_step(
    acc: Result<Declarations, PackingListError>,
    line: Seq<u8>,
    stusab: Seq<u8>,
    schema: Schema,
) -> Result<Declarations, PackingListError> {
    match acc {
        Err(e) => Err(e),
        Ok(d) => match file_information_of(line, stusab) {
            Some(Err(e)) => Err(e),
            Some(Ok(f)) => Ok(Declarations { files: d.files.push(f), ..d }),
            None => match segmentation_of(line) {
                None => Ok(d),
                Some((name, specs)) => match table_of(schema, name) {
                    None => Err(PackingListError::UnknownTable),
                    Some(t) => match resolve(d.cursors, specs) {
                        None => Err(PackingListError::ColumnOverflow),
                        Some((c, locations)) => Ok(
                            Declarations { tables: d.tables.push((t, locations)), cursors: c, ..d },
                        ),
                    },
                },
            },
        },
    }
}

/// The declarations of the lines, in order.
pub open spec fn scan(lines: Seq<Seq<u8>>, stusab: Seq<u8>, schema: Schema) -> Result<
    Declarations,
    PackingListError,
>
    decreases lines.len(),
{
    if lines.len() == 0 {
        Ok(Declarations { files: Seq::empty(), tables: Seq::empty(), cursors: Map::empty() })
    } else {
        scan_step(scan(lines.drop_last(), stusab, schema), lines.last(), stusab, schema)
    }
}

/// Position of the first header file.
pub open spec fn first_header(files: Seq<FileModel>) -> Option<int>
    decreases files.len(),
{
    if files.len() == 0 {
        None
    } else if files[0].ty == FileType::GeographicalHeader {
        Some(0)
    } else {
        match first_header(files.drop_first()) {
            Some(i) => Some(i + 1),
            None => None,
        }
    }
}

/// The packing list that a manifest text describes.
pub open spec fn spec_parse(text: Seq<u8>) -> Result<PackingListModel, PackingListError> {
    match find_jurisdiction(spec_lines(text)) {
        None => Err(PackingListError::MissingJurisdiction),
        Some(stusab) => match infer_schema(spec_words(text), stusab) {
            Err(e) => Err(e),
            Ok(None) => Err(PackingListError::NoSchema),
            Ok(Some(schema)) => match scan(spec_lines(text), stusab, schema) {
                Err(e) => Err(e),
                Ok(d) => match first_header(d.files) {
                    None => Err(PackingListError::MissingHeaderFile),
                    Some(h) => Ok(
                        PackingListModel { schema, stusab, files: d.files, tables: d.tables, header: h },
                    ),
                },
            },
        },
    }
}

// ---------------------------------------------------------------------------
// The parser.
// ---------------------------------------------------------------------------

/// Kinds of byte that a field may be made of.
enum ByteClass {
    Digit,
    Word,
    Extension,
    TableName,
    Descriptor,
}

spec fn in_class(c: ByteClass, b: u8) -> bool {
    match c {
        ByteClass::Digit => is_digit(b),
        ByteClass::Word => is_word_byte(b),
        ByteClass::Extension => is_extension_byte(b),
        ByteClass::TableName => is_table_name_byte(b),
        ByteClass::Descriptor => is_descriptor_byte(b),
    }
}

fn byte_in_class(c: &ByteClass, b: u8) -> (r: bool)
    ensures
        r == in_class(*c, b),
{
    let digit = 0x30u8 <= b && b <= 0x39u8;
    let lower = 0x61u8 <= b && b <= 0x7au8;
    let upper = 0x41u8 <= b && b <= 0x5au8;
    match c {
        ByteClass::Digit => digit,
        ByteClass::Word => digit || lower || upper || b == 0x5fu8,
        ByteClass::Extension => digit || lower || b == 0x2du8,
        ByteClass::TableName => digit || lower,
        ByteClass::Descriptor => digit || b == 0x3au8 || b == 0x20u8,
    }
}

/// Whether every byte of `s` is of class `c`.
fn all_in_class(s: &[u8], c: ByteClass) -> (r: bool)
    ensures
        r == (forall|i: int| 0 <= i < s@.len() ==> in_class(c, #[trigger] s@[i])),
{
    let mut i: usize = 0;
    while i < s.len()
        invariant
            i <= s@.len(),
            forall|k: int| 0 <= k < i ==> in_class(c, #[trigger] s@[k]),
        decreases s@.len() - i,
    {
        if !byte_in_class(&c, s[i]) {
            return false;
        }
        i = i + 1;
    }
    true
}

fn is_upper_byte(b: u8) -> (r: bool)
    ensures
        r == is_upper(b),
{
    0x41u8 <= b && b <= 0x5au8
}

/// The jurisdiction code of a line `STUSAB: XX`, in lower case.
fn jurisdiction(line: &[u8]) -> (r: Option<Vec<u8>>)
    ensures
        match r {
            Some(code) => jurisdiction_of(line@) == Some(code@),
            None => jurisdiction_of(line@) is None,
        },
{
    let label: [u8; 7] = [0x53u8, 0x54u8, 0x55u8, 0x53u8, 0x41u8, 0x42u8, 0x3au8];
    assert(label@ =~= stusab_label());
    if line.len() < 7 {
        return None;
    }
    assert(line@.subrange(0, 7) =~= line@.take(7));
    if !bytes_eq(&line[0..7], label.as_slice()) {
        return None;
    }
    assert(line@.subrange(7, line@.len() as int) =~= line@.skip(7));
    let rest = trimmed(&line[7..line.len()]);
    if rest.len() == 2 && is_upper_byte(rest[0]) && is_upper_byte(rest[1]) {
        let mut code: Vec<u8> = Vec::new();
        code.push(rest[0] + 0x20u8);
        code.push(rest[1] + 0x20u8);
        assert(code@ =~= seq![to_lower(rest@[0]), to_lower(rest@[1])]);
        Some(code)
    } else {
        None
    }
}

/// A file name of the dataset taken apart: identifier, year, extension.
fn name_parts(word: &[u8], stusab: &[u8]) -> (r: Option<(Vec<u8>, Vec<u8>, Vec<u8>)>)
    ensures
        match r {
            Some((ident, year, ext)) => file_name_parts(word@, stusab@) == Some(
                (ident@, year@, ext@),
            ),
            None => file_name_parts(word@, stusab@) is None,
        },
{
    let dot: [u8; 1] = [0x2eu8];
    assert(dot@ =~= seq![0x2eu8]);
    let parts = split(word, dot.as_slice());
    let ghost pv = parts@.map_values(|p: Vec<u8>| p@);
    proof {
        lemma_split_on_nonempty(word@, seq![0x2eu8]);
    }
    if parts.len() < 2 {
        return None;
    }
    let stem = parts[0].as_slice();
    let ext = parts[1].as_slice();
    assert(stem@ == pv[0]);
    assert(ext@ == pv[1]);
    let n = stusab.len();
    if stem.len() < 4 || stem.len() - 4 < n {
        return None;
    }
    let y = stem.len() - 4;
    assert(stem@.subrange(0, n as int) =~= stem@.take(n as int));
    if !bytes_eq(&stem[0..n], stusab) {
        return None;
    }
    let year = &stem[y..stem.len()];
    assert(year@ =~= stem@.skip(y as int));
    let ident = &stem[n..y];
    let digits = all_in_class(year, ByteClass::Digit);
    let words = all_in_class(ident, ByteClass::Word);
    let exts = all_in_class(ext, ByteClass::Extension);
    proof {
        if words {
            assert forall|i: int| n <= i < stem@.len() - 4 implies is_word_byte(
                #[trigger] stem@[i],
            ) by {
                assert(ident@[i - n] == stem@[i]);
            }
        } else {
            let k = choose|k: int| 0 <= k < ident@.len() && !in_class(ByteClass::Word, ident@[k]);
            assert(stem@[k + n] == ident@[k]);
        }
        if !digits {
            let k = choose|k: int| 0 <= k < year@.len() && !in_class(ByteClass::Digit, year@[k]);
            assert(!is_digit(year@[k]));
        }
        if !exts {
            let k = choose|k: int| 0 <= k < ext@.len() && !in_class(ByteClass::Extension, ext@[k]);
            assert(!is_extension_byte(ext@[k]));
        }
    }
    if digits && words && ext.len() > 0 && exts {
        Some((copy_range(ident, 0, ident.len()), copy_range(year, 0, 4), copy_range(ext, 0, ext.len())))
    } else {
        None
    }
}

/// The schema that a year and extension name.
fn schema_named(year: &[u8], ext: &[u8]) -> (r: Option<Schema>)
    ensures
        r == schema_of(year@, ext@),
{
    let y2010: [u8; 4] = [0x32u8, 0x30u8, 0x31u8, 0x30u8];
    let y2020: [u8; 4] = [0x32u8, 0x30u8, 0x32u8, 0x30u8];
    let pl: [u8; 2] = [0x70u8, 0x6cu8];
    assert(y2010@ =~= year_2010());
    assert(y2020@ =~= year_2020());
    assert(pl@ =~= extension_pl());
    if bytes_eq(year, y2010.as_slice()) && bytes_eq(ext, pl.as_slice()) {
        Some(Schema::Census2010(census2010::Schema::Pl94_171))
    } else if bytes_eq(year, y2020.as_slice()) && bytes_eq(ext, pl.as_slice()) {
        Some(Schema::Census2020(census2020::Schema::Pl94_171))
    } else {
        None
    }
}

/// The one schema that the file names among `words` agree on.
fn schema_of_words(words: &Vec<Vec<u8>>, stusab: &[u8]) -> (r: Result<Option<Schema>, PackingListError>)
    ensures
        r == infer_schema(words@.map_values(|w: Vec<u8>| w@), stusab@),
{
    let ghost wv = words@.map_values(|w: Vec<u8>| w@);
    let mut acc: Result<Option<Schema>, PackingListError> = Ok(None);
    let mut i: usize = 0;
    assert(wv.take(0) =~= Seq::<Seq<u8>>::empty());
    while i < words.len()
        invariant
            i <= words@.len(),
            wv == words@.map_values(|w: Vec<u8>| w@),
            acc == infer_schema(wv.take(i as int), stusab@),
        decreases words@.len() - i,
    {
        proof {
            assert(wv.take(i + 1).drop_last() =~= wv.take(i as int));
            assert(wv.take(i + 1).last() == words@[i as int]@);
        }
        if let Ok(found) = acc {
            match name_parts(words[i].as_slice(), stusab) {
                None => {},
                Some((_, year, ext)) => match schema_named(year.as_slice(), ext.as_slice()) {
                    None => {
                        acc = Err(PackingListError::UnsupportedSchema);
                    },
                    Some(s) => match found {
                        None => {
                            acc = Ok(Some(s));
                        },
                        Some(t) => {
                            if t != s {
                                acc = Err(PackingListError::ConflictingSchemas);
                            }
                        },
                    },
                },
            }
        }
        i = i + 1;
    }
    assert(wv.take(i as int) =~= wv);
    acc
}

/// Whether `s` has the shape `YYYY-MM-DD hh:mm:ss`.
fn date_shaped(s: &[u8]) -> (r: bool)
    ensures
        r == is_date(s@),
{
    let pattern: [u8; 19] = [
        0x64u8, 0x64u8, 0x64u8, 0x64u8, 0x2du8, 0x64u8, 0x64u8, 0x2du8, 0x64u8, 0x64u8,
        0x20u8, 0x64u8, 0x64u8, 0x3au8, 0x64u8, 0x64u8, 0x3au8, 0x64u8, 0x64u8,
    ];
    assert(pattern@ =~= date_pattern());
    if s.len() != 19 {
        return false;
    }
    let mut i: usize = 0;
    while i < 19
        invariant
            i <= 19,
            s@.len() == 19,
            pattern@ == date_pattern(),
            forall|k: int|
                0 <= k < i ==> if date_pattern()[k] == 0x64u8 {
                    is_digit(#[trigger] s@[k])
                } else {
                    s@[k] == date_pattern()[k]
                },
        decreases 19 - i,
    {
        let p = pattern[i];
        let b = s[i];
        if p == 0x64u8 {
            if !(0x30u8 <= b && b <= 0x39u8) {
                assert(!is_digit(s@[i as int]));
                return false;
            }
        } else if b != p {
            return false;
        }
        i = i + 1;
    }
    true
}

fn number_shaped(s: &[u8]) -> (r: bool)
    ensures
        r == is_number(s@),
{
    let digits = all_in_class(s, ByteClass::Digit);
    proof {
        if !digits {
            let k = choose|k: int| 0 <= k < s@.len() && !in_class(ByteClass::Digit, s@[k]);
            assert(!is_digit(s@[k]));
        }
    }
    s.len() > 0 && digits
}

/// The role of a file with identifier `ident`.
fn file_type_named(ident: &[u8]) -> (r: Option<FileType>)
    ensures
        r == file_type_of(ident@),
{
    let geo: [u8; 3] = [0x67u8, 0x65u8, 0x6fu8];
    assert(geo@ =~= geo_ident());
    if bytes_eq(ident, geo.as_slice()) {
        Some(FileType::GeographicalHeader)
    } else {
        match parse_u64(ident) {
            Some(n) => if n <= u32::MAX as u64 {
                Some(FileType::Tabular(n as u32))
            } else {
                None
            },
            None => None,
        }
    }
}

/// A file-information line: `None` where the line is not one.
fn file_information(line: &[u8], stusab: &[u8]) -> (r: Option<Result<FileInformation, PackingListError>>)
    ensures
        match r {
            None => file_information_of(line@, stusab@) is None,
            Some(Ok(f)) => file_information_of(line@, stusab@) == Some(Ok::<FileModel, PackingListError>(f@)),
            Some(Err(e)) => file_information_of(line@, stusab@) == Some(Err::<FileModel, PackingListError>(e)),
        },
{
    let pipe: [u8; 1] = [0x7cu8];
    assert(pipe@ =~= seq![0x7cu8]);
    let f = split(line, pipe.as_slice());
    let ghost fv = f@.map_values(|p: Vec<u8>| p@);
    if f.len() != 5 {
        return None;
    }
    assert(fv[0] == f@[0]@ && fv[1] == f@[1]@ && fv[2] == f@[2]@ && fv[3] == f@[3]@);
    assert(fv[4] == f@[4]@);
    if f[4].len() != 0 {
        return None;
    }
    if !date_shaped(f[1].as_slice()) || !number_shaped(f[2].as_slice()) || !number_shaped(
        f[3].as_slice(),
    ) {
        return None;
    }
    match name_parts(f[0].as_slice(), stusab) {
        None => None,
        Some((ident, _, _)) => {
            let ty = file_type_named(ident.as_slice());
            let size = parse_u64(f[2].as_slice());
            let rows = parse_u64(f[3].as_slice());
            match ty {
                None => Some(Err(PackingListError::UnknownFileIdentifier)),
                Some(ty) => match (size, rows) {
                    (Some(size), Some(rows)) => {
                        let filename = copy_range(f[0].as_slice(), 0, f[0].len());
                        let date = copy_range(f[1].as_slice(), 0, f[1].len());
                        assert(filename@ =~= fv[0]);
                        assert(date@ =~= fv[1]);
                        Some(Ok(FileInformation { filename, date, size, rows, ty }))
                    },
                    _ => Some(Err(PackingListError::MalformedNumber)),
                },
            }
        },
    }
}

/// One `file:width` chunk.
fn specifier(chunk: &[u8]) -> (r: Option<TableSegmentSpecifier>)
    ensures
        r == specifier_of(chunk@),
{
    let colon: [u8; 1] = [0x3au8];
    assert(colon@ =~= seq![0x3au8]);
    let parts = split(chunk, colon.as_slice());
    let ghost pv = parts@.map_values(|p: Vec<u8>| p@);
    if parts.len() != 2 {
        return None;
    }
    assert(pv[0] == parts@[0]@ && pv[1] == parts@[1]@);
    match (parse_u64(parts[0].as_slice()), parse_u64(parts[1].as_slice())) {
        (Some(file), Some(columns)) => if file <= u32::MAX as u64 && columns <= usize::MAX as u64 {
            Some(TableSegmentSpecifier { file: file as u32, columns: columns as usize })
        } else {
            None
        },
        _ => None,
    }
}

/// The specifiers among the space-separated chunks of `field`.
fn specifiers(field: &[u8]) -> (r: Vec<TableSegmentSpecifier>)
    ensures
        r@ == specifiers_of(split_on(field@, seq![0x20u8])),
{
    let space: [u8; 1] = [0x20u8];
    assert(space@ =~= seq![0x20u8]);
    let chunks = split(field, space.as_slice());
    let ghost cv = chunks@.map_values(|p: Vec<u8>| p@);
    let mut r: Vec<TableSegmentSpecifier> = Vec::new();
    let mut i: usize = 0;
    assert(cv.take(0) =~= Seq::<Seq<u8>>::empty());
    while i < chunks.len()
        invariant
            i <= chunks@.len(),
            cv == chunks@.map_values(|p: Vec<u8>| p@),
            r@ == specifiers_of(cv.take(i as int)),
        decreases chunks@.len() - i,
    {
        proof {
            assert(cv.take(i + 1).drop_last() =~= cv.take(i as int));
            assert(cv.take(i + 1).last() == chunks@[i as int]@);
        }
        match specifier(chunks[i].as_slice()) {
            Some(s) => r.push(s),
            None => {},
        }
        i = i + 1;
    }
    assert(cv.take(i as int) =~= cv);
    r
}

/// A data-segmentation line: its table name and its specifiers.
fn segmentation(line: &[u8]) -> (r: Option<(Vec<u8>, Vec<TableSegmentSpecifier>)>)
    ensures
        match r {
            Some((name, specs)) => segmentation_of(line@) == Some((name@, specs@)),
            None => segmentation_of(line@) is None,
        },
{
    let pipe: [u8; 1] = [0x7cu8];
    assert(pipe@ =~= seq![0x7cu8]);
    let f = split(line, pipe.as_slice());
    let ghost fv = f@.map_values(|p: Vec<u8>| p@);
    if f.len() != 3 || f[2].len() != 0 || f[0].len() == 0 {
        return None;
    }
    assert(fv[0] == f@[0]@ && fv[1] == f@[1]@ && fv[2] == f@[2]@);
    let names = all_in_class(f[0].as_slice(), ByteClass::TableName);
    let descriptors = all_in_class(f[1].as_slice(), ByteClass::Descriptor);
    proof {
        if !names {
            let k = choose|k: int| 0 <= k < fv[0].len() && !in_class(ByteClass::TableName, fv[0][k]);
            assert(!is_table_name_byte(fv[0][k]));
        }
        if !descriptors {
            let k = choose|k: int| 0 <= k < fv[1].len() && !in_class(ByteClass::Descriptor, fv[1][k]);
            assert(!is_descriptor_byte(fv[1][k]));
        }
    }
    if !names || !descriptors {
        return None;
    }
    let name = copy_range(f[0].as_slice(), 0, f[0].len());
    Some((name, specifiers(f[1].as_slice())))
}

fn two_bytes(s: &[u8], a: u8, b: u8) -> (r: bool)
    ensures
        r == (s@ == seq![a, b]),
{
    if s.len() == 2 && s[0] == a && s[1] == b {
        assert(s@ =~= seq![a, b]);
        true
    } else {
        proof {
            if s@ == seq![a, b] {
                assert(s@[0] == a && s@[1] == b);
            }
        }
        false
    }
}

/// The table a name denotes under a schema.
fn table_named(schema: Schema, name: &[u8]) -> (r: Option<Table>)
    ensures
        r == table_of(schema, name@),
{
    let p1 = two_bytes(name, 0x70u8, 0x31u8);
    let p2 = two_bytes(name, 0x70u8, 0x32u8);
    let p3 = two_bytes(name, 0x70u8, 0x33u8);
    let p4 = two_bytes(name, 0x70u8, 0x34u8);
    let p5 = two_bytes(name, 0x70u8, 0x35u8);
    let h1 = two_bytes(name, 0x68u8, 0x31u8);
    match schema {
        Schema::Census2010(census2010::Schema::Pl94_171) => {
            let t = if p1 {
                Some(census2010::pl94_171::Table::P1)
            } else if p2 {
                Some(census2010::pl94_171::Table::P2)
            } else if p3 {
                Some(census2010::pl94_171::Table::P3)
            } else if p4 {
                Some(census2010::pl94_171::Table::P4)
            } else if h1 {
                Some(census2010::pl94_171::Table::H1)
            } else {
                None
            };
            match t {
                Some(t) => Some(Table::Census2010(census2010::Table::Pl94_171(t))),
                None => None,
            }
        },
        Schema::Census2020(census2020::Schema::Pl94_171) => {
            let t = if p1 {
                Some(census2020::pl94_171::Table::P1)
            } else if p2 {
                Some(census2020::pl94_171::Table::P2)
            } else if p3 {
                Some(census2020::pl94_171::Table::P3)
            } else if p4 {
                Some(census2020::pl94_171::Table::P4)
            } else if p5 {
                Some(census2020::pl94_171::Table::P5)
            } else if h1 {
                Some(census2020::pl94_171::Table::H1)
            } else {
                None
            };
            match t {
                Some(t) => Some(Table::Census2020(census2020::Table::Pl94_171(t))),
                None => None,
            }
        },
    }
}

/// Resolves specifiers to columns, advancing the cursors of their files.
fn resolve_segments(cursors: &mut BTreeMap<u32, usize>, specs: &Vec<TableSegmentSpecifier>) -> (r:
    Option<Vec<TableSegmentLocation>>)
    ensures
        match (r, resolve(old(cursors)@, specs@)) {
            (Some(locations), Some((c, l))) => locations@ == l && final(cursors)@ == c,
            (None, None) => true,
            _ => false,
        },
{
    broadcast use vstd::std_specs::btree::group_btree_axioms;
    broadcast use vstd::laws_cmp::group_laws_cmp;

    let mut locations: Vec<TableSegmentLocation> = Vec::new();
    let mut i: usize = 0;
    assert(specs@.take(0) =~= Seq::<TableSegmentSpecifier>::empty());
    while i < specs.len()
        invariant
            i <= specs@.len(),
            resolve(old(cursors)@, specs@.take(i as int)) == Some((cursors@, locations@)),
        decreases specs@.len() - i,
    {
        let s = specs[i];
        proof {
            assert(specs@.take(i + 1).drop_last() =~= specs@.take(i as int));
            assert(specs@.take(i + 1).last() == s);
        }
        let start: usize = match cursors.get(&s.file) {
            Some(c) => *c,
            None => FIRST_TABLE_COLUMN,
        };
        if start > usize::MAX - s.columns {
            proof {
                assert(resolve(old(cursors)@, specs@.take(i + 1)) is None);
                lemma_resolve_none_sticks(old(cursors)@, specs@, i + 1);
                assert(specs@.take(specs@.len() as int) =~= specs@);
            }
            return None;
        }
        let end = start + s.columns;
        cursors.insert(s.file, end);
        locations.push(TableSegmentLocation { file: s.file, start, end });
        i = i + 1;
    }
    assert(specs@.take(i as int) =~= specs@);
    Some(locations)
}

proof fn lemma_resolve_none_sticks(cursors: Map<u32, usize>, specs: Seq<TableSegmentSpecifier>, i: int)
    requires
        0 <= i <= specs.len(),
        resolve(cursors, specs.take(i)) is None,
    ensures
        resolve(cursors, specs.take(specs.len() as int)) is None,
    decreases specs.len() - i,
{
    if i < specs.len() {
        assert(specs.take(i + 1).drop_last() =~= specs.take(i));
        lemma_resolve_none_sticks(cursors, specs, i + 1);
    }
}

/// The jurisdiction code of the first line that declares one.
fn first_jurisdiction(lines: &Vec<Vec<u8>>) -> (r: Option<Vec<u8>>)
    ensures
        match r {
            Some(code) => find_jurisdiction(lines@.map_values(|l: Vec<u8>| l@)) == Some(code@),
            None => find_jurisdiction(lines@.map_values(|l: Vec<u8>| l@)) is None,
        },
{
    let ghost lv = lines@.map_values(|l: Vec<u8>| l@);
    let mut i: usize = 0;
    assert(lv.skip(0) =~= lv);
    while i < lines.len()
        invariant
            i <= lines@.len(),
            lv == lines@.map_values(|l: Vec<u8>| l@),
            find_jurisdiction(lv) == find_jurisdiction(lv.skip(i as int)),
        decreases lines@.len() - i,
    {
        let found = jurisdiction(lines[i].as_slice());
        proof {
            assert(lv.skip(i as int)[0] == lines@[i as int]@);
            assert(lv.skip(i as int).drop_first() =~= lv.skip(i + 1));
        }
        if found.is_some() {
            return found;
        }
        i = i + 1;
    }
    assert(lv.skip(i as int) =~= Seq::<Seq<u8>>::empty());
    None
}

proof fn lemma_first_header(files: Seq<FileModel>, i: int)
    requires
        0 <= i <= files.len(),
        forall|k: int| 0 <= k < i ==> files[k].ty != FileType::GeographicalHeader,
    ensures
        i < files.len() && files[i].ty == FileType::GeographicalHeader ==> first_header(files)
            == Some(i),
        i == files.len() ==> first_header(files) is None,
    decreases i,
{
    if i > 0 {
        let rest = files.drop_first();
        assert forall|k: int| 0 <= k < i - 1 implies rest[k].ty != FileType::GeographicalHeader by {
            assert(rest[k] == files[k + 1]);
        }
        lemma_first_header(rest, i - 1);
        if i < files.len() {
            assert(rest[i - 1] == files[i]);
        }
    }
}

/// A parsed packing list: the schema, the physical files and where each
/// table's columns lie in them.
pub struct PackingList {
    schema: Schema,
    stusab: Vec<u8>,
    files: Vec<FileInformation>,
    tables: Vec<TableLocations>,
    header: usize,
}

impl View for PackingList {
    type V = PackingListModel;

    closed spec fn view(&self) -> PackingListModel {
        PackingListModel {
            schema: self.schema,
            stusab: self.stusab@,
            files: self.files@.map_values(|f: FileInformation| f@),
            tables: self.tables@.map_values(|t: TableLocations| t@),
            header: self.header as int,
        }
    }
}

impl PackingList {
    /// The header position names a listed header file.
    pub closed spec fn wf(&self) -> bool {
        &&& self.header < self.files@.len()
        &&& self.files@[self.header as int].ty == FileType::GeographicalHeader
    }

    /// Reads a manifest text.
    pub fn parse(text: &[u8]) -> (r: Result<PackingList, PackingListError>)
        ensures
            match r {
                Ok(pl) => spec_parse(text@) == Ok::<PackingListModel, PackingListError>(pl@)
                    && pl.wf(),
                Err(e) => spec_parse(text@) == Err::<PackingListModel, PackingListError>(e),
            },
    {
        let line_ends: [u8; 2] = [0x0au8, 0x0du8];
        assert(line_ends@ =~= seq![0x0au8, 0x0du8]);
        let lines = split(text, line_ends.as_slice());
        let ghost lv = lines@.map_values(|l: Vec<u8>| l@);

        // The jurisdiction: the first line that declares one.
        let stusab = match first_jurisdiction(&lines) {
            Some(code) => code,
            None => return Err(PackingListError::MissingJurisdiction),
        };
        assert(find_jurisdiction(lv) == Some(stusab@));

        // The schema, from the file names among the words of the text.
        let separators: [u8; 5] = [0x20u8, 0x09u8, 0x0au8, 0x0du8, 0x7cu8];
        assert(separators@ =~= word_separators());
        let words = split(text, separators.as_slice());
        let schema = match schema_of_words(&words, stusab.as_slice()) {
            Err(e) => return Err(e),
            Ok(None) => return Err(PackingListError::NoSchema),
            Ok(Some(schema)) => schema,
        };

        // The file-information and data-segmentation lines, in order.
        let mut files: Vec<FileInformation> = Vec::new();
        let mut tables: Vec<TableLocations> = Vec::new();
        let mut cursors: BTreeMap<u32, usize> = BTreeMap::new();
        let mut failure: Option<PackingListError> = None;
        let mut j: usize = 0;
        assert(lv.take(0) =~= Seq::<Seq<u8>>::empty());
        assert(files@.map_values(|f: FileInformation| f@) =~= Seq::<FileModel>::empty());
        assert(tables@.map_values(|t: TableLocations| t@) =~= Seq::<(Table, Seq<TableSegmentLocation>)>::empty());
        while j < lines.len()
            invariant
                j <= lines@.len(),
                lv == lines@.map_values(|l: Vec<u8>| l@),
                match failure {
                    Some(e) => scan(lv.take(j as int), stusab@, schema) == Err::<
                        Declarations,
                        PackingListError,
                    >(e),
                    None => scan(lv.take(j as int), stusab@, schema) == Ok::<
                        Declarations,
                        PackingListError,
                    >(
                        Declarations {
                            files: files@.map_values(|f: FileInformation| f@),
                            tables: tables@.map_values(|t: TableLocations| t@),
                            cursors: cursors@,
                        },
                    ),
                },
            decreases lines@.len() - j,
        {
            proof {
                assert(lv.take(j + 1).drop_last() =~= lv.take(j as int));
                assert(lv.take(j + 1).last() == lines@[j as int]@);
            }
            if failure.is_none() {
                let line = lines[j].as_slice();
                match file_information(line, stusab.as_slice()) {
                    Some(Err(e)) => {
                        failure = Some(e);
                    },
                    Some(Ok(f)) => {
                        let ghost before = files@;
                        files.push(f);
                        proof {
                            assert(files@.map_values(|f: FileInformation| f@) =~= before.map_values(
                                |f: FileInformation| f@,
                            ).push(f@));
                        }
                    },
                    None => match segmentation(line) {
                        None => {},
                        Some((name, specs)) => match table_named(schema, name.as_slice()) {
                            None => {
                                failure = Some(PackingListError::UnknownTable);
                            },
                            Some(table) => match resolve_segments(&mut cursors, &specs) {
                                None => {
                                    failure = Some(PackingListError::ColumnOverflow);
                                },
                                Some(locations) => {
                                    let ghost before = tables@;
                                    let t = TableLocations { table, locations };
                                    tables.push(t);
                                    proof {
                                        assert(tables@.map_values(|t: TableLocations| t@)
                                            =~= before.map_values(|t: TableLocations| t@).push(
                                            t@,
                                        ));
                                    }
                                },
                            },
                        },
                    },
                }
            }
            j = j + 1;
        }
        assert(lv.take(j as int) =~= lv);
        if let Some(e) = failure {
            return Err(e);
        }

        // The header file: the first one listed.
        let ghost fv = files@.map_values(|f: FileInformation| f@);
        let mut h: usize = 0;
        while h < files.len()
            invariant
                h <= files@.len(),
                fv == files@.map_values(|f: FileInformation| f@),
                forall|k: int| 0 <= k < h ==> fv[k].ty != FileType::GeographicalHeader,
            ensures
                h <= files@.len(),
                forall|k: int| 0 <= k < h ==> fv[k].ty != FileType::GeographicalHeader,
                h < files@.len() ==> files@[h as int].ty == FileType::GeographicalHeader,
            decreases files@.len() - h,
        {
            if files[h].ty == FileType::GeographicalHeader {
                break;
            }
            assert(fv[h as int].ty == files@[h as int].ty);
            h = h + 1;
        }
        proof {
            lemma_first_header(fv, h as int);
        }
        if h == files.len() {
            return Err(PackingListError::MissingHeaderFile);
        }
        assert(fv[h as int].ty == files@[h as int].ty);
        Ok(PackingList { schema, stusab, files, tables, header: h })
    }

    /// The schema the file names declare.
    pub fn schema(&self) -> (r: Schema)
        ensures
            r == self@.schema,
    {
        self.schema
    }

    /// The jurisdiction code, in lower case.
    pub fn stusab(&self) -> (r: &[u8])
        ensures
            r@ == self@.stusab,
    {
        self.stusab.as_slice()
    }

    /// The file-information lines, in order.
    pub fn files(&self) -> (r: &Vec<FileInformation>)
        ensures
            r@.map_values(|f: FileInformation| f@) == self@.files,
    {
        &self.files
    }

    /// The data-segmentation lines, in order, resolved to columns.
    pub fn tables(&self) -> (r: &Vec<TableLocations>)
        ensures
            r@.map_values(|t: TableLocations| t@) == self@.tables,
    {
        &self.tables
    }

    /// The name of the geographic header file.
    pub fn header_file(&self) -> (r: &[u8])
        requires
            self.wf(),
        ensures
            r@ == self@.files[self@.header].filename,
    {
        self.files[self.header].filename.as_slice()
    }

    /// The declared row count of the header file.
    pub fn rows(&self) -> (r: u64)
        requires
            self.wf(),
        ensures
            r == self@.files[self@.header].rows,
    {
        self.files[self.header].rows
    }

    /// The segments of `table` as its last declaration gives them.
    pub fn table_locations(&self, table: Table) -> (r: Option<&Vec<TableSegmentLocation>>)
        ensures
            match r {
                Some(l) => exists|i: int|
                    0 <= i < self@.tables.len() && self@.tables[i] == (table, l@) && forall|k: int|
                        i < k < self@.tables.len() ==> self@.tables[k].0 != table,
                None => forall|k: int| 0 <= k < self@.tables.len() ==> self@.tables[k].0 != table,
            },
    {
        let ghost tv = self.tables@.map_values(|t: TableLocations| t@);
        let mut i: usize = self.tables.len();
        while i > 0
            invariant
                i <= self.tables@.len(),
                tv == self.tables@.map_values(|t: TableLocations| t@),
                tv == self@.tables,
                forall|k: int| i <= k < tv.len() ==> tv[k].0 != table,
            decreases i,
        {
            i = i - 1;
            assert(tv[i as int] == self.tables@[i as int]@);
            if self.tables[i].table == table {
                return Some(&self.tables[i].locations);
            }
        }
        None
    }
}

/// The files that segments lie in, each once, in order of first appearance.
pub open spec fn distinct_files(locations: Seq<TableSegmentLocation>) -> Seq<u32>
    decreases locations.len(),
{
    if locations.len() == 0 {
        Seq::empty()
    } else {
        let init = distinct_files(locations.drop_last());
        if init.contains(locations.last().file) {
            init
        } else {
            init.push(locations.last().file)
        }
    }
}

/// The files that segments lie in, each once, in order of first appearance.
pub fn segment_files(locations: &[TableSegmentLocation]) -> (r: Vec<u32>)
    ensures
        r@ == distinct_files(locations@),
{
    let mut files: Vec<u32> = Vec::new();
    let mut i: usize = 0;
    assert(locations@.take(0) =~= Seq::<TableSegmentLocation>::empty());
    while i < locations.len()
        invariant
            i <= locations@.len(),
            files@ == distinct_files(locations@.take(i as int)),
        decreases locations@.len() - i,
    {
        let f = locations[i].file;
        proof {
            assert(locations@.take(i + 1).drop_last() =~= locations@.take(i as int));
            assert(locations@.take(i + 1).last() == locations@[i as int]);
        }
        let mut seen = false;
        let mut k: usize = 0;
        while k < files.len()
            invariant
                k <= files@.len(),
                seen <==> exists|j: int| 0 <= j < k && files@[j] == f,
            decreases files@.len() - k,
        {
            if files[k] == f {
                seen = true;
            }
            k = k + 1;
        }
        if !seen {
            files.push(f);
        }
        i = i + 1;
    }
    assert(locations@.take(i as int) =~= locations@);
    files
}

// ---------------------------------------------------------------------------
// What a parsed packing list keeps of the text.
// ---------------------------------------------------------------------------

/// The file-information lines among `lines`, as read, in order.
pub open spec fn declared_files(lines: Seq<Seq<u8>>, stusab: Seq<u8>) -> Seq<FileModel>
    decreases lines.len(),
{
    if lines.len() == 0 {
        Seq::empty()
    } else {
        let init = declared_files(lines.drop_last(), stusab);
        match file_information_of(lines.last(), stusab) {
            Some(Ok(f)) => init.push(f),
            _ => init,
        }
    }
}

/// The number of file-information lines among `lines`.
pub open spec fn file_line_count(lines: Seq<Seq<u8>>, stusab: Seq<u8>) -> nat
    decreases lines.len(),
{
    if lines.len() == 0 {
        0
    } else {
        file_line_count(lines.drop_last(), stusab) + if file_information_of(
            lines.last(),
            stusab,
        ) is Some {
            1nat
        } else {
            0nat
        }
    }
}

/// The specifiers of the data-segmentation lines among `lines`, line by line.
pub open spec fn declared_segments(lines: Seq<Seq<u8>>, stusab: Seq<u8>) -> Seq<
    Seq<TableSegmentSpecifier>,
>
    decreases lines.len(),
{
    if lines.len() == 0 {
        Seq::empty()
    } else {
        let init = declared_segments(lines.drop_last(), stusab);
        if file_information_of(lines.last(), stusab) is None && segmentation_of(lines.last()) is Some {
            init.push(segmentation_of(lines.last())->Some_0.1)
        } else {
            init
        }
    }
}

/// Locations that keep, one for one, the files and widths of specifiers.
pub open spec fn same_segments(
    locations: Seq<TableSegmentLocation>,
    specs: Seq<TableSegmentSpecifier>,
) -> bool {
    &&& locations.len() == specs.len()
    &&& forall|j: int|
        0 <= j < specs.len() ==> #[trigger] locations[j].file == specs[j].file && locations[j].end
            - locations[j].start == specs[j].columns
}

proof fn lemma_resolve_keeps_widths(cursors: Map<u32, usize>, specs: Seq<TableSegmentSpecifier>)
    requires
        resolve(cursors, specs) is Some,
    ensures
        same_segments(resolve(cursors, specs)->Some_0.1, specs),
    decreases specs.len(),
{
    if specs.len() > 0 {
        lemma_resolve_keeps_widths(cursors, specs.drop_last());
        let locations = resolve(cursors, specs)->Some_0.1;
        let before = resolve(cursors, specs.drop_last())->Some_0.1;
        assert forall|j: int| 0 <= j < specs.len() implies #[trigger] locations[j].file
            == specs[j].file && locations[j].end - locations[j].start == specs[j].columns by {
            if j < specs.len() - 1 {
                assert(locations[j] == before[j]);
                assert(specs.drop_last()[j] == specs[j]);
            }
        }
    }
}

proof fn lemma_scan_keeps_declarations(lines: Seq<Seq<u8>>, stusab: Seq<u8>, schema: Schema)
    requires
        scan(lines, stusab, schema) is Ok,
    ensures
        scan(lines, stusab, schema)->Ok_0.files.len() == file_line_count(lines, stusab),
        scan(lines, stusab, schema)->Ok_0.files == declared_files(lines, stusab),
        scan(lines, stusab, schema)->Ok_0.tables.len() == declared_segments(lines, stusab).len(),
        forall|i: int|
            0 <= i < declared_segments(lines, stusab).len() ==> same_segments(
                #[trigger] scan(lines, stusab, schema)->Ok_0.tables[i].1,
                declared_segments(lines, stusab)[i],
            ),
    decreases lines.len(),
{
    if lines.len() > 0 {
        let init = lines.drop_last();
        let line = lines.last();
        assert(scan(init, stusab, schema) is Ok);
        lemma_scan_keeps_declarations(init, stusab, schema);
        let d = scan(init, stusab, schema)->Ok_0;
        if file_information_of(line, stusab) is None {
            if let Some((name, specs)) = segmentation_of(line) {
                lemma_resolve_keeps_widths(d.cursors, specs);
            }
        }
    }
}

/// Parsing keeps what the manifest declares: one file for each
/// file-information line, as that line reads (name, date, size, rows, and the
/// role its identifier gives), with the first header file as the header;
/// and one table for each data-segmentation line whose
/// segments have, in order, the files and widths that the line writes.
pub proof fn lemma_parse_keeps_declarations(text: Seq<u8>)
    requires
        spec_parse(text) is Ok,
    ensures
        ({
            let m = spec_parse(text)->Ok_0;
            let lines = spec_lines(text);
            &&& m.files.len() == file_line_count(lines, m.stusab)
            &&& m.files == declared_files(lines, m.stusab)
            &&& first_header(m.files) == Some(m.header)
            &&& m.tables.len() == declared_segments(lines, m.stusab).len()
            &&& forall|i: int|
                0 <= i < m.tables.len() ==> same_segments(
                    #[trigger] m.tables[i].1,
                    declared_segments(lines, m.stusab)[i],
                )
        }),
{
    let m = spec_parse(text)->Ok_0;
    lemma_scan_keeps_declarations(spec_lines(text), m.stusab, m.schema);
}

} // verus!
