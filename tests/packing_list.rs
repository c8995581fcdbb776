use distringo::census2010;
use distringo::census2010::pl94_171::Table::{H1, P1, P2, P3, P4};
use distringo::census2020;
use distringo::packing_list::{
    FileType, PackingList, PackingListError, TableSegmentLocation,
};
use distringo::{Schema, Table};

const AK_2010: &str = "The files for Alaska are listed below.\n\
STATE: Alaska\n\
STUSAB: AK\n\
\n\
DATA SEGMENTATION:\n\
p1|1:71 |\n\
p2|1:73 |\n\
p3|2:71 |\n\
p4|2:73 |\n\
h1|2:3 |\n\
\n\
FILE INFORMATION:\n\
akgeo2010.pl|2011-02-09 14:30:02|17326500|34650|\n\
ak000012010.pl|2011-02-09 14:30:12|11004536|34650|\n\
ak000022010.pl|2011-02-09 14:30:18|11502166|34650|\n\
\n\
See ak2010.pl.prd.packinglist.txt for details.\n";

fn p2010(t: census2010::pl94_171::Table) -> Table {
    Table::Census2010(census2010::Table::Pl94_171(t))
}

fn location(file: u32, start: usize, end: usize) -> TableSegmentLocation {
    TableSegmentLocation { file, start, end }
}

#[test]
fn file_parses_and_is_as_expected() {
    let pl = PackingList::parse(AK_2010.as_bytes()).unwrap();
    assert_eq!(pl.schema(), Schema::Census2010(census2010::Schema::Pl94_171));
    assert_eq!(pl.stusab(), b"ak");
    let tabular: Vec<u32> = pl
        .files()
        .iter()
        .filter_map(|f| match f.ty {
            FileType::Tabular(n) => Some(n),
            FileType::GeographicalHeader => None,
        })
        .collect();
    assert_eq!(tabular, vec![1, 2]);
    assert_eq!(pl.tables().len(), 5);
    assert_eq!(pl.table_locations(p2010(P1)).unwrap(), &vec![location(1, 5, 5 + 71)]);
    assert_eq!(pl.table_locations(p2010(P2)).unwrap(), &vec![location(1, 5 + 71, 5 + 71 + 73)]);
    assert_eq!(pl.table_locations(p2010(P3)).unwrap(), &vec![location(2, 5, 5 + 71)]);
    assert_eq!(pl.table_locations(p2010(P4)).unwrap(), &vec![location(2, 5 + 71, 5 + 71 + 73)]);
    assert_eq!(
        pl.table_locations(p2010(H1)).unwrap(),
        &vec![location(2, 5 + 71 + 73, 5 + 71 + 73 + 3)]
    );
}

#[test]
fn resolved_locations_match_the_declared_widths() {
    let pl = PackingList::parse(AK_2010.as_bytes()).unwrap();
    let expected = [
        (1u32, 5usize, 76usize),
        (1, 76, 149),
        (2, 5, 76),
        (2, 76, 149),
        (2, 149, 152),
    ];
    for (t, (file, start, end)) in pl.tables().iter().zip(expected.iter()) {
        assert_eq!(t.locations, vec![location(*file, *start, *end)]);
    }
}

#[test]
fn file_information_is_kept() {
    let pl = PackingList::parse(AK_2010.as_bytes()).unwrap();
    assert_eq!(pl.files().len(), 3);
    assert_eq!(pl.header_file(), b"akgeo2010.pl");
    assert_eq!(pl.rows(), 34650);
    let f = &pl.files()[1];
    assert_eq!(f.filename, b"ak000012010.pl".to_vec());
    assert_eq!(f.date, b"2011-02-09 14:30:12".to_vec());
    assert_eq!(f.size, 11004536);
    assert_eq!(f.rows, 34650);
    assert_eq!(f.ty, FileType::Tabular(1));
    assert_eq!(pl.files()[0].ty, FileType::GeographicalHeader);
}

#[test]
fn segments_split_across_files_accumulate_per_file() {
    let text = "STUSAB: AK\np1|1:10 2:20|\np2|2:5 1:7|\nakgeo2010.pl|2011-02-09 14:30:02|1|1|\n";
    let pl = PackingList::parse(text.as_bytes()).unwrap();
    assert_eq!(
        pl.table_locations(p2010(P1)).unwrap(),
        &vec![location(1, 5, 15), location(2, 5, 25)]
    );
    assert_eq!(
        pl.table_locations(p2010(P2)).unwrap(),
        &vec![location(2, 25, 30), location(1, 15, 22)]
    );
}

#[test]
fn crlf_line_endings_are_read() {
    let text = AK_2010.replace('\n', "\r\n");
    let pl = PackingList::parse(text.as_bytes()).unwrap();
    assert_eq!(pl.files().len(), 3);
    assert_eq!(pl.tables().len(), 5);
}

#[test]
fn schema_2020_is_inferred() {
    let text = "STUSAB: RI\np5|1:10|\nrigeo2020.pl|2021-08-12 10:00:00|100|3|\nri000012020.pl|2021-08-12 10:00:00|100|3|\n";
    let pl = PackingList::parse(text.as_bytes()).unwrap();
    assert_eq!(pl.schema(), Schema::Census2020(census2020::Schema::Pl94_171));
    assert_eq!(
        pl.table_locations(Table::Census2020(census2020::Table::Pl94_171(
            census2020::pl94_171::Table::P5
        )))
        .unwrap(),
        &vec![location(1, 5, 15)]
    );
}

#[test]
fn missing_jurisdiction_is_an_error() {
    let text = AK_2010.replace("STUSAB: AK", "STATE CODE: AK");
    assert_eq!(
        PackingList::parse(text.as_bytes()).err(),
        Some(PackingListError::MissingJurisdiction)
    );
}

#[test]
fn no_schema_is_an_error() {
    let text = "STUSAB: AK\np1|1:71 |\n";
    assert_eq!(PackingList::parse(text.as_bytes()).err(), Some(PackingListError::NoSchema));
}

#[test]
fn conflicting_schemas_are_an_error() {
    let text = format!("{}ak000032020.pl is also mentioned\n", AK_2010);
    assert_eq!(
        PackingList::parse(text.as_bytes()).err(),
        Some(PackingListError::ConflictingSchemas)
    );
}

#[test]
fn unsupported_schema_is_an_error() {
    let text = format!("{}see ak2000.sf1\n", AK_2010);
    assert_eq!(
        PackingList::parse(text.as_bytes()).err(),
        Some(PackingListError::UnsupportedSchema)
    );
}

#[test]
fn unknown_table_is_an_error() {
    let text = AK_2010.replace("h1|2:3 |", "p9|2:3 |");
    assert_eq!(PackingList::parse(text.as_bytes()).err(), Some(PackingListError::UnknownTable));
    let text = AK_2010.replace("h1|2:3 |", "p5|2:3 |");
    assert_eq!(PackingList::parse(text.as_bytes()).err(), Some(PackingListError::UnknownTable));
}

#[test]
fn unknown_file_identifier_is_an_error() {
    let text = AK_2010.replace("akgeo2010.pl|", "akxyz2010.pl|");
    assert_eq!(
        PackingList::parse(text.as_bytes()).err(),
        Some(PackingListError::UnknownFileIdentifier)
    );
}

#[test]
fn oversized_count_is_an_error() {
    let text = AK_2010.replace("|17326500|", "|99999999999999999999999|");
    assert_eq!(PackingList::parse(text.as_bytes()).err(), Some(PackingListError::MalformedNumber));
}

#[test]
fn column_overflow_is_an_error() {
    let text = AK_2010.replace("p2|1:73 |", "p2|1:18446744073709551610 |");
    assert_eq!(PackingList::parse(text.as_bytes()).err(), Some(PackingListError::ColumnOverflow));
}

#[test]
fn missing_header_file_is_an_error() {
    let text = AK_2010.replace("akgeo2010.pl|2011-02-09 14:30:02|17326500|34650|\n", "");
    assert_eq!(
        PackingList::parse(text.as_bytes()).err(),
        Some(PackingListError::MissingHeaderFile)
    );
}

#[test]
fn commentary_and_malformed_chunks_are_passed_over() {
    let text = "STUSAB: AK\nsome words | with pipes |\np1|1:71 3 1: 7:|\nakgeo2010.pl|not a date|1|1|\nakgeo2010.pl|2011-02-09 14:30:02|10|4|\n";
    let pl = PackingList::parse(text.as_bytes()).unwrap();
    assert_eq!(pl.files().len(), 1);
    assert_eq!(pl.rows(), 4);
    assert_eq!(pl.tables().len(), 1);
    assert_eq!(pl.tables()[0].locations, vec![location(1, 5, 76)]);
}

#[test]
fn later_declaration_of_a_table_wins() {
    let text = "STUSAB: AK\np1|1:10|\np1|1:4|\nakgeo2010.pl|2011-02-09 14:30:02|10|4|\n";
    let pl = PackingList::parse(text.as_bytes()).unwrap();
    assert_eq!(pl.tables().len(), 2);
    assert_eq!(pl.table_locations(p2010(P1)).unwrap(), &vec![location(1, 15, 19)]);
    assert_eq!(pl.table_locations(p2010(census2010::pl94_171::Table::H1)), None);
}
