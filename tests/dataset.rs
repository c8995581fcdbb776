use distringo::dataset::{Header, IndexBuilder, IndexedDataset};
use distringo::packing_list::PackingList;
use distringo::DatasetError;

const IN_2010: &str = "STUSAB: IN\n\
p1|1:3 |\n\
p2|1:2 |\n\
h1|2:2 |\n\
ingeo2010.pl|2011-02-09 14:30:02|1503|3|\n\
in000012010.pl|2011-02-09 14:30:12|100|3|\n\
in000022010.pl|2011-02-09 14:30:18|100|3|\n";

/// A 2010 fixed-width header line with the given fields in their columns.
fn line_2010(sumlev: &str, logrecno: &str, county: &str, tract: &str, block: &str, name: &str) -> Vec<u8> {
    let mut line = vec![b' '; 500];
    let mut put = |start: usize, value: &str| {
        line[start..start + value.len()].copy_from_slice(value.as_bytes());
    };
    put(0, "PLST");
    put(6, "IN");
    put(8, sumlev);
    put(18, logrecno);
    put(27, "18");
    put(29, county);
    put(54, tract);
    put(61, block);
    put(226, name);
    line.push(b'\n');
    line
}

fn header_lines() -> Vec<Vec<u8>> {
    vec![
        line_2010("040", "0000001", "   ", "      ", "    ", "Indiana"),
        line_2010("750", "0335180", "157", "005200", "1013", "Block 1013"),
        line_2010("750", "0335181", "157", "005200", "1014", "Block 1014"),
    ]
}

fn tabular_1() -> Vec<&'static str> {
    vec![
        "PLST,IN,000,01,0000001,6483802,5286,17",
        "PLST,IN,000,01,0335180,12,7,5",
        "PLST,IN,000,01,0335181,0,0,0",
    ]
}

fn tabular_2() -> Vec<&'static str> {
    vec![
        "PLST,IN,000,02,0000001,2795541,2502154",
        "PLST,IN,000,02,0335180,4,4",
        "PLST,IN,000,02,0335181,0,0",
    ]
}

fn fields(line: &str) -> Vec<Vec<u8>> {
    line.split(',').map(|f| f.as_bytes().to_vec()).collect()
}

/// Feeds the in-memory files to the builder as a reader of the files would.
fn feed(mut builder: IndexBuilder) -> IndexBuilder {
    for (file, lines) in [(1u32, tabular_1()), (2u32, tabular_2())] {
        let mut offset = 0u64;
        for (i, line) in lines.iter().enumerate() {
            builder.add_tabular_record(file, &fields(line), i as u64 + 1, offset).unwrap();
            offset += line.len() as u64 + 1;
        }
    }
    let mut offset = 0u64;
    for line in header_lines() {
        builder.add_header_line(&line, offset).unwrap();
        offset += line.len() as u64;
    }
    builder
}

fn indexed() -> IndexedDataset {
    let pl = PackingList::parse(IN_2010.as_bytes()).unwrap();
    let dataset = IndexedDataset::from_packing_list(pl);
    feed(dataset.index().ok().unwrap()).finish()
}

/// Reads the record at `offset` of an in-memory tabular file.
fn read_at(lines: &[&str], offset: u64) -> Vec<Vec<u8>> {
    let mut position = 0u64;
    for line in lines {
        if position == offset {
            return fields(line);
        }
        position += line.len() as u64 + 1;
    }
    panic!("no record at offset {}", offset);
}

#[test]
fn geoid_resolves_to_logical_record_number() {
    let dataset = indexed();
    assert_eq!(dataset.get_logical_record_number_for_geoid(b"181570052001013"), Ok(335180));
    assert_eq!(dataset.get_logical_record_number_for_geoid(b"181570052001014"), Ok(335181));
}

#[test]
fn header_for_geoid_is_its_line() {
    let dataset = indexed();
    let offset = dataset.header_offset_for_geoid(b"181570052001013").unwrap();
    assert_eq!(offset, 501);
    let lines = header_lines();
    let header = dataset.header_from_line(&lines[1]);
    assert!(matches!(header, Header::Census2010(_)));
    assert_eq!(header.name(), Some(b"Block 1013".to_vec()));
    assert_eq!(header.logrecno(), Some(335180));
}

#[test]
fn logical_record_is_byte_identical_to_the_source_rows() {
    let dataset = indexed();
    let offsets = dataset.record_offsets(335180).unwrap();
    assert_eq!(offsets, vec![(1, 39), (2, 39)]);
    let fragments: Vec<(u32, Vec<Vec<u8>>)> = offsets
        .iter()
        .map(|(file, offset)| {
            let lines = if *file == 1 { tabular_1() } else { tabular_2() };
            (*file, read_at(&lines, *offset))
        })
        .collect();
    let record = dataset.assemble_record(335180, fragments).ok().unwrap();
    assert_eq!(record.number(), 335180);
    assert_eq!(record.fragment(1), Some(&fields("PLST,IN,000,01,0335180,12,7,5")));
    assert_eq!(record.fragment(2), Some(&fields("PLST,IN,000,02,0335180,4,4")));
    assert_eq!(record.fragment(3), None);
}

#[test]
fn table_fields_follow_the_table_locations() {
    let dataset = indexed();
    let offsets = dataset.record_offsets(335180).unwrap();
    let fragments: Vec<(u32, Vec<Vec<u8>>)> = offsets
        .iter()
        .map(|(file, offset)| {
            let lines = if *file == 1 { tabular_1() } else { tabular_2() };
            (*file, read_at(&lines, *offset))
        })
        .collect();
    let record = dataset.assemble_record(335180, fragments).ok().unwrap();
    let pl = dataset.packing_list();
    let tables = pl.tables();
    assert_eq!(record.table_fields(&tables[0].locations), Some(vec![b"12".to_vec(), b"7".to_vec(), b"5".to_vec()]));
    assert_eq!(record.table_fields(&tables[1].locations), None);
    assert_eq!(record.table_fields(&tables[2].locations), Some(vec![b"4".to_vec(), b"4".to_vec()]));
}

#[test]
fn aggregate_lines_are_not_indexed() {
    let dataset = indexed();
    assert_eq!(
        dataset.get_logical_record_number_for_geoid(b"18                  "),
        Err(DatasetError::InvalidGeoId)
    );
    assert_eq!(dataset.get_logical_record_number_for_geoid(b"18"), Err(DatasetError::InvalidGeoId));
    assert_eq!(dataset.record_offsets(1).map(|v| v.len()), Ok(2));
}

#[test]
fn unknown_lookups_fail() {
    let dataset = indexed();
    assert_eq!(dataset.get_logical_record_number_for_geoid(b"999"), Err(DatasetError::InvalidGeoId));
    assert_eq!(dataset.header_offset_for_geoid(b"999"), Err(DatasetError::InvalidGeoId));
    assert_eq!(dataset.record_offsets(4), Err(DatasetError::InvalidLogicalRecordNumber));
    assert_eq!(dataset.record_offsets(0), Err(DatasetError::InvalidLogicalRecordNumber));
}

#[test]
fn indexing_twice_fails() {
    let dataset = indexed();
    assert!(dataset.is_indexed());
    assert_eq!(dataset.index().err(), Some(DatasetError::AlreadyIndexed));
}

#[test]
fn lookups_before_indexing_fail() {
    let pl = PackingList::parse(IN_2010.as_bytes()).unwrap();
    let dataset = IndexedDataset::from_packing_list(pl);
    assert!(!dataset.is_indexed());
    assert_eq!(dataset.tabular_files(), &vec![1, 2]);
    assert_eq!(dataset.get_logical_record_number_for_geoid(b"181570052001013"), Err(DatasetError::NotIndexed));
    assert_eq!(dataset.header_offset_for_geoid(b"181570052001013"), Err(DatasetError::NotIndexed));
    assert_eq!(dataset.record_offsets(335180), Err(DatasetError::NotIndexed));
}

#[test]
fn duplicate_geoid_fails() {
    let pl = PackingList::parse(IN_2010.as_bytes()).unwrap();
    let mut builder = IndexedDataset::from_packing_list(pl).index().ok().unwrap();
    let line = line_2010("750", "0335180", "157", "005200", "1013", "Block 1013");
    assert_eq!(builder.add_header_line(&line, 0), Ok(()));
    assert_eq!(builder.add_header_line(&line, 501), Err(DatasetError::DuplicateGeoId));
    let dataset = builder.finish();
    assert_eq!(dataset.header_offset_for_geoid(b"181570052001013"), Ok(0));
}

#[test]
fn malformed_records_fail() {
    let pl = PackingList::parse(IN_2010.as_bytes()).unwrap();
    let mut builder = IndexedDataset::from_packing_list(pl).index().ok().unwrap();
    assert_eq!(
        builder.add_tabular_record(3, &fields("PLST,IN,000,03,0000001,1"), 1, 0),
        Err(DatasetError::UnknownTabularFile)
    );
    assert_eq!(
        builder.add_tabular_record(1, &fields("PLST,IN,000,01,00x0001,1"), 1, 0),
        Err(DatasetError::MalformedLogicalRecordNumber)
    );
    assert_eq!(
        builder.add_tabular_record(1, &fields("PLST,IN,000"), 1, 0),
        Err(DatasetError::MalformedLogicalRecordNumber)
    );
    assert_eq!(builder.add_header_line(b"PLST", 0), Err(DatasetError::MalformedHeaderLine));
}

#[test]
fn mismatched_fragment_fails() {
    let dataset = indexed();
    let fragments = vec![(1u32, fields("PLST,IN,000,01,0335181,0,0,0"))];
    assert_eq!(dataset.assemble_record(335180, fragments).err(), Some(DatasetError::RecordMismatch));
    let short = vec![(1u32, fields("PLST,IN"))];
    assert_eq!(dataset.assemble_record(335180, short).err(), Some(DatasetError::RecordMismatch));
}

#[test]
fn line_ordinals_are_record_numbers_in_2020() {
    let text = "STUSAB: RI\nrigeo2020.pl|2021-08-12 10:00:00|100|2|\nri000012020.pl|2021-08-12 10:00:00|100|2|\n";
    let pl = PackingList::parse(text.as_bytes()).unwrap();
    let mut builder = IndexedDataset::from_packing_list(pl).index().ok().unwrap();
    builder.add_tabular_record(1, &fields("PLST|RI|000|01|0000001|5"), 1, 0).unwrap();
    builder.add_tabular_record(1, &fields("anything"), 2, 24).unwrap();
    let dataset = builder.finish();
    assert_eq!(dataset.record_offsets(2), Ok(vec![(1, 24)]));
    assert_eq!(dataset.record_offsets(1), Ok(vec![(1, 0)]));
}

#[test]
fn scoped_offsets_cover_only_the_files_of_a_table() {
    let dataset = indexed();
    let pl = dataset.packing_list();
    let h1 = &pl.tables()[2].locations;
    let files = distringo::packing_list::segment_files(h1);
    assert_eq!(files, vec![2]);
    assert_eq!(dataset.record_offsets_in(335180, &files), Ok(vec![(2, 39)]));
    assert_eq!(dataset.record_offsets_in(335180, &[2, 1]), Ok(vec![(2, 39), (1, 39)]));
    assert_eq!(dataset.record_offsets_in(335180, &[]), Ok(vec![]));
    assert_eq!(dataset.record_offsets_in(335180, &[1, 7]), Err(DatasetError::UnknownTabularFile));
    assert_eq!(dataset.record_offsets_in(9, &[1]), Err(DatasetError::InvalidLogicalRecordNumber));
}

#[test]
fn segment_files_are_listed_once_in_order() {
    let locations = vec![
        distringo::packing_list::TableSegmentLocation { file: 3, start: 5, end: 9 },
        distringo::packing_list::TableSegmentLocation { file: 1, start: 5, end: 6 },
        distringo::packing_list::TableSegmentLocation { file: 3, start: 9, end: 12 },
    ];
    assert_eq!(distringo::packing_list::segment_files(&locations), vec![3, 1]);
    assert_eq!(distringo::packing_list::segment_files(&[]), Vec::<u32>::new());
}

#[test]
fn indexing_keeps_schema_and_files() {
    let pl = PackingList::parse(IN_2010.as_bytes()).unwrap();
    let schema = pl.schema();
    let dataset = IndexedDataset::from_packing_list(pl);
    let files = dataset.tabular_files().clone();
    let indexed = feed(dataset.index().ok().unwrap()).finish();
    assert_eq!(indexed.schema(), schema);
    assert_eq!(indexed.tabular_files(), &files);
    assert_eq!(indexed.record_offsets(335181).map(|v| v.len()), Ok(files.len()));
}
