use distringo::census2010;
use distringo::census2020;

const RI_GEO2018_2020_STYLE_EXAMPLE: &str = "PLST|RI|750|00|00|000|00|0019326|7500000US440070185003030|440070185003030|1|1|44|01219835|007|H4|01219781|80780|C5|01220079|||||||99999|99|99999999|80780|C5|01220079|018500|3|3030|9999|9|99999|99|99999999|999|99999|99|99999999|999999|9|99999|99|99999999|39300|1|148|99999|77200|1|715|99999|N|N||||01|||||020|||||051|||||443909|A||99999|99999|01200||1625|0|3030|Block 3030|S||0|0|+41.9866626|-071.4802535|BK||99999";

/// A 2010 fixed-width header line with the given fields in their columns.
fn line_2010(sumlev: &str, logrecno: &str, county: &str, tract: &str, block: &str, name: &str) -> String {
    let mut line = vec![b' '; 500];
    let mut put = |start: usize, value: &str| {
        line[start..start + value.len()].copy_from_slice(value.as_bytes());
    };
    put(0, "PLST");
    put(6, "IN");
    put(8, sumlev);
    put(18, logrecno);
    put(27, "18");
    put(29, county);
    put(54, tract);
    put(60, "1");
    put(61, block);
    put(226, name);
    let mut s = String::from_utf8(line).unwrap();
    s.push('\n');
    s
}

#[test]
fn fixed_width_fields_2010() {
    let h = census2010::pl94_171::GeographicalHeader::new(line_2010(
        "750", "0335180", "157", "005200", "1013", "Block 1013",
    ));
    assert_eq!(h.fileid(), Some(&b"PLST  "[..]));
    assert_eq!(h.stusab(), Some(&b"IN"[..]));
    assert_eq!(h.sumlev(), Some(&b"750"[..]));
    assert_eq!(h.state(), Some(&b"18"[..]));
    assert_eq!(h.county(), Some(&b"157"[..]));
    assert_eq!(h.tract(), Some(&b"005200"[..]));
    assert_eq!(h.blkgrp(), Some(&b"1"[..]));
    assert_eq!(h.block(), Some(&b"1013"[..]));
    assert_eq!(h.logrecno(), Some(335180));
    assert_eq!(h.name(), Some(b"Block 1013".to_vec()));
    assert_eq!(h.index_entry(), Ok(Some((b"181570052001013".to_vec(), 335180))));
}

#[test]
fn short_line_2010_has_no_fields() {
    let h = census2010::pl94_171::GeographicalHeader::new("PLSTIN".to_string());
    assert_eq!(h.fileid(), Some(&b"PLSTIN"[..]));
    assert_eq!(h.stusab(), None);
    assert_eq!(h.logrecno(), None);
    assert_eq!(h.name(), None);
    assert_eq!(h.index_entry(), Err(distringo::DatasetError::MalformedHeaderLine));
}

#[test]
fn aggregate_lines_2010_have_no_entry() {
    let state = census2010::pl94_171::GeographicalHeader::new(line_2010(
        "040", "0000001", "   ", "      ", "    ", "Indiana",
    ));
    assert_eq!(state.index_entry(), Ok(None));
    assert_eq!(state.name(), Some(b"Indiana".to_vec()));
    let county = census2010::pl94_171::GeographicalHeader::new(line_2010(
        "050", "0000002", "157", "      ", "    ", "Tippecanoe County",
    ));
    assert_eq!(county.index_entry(), Ok(None));
    let tract = census2010::pl94_171::GeographicalHeader::new(line_2010(
        "140", "0000003", "157", "005200", "    ", "Census Tract 52",
    ));
    assert_eq!(tract.index_entry(), Ok(None));
}

#[test]
fn malformed_logrecno_2010() {
    let h = census2010::pl94_171::GeographicalHeader::new(line_2010(
        "750", "03x5180", "157", "005200", "1013", "Block 1013",
    ));
    assert_eq!(h.logrecno(), None);
    assert_eq!(h.index_entry(), Err(distringo::DatasetError::MalformedLogicalRecordNumber));
}

#[test]
fn fileid() {
    let h = census2020::pl94_171::GeographicalHeader::new(RI_GEO2018_2020_STYLE_EXAMPLE);
    assert_eq!(h.fileid(), Some(&b"PLST"[..]));
}

#[test]
fn delimited_fields_2020() {
    let h = census2020::pl94_171::GeographicalHeader::new(RI_GEO2018_2020_STYLE_EXAMPLE);
    assert_eq!(h.stusab(), Some(&b"RI"[..]));
    assert_eq!(h.sumlev(), Some(&b"750"[..]));
    assert_eq!(h.logrecno(), Some(19326));
    assert_eq!(h.geoid(), Some(&b"7500000US440070185003030"[..]));
    assert_eq!(h.geocode(), Some(&b"440070185003030"[..]));
    assert_eq!(h.state(), Some(&b"44"[..]));
    assert_eq!(h.county(), Some(&b"007"[..]));
    assert_eq!(h.tract(), Some(&b"018500"[..]));
    assert_eq!(h.blkgrp(), Some(&b"3"[..]));
    assert_eq!(h.block(), Some(&b"3030"[..]));
    assert_eq!(h.name(), Some(&b"Block 3030"[..]));
    assert_eq!(h.field(20), Some(&b""[..]));
    assert_eq!(h.field(96), Some(&b"99999"[..]));
    assert_eq!(h.field(97), None);
    assert_eq!(h.index_entry(), Ok(Some((b"440070185003030".to_vec(), 19326))));
}

#[test]
fn aggregate_and_short_lines_2020() {
    let state = RI_GEO2018_2020_STYLE_EXAMPLE.replace("|018500|3|3030|", "||||");
    let h = census2020::pl94_171::GeographicalHeader::new(&state);
    assert_eq!(h.index_entry(), Ok(None));
    let short = census2020::pl94_171::GeographicalHeader::new("PLST|RI|040");
    assert_eq!(short.logrecno(), None);
    assert_eq!(short.name(), None);
    assert_eq!(short.index_entry(), Err(distringo::DatasetError::MalformedHeaderLine));
}
