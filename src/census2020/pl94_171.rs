//! The 2020 redistricting product: pipe-delimited geographic header lines.
use vstd::prelude::*;

use vstd::utf8::encode_utf8;

use crate::error::DatasetError;
use crate::text::{copy_range, parse_decimal, parse_u64, split, split_on, blank, is_blank};

verus! {

/// The tables of the 2020 redistricting product.
#[derive(Clone, Copy, Debug, PartialEq, Eq, Hash, Structural)]
pub enum Table {
    P1,
    P2,
    P3,
    P4,
    H1,
    P5,
}

/// The fields of a header line: the pieces between its pipes.
pub open spec fn spec_fields(line: Seq<u8>) -> Seq<Seq<u8>> {
    split_on(line, seq![0x7cu8])
}

/// Field `i` of a header line, where the line has that many fields.
pub open spec fn spec_field(fields: Seq<Seq<u8>>, i: int) -> Option<Seq<u8>> {
    if 0 <= i < fields.len() {
        Some(fields[i])
    } else {
        None
    }
}

/// The logical record number a header line carries (field 7).
pub open spec fn spec_logrecno(fields: Seq<Seq<u8>>) -> Option<u64> {
    match spec_field(fields, 7) {
        Some(f) => parse_decimal(f),
        None => None,
    }
}

/// What a header line contributes to the identifier index: nothing where its
/// county, tract or block (fields 14, 32, 34) is blank (an aggregate area),
/// else its geographic code (field 9) and its logical record number.
pub open spec fn spec_index_entry(fields: Seq<Seq<u8>>) -> Result<Option<(Seq<u8>, u64)>, DatasetError> {
    if fields.len() <= 34 {
        Err(DatasetError::MalformedHeaderLine)
    } else if is_blank(fields[14]) || is_blank(fields[32]) || is_blank(fields[34]) {
        Ok(None)
    } else {
        match parse_decimal(fields[7]) {
            None => Err(DatasetError::MalformedLogicalRecordNumber),
            Some(n) => Ok(Some((fields[9], n))),
        }
    }
}

/// One line of the 2020 geographic header file: fields between pipes.
pub struct GeographicalHeader {
    data: Vec<Vec<u8>>,
}

impl View for GeographicalHeader {
    type V = Seq<Seq<u8>>;

    closed spec fn view(&self) -> Seq<Seq<u8>> {
        self.data@.map_values(|f: Vec<u8>| f@)
    }
}

impl GeographicalHeader {
    /// The header held in the text of one line.
    pub fn new(data: &str) -> (r: Self)
        ensures
            r@ == spec_fields(encode_utf8(data@)),
    {
        Self::from_bytes(data.as_bytes())
    }

    /// The header held in the bytes of one line.
    pub fn from_bytes(data: &[u8]) -> (r: Self)
        ensures
            r@ == spec_fields(data@),
    {
        let pipe: [u8; 1] = [0x7cu8];
        let fields = split(data, pipe.as_slice());
        proof {
            assert(pipe@ =~= seq![0x7cu8]);
        }
        Self { data: fields }
    }

    /// Field `i`, where the line has that many fields.
    pub fn field(&self, i: usize) -> (r: Option<&[u8]>)
        ensures
            match r {
                Some(f) => spec_field(self@, i as int) == Some(f@),
                None => spec_field(self@, i as int) is None,
            },
    {
        if i < self.data.len() {
            Some(self.data[i].as_slice())
        } else {
            None
        }
    }

    /// File identification (field 0).
    pub fn fileid(&self) -> (r: Option<&[u8]>)
        ensures
            r matches Some(f) ==> spec_field(self@, 0) == Some(f@),
            r is None ==> spec_field(self@, 0) is None,
    {
        self.field(0)
    }

    /// State/US abbreviation (field 1).
    pub fn stusab(&self) -> (r: Option<&[u8]>)
        ensures
            r matches Some(f) ==> spec_field(self@, 1) == Some(f@),
            r is None ==> spec_field(self@, 1) is None,
    {
        self.field(1)
    }

    /// Summary level (field 2).
    pub fn sumlev(&self) -> (r: Option<&[u8]>)
        ensures
            r matches Some(f) ==> spec_field(self@, 2) == Some(f@),
            r is None ==> spec_field(self@, 2) is None,
    {
        self.field(2)
    }

    /// Geographic identifier (field 8).
    pub fn geoid(&self) -> (r: Option<&[u8]>)
        ensures
            r matches Some(f) ==> spec_field(self@, 8) == Some(f@),
            r is None ==> spec_field(self@, 8) is None,
    {
        self.field(8)
    }

    /// Geographic code: state, county, tract and block codes run together
    /// (field 9).
    pub fn geocode(&self) -> (r: Option<&[u8]>)
        ensures
            r matches Some(f) ==> spec_field(self@, 9) == Some(f@),
            r is None ==> spec_field(self@, 9) is None,
    {
        self.field(9)
    }

    /// State FIPS code (field 12).
    pub fn state(&self) -> (r: Option<&[u8]>)
        ensures
            r matches Some(f) ==> spec_field(self@, 12) == Some(f@),
            r is None ==> spec_field(self@, 12) is None,
    {
        self.field(12)
    }

    /// County code (field 14).
    pub fn county(&self) -> (r: Option<&[u8]>)
        ensures
            r matches Some(f) ==> spec_field(self@, 14) == Some(f@),
            r is None ==> spec_field(self@, 14) is None,
    {
        self.field(14)
    }

    /// Census tract (field 32).
    pub fn tract(&self) -> (r: Option<&[u8]>)
        ensures
            r matches Some(f) ==> spec_field(self@, 32) == Some(f@),
            r is None ==> spec_field(self@, 32) is None,
    {
        self.field(32)
    }

    /// Block group (field 33).
    pub fn blkgrp(&self) -> (r: Option<&[u8]>)
        ensures
            r matches Some(f) ==> spec_field(self@, 33) == Some(f@),
            r is None ==> spec_field(self@, 33) is None,
    {
        self.field(33)
    }

    /// Block (field 34).
    pub fn block(&self) -> (r: Option<&[u8]>)
        ensures
            r matches Some(f) ==> spec_field(self@, 34) == Some(f@),
            r is None ==> spec_field(self@, 34) is None,
    {
        self.field(34)
    }

    /// Area name (field 87).
    pub fn name(&self) -> (r: Option<&[u8]>)
        ensures
            r matches Some(f) ==> spec_field(self@, 87) == Some(f@),
            r is None ==> spec_field(self@, 87) is None,
    {
        self.field(87)
    }

    /// The logical record number (field 7).
    pub fn logrecno(&self) -> (r: Option<u64>)
        ensures
            r == spec_logrecno(self@),
    {
        match self.field(7) {
            Some(f) => parse_u64(f),
            None => None,
        }
    }

    /// The identifier and logical record number under which this line is
    /// indexed, or `None` for a line of an aggregate area.
    pub fn index_entry(&self) -> (r: Result<Option<(Vec<u8>, u64)>, DatasetError>)
        ensures
            match (r, spec_index_entry(self@)) {
                (Ok(Some((g, n))), Ok(Some((sg, sn)))) => g@ == sg && n == sn,
                (Ok(None), Ok(None)) => true,
                (Err(e), Err(se)) => e == se,
                _ => false,
            },
    {
        if self.data.len() <= 34 {
            return Err(DatasetError::MalformedHeaderLine);
        }
        if blank(self.data[14].as_slice()) || blank(self.data[32].as_slice()) || blank(
            self.data[34].as_slice(),
        ) {
            return Ok(None);
        }
        match parse_u64(self.data[7].as_slice()) {
            None => Err(DatasetError::MalformedLogicalRecordNumber),
            Some(n) => {
                let code = self.data[9].as_slice();
                Ok(Some((copy_range(code, 0, code.len()), n)))
            },
        }
    }
}

} // verus!
