//! The 2010 redistricting product: fixed-width geographic header lines.
use vstd::prelude::*;

use vstd::utf8::encode_utf8;

use crate::error::DatasetError;
use crate::text::{copy_range, parse_decimal, parse_u64, trim, trimmed, blank, is_blank};

verus! {

/// The tables of the 2010 redistricting product.
#[derive(Clone, Copy, Debug, PartialEq, Eq, Hash, Structural)]
pub enum Table {
    P1,
    P2,
    P3,
    P4,
    H1,
}

/// The bytes `start..end` of a fixed-width line, where the line reaches that far.
pub open spec fn fixed_field(line: Seq<u8>, start: int, end: int) -> Option<Seq<u8>> {
    if end <= line.len() {
        Some(line.subrange(start, end))
    } else {
        None
    }
}

/// The logical record number a header line carries (bytes 18..25).
pub open spec fn spec_logrecno(line: Seq<u8>) -> Option<u64> {
    if 25 <= line.len() {
        parse_decimal(line.subrange(18, 25))
    } else {
        None
    }
}

/// The area name a header line carries (bytes 226..316), without padding.
pub open spec fn spec_name(line: Seq<u8>) -> Option<Seq<u8>> {
    if 316 <= line.len() {
        Some(trim(line.subrange(226, 316)))
    } else {
        None
    }
}

/// What a header line contributes to the identifier index: nothing where its
/// county, tract or block is blank (an aggregate area), else its identifier
/// (state, county, tract and block codes run together) and its logical record
/// number.
pub open spec fn spec_index_entry(line: Seq<u8>) -> Result<Option<(Seq<u8>, u64)>, DatasetError> {
    if line.len() < 65 {
        Err(DatasetError::MalformedHeaderLine)
    } else if is_blank(line.subrange(29, 32)) || is_blank(line.subrange(54, 60)) || is_blank(
        line.subrange(61, 65),
    ) {
        Ok(None)
    } else {
        match parse_decimal(line.subrange(18, 25)) {
            None => Err(DatasetError::MalformedLogicalRecordNumber),
            Some(n) => Ok(
                Some(
                    (
                        line.subrange(27, 29) + line.subrange(29, 32) + line.subrange(54, 60)
                            + line.subrange(61, 65),
                        n,
                    ),
                ),
            ),
        }
    }
}

/// One line of the 2010 geographic header file: fields at fixed byte columns.
pub struct GeographicalHeader {
    data: Vec<u8>,
}

impl View for GeographicalHeader {
    type V = Seq<u8>;

    closed spec fn view(&self) -> Seq<u8> {
        self.data@
    }
}

impl GeographicalHeader {
    /// The header held in the text of one line.
    pub fn new(data: String) -> (r: Self)
        ensures
            r@ == encode_utf8(data@),
    {
        let bytes = data.as_str().as_bytes();
        Self { data: copy_range(bytes, 0, bytes.len()) }
    }

    /// The header held in the bytes of one line.
    pub fn from_bytes(data: Vec<u8>) -> (r: Self)
        ensures
            r@ == data@,
    {
        Self { data }
    }

    fn field(&self, start: usize, end: usize) -> (r: Option<&[u8]>)
        requires
            start <= end,
        ensures
            match r {
                Some(f) => fixed_field(self@, start as int, end as int) == Some(f@),
                None => fixed_field(self@, start as int, end as int) is None,
            },
    {
        if end <= self.data.len() {
            let d = self.data.as_slice();
            Some(&d[start..end])
        } else {
            None
        }
    }

    /// File identification (bytes 0..6).
    pub fn fileid(&self) -> (r: Option<&[u8]>)
        ensures
            r matches Some(f) ==> fixed_field(self@, 0, 6) == Some(f@),
            r is None ==> fixed_field(self@, 0, 6) is None,
    {
        self.field(0, 6)
    }

    /// State/US abbreviation (bytes 6..8).
    pub fn stusab(&self) -> (r: Option<&[u8]>)
        ensures
            r matches Some(f) ==> fixed_field(self@, 6, 8) == Some(f@),
            r is None ==> fixed_field(self@, 6, 8) is None,
    {
        self.field(6, 8)
    }

    /// Summary level (bytes 8..11).
    pub fn sumlev(&self) -> (r: Option<&[u8]>)
        ensures
            r matches Some(f) ==> fixed_field(self@, 8, 11) == Some(f@),
            r is None ==> fixed_field(self@, 8, 11) is None,
    {
        self.field(8, 11)
    }

    /// State FIPS code (bytes 27..29).
    pub fn state(&self) -> (r: Option<&[u8]>)
        ensures
            r matches Some(f) ==> fixed_field(self@, 27, 29) == Some(f@),
            r is None ==> fixed_field(self@, 27, 29) is None,
    {
        self.field(27, 29)
    }

    /// County code (bytes 29..32).
    pub fn county(&self) -> (r: Option<&[u8]>)
        ensures
            r matches Some(f) ==> fixed_field(self@, 29, 32) == Some(f@),
            r is None ==> fixed_field(self@, 29, 32) is None,
    {
        self.field(29, 32)
    }

    /// Census tract (bytes 54..60).
    pub fn tract(&self) -> (r: Option<&[u8]>)
        ensures
            r matches Some(f) ==> fixed_field(self@, 54, 60) == Some(f@),
            r is None ==> fixed_field(self@, 54, 60) is None,
    {
        self.field(54, 60)
    }

    /// Block group (bytes 60..61).
    pub fn blkgrp(&self) -> (r: Option<&[u8]>)
        ensures
            r matches Some(f) ==> fixed_field(self@, 60, 61) == Some(f@),
            r is None ==> fixed_field(self@, 60, 61) is None,
    {
        self.field(60, 61)
    }

    /// Block (bytes 61..65).
    pub fn block(&self) -> (r: Option<&[u8]>)
        ensures
            r matches Some(f) ==> fixed_field(self@, 61, 65) == Some(f@),
            r is None ==> fixed_field(self@, 61, 65) is None,
    {
        self.field(61, 65)
    }

    /// The logical record number (bytes 18..25).
    pub fn logrecno(&self) -> (r: Option<u64>)
        ensures
            r == spec_logrecno(self@),
    {
        match self.field(18, 25) {
            Some(f) => parse_u64(f),
            None => None,
        }
    }

    /// The area name (bytes 226..316), without its padding.
    pub fn name(&self) -> (r: Option<Vec<u8>>)
        ensures
            r matches Some(n) ==> spec_name(self@) == Some(n@),
            r is None ==> spec_name(self@) is None,
    {
        match self.field(226, 316) {
            Some(f) => Some(trimmed(f)),
            None => None,
        }
    }

    /// The identifier and logical record number under which this line is
    /// indexed, or `None` for a line of an aggregate area.
    pub fn index_entry(&self) -> (r: Result<Option<(Vec<u8>, u64)>, DatasetError>)
        ensures
            match (r, spec_index_entry(self@)) {
                (Ok(Some((g, n))), Ok(Some((sg, sn)))) => g@ == sg && n == sn,
                (Ok(None), Ok(None)) => true,
                (Err(e), Err(se)) => e == se,
                _ => false,
            },
    {
        if self.data.len() < 65 {
            return Err(DatasetError::MalformedHeaderLine);
        }
        let d = self.data.as_slice();
        if blank(&d[29..32]) || blank(&d[54..60]) || blank(&d[61..65]) {
            return Ok(None);
        }
        match parse_u64(&d[18..25]) {
            None => Err(DatasetError::MalformedLogicalRecordNumber),
            Some(n) => {
                let mut geoid = copy_range(d, 27, 32);
                let tract = copy_range(d, 54, 60);
                let block = copy_range(d, 61, 65);
                let mut i: usize = 0;
                while i < 6
                    invariant
                        i <= 6,
                        tract@.len() == 6,
                        geoid@ == d@.subrange(27, 32) + tract@.take(i as int),
                    decreases 6 - i,
                {
                    geoid.push(tract[i]);
                    i = i + 1;
                    assert(geoid@ =~= d@.subrange(27, 32) + tract@.take(i as int));
                }
                let mut j: usize = 0;
                while j < 4
                    invariant
                        j <= 4,
                        block@.len() == 4,
                        geoid@ == d@.subrange(27, 32) + tract@ + block@.take(j as int),
                    decreases 4 - j,
                {
                    geoid.push(block[j]);
                    j = j + 1;
                    assert(geoid@ =~= d@.subrange(27, 32) + tract@ + block@.take(j as int));
                }
                proof {
                    assert(tract@.take(6) =~= tract@);
                    assert(block@.take(4) =~= block@);
                    assert(d@.subrange(27, 32) =~= d@.subrange(27, 29) + d@.subrange(29, 32));
                }
                Ok(Some((geoid, n)))
            },
        }
    }
}

} // verus!
