//! The on-disk schema variants and the tables they hold.
use vstd::prelude::*;

use crate::census2010;
use crate::census2020;

verus! {

/// A (census year, product) combination: it fixes the field delimiter, the
/// header-line layout and the tables there are.
#[derive(Clone, Copy, Debug, PartialEq, Eq, Hash, Structural)]
#[non_exhaustive]
pub enum Schema {
    Census2010(census2010::Schema),
    Census2020(census2020::Schema),
}

/// A named table of some schema; used only as a key.
#[derive(Clone, Copy, Debug, PartialEq, Eq, Hash, Structural)]
#[non_exhaustive]
pub enum Table {
    Census2010(census2010::Table),
    Census2020(census2020::Table),
}

/// The byte between two fields of a tabular record.
pub open spec fn spec_delimiter(schema: Schema) -> u8 {
    match schema {
        Schema::Census2010(_) => 0x2cu8,
        Schema::Census2020(_) => 0x7cu8,
    }
}

impl Schema {
    /// The field delimiter of the tabular files: a comma for 2010, a pipe
    /// for 2020.
    pub fn delimiter(&self) -> (r: u8)
        ensures
            r == spec_delimiter(*self),
    {
        match self {
            Schema::Census2010(_) => 0x2cu8,
            Schema::Census2020(_) => 0x7cu8,
        }
    }
}

} // verus!
