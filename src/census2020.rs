//! The 2020 census products.
use vstd::prelude::*;

pub mod pl94_171;

verus! {

/// The 2020 products this library reads.
#[allow(non_camel_case_types)]
#[derive(Clone, Copy, Debug, PartialEq, Eq, Hash, Structural)]
pub enum Schema {
    Pl94_171,
}

/// A table of one of the 2020 products.
#[allow(non_camel_case_types)]
#[derive(Clone, Copy, Debug, PartialEq, Eq, Hash, Structural)]
pub enum Table {
    Pl94_171(pl94_171::Table),
}

} // verus!
