//! Random-access retrieval of census tabulation records split across a
//! geographic header file and several tabular files.
pub mod census2010;
pub mod census2020;
pub mod dataset;
pub mod error;
pub mod header_index;
pub mod logical_record_position;
pub mod packing_list;
pub mod schema;
pub mod text;

pub use dataset::{FileBackedLogicalRecord, Header, IndexBuilder, IndexedDataset};
pub use error::DatasetError;
pub use logical_record_position::LogicalRecordPositionIndex;
pub use packing_list::PackingList;
pub use schema::{Schema, Table};
