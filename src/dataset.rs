//! The indexed dataset: indices over the header file and the tabular files,
//! and the lookups that retrieval is planned by.
//!
//! Reading the files is left to the caller. Indexing takes an unindexed
//! dataset to an [`IndexBuilder`], is fed each tabular record and each header
//! line with its byte offset, and finishes into an indexed dataset. A lookup
//! answers where a record lies (file and offset); the caller reads it there
//! and hands the fields back to be assembled.
use vstd::prelude::*;

use crate::census2010;
use crate::census2020;
use crate::error::DatasetError;
use crate::header_index::HeaderIndex;
use crate::logical_record_position::LogicalRecordPositionIndex;
use crate::packing_list::{FileModel, FileType, PackingList, TableSegmentLocation};
use crate::schema::Schema;
use crate::text::{copy_range, parse_decimal, parse_u64};

verus! {

/// What a header line contributes to the identifier index, by schema.
pub open spec fn header_entry(schema: Schema, line: Seq<u8>) -> Result<
    Option<(Seq<u8>, u64)>,
    DatasetError,
> {
    match schema {
        Schema::Census2010(_) => census2010::pl94_171::spec_index_entry(line),
        Schema::Census2020(_) => census2020::pl94_171::spec_index_entry(
            census2020::pl94_171::spec_fields(line),
        ),
    }
}

/// Whether a header line belongs to an aggregate area: its county, tract or
/// block is blank.
pub open spec fn is_aggregate_line(schema: Schema, line: Seq<u8>) -> bool {
    match schema {
        Schema::Census2010(_) => line.len() >= 65 && (crate::text::is_blank(line.subrange(29, 32))
            || crate::text::is_blank(line.subrange(54, 60)) || crate::text::is_blank(
            line.subrange(61, 65),
        )),
        Schema::Census2020(_) => {
            let f = census2020::pl94_171::spec_fields(line);
            f.len() > 34 && (crate::text::is_blank(f[14]) || crate::text::is_blank(f[32])
                || crate::text::is_blank(f[34]))
        },
    }
}

/// The identifier index of header lines `(line, byte offset)`, in file order.
pub open spec fn header_index_of(schema: Schema, lines: Seq<(Seq<u8>, u64)>) -> Result<
    Map<Seq<u8>, (u64, u64)>,
    DatasetError,
>
    decreases lines.len(),
{
    if lines.len() == 0 {
        Ok(Map::empty())
    } else {
        match header_index_of(schema, lines.drop_last()) {
            Err(e) => Err(e),
            Ok(m) => match header_entry(schema, lines.last().0) {
                Err(e) => Err(e),
                Ok(None) => Ok(m),
                Ok(Some((geoid, n))) => if m.contains_key(geoid) {
                    Err(DatasetError::DuplicateGeoId)
                } else {
                    Ok(m.insert(geoid, (n, lines.last().1)))
                },
            },
        }
    }
}

/// The logical record number of a tabular record: its record-number column
/// (column 4) for 2010, its 1-based line number for 2020.
pub open spec fn tabular_logrecno(schema: Schema, fields: Seq<Seq<u8>>, line: u64) -> Result<
    u64,
    DatasetError,
> {
    match schema {
        Schema::Census2010(_) => if fields.len() > 4 && parse_decimal(fields[4]) is Some {
            Ok(parse_decimal(fields[4])->Some_0)
        } else {
            Err(DatasetError::MalformedLogicalRecordNumber)
        },
        Schema::Census2020(_) => Ok(line),
    }
}

/// The record number a fragment carries in its record-number column.
pub open spec fn fragment_logrecno(fields: Seq<Seq<u8>>) -> Option<u64> {
    if fields.len() > 4 {
        parse_decimal(fields[4])
    } else {
        None
    }
}

/// The distinct tabular file indices of a file list, in order of first listing.
pub open spec fn tabular_files_of(files: Seq<FileModel>) -> Seq<u32>
    decreases files.len(),
{
    if files.len() == 0 {
        Seq::empty()
    } else {
        let init = tabular_files_of(files.drop_last());
        match files.last().ty {
            FileType::Tabular(n) => if init.contains(n) {
                init
            } else {
                init.push(n)
            },
            FileType::GeographicalHeader => init,
        }
    }
}

/// The offsets of record `number` in tabular files `files`, in that order:
/// the first file that the dataset lacks, or that lacks the record, decides
/// the error.
pub open spec fn offsets_in(
    tabular_files: Seq<u32>,
    positions: Seq<Map<nat, u64>>,
    number: u64,
    files: Seq<u32>,
) -> Result<Seq<(u32, u64)>, DatasetError>
    decreases files.len(),
{
    if files.len() == 0 {
        Ok(Seq::empty())
    } else {
        match offsets_in(tabular_files, positions, number, files.drop_last()) {
            Err(e) => Err(e),
            Ok(found) => {
                let f = files.last();
                if !tabular_files.contains(f) {
                    Err(DatasetError::UnknownTabularFile)
                } else {
                    let p = choose|p: int| first_position(tabular_files, f, p);
                    if positions[p].contains_key(number as nat) {
                        Ok(found.push((f, positions[p][number as nat])))
                    } else {
                        Err(DatasetError::InvalidLogicalRecordNumber)
                    }
                }
            },
        }
    }
}

proof fn lemma_first_position_unique(files: Seq<u32>, file: u32, p: int, q: int)
    requires
        first_position(files, file, p),
        first_position(files, file, q),
    ensures
        p == q,
{
    if p < q {
        assert(files[p] == file);
    } else if q < p {
        assert(files[q] == file);
    }
}

proof fn lemma_offsets_in_err_sticks(
    tabular_files: Seq<u32>,
    positions: Seq<Map<nat, u64>>,
    number: u64,
    files: Seq<u32>,
    i: int,
)
    requires
        0 <= i <= files.len(),
        offsets_in(tabular_files, positions, number, files.take(i)) is Err,
    ensures
        offsets_in(tabular_files, positions, number, files.take(files.len() as int))
            == offsets_in(tabular_files, positions, number, files.take(i)),
    decreases files.len() - i,
{
    if i < files.len() {
        assert(files.take(i + 1).drop_last() =~= files.take(i));
        lemma_offsets_in_err_sticks(tabular_files, positions, number, files, i + 1);
    }
}

/// A dataset, as a value.
pub struct DatasetModel {
    pub schema: Schema,
    /// The tabular file indices, distinct.
    pub tabular_files: Seq<u32>,
    /// The identifier index, once indexed.
    pub header: Option<Map<Seq<u8>, (u64, u64)>>,
    /// The position index of each tabular file, once indexed.
    pub positions: Option<Seq<Map<nat, u64>>>,
}

/// A census dataset described by a packing list, unindexed or indexed.
pub struct IndexedDataset {
    packing_list: PackingList,
    tabular_files: Vec<u32>,
    header_index: Option<HeaderIndex>,
    tabular_index: Option<Vec<LogicalRecordPositionIndex>>,
}

impl View for IndexedDataset {
    type V = DatasetModel;

    closed spec fn view(&self) -> DatasetModel {
        DatasetModel {
            schema: self.packing_list@.schema,
            tabular_files: self.tabular_files@,
            header: match self.header_index {
                Some(h) => Some(h@),
                None => None,
            },
            positions: match self.tabular_index {
                Some(p) => Some(p@.map_values(|x: LogicalRecordPositionIndex| x@)),
                None => None,
            },
        }
    }
}

/// Index `i` of `files` holds `file`, and no earlier one does.
pub open spec fn first_position(files: Seq<u32>, file: u32, i: int) -> bool {
    0 <= i < files.len() && files[i] == file && forall|k: int| 0 <= k < i ==> files[k] != file
}

/// Where the position of `file` in `files` is.
fn position_of(files: &Vec<u32>, file: u32) -> (r: Option<usize>)
    ensures
        match r {
            Some(i) => first_position(files@, file, i as int),
            None => !files@.contains(file),
        },
{
    let mut i: usize = 0;
    while i < files.len()
        invariant
            i <= files@.len(),
            forall|k: int| 0 <= k < i ==> files@[k] != file,
        decreases files@.len() - i,
    {
        if files[i] == file {
            return Some(i);
        }
        i = i + 1;
    }
    None
}

impl IndexedDataset {
    pub closed spec fn wf(&self) -> bool {
        &&& self.packing_list.wf()
        &&& self.tabular_files@ == tabular_files_of(self.packing_list@.files)
        &&& self.header_index is Some <==> self.tabular_index is Some
        &&& self.header_index matches Some(h) ==> h.wf()
        &&& self.tabular_index matches Some(p) ==> p@.len() == self.tabular_files@.len()
    }

    /// Whether `index` has run.
    pub open spec fn indexed(&self) -> bool {
        self@.header is Some
    }

    /// The packing list this dataset was built from.
    pub closed spec fn spec_packing_list(&self) -> PackingList {
        self.packing_list
    }

    /// An unindexed dataset over the files a packing list names.
    pub fn from_packing_list(packing_list: PackingList) -> (r: Self)
        requires
            packing_list.wf(),
        ensures
            r.wf(),
            !r.indexed(),
            r@.schema == packing_list@.schema,
            r@.tabular_files == tabular_files_of(packing_list@.files),
            r@.positions is None,
            r.spec_packing_list() == packing_list,
    {
        let mut tabular_files: Vec<u32> = Vec::new();
        let files = packing_list.files();
        let ghost fv = files@.map_values(|f: crate::packing_list::FileInformation| f@);
        let mut i: usize = 0;
        assert(fv.take(0) =~= Seq::<FileModel>::empty());
        while i < files.len()
            invariant
                i <= files@.len(),
                fv == files@.map_values(|f: crate::packing_list::FileInformation| f@),
                tabular_files@ == tabular_files_of(fv.take(i as int)),
            decreases files@.len() - i,
        {
            proof {
                assert(fv.take(i + 1).drop_last() =~= fv.take(i as int));
                assert(fv.take(i + 1).last() == files@[i as int]@);
            }
            match files[i].ty {
                FileType::Tabular(n) => {
                    if position_of(&tabular_files, n).is_none() {
                        tabular_files.push(n);
                    }
                },
                FileType::GeographicalHeader => {},
            }
            i = i + 1;
        }
        assert(fv.take(i as int) =~= fv);
        IndexedDataset { packing_list, tabular_files, header_index: None, tabular_index: None }
    }

    /// The schema of the dataset.
    pub fn schema(&self) -> (r: Schema)
        ensures
            r == self@.schema,
    {
        self.packing_list.schema()
    }

    /// The packing list this dataset was built from.
    pub fn packing_list(&self) -> (r: &PackingList)
        ensures
            *r == self.spec_packing_list(),
    {
        &self.packing_list
    }

    /// The tabular file indices, distinct, in order of first listing.
    pub fn tabular_files(&self) -> (r: &Vec<u32>)
        ensures
            r@ == self@.tabular_files,
    {
        &self.tabular_files
    }

    /// Whether the dataset is indexed.
    pub fn is_indexed(&self) -> (r: bool)
        ensures
            r == self.indexed(),
    {
        self.header_index.is_some()
    }

    /// Starts indexing: the one transition out of the unindexed state. A
    /// dataset that is indexed already is refused.
    pub fn index(self) -> (r: Result<IndexBuilder, DatasetError>)
        requires
            self.wf(),
        ensures
            self.indexed() ==> r == Err::<IndexBuilder, DatasetError>(DatasetError::AlreadyIndexed),
            !self.indexed() ==> (r matches Ok(b) && b.wf() && b.spec_dataset() == self
                && b@.schema == self@.schema && b@.tabular_files == self@.tabular_files
                && b.header_lines() == Seq::<(Seq<u8>, u64)>::empty() && b@.header
                == Map::<Seq<u8>, (u64, u64)>::empty() && b@.positions.len()
                == self@.tabular_files.len() && forall|i: int|
                0 <= i < b@.positions.len() ==> #[trigger] b@.positions[i] == Map::<
                    nat,
                    u64,
                >::empty()),
    {
        if self.header_index.is_some() {
            return Err(DatasetError::AlreadyIndexed);
        }
        let rows = self.packing_list.rows();
        let slots: usize = if rows < usize::MAX as u64 {
            rows as usize + 1
        } else {
            0
        };
        let mut positions: Vec<LogicalRecordPositionIndex> = Vec::new();
        let mut i: usize = 0;
        while i < self.tabular_files.len()
            invariant
                i <= self.tabular_files@.len(),
                positions@.len() == i,
                forall|k: int| 0 <= k < i ==> #[trigger] positions@[k]@ == Map::<nat, u64>::empty(),
            decreases self.tabular_files@.len() - i,
        {
            positions.push(LogicalRecordPositionIndex::new_with_size(slots));
            i = i + 1;
        }
        let b = IndexBuilder {
            dataset: self,
            positions,
            header: HeaderIndex::new(),
            lines: Ghost(Seq::empty()),
        };
        proof {
            assert(b@.positions =~= b.positions@.map_values(|p: LogicalRecordPositionIndex| p@));
        }
        Ok(b)
    }

    /// The file and byte offset of each fragment of record `number`, one per
    /// tabular file, in the order of `tabular_files`.
    pub fn record_offsets(&self, number: u64) -> (r: Result<Vec<(u32, u64)>, DatasetError>)
        requires
            self.wf(),
        ensures
            !self.indexed() ==> r == Err::<Vec<(u32, u64)>, DatasetError>(DatasetError::NotIndexed),
            self.indexed() ==> {
                let p = self@.positions->Some_0;
                &&& p.len() == self@.tabular_files.len()
                &&& (exists|i: int| 0 <= i < p.len() && !(#[trigger] p[i]).contains_key(number as nat))
                    ==> r == Err::<Vec<(u32, u64)>, DatasetError>(
                    DatasetError::InvalidLogicalRecordNumber,
                )
                &&& (forall|i: int| 0 <= i < p.len() ==> (#[trigger] p[i]).contains_key(number as nat))
                    ==> (r matches Ok(v) && v@.len() == p.len() && forall|i: int|
                    0 <= i < p.len() ==> #[trigger] v@[i] == (
                        self@.tabular_files[i],
                        p[i][number as nat],
                    ))
            },
    {
        let positions = match &self.tabular_index {
            None => return Err(DatasetError::NotIndexed),
            Some(p) => p,
        };
        let ghost pv = positions@.map_values(|x: LogicalRecordPositionIndex| x@);
        assert(self@.positions == Some(pv));
        let mut offsets: Vec<(u32, u64)> = Vec::new();
        let mut i: usize = 0;
        while i < positions.len()
            invariant
                self.wf(),
                self.tabular_index == Some(*positions),
                pv == positions@.map_values(|x: LogicalRecordPositionIndex| x@),
                i <= positions@.len(),
                offsets@.len() == i,
                forall|k: int| 0 <= k < i ==> (#[trigger] pv[k]).contains_key(number as nat),
                forall|k: int|
                    0 <= k < i ==> #[trigger] offsets@[k] == (
                        self.tabular_files@[k],
                        pv[k][number as nat],
                    ),
            decreases positions@.len() - i,
        {
            assert(pv[i as int] == positions@[i as int]@);
            let offset = match positions[i].get(number) {
                None => {
                    assert(self@.positions->Some_0 == pv);
                    assert(!pv[i as int].contains_key(number as nat));
                    return Err(DatasetError::InvalidLogicalRecordNumber);
                },
                Some(offset) => offset,
            };
            let ghost before = offsets@;
            let file = self.tabular_files[i];
            offsets.push((file, offset));
            proof {
                assert(offsets@[i as int] == (self.tabular_files@[i as int], pv[i as int][number as nat]));
                assert forall|k: int| 0 <= k < i + 1 implies #[trigger] offsets@[k] == (
                    self.tabular_files@[k],
                    pv[k][number as nat],
                ) by {
                    if k < i {
                        assert(offsets@[k] == before[k]);
                    }
                }
            }
            i = i + 1;
        }
        assert(self@.positions->Some_0 == pv);
        Ok(offsets)
    }

    /// The file and byte offset of record `number` in each of the tabular
    /// files `files`, in that order: the scoped form of `record_offsets`, for
    /// the files that back some tables.
    pub fn record_offsets_in(&self, number: u64, files: &[u32]) -> (r: Result<
        Vec<(u32, u64)>,
        DatasetError,
    >)
        requires
            self.wf(),
        ensures
            !self.indexed() ==> r == Err::<Vec<(u32, u64)>, DatasetError>(DatasetError::NotIndexed),
            self.indexed() ==> match (
                r,
                offsets_in(self@.tabular_files, self@.positions->Some_0, number, files@),
            ) {
                (Ok(v), Ok(s)) => v@ == s,
                (Err(e), Err(se)) => e == se,
                _ => false,
            },
    {
        let positions = match &self.tabular_index {
            None => return Err(DatasetError::NotIndexed),
            Some(p) => p,
        };
        let ghost pv = positions@.map_values(|x: LogicalRecordPositionIndex| x@);
        assert(self@.positions == Some(pv));
        let mut offsets: Vec<(u32, u64)> = Vec::new();
        let mut i: usize = 0;
        assert(files@.take(0) =~= Seq::<u32>::empty());
        while i < files.len()
            invariant
                self.wf(),
                self.tabular_index == Some(*positions),
                self@.positions == Some(pv),
                pv == positions@.map_values(|x: LogicalRecordPositionIndex| x@),
                i <= files@.len(),
                offsets_in(self.tabular_files@, pv, number, files@.take(i as int)) == Ok::<
                    Seq<(u32, u64)>,
                    DatasetError,
                >(offsets@),
            decreases files@.len() - i,
        {
            let f = files[i];
            proof {
                assert(files@.take(i + 1).drop_last() =~= files@.take(i as int));
                assert(files@.take(i + 1).last() == f);
                assert(files@.take(files@.len() as int) =~= files@);
            }
            let p = match position_of(&self.tabular_files, f) {
                None => {
                    proof {
                        lemma_offsets_in_err_sticks(self.tabular_files@, pv, number, files@, i + 1);
                    }
                    return Err(DatasetError::UnknownTabularFile);
                },
                Some(p) => p,
            };
            proof {
                let q = choose|q: int| first_position(self.tabular_files@, f, q);
                lemma_first_position_unique(self.tabular_files@, f, p as int, q);
                assert(pv[p as int] == positions@[p as int]@);
            }
            match positions[p].get(number) {
                None => {
                    proof {
                        lemma_offsets_in_err_sticks(self.tabular_files@, pv, number, files@, i + 1);
                    }
                    return Err(DatasetError::InvalidLogicalRecordNumber);
                },
                Some(offset) => {
                    offsets.push((f, offset));
                },
            }
            i = i + 1;
        }
        assert(files@.take(i as int) =~= files@);
        Ok(offsets)
    }

    /// The logical record number of the area with identifier `geoid`.
    pub fn get_logical_record_number_for_geoid(&self, geoid: &[u8]) -> (r: Result<u64, DatasetError>)
        requires
            self.wf(),
        ensures
            !self.indexed() ==> r == Err::<u64, DatasetError>(DatasetError::NotIndexed),
            self.indexed() ==> {
                let h = self@.header->Some_0;
                &&& h.contains_key(geoid@) ==> r == Ok::<u64, DatasetError>(h[geoid@].0)
                &&& !h.contains_key(geoid@) ==> r == Err::<u64, DatasetError>(
                    DatasetError::InvalidGeoId,
                )
            },
    {
        match &self.header_index {
            None => Err(DatasetError::NotIndexed),
            Some(h) => match h.get(geoid) {
                None => Err(DatasetError::InvalidGeoId),
                Some((n, _)) => Ok(n),
            },
        }
    }

    /// The byte offset in the header file of the line of area `geoid`.
    pub fn header_offset_for_geoid(&self, geoid: &[u8]) -> (r: Result<u64, DatasetError>)
        requires
            self.wf(),
        ensures
            !self.indexed() ==> r == Err::<u64, DatasetError>(DatasetError::NotIndexed),
            self.indexed() ==> {
                let h = self@.header->Some_0;
                &&& h.contains_key(geoid@) ==> r == Ok::<u64, DatasetError>(h[geoid@].1)
                &&& !h.contains_key(geoid@) ==> r == Err::<u64, DatasetError>(
                    DatasetError::InvalidGeoId,
                )
            },
    {
        match &self.header_index {
            None => Err(DatasetError::NotIndexed),
            Some(h) => match h.get(geoid) {
                None => Err(DatasetError::InvalidGeoId),
                Some((_, offset)) => Ok(offset),
            },
        }
    }

    /// The header read back from the line at a header offset, in the layout
    /// of the dataset's schema.
    pub fn header_from_line(&self, line: &[u8]) -> (r: Header)
        ensures
            r.spec_schema_matches(self@.schema),
            match r {
                Header::Census2010(h) => h@ == line@,
                Header::Census2020(h) => h@ == census2020::pl94_171::spec_fields(line@),
            },
    {
        Header::from_line(self.packing_list.schema(), line)
    }

    /// Assembles the fragments of record `number` read back from the tabular
    /// files; each fragment's record-number column must carry `number`.
    pub fn assemble_record(&self, number: u64, fragments: Vec<(u32, Vec<Vec<u8>>)>) -> (r: Result<
        FileBackedLogicalRecord,
        DatasetError,
    >)
        ensures
            (forall|i: int|
                0 <= i < fragments@.len() ==> fragment_logrecno(
                    (#[trigger] fragments@[i]).1@.map_values(|f: Vec<u8>| f@),
                ) == Some(number)) ==> (r matches Ok(rec) && rec.spec_number() == number
                && rec.fragments() == fragments@),
            !(forall|i: int|
                0 <= i < fragments@.len() ==> fragment_logrecno(
                    (#[trigger] fragments@[i]).1@.map_values(|f: Vec<u8>| f@),
                ) == Some(number)) ==> r == Err::<FileBackedLogicalRecord, DatasetError>(
                DatasetError::RecordMismatch,
            ),
    {
        let mut i: usize = 0;
        while i < fragments.len()
            invariant
                i <= fragments@.len(),
                forall|k: int|
                    0 <= k < i ==> fragment_logrecno(
                        (#[trigger] fragments@[k]).1@.map_values(|f: Vec<u8>| f@),
                    ) == Some(number),
            decreases fragments@.len() - i,
        {
            let fields = &fragments[i].1;
            let ghost fv = fields@.map_values(|f: Vec<u8>| f@);
            if fields.len() <= 4 {
                assert(fragment_logrecno(fv) is None);
                return Err(DatasetError::RecordMismatch);
            }
            assert(fv[4] == fields@[4]@);
            match parse_u64(fields[4].as_slice()) {
                Some(n) => {
                    if n != number {
                        return Err(DatasetError::RecordMismatch);
                    }
                },
                None => return Err(DatasetError::RecordMismatch),
            }
            i = i + 1;
        }
        Ok(FileBackedLogicalRecord { number, fragments })
    }
}

/// An indexing pass in progress over the files of a dataset.
pub struct IndexBuilder {
    dataset: IndexedDataset,
    positions: Vec<LogicalRecordPositionIndex>,
    header: HeaderIndex,
    lines: Ghost<Seq<(Seq<u8>, u64)>>,
}

/// An indexing pass, as a value.
pub struct IndexBuilderModel {
    pub schema: Schema,
    pub tabular_files: Seq<u32>,
    pub positions: Seq<Map<nat, u64>>,
    pub header: Map<Seq<u8>, (u64, u64)>,
}

impl View for IndexBuilder {
    type V = IndexBuilderModel;

    closed spec fn view(&self) -> IndexBuilderModel {
        IndexBuilderModel {
            schema: self.dataset@.schema,
            tabular_files: self.dataset@.tabular_files,
            positions: self.positions@.map_values(|p: LogicalRecordPositionIndex| p@),
            header: self.header@,
        }
    }
}

impl IndexBuilder {
    pub closed spec fn wf(&self) -> bool {
        &&& self.dataset.wf()
        &&& !self.dataset.indexed()
        &&& self.positions@.len() == self.dataset.tabular_files@.len()
        &&& self.header.wf()
        &&& header_index_of(self.dataset@.schema, self.lines@) == Ok::<
            Map<Seq<u8>, (u64, u64)>,
            DatasetError,
        >(self.header@)
    }

    /// The dataset being indexed.
    pub closed spec fn spec_dataset(&self) -> IndexedDataset {
        self.dataset
    }

    /// The header lines taken in so far, with their offsets.
    pub closed spec fn header_lines(&self) -> Seq<(Seq<u8>, u64)> {
        self.lines@
    }

    /// Takes in one record of tabular file `file`, which starts at byte
    /// `offset` on 1-based line `line`.
    pub fn add_tabular_record(&mut self, file: u32, fields: &Vec<Vec<u8>>, line: u64, offset: u64) -> (r:
        Result<(), DatasetError>)
        requires
            old(self).wf(),
        ensures
            final(self).wf(),
            final(self).spec_dataset() == old(self).spec_dataset(),
            final(self)@.schema == old(self)@.schema,
            final(self)@.tabular_files == old(self)@.tabular_files,
            final(self)@.positions.len() == final(self)@.tabular_files.len(),
            header_index_of(final(self)@.schema, final(self).header_lines()) == Ok::<
                Map<Seq<u8>, (u64, u64)>,
                DatasetError,
            >(final(self)@.header),
            final(self).header_lines() == old(self).header_lines(),
            final(self)@.header == old(self)@.header,
            !old(self)@.tabular_files.contains(file) ==> r == Err::<(), DatasetError>(
                DatasetError::UnknownTabularFile,
            ) && final(self)@ == old(self)@,
            old(self)@.tabular_files.contains(file) ==> match tabular_logrecno(
                old(self)@.schema,
                fields@.map_values(|f: Vec<u8>| f@),
                line,
            ) {
                Err(e) => r == Err::<(), DatasetError>(e) && final(self)@ == old(self)@,
                Ok(n) => if n >= usize::MAX {
                    r == Err::<(), DatasetError>(DatasetError::MalformedLogicalRecordNumber)
                        && final(self)@ == old(self)@
                } else {
                    r is Ok && exists|p: int|
                        first_position(old(self)@.tabular_files, file, p) && final(self)@.positions
                            == old(self)@.positions.update(
                            p,
                            old(self)@.positions[p].insert(n as nat, offset),
                        )
                },
            },
    {
        let p = match position_of(&self.dataset.tabular_files, file) {
            None => return Err(DatasetError::UnknownTabularFile),
            Some(p) => p,
        };
        let ghost fv = fields@.map_values(|f: Vec<u8>| f@);
        let n: u64 = match self.dataset.packing_list.schema() {
            Schema::Census2010(_) => {
                if fields.len() <= 4 {
                    return Err(DatasetError::MalformedLogicalRecordNumber);
                }
                assert(fv[4] == fields@[4]@);
                match parse_u64(fields[4].as_slice()) {
                    None => return Err(DatasetError::MalformedLogicalRecordNumber),
                    Some(n) => n,
                }
            },
            Schema::Census2020(_) => line,
        };
        if n >= usize::MAX as u64 {
            return Err(DatasetError::MalformedLogicalRecordNumber);
        }
        let ghost before = self.positions@;
        let mut index = LogicalRecordPositionIndex::new_with_size(0);
        self.positions.set_and_swap(p, &mut index);
        index.insert(n, offset);
        self.positions.set_and_swap(p, &mut index);
        proof {
            assert(self@.positions =~= old(self)@.positions.update(
                p as int,
                old(self)@.positions[p as int].insert(n as nat, offset),
            ));
        }
        Ok(())
    }

    /// Takes in the header line `line` that starts at byte `offset` of the
    /// header file.
    pub fn add_header_line(&mut self, line: &[u8], offset: u64) -> (r: Result<(), DatasetError>)
        requires
            old(self).wf(),
        ensures
            final(self).wf(),
            final(self).spec_dataset() == old(self).spec_dataset(),
            final(self)@.schema == old(self)@.schema,
            final(self)@.tabular_files == old(self)@.tabular_files,
            final(self)@.positions.len() == final(self)@.tabular_files.len(),
            header_index_of(final(self)@.schema, final(self).header_lines()) == Ok::<
                Map<Seq<u8>, (u64, u64)>,
                DatasetError,
            >(final(self)@.header),
            final(self)@.positions == old(self)@.positions,
            match header_index_of(old(self)@.schema, old(self).header_lines().push((line@, offset))) {
                Ok(m) => r is Ok && final(self)@.header == m && final(self).header_lines() == old(
                    self,
                ).header_lines().push((line@, offset)),
                Err(e) => r == Err::<(), DatasetError>(e) && final(self)@ == old(self)@
                    && final(self).header_lines() == old(self).header_lines(),
            },
    {
        let ghost pushed = self.lines@.push((line@, offset));
        proof {
            assert(pushed.drop_last() =~= self.lines@);
        }
        let header = Header::from_line(self.dataset.packing_list.schema(), line);
        match header.index_entry() {
            Err(e) => Err(e),
            Ok(None) => {
                self.lines = Ghost(pushed);
                Ok(())
            },
            Ok(Some((geoid, n))) => {
                match self.header.insert(geoid, n, offset) {
                    Err(e) => Err(e),
                    Ok(()) => {
                        self.lines = Ghost(pushed);
                        Ok(())
                    },
                }
            },
        }
    }

    /// Ends the pass: the dataset, indexed with what was taken in.
    pub fn finish(self) -> (r: IndexedDataset)
        requires
            self.wf(),
        ensures
            r.wf(),
            r.indexed(),
            r@.schema == self@.schema,
            r@.tabular_files == self@.tabular_files,
            r@.header == Some(self@.header),
            r@.positions == Some(self@.positions),
            self@.positions.len() == self@.tabular_files.len(),
            header_index_of(self@.schema, self.header_lines()) == Ok::<
                Map<Seq<u8>, (u64, u64)>,
                DatasetError,
            >(self@.header),
            r.spec_packing_list() == self.spec_dataset().spec_packing_list(),
    {
        let IndexBuilder { dataset, positions, header, lines } = self;
        IndexedDataset {
            packing_list: dataset.packing_list,
            tabular_files: dataset.tabular_files,
            header_index: Some(header),
            tabular_index: Some(positions),
        }
    }
}

/// A geographic header line in the layout of its schema.
pub enum Header {
    Census2010(census2010::pl94_171::GeographicalHeader),
    Census2020(census2020::pl94_171::GeographicalHeader),
}

impl Header {
    /// The header is in the layout of `schema`.
    pub open spec fn spec_schema_matches(&self, schema: Schema) -> bool {
        match self {
            Header::Census2010(_) => schema is Census2010,
            Header::Census2020(_) => schema is Census2020,
        }
    }

    /// The header of `line` in the layout of `schema`.
    pub fn from_line(schema: Schema, line: &[u8]) -> (r: Header)
        ensures
            r.spec_schema_matches(schema),
            match r {
                Header::Census2010(h) => h@ == line@,
                Header::Census2020(h) => h@ == census2020::pl94_171::spec_fields(line@),
            },
    {
        match schema {
            Schema::Census2010(_) => {
                let data = crate::text::copy_range(line, 0, line.len());
                assert(data@ =~= line@);
                Header::Census2010(census2010::pl94_171::GeographicalHeader::from_bytes(data))
            },
            Schema::Census2020(_) => Header::Census2020(
                census2020::pl94_171::GeographicalHeader::from_bytes(line),
            ),
        }
    }

    /// The area name.
    pub fn name(&self) -> (r: Option<Vec<u8>>)
        ensures
            match self {
                Header::Census2010(h) => match r {
                    Some(n) => census2010::pl94_171::spec_name(h@) == Some(n@),
                    None => census2010::pl94_171::spec_name(h@) is None,
                },
                Header::Census2020(h) => match r {
                    Some(n) => census2020::pl94_171::spec_field(h@, 87) == Some(n@),
                    None => census2020::pl94_171::spec_field(h@, 87) is None,
                },
            },
    {
        match self {
            Header::Census2010(h) => h.name(),
            Header::Census2020(h) => match h.name() {
                Some(n) => Some(crate::text::copy_range(n, 0, n.len())),
                None => None,
            },
        }
    }

    /// The logical record number.
    pub fn logrecno(&self) -> (r: Option<u64>)
        ensures
            match self {
                Header::Census2010(h) => r == census2010::pl94_171::spec_logrecno(h@),
                Header::Census2020(h) => r == census2020::pl94_171::spec_logrecno(h@),
            },
    {
        match self {
            Header::Census2010(h) => h.logrecno(),
            Header::Census2020(h) => h.logrecno(),
        }
    }

    /// The identifier and logical record number under which the line is
    /// indexed, or `None` for a line of an aggregate area.
    pub fn index_entry(&self) -> (r: Result<Option<(Vec<u8>, u64)>, DatasetError>)
        ensures
            match self {
                Header::Census2010(h) => match (r, census2010::pl94_171::spec_index_entry(h@)) {
                    (Ok(Some((g, n))), Ok(Some((sg, sn)))) => g@ == sg && n == sn,
                    (Ok(None), Ok(None)) => true,
                    (Err(e), Err(se)) => e == se,
                    _ => false,
                },
                Header::Census2020(h) => match (r, census2020::pl94_171::spec_index_entry(h@)) {
                    (Ok(Some((g, n))), Ok(Some((sg, sn)))) => g@ == sg && n == sn,
                    (Ok(None), Ok(None)) => true,
                    (Err(e), Err(se)) => e == se,
                    _ => false,
                },
            },
    {
        match self {
            Header::Census2010(h) => h.index_entry(),
            Header::Census2020(h) => h.index_entry(),
        }
    }
}

/// One logical record: its number and, for each tabular file read, the
/// fields of its fragment there.
pub struct FileBackedLogicalRecord {
    number: u64,
    fragments: Vec<(u32, Vec<Vec<u8>>)>,
}

/// The fields of the first fragment from tabular file `file`.
pub open spec fn fragment_of(fragments: Seq<(u32, Seq<Seq<u8>>)>, file: u32) -> Option<Seq<Seq<u8>>>
    decreases fragments.len(),
{
    if fragments.len() == 0 {
        None
    } else if fragments[0].0 == file {
        Some(fragments[0].1)
    } else {
        fragment_of(fragments.drop_first(), file)
    }
}

/// The fields that table segments select from a record's fragments, run
/// together in segment order; `None` where a segment's file or columns are
/// missing.
pub open spec fn select_segments(
    fragments: Seq<(u32, Seq<Seq<u8>>)>,
    locations: Seq<TableSegmentLocation>,
) -> Option<Seq<Seq<u8>>>
    decreases locations.len(),
{
    if locations.len() == 0 {
        Some(Seq::empty())
    } else {
        let l = locations.last();
        match (select_segments(fragments, locations.drop_last()), fragment_of(fragments, l.file)) {
            (Some(fields), Some(fragment)) => if l.start <= l.end <= fragment.len() {
                Some(fields + fragment.subrange(l.start as int, l.end as int))
            } else {
                None
            },
            _ => None,
        }
    }
}

impl FileBackedLogicalRecord {
    pub closed spec fn spec_number(&self) -> u64 {
        self.number
    }

    /// The fragments, by file, as given.
    pub closed spec fn fragments(&self) -> Seq<(u32, Vec<Vec<u8>>)> {
        self.fragments@
    }

    /// The fragments as values.
    pub open spec fn fragment_values(&self) -> Seq<(u32, Seq<Seq<u8>>)> {
        self.fragments().map_values(|f: (u32, Vec<Vec<u8>>)| (f.0, f.1@.map_values(|v: Vec<u8>| v@)))
    }

    /// The fields of one table: the columns its segments select from the
    /// fragments, run together in segment order.
    pub fn table_fields(&self, locations: &[TableSegmentLocation]) -> (r: Option<Vec<Vec<u8>>>)
        ensures
            match r {
                Some(fields) => select_segments(self.fragment_values(), locations@) == Some(
                    fields@.map_values(|f: Vec<u8>| f@),
                ),
                None => select_segments(self.fragment_values(), locations@) is None,
            },
    {
        let ghost frs = self.fragment_values();
        let mut fields: Vec<Vec<u8>> = Vec::new();
        let mut j: usize = 0;
        assert(locations@.take(0) =~= Seq::<TableSegmentLocation>::empty());
        assert(fields@.map_values(|f: Vec<u8>| f@) =~= Seq::<Seq<u8>>::empty());
        while j < locations.len()
            invariant
                j <= locations@.len(),
                frs == self.fragment_values(),
                select_segments(frs, locations@.take(j as int)) == Some(
                    fields@.map_values(|f: Vec<u8>| f@),
                ),
            decreases locations@.len() - j,
        {
            let l = locations[j];
            proof {
                assert(locations@.take(j + 1).drop_last() =~= locations@.take(j as int));
                assert(locations@.take(j + 1).last() == l);
            }
            let p = match self.fragment_position(l.file) {
                None => {
                    proof {
                        lemma_select_none_sticks(frs, locations@, j + 1);
                        assert(locations@.take(locations@.len() as int) =~= locations@);
                    }
                    return None;
                },
                Some(p) => p,
            };
            let fragment = &self.fragments[p].1;
            let ghost fv = fragment@.map_values(|f: Vec<u8>| f@);
            assert(fragment_of(frs, l.file) == Some(fv));
            if !(l.start <= l.end && l.end <= fragment.len()) {
                proof {
                    lemma_select_none_sticks(frs, locations@, j + 1);
                    assert(locations@.take(locations@.len() as int) =~= locations@);
                }
                return None;
            }
            let ghost before = fields@.map_values(|f: Vec<u8>| f@);
            let mut c: usize = l.start;
            while c < l.end
                invariant
                    l.start <= c <= l.end <= fragment@.len(),
                    fv == fragment@.map_values(|f: Vec<u8>| f@),
                    fields@.map_values(|f: Vec<u8>| f@) == before + fv.subrange(
                        l.start as int,
                        c as int,
                    ),
                decreases l.end - c,
            {
                let field = copy_range(fragment[c].as_slice(), 0, fragment[c].len());
                let ghost prev = fields@;
                fields.push(field);
                proof {
                    assert(field@ =~= fv[c as int]);
                    assert(fields@.map_values(|f: Vec<u8>| f@) =~= prev.map_values(|f: Vec<u8>| f@).push(field@));
                    assert(before + fv.subrange(l.start as int, c + 1) =~= (before + fv.subrange(
                        l.start as int,
                        c as int,
                    )).push(fv[c as int]));
                }
                c = c + 1;
            }
            j = j + 1;
        }
        assert(locations@.take(j as int) =~= locations@);
        Some(fields)
    }

    /// The position of the first fragment from tabular file `file`.
    fn fragment_position(&self, file: u32) -> (r: Option<usize>)
        ensures
            match r {
                Some(p) => p < self.fragments@.len() && self.fragments@[p as int].0 == file
                    && fragment_of(self.fragment_values(), file) == Some(
                    self.fragments@[p as int].1@.map_values(|f: Vec<u8>| f@),
                ),
                None => fragment_of(self.fragment_values(), file) is None,
            },
    {
        let ghost frs = self.fragment_values();
        let mut i: usize = 0;
        assert(frs.skip(0) =~= frs);
        while i < self.fragments.len()
            invariant
                i <= self.fragments@.len(),
                frs == self.fragment_values(),
                fragment_of(frs, file) == fragment_of(frs.skip(i as int), file),
            decreases self.fragments@.len() - i,
        {
            proof {
                assert(frs.skip(i as int)[0] == frs[i as int]);
                assert(frs.skip(i as int).drop_first() =~= frs.skip(i + 1));
            }
            if self.fragments[i].0 == file {
                return Some(i);
            }
            i = i + 1;
        }
        assert(frs.skip(i as int) =~= Seq::<(u32, Seq<Seq<u8>>)>::empty());
        None
    }

    /// The logical record number.
    pub fn number(&self) -> (r: u64)
        ensures
            r == self.spec_number(),
    {
        self.number
    }

    /// The fields of the fragment from tabular file `file`.
    pub fn fragment(&self, file: u32) -> (r: Option<&Vec<Vec<u8>>>)
        ensures
            match r {
                Some(f) => exists|i: int|
                    0 <= i < self.fragments().len() && self.fragments()[i] == (file, *f) && forall|
                        k: int,
                    |
                        0 <= k < i ==> self.fragments()[k].0 != file,
                None => forall|k: int| 0 <= k < self.fragments().len() ==> self.fragments()[k].0 != file,
            },
    {
        let mut i: usize = 0;
        while i < self.fragments.len()
            invariant
                i <= self.fragments@.len(),
                forall|k: int| 0 <= k < i ==> self.fragments@[k].0 != file,
            decreases self.fragments@.len() - i,
        {
            if self.fragments[i].0 == file {
                assert(self.fragments()[i as int] == (file, self.fragments@[i as int].1));
                return Some(&self.fragments[i].1);
            }
            i = i + 1;
        }
        None
    }
}

proof fn lemma_select_none_sticks(
    fragments: Seq<(u32, Seq<Seq<u8>>)>,
    locations: Seq<TableSegmentLocation>,
    j: int,
)
    requires
        0 <= j <= locations.len(),
        select_segments(fragments, locations.take(j)) is None,
    ensures
        select_segments(fragments, locations.take(locations.len() as int)) is None,
    decreases locations.len() - j,
{
    if j < locations.len() {
        assert(locations.take(j + 1).drop_last() =~= locations.take(j));
        lemma_select_none_sticks(fragments, locations, j + 1);
    }
}

/// A header line of an aggregate area contributes no identifier.
pub proof fn lemma_aggregate_line_has_no_entry(schema: Schema, line: Seq<u8>)
    requires
        is_aggregate_line(schema, line),
    ensures
        header_entry(schema, line) == Ok::<Option<(Seq<u8>, u64)>, DatasetError>(None),
{
}

/// Every identifier of a header index comes from a line of the file that is
/// not of an aggregate area (its county, tract and block are all present),
/// with that line's record number and offset: aggregate lines never become
/// keys.
pub proof fn lemma_index_keys_come_from_areas(schema: Schema, lines: Seq<(Seq<u8>, u64)>)
    requires
        header_index_of(schema, lines) is Ok,
    ensures
        forall|k: Seq<u8>|
            #[trigger] header_index_of(schema, lines)->Ok_0.contains_key(k) ==> exists|i: int|
                0 <= i < lines.len() && !is_aggregate_line(schema, lines[i].0) && header_entry(
                    schema,
                    lines[i].0,
                ) == Ok::<Option<(Seq<u8>, u64)>, DatasetError>(
                    Some((k, header_index_of(schema, lines)->Ok_0[k].0)),
                ) && header_index_of(schema, lines)->Ok_0[k].1 == lines[i].1,
    decreases lines.len(),
{
    if lines.len() > 0 {
        let init = lines.drop_last();
        lemma_index_keys_come_from_areas(schema, init);
        let m0 = header_index_of(schema, init)->Ok_0;
        let m = header_index_of(schema, lines)->Ok_0;
        let last = lines.len() - 1;
        assert(lines.last() == lines[last]);
        assert forall|k: Seq<u8>| #[trigger] m.contains_key(k) implies exists|i: int|
            0 <= i < lines.len() && !is_aggregate_line(schema, lines[i].0) && header_entry(
                schema,
                lines[i].0,
            ) == Ok::<Option<(Seq<u8>, u64)>, DatasetError>(Some((k, m[k].0))) && m[k].1
                == lines[i].1 by {
            match header_entry(schema, lines[last].0) {
                Ok(Some((g, n))) => {
                    if k == g {
                        if is_aggregate_line(schema, lines[last].0) {
                            lemma_aggregate_line_has_no_entry(schema, lines[last].0);
                        }
                    } else {
                        assert(m0.contains_key(k));
                        let i = choose|i: int|
                            0 <= i < init.len() && !is_aggregate_line(schema, init[i].0)
                                && header_entry(schema, init[i].0) == Ok::<
                                Option<(Seq<u8>, u64)>,
                                DatasetError,
                            >(Some((k, m0[k].0))) && m0[k].1 == init[i].1;
                        assert(init[i] == lines[i]);
                    }
                },
                _ => {
                    assert(m0.contains_key(k));
                    let i = choose|i: int|
                        0 <= i < init.len() && !is_aggregate_line(schema, init[i].0) && header_entry(
                            schema,
                            init[i].0,
                        ) == Ok::<Option<(Seq<u8>, u64)>, DatasetError>(Some((k, m0[k].0)))
                            && m0[k].1 == init[i].1;
                    assert(init[i] == lines[i]);
                },
            }
        }
    }
}

} // verus!
