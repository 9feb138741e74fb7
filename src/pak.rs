//! The archive handle: the archive's bytes together with the index that
//! loading them produced.

use crate::errors::{IdPakLoadError, IdPakLoadResult};
use crate::fileentry::{entry_at, EntryView, IdPakFileEntry, FILE_ENTRY_SIZE};
use crate::header::{has_pak_signature, le_u32, IdPakHeader, HEADER_SIZE};
use crate::index::{
    index_of, lemma_index_last_wins, lemma_index_len, lemma_index_push, lemma_index_replace, lemma_index_unique,
    names_unique,
};
use vstd::prelude::*;

verus! {

/// The table offset that the header at the start of `data` gives.
pub open spec fn toc_offset(data: Seq<u8>) -> int {
    le_u32(data, 4)
}

/// The number of whole records in the table that the header at the start of
/// `data` describes; trailing bytes of a partial record are not counted.
pub open spec fn toc_count(data: Seq<u8>) -> int {
    le_u32(data, 8) / (FILE_ENTRY_SIZE as int)
}

/// Whether `data` loads: it starts with a header carrying the signature,
/// and every whole record of its table lies within it.
pub open spec fn loads(data: Seq<u8>) -> bool {
    &&& data.len() >= HEADER_SIZE
    &&& has_pak_signature(data)
    &&& (toc_count(data) == 0 || toc_offset(data) + FILE_ENTRY_SIZE * toc_count(data)
        <= data.len())
}

/// The records of the table of contents of `data`, in table order.
pub open spec fn toc_entries(data: Seq<u8>) -> Seq<EntryView> {
    Seq::new(
        toc_count(data) as nat,
        |i: int| entry_at(data, toc_offset(data) + FILE_ENTRY_SIZE * i),
    )
}

/// The index that loading `data` builds.
pub open spec fn loaded_index(data: Seq<u8>) -> Map<Seq<char>, EntryView> {
    index_of(toc_entries(data))
}

/// The views of a sequence of records.
pub open spec fn views(s: Seq<IdPakFileEntry>) -> Seq<EntryView> {
    s.map_values(|e: IdPakFileEntry| e@)
}

/// Whether the payload of `e` lies within `data`.
pub open spec fn payload_fits(data: Seq<u8>, e: EntryView) -> bool {
    e.offset + e.size <= data.len()
}

/// The payload bytes of `e` in `data`.
pub open spec fn payload(data: Seq<u8>, e: EntryView) -> Seq<u8> {
    data.subrange(e.offset as int, e.offset + e.size)
}

/// Lookup of files by path, and of their contents.
pub trait IdPakReader {
    /// The index: each path with the record stored under it.
    spec fn files(&self) -> Map<Seq<char>, EntryView>;

    /// The bytes that records point into.
    spec fn source(&self) -> Seq<u8>;

    /// The record stored under exactly `path`, if there is one.
    fn get_file(&self, path: &str) -> (r: Option<IdPakFileEntry>)
        ensures
            match r {
                Some(e) => self.files().contains_key(path@) && e@ == self.files()[path@],
                None => !self.files().contains_key(path@),
            },
    ;

    /// The contents of the file stored under exactly `path`: `None` if there
    /// is no such file, or if its payload runs past the end of the data.
    fn get_file_bytes(&self, path: &str) -> (r: Option<Vec<u8>>)
        ensures
            match r {
                Some(v) => self.files().contains_key(path@) && payload_fits(
                    self.source(),
                    self.files()[path@],
                ) && v@ == payload(self.source(), self.files()[path@]),
                None => !self.files().contains_key(path@) || !payload_fits(
                    self.source(),
                    self.files()[path@],
                ),
            },
    ;
}

/// Representation of an Id PAK archive.
pub struct IdPak {
    /// The archive's bytes.
    data: Vec<u8>,
    /// Header information.
    header: IdPakHeader,
    /// The records of the index, at most one per name.
    files: Vec<IdPakFileEntry>,
}

impl IdPak {
    #[verifier::type_invariant]
    spec fn wf(self) -> bool {
        names_unique(views(self.files@))
    }

    /// The header of the last successful load, or the empty default one.
    pub closed spec fn header(&self) -> IdPakHeader {
        self.header
    }

    /// Loads PAK data held in memory.
    pub fn new(source: Vec<u8>) -> (r: IdPakLoadResult<IdPak>)
        ensures
            match r {
                Ok(pak) => loads(source@) && pak.source() == source@ && pak.files()
                    == loaded_index(source@) && pak.header().decoded_from(source@),
                Err(e) => !loads(source@) && e is UpdateFailure,
            },
    {
        let mut pak = IdPak { data: source, header: IdPakHeader::default(), files: Vec::new() };
        proof {
            assert(views(pak.files@) =~= Seq::<EntryView>::empty());
        }
        match pak.update() {
            Ok(()) => Ok(pak),
            Err(e) => Err(e),
        }
    }

    /// Returns the number of files the PAK contains.
    pub fn get_file_count(&self) -> (r: usize)
        ensures
            r == self.files().dom().len(),
    {
        proof {
            use_type_invariant(self);
            lemma_index_len(views(self.files@));
        }
        self.files.len()
    }

    /// Reads the header and the table of contents again; on failure the
    /// handle is left as it was.
    fn update(&mut self) -> (r: IdPakLoadResult<()>)
        ensures
            final(self).source() == old(self).source(),
            match r {
                Ok(()) => loads(old(self).source()) && final(self).files() == loaded_index(
                    old(self).source(),
                ) && final(self).header().decoded_from(old(self).source()),
                Err(e) => !loads(old(self).source()) && e is UpdateFailure && *final(self) == *old(
                    self,
                ),
            },
    {
        proof {
            use_type_invariant(&*self);
        }
        let header = match self.update_header() {
            Ok(h) => h,
            Err(e) => return Err(e),
        };
        let files = match self.update_file_table(&header) {
            Ok(f) => f,
            Err(e) => return Err(e),
        };
        self.header = header;
        self.files = files;
        Ok(())
    }

    /// Reads the header at the start of the data.
    fn update_header(&self) -> (r: Result<IdPakHeader, IdPakLoadError>)
        ensures
            match r {
                Ok(h) => self.data@.len() >= HEADER_SIZE && has_pak_signature(self.data@)
                    && h.decoded_from(self.data@),
                Err(e) => !(self.data@.len() >= HEADER_SIZE && has_pak_signature(self.data@))
                    && e is UpdateFailure,
            },
    {
        if self.data.len() < HEADER_SIZE {
            return Err(IdPakLoadError::UpdateFailure);
        }
        let bytes = &self.data[0..HEADER_SIZE];
        match IdPakHeader::try_from(bytes) {
            Ok(h) => {
                proof {
                    assert(bytes@ =~= self.data@.subrange(0, HEADER_SIZE as int));
                    assert(h.id@ =~= self.data@.subrange(0, 4));
                }
                Ok(h)
            },
            Err(_) => Err(IdPakLoadError::UpdateFailure),
        }
    }

    /// Reads the whole records of the table of contents that `header`
    /// describes and indexes them by name, a later record replacing an
    /// earlier one of the same name.
    fn update_file_table(&self, header: &IdPakHeader) -> (r: Result<
        Vec<IdPakFileEntry>,
        IdPakLoadError,
    >)
        requires
            self.data@.len() >= HEADER_SIZE,
            has_pak_signature(self.data@),
            header.decoded_from(self.data@),
        ensures
            match r {
                Ok(files) => loads(self.data@) && names_unique(views(files@)) && index_of(
                    views(files@),
                ) == loaded_index(self.data@),
                Err(e) => !loads(self.data@) && e is UpdateFailure,
            },
    {
        let count: usize = (header.size as usize) / FILE_ENTRY_SIZE;
        let start: u64 = header.offset as u64;
        let len: u64 = self.data.len() as u64;
        if count > 0 && start + (FILE_ENTRY_SIZE as u64) * (count as u64) > len {
            return Err(IdPakLoadError::UpdateFailure);
        }
        let ghost data = self.data@;
        let mut files: Vec<IdPakFileEntry> = Vec::new();
        let mut i: usize = 0;
        while i < count
            invariant
                data == self.data@,
                data.len() <= usize::MAX,
                header.decoded_from(data),
                count == toc_count(data),
                start == toc_offset(data),
                count == 0 || start + FILE_ENTRY_SIZE * count <= data.len(),
                i <= count,
                names_unique(views(files@)),
                index_of(views(files@)) == index_of(toc_entries(data).subrange(0, i as int)),
            decreases count - i,
        {
            proof {
                assert(FILE_ENTRY_SIZE * (i + 1) <= FILE_ENTRY_SIZE * count) by (nonlinear_arith)
                    requires
                        i < count,
                ;
            }
            let pos: usize = (start as usize) + FILE_ENTRY_SIZE * i;
            let bytes = &self.data[pos..pos + FILE_ENTRY_SIZE];
            let entry = match IdPakFileEntry::try_from(bytes) {
                Ok(e) => e,
                Err(_) => return Err(IdPakLoadError::UpdateFailure),
            };
            proof {
                assert(entry@ == toc_entries(data)[i as int]) by {
                    assert(bytes@ =~= data.subrange(pos as int, pos + FILE_ENTRY_SIZE));
                    assert(entry@.raw_name =~= toc_entries(data)[i as int].raw_name);
                }
                assert(toc_entries(data).subrange(0, i + 1).drop_last() =~= toc_entries(
                    data,
                ).subrange(0, i as int));
            }
            insert_entry(&mut files, entry);
            i = i + 1;
        }
        proof {
            assert(toc_entries(data).subrange(0, count as int) =~= toc_entries(data));
        }
        Ok(files)
    }
}

/// Stores `entry` under its name, replacing a record of the same name.
fn insert_entry(files: &mut Vec<IdPakFileEntry>, entry: IdPakFileEntry)
    requires
        names_unique(views(old(files)@)),
    ensures
        names_unique(views(final(files)@)),
        index_of(views(final(files)@)) == index_of(views(old(files)@)).insert(
            entry@.name(),
            entry@,
        ),
{
    let name = entry.get_name();
    let mut j: usize = 0;
    while j < files.len()
        invariant
            files@ == old(files)@,
            names_unique(views(old(files)@)),
            name@ == entry@.name(),
            forall|k: int| 0 <= k < j ==> #[trigger] views(files@)[k].name() != entry@.name(),
        decreases files.len() - j,
    {
        if files[j].get_name() == name {
            proof {
                lemma_index_replace(views(files@), j as int, entry@);
                assert(views(files@).update(j as int, entry@) =~= views(
                    files@.update(j as int, entry),
                ));
            }
            files.set(j, entry);
            return;
        }
        j = j + 1;
    }
    proof {
        lemma_index_push(views(files@), entry@);
        assert(views(files@).push(entry@) =~= views(files@.push(entry)));
        assert forall|a: int, b: int|
            0 <= a < files@.len() + 1 && 0 <= b < files@.len() + 1 && a != b implies #[trigger] views(files@).push(entry@)[a].name()
            != #[trigger] views(files@).push(entry@)[b].name() by {
            if a < files@.len() && b < files@.len() {
                assert(views(files@)[a].name() != views(files@)[b].name());
            }
        }
    }
    files.push(entry);
}

impl IdPakReader for IdPak {
    closed spec fn files(&self) -> Map<Seq<char>, EntryView> {
        index_of(views(self.files@))
    }

    closed spec fn source(&self) -> Seq<u8> {
        self.data@
    }

    fn get_file(&self, path: &str) -> (r: Option<IdPakFileEntry>) {
        proof {
            use_type_invariant(self);
        }
        let key = path.to_owned();
        let mut j: usize = 0;
        while j < self.files.len()
            invariant
                key@ == path@,
                names_unique(views(self.files@)),
                forall|k: int| 0 <= k < j ==> #[trigger] views(self.files@)[k].name() != path@,
            decreases self.files.len() - j,
        {
            if self.files[j].get_name() == key {
                proof {
                    lemma_index_unique(views(self.files@), j as int);
                }
                return Some(self.files[j]);
            }
            j = j + 1;
        }
        proof {
            crate::index::lemma_index_keys(views(self.files@), path@);
        }
        None
    }

    fn get_file_bytes(&self, path: &str) -> (r: Option<Vec<u8>>) {
        let entry = match self.get_file(path) {
            Some(e) => e,
            None => return None,
        };
        let start: u64 = entry.offset as u64;
        let end: u64 = start + entry.size as u64;
        if end > self.data.len() as u64 {
            return None;
        }
        let mut out: Vec<u8> = Vec::new();
        let mut p: usize = start as usize;
        while p < end as usize
            invariant
                start <= p <= end <= self.data@.len(),
                out@ =~= self.data@.subrange(start as int, p as int),
            decreases end - p,
        {
            out.push(self.data[p]);
            p = p + 1;
        }
        Some(out)
    }
}

/// When two records of the table share a name, the later one is what the
/// loaded index holds under it, provided no record after it has that name.
pub proof fn lemma_later_duplicate_wins(data: Seq<u8>, i: int, j: int)
    requires
        loads(data),
        0 <= i < j < toc_count(data),
        toc_entries(data)[i].name() == toc_entries(data)[j].name(),
        forall|k: int|
            j < k < toc_count(data) ==> #[trigger] toc_entries(data)[k].name()
                != toc_entries(data)[j].name(),
    ensures
        loaded_index(data).contains_key(toc_entries(data)[i].name()),
        loaded_index(data)[toc_entries(data)[i].name()] == toc_entries(data)[j],
{
    lemma_index_last_wins(toc_entries(data), j);
}

/// After a successful load of a table whose names are all distinct, the
/// index holds one file per whole record of the table.
pub proof fn lemma_file_count_is_record_count(data: Seq<u8>)
    requires
        loads(data),
        names_unique(toc_entries(data)),
    ensures
        loaded_index(data).dom().len() == le_u32(data, 8) / (FILE_ENTRY_SIZE as int),
{
    lemma_index_len(toc_entries(data));
}

} // verus!
