use vstd::prelude::*;

verus! {

/// One entry of the engine's file-path table: the content hash of the archive
/// path, the content hash of its extension, and the index of the file-info
/// record the path resolves to.
#[derive(Clone, Copy)]
pub struct FilePath {
    pub path_hash: u64,
    pub ext_hash: u64,
    pub info_index: usize,
}

/// One entry of the engine's file-info table: indices into the path table, the
/// live-data table and the file-data table.
#[derive(Clone, Copy)]
pub struct FileInfo {
    pub file_path_index: usize,
    pub file_info_indice_index: usize,
    pub file_data_index: usize,
}

/// One entry of the engine's file-data table: the declared decompressed size
/// of one (file, language) variant. Language variants of a file sit at
/// consecutive data indices after its `file_data_index`.
#[derive(Clone, Copy)]
pub struct FileData {
    pub decomp_size: u32,
}

/// Read view of the engine's archive tables. The archive container itself is
/// foreign and opaque; these are the three tables the replacement pipeline
/// reads through it.
pub struct ArcTables {
    pub file_paths: Vec<FilePath>,
    pub file_infos: Vec<FileInfo>,
    pub file_datas: Vec<FileData>,
}

/// Per-path load flag of the engine's live bookkeeping.
#[derive(Clone, Copy)]
pub struct LoadedFilepath {
    pub is_loaded: u32,
}

/// Per-file live-data slot: whether its destination buffer is resident.
#[derive(Clone, Copy)]
pub struct LoadedData {
    pub has_data: bool,
}

/// The engine's live filesystem bookkeeping: which paths are loaded and which
/// destination buffers exist.
pub struct FilesystemInfo {
    pub loaded_filepaths: Vec<LoadedFilepath>,
    pub loaded_datas: Vec<LoadedData>,
}

impl ArcTables {
    /// Every cross-table index stays inside the table it points into.
    pub open spec fn wf(&self) -> bool {
        &&& forall|i: int|
            0 <= i < self.file_paths@.len() ==> (#[trigger] self.file_paths@[i]).info_index
                < self.file_infos@.len()
        &&& forall|k: int|
            0 <= k < self.file_infos@.len() ==> (#[trigger] self.file_infos@[k]).file_path_index
                < self.file_paths@.len()
    }

    /// Every file-info record has a data record for language `language`.
    pub open spec fn language_ok(&self, language: usize) -> bool {
        forall|k: int|
            0 <= k < self.file_infos@.len() ==> (#[trigger] self.file_infos@[k]).file_data_index
                + language < self.file_datas@.len()
    }

    /// Some path-table entry carries content hash `h`.
    pub open spec fn path_found(&self, h: u64) -> bool {
        exists|i: int| 0 <= i < self.file_paths@.len() && self.file_paths@[i].path_hash == h
    }

    /// `i` is the first path-table entry carrying content hash `h`.
    pub open spec fn is_first_path(&self, h: u64, i: int) -> bool {
        &&& 0 <= i < self.file_paths@.len()
        &&& self.file_paths@[i].path_hash == h
        &&& forall|j: int| 0 <= j < i ==> self.file_paths@[j].path_hash != h
    }

    /// The index of the first path-table entry carrying content hash `h`
    /// (meaningful only when `path_found`).
    pub open spec fn first_path(&self, h: u64) -> int {
        choose|i: int| self.is_first_path(h, i)
    }

    /// The file-info record that content hash `h` resolves to (meaningful only
    /// when `path_found`).
    pub open spec fn info_for(&self, h: u64) -> FileInfo {
        self.file_infos@[self.file_paths@[self.first_path(h)].info_index as int]
    }

    /// Find the first path-table entry carrying content hash `h`.
    pub fn find_path(&self, h: u64) -> (r: Option<usize>)
        ensures
            match r {
                Some(i) => self.is_first_path(h, i as int),
                None => !self.path_found(h),
            },
    {
        let n = self.file_paths.len();
        let mut i: usize = 0;
        while i < n
            invariant
                n == self.file_paths@.len(),
                i <= n,
                forall|j: int| 0 <= j < i ==> self.file_paths@[j].path_hash != h,
            decreases n - i,
        {
            if self.file_paths[i].path_hash == h {
                return Some(i);
            }
            i = i + 1;
        }
        None
    }
}

proof fn lemma_exists_first_path(arc: &ArcTables, h: u64, w: int)
    requires
        0 <= w < arc.file_paths@.len(),
        arc.file_paths@[w].path_hash == h,
    ensures
        exists|i: int| arc.is_first_path(h, i),
    decreases w,
{
    if forall|j: int| 0 <= j < w ==> arc.file_paths@[j].path_hash != h {
        assert(arc.is_first_path(h, w));
    } else {
        let j = choose|j: int| 0 <= j < w && arc.file_paths@[j].path_hash == h;
        lemma_exists_first_path(arc, h, j);
    }
}

/// When content hash `h` occurs in the path table, `first_path` is its first
/// index.
pub proof fn lemma_first_path_is_first(arc: &ArcTables, h: u64)
    requires
        arc.path_found(h),
    ensures
        arc.is_first_path(h, arc.first_path(h)),
{
    let w = choose|i: int|
        0 <= i < arc.file_paths@.len() && arc.file_paths@[i].path_hash == h;
    lemma_exists_first_path(arc, h, w);
}

impl FilesystemInfo {
    /// The live bookkeeping covers the archive's paths and data slots.
    pub open spec fn wf_for(&self, arc: &ArcTables) -> bool {
        &&& self.loaded_filepaths@.len() == arc.file_paths@.len()
        &&& forall|k: int|
            0 <= k < arc.file_infos@.len() ==> (#[trigger] arc.file_infos@[k]).file_info_indice_index
                < self.loaded_datas@.len()
    }
}

/// One replacement known to the external registry: the content hash of the
/// replaced archive path and the replacement file's byte length.
#[derive(Clone, Copy)]
pub struct RegistryEntry {
    pub hash: u64,
    pub size: u32,
}

/// The replacement registry: which content hashes have a registered
/// replacement, and how long each replacement file is. Populated once at
/// startup, read-only while the interception points run.
pub struct Registry {
    pub entries: Vec<RegistryEntry>,
}

impl Registry {
    /// Some registry entry carries content hash `h`.
    pub open spec fn contains_hash(&self, h: u64) -> bool {
        exists|i: int| 0 <= i < self.entries@.len() && self.entries@[i].hash == h
    }

    /// Whether content hash `h` has a registered replacement.
    pub fn lookup(&self, h: u64) -> (r: bool)
        ensures
            r == self.contains_hash(h),
    {
        let n = self.entries.len();
        let mut i: usize = 0;
        while i < n
            invariant
                n == self.entries@.len(),
                i <= n,
                forall|j: int| 0 <= j < i ==> self.entries@[j].hash != h,
            decreases n - i,
        {
            if self.entries[i].hash == h {
                return true;
            }
            i = i + 1;
        }
        false
    }
}

} // verus!
