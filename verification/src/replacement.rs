use vstd::prelude::*;

verus! {

use vstd::pervasive::VecAdditionalExecFns;
use crate::hashing::hash40_of;
use crate::hashing::hash40_bytes;
use crate::tables::ArcTables;
use crate::tables::FileInfo;
use crate::tables::FilesystemInfo;
use crate::tables::Registry;
use crate::tables::lemma_first_path_is_first;

/// Byte length of the fixed trailing footer of the binary texture format.
pub const NUTEXB_FOOTER_SIZE: usize = 0xB0;

/// The extension bytes of the binary texture format, `nutexb`.
pub open spec fn nutexb_bytes() -> Seq<u8> {
    seq![0x6eu8, 0x75, 0x74, 0x65, 0x78, 0x62]
}

/// The content hash of the binary texture format's extension.
pub open spec fn nutexb_ext_hash() -> u64 {
    hash40_of(nutexb_bytes())
}

// ---------------------------------------------------------------------------
// Per-operation staging
// ---------------------------------------------------------------------------

/// The staged replacement decisions of the in-flight decompression operations,
/// one slot per concurrent operation (keyed by the host's worker index). A
/// single shared slot would let one operation observe another's staged hash;
/// each operation reads and writes its own slot only.
pub struct PendingSlots {
    slots: Vec<Option<u64>>,
}

impl View for PendingSlots {
    type V = Seq<Option<u64>>;

    closed spec fn view(&self) -> Seq<Option<u64>> {
        self.slots@
    }
}

impl PendingSlots {
    /// One empty slot per concurrent operation the host can run.
    pub fn new(workers: usize) -> (r: Self)
        ensures
            r@.len() == workers,
            forall|i: int| 0 <= i < workers ==> r@[i] is None,
    {
        let mut slots: Vec<Option<u64>> = Vec::new();
        let mut i: usize = 0;
        while i < workers
            invariant
                i <= workers,
                slots@.len() == i,
                forall|j: int| 0 <= j < i ==> slots@[j] is None,
            decreases workers - i,
        {
            slots.push(None);
            i = i + 1;
        }
        PendingSlots { slots }
    }

    /// Stage a decision for the operation running on `worker`; every other
    /// slot is left as it was. Staging `None` clears the slot explicitly, so
    /// no stale hash leaks into an operation without a replacement.
    pub fn set_incoming(&mut self, worker: usize, staged: Option<u64>)
        requires
            worker < old(self)@.len(),
        ensures
            final(self)@ == old(self)@.update(worker as int, staged),
    {
        self.slots.set(worker, staged);
    }

    /// Consume and clear the decision staged for the operation on `worker`.
    pub fn take_incoming(&mut self, worker: usize) -> (r: Option<u64>)
        requires
            worker < old(self)@.len(),
        ensures
            r == old(self)@[worker as int],
            final(self)@ == old(self)@.update(worker as int, None),
    {
        let r = *self.slots.get(worker).unwrap();
        self.slots.set(worker, None);
        r
    }
}

/// Replacement staging is per-operation: when two operations stage decisions
/// on distinct slots, each slot still holds its own operation's decision, not
/// the other's, whatever the order of the two stagings.
pub proof fn lemma_staging_per_operation(
    slots: Seq<Option<u64>>,
    i: int,
    j: int,
    staged_i: Option<u64>,
    staged_j: Option<u64>,
)
    requires
        0 <= i < slots.len(),
        0 <= j < slots.len(),
        i != j,
    ensures
        slots.update(i, staged_i).update(j, staged_j)[i] == staged_i,
        slots.update(i, staged_i).update(j, staged_j)[j] == staged_j,
{
}

// ---------------------------------------------------------------------------
// Pre-inflate interception point
// ---------------------------------------------------------------------------

/// The content hash of the file-info record at index `idx`.
pub open spec fn incoming_hash(arc: &ArcTables, idx: int) -> u64 {
    arc.file_paths@[arc.file_infos@[idx].file_path_index as int].path_hash
}

/// The decision the pre-inflate point stages for the record at index `idx`:
/// the record's content hash when a replacement is registered for it, and
/// `None` otherwise.
pub open spec fn incoming_decision(arc: &ArcTables, registry: &Registry, idx: int) -> Option<
    u64,
> {
    if registry.contains_hash(incoming_hash(arc, idx)) {
        Some(incoming_hash(arc, idx))
    } else {
        None
    }
}

/// Pre-inflate interception: the engine is about to inflate the entry at
/// `idx_start + worker_offset` of its active batch. Resolve that index to a
/// content hash through the file-info and file-path tables, query the
/// registry, and stage the decision on the operation's own slot — staging
/// `None` when no replacement is registered, so no stale hash survives.
pub fn inflate_incoming(
    arc: &ArcTables,
    registry: &Registry,
    slots: &mut PendingSlots,
    worker: usize,
    idx_start: u32,
    worker_offset: u32,
) -> (staged: Option<u64>)
    requires
        arc.wf(),
        worker < old(slots)@.len(),
        idx_start + worker_offset <= u32::MAX,
        idx_start + worker_offset < arc.file_infos@.len(),
    ensures
        staged == incoming_decision(arc, registry, idx_start + worker_offset),
        final(slots)@ == old(slots)@.update(
            worker as int,
            incoming_decision(arc, registry, idx_start + worker_offset),
        ),
{
    let info_index = (idx_start + worker_offset) as usize;
    let file_info = *arc.file_infos.get(info_index).unwrap();
    let file_path = *arc.file_paths.get(file_info.file_path_index).unwrap();
    let path_hash = file_path.path_hash;
    let staged = if registry.lookup(path_hash) {
        Some(path_hash)
    } else {
        None
    };
    slots.set_incoming(worker, staged);
    staged
}

// ---------------------------------------------------------------------------
// Post-inflate replacement procedure
// ---------------------------------------------------------------------------

/// Why a staged replacement was abandoned; every variant is non-fatal and the
/// engine proceeds with the original data.
#[derive(Clone, Copy, PartialEq, Eq, Structural, Debug)]
pub enum ReplaceError {
    /// The staged hash names no file-info record.
    LookupMiss,
    /// The engine does not mark the path as loaded.
    NotLoaded,
    /// The destination buffer is not resident.
    NullBuffer,
}

/// Where and how the replacement bytes must be written.
#[derive(Clone, Copy, PartialEq, Eq, Structural, Debug)]
pub struct ReplacementTarget {
    /// Index of the path entry, in the path and loaded-path tables.
    pub filepath_index: usize,
    /// Index of the destination buffer in the live-data table.
    pub data_index: usize,
    /// The declared decompressed size for the active language variant: the
    /// destination buffer's length.
    pub decompressed_size: u32,
    /// Whether the entry is the fixed-footer binary texture format.
    pub is_nutexb: bool,
}

/// Post-inflate target resolution for the staged hash: look up the file-info
/// record, verify the destination is loaded and resident, and report where the
/// replacement bytes go. Each abandonment is reported exactly when its check
/// fails, in lookup, loaded, residency order.
pub fn handle_file_replace(
    arc: &ArcTables,
    fs_info: &FilesystemInfo,
    hash: u64,
    language: usize,
) -> (r: Result<ReplacementTarget, ReplaceError>)
    requires
        arc.wf(),
        arc.language_ok(language),
        fs_info.wf_for(arc),
    ensures
        ({
            let info = arc.info_for(hash);
            match r {
                Err(e) => {
                    &&& (e == ReplaceError::LookupMiss <==> !arc.path_found(hash))
                    &&& (e == ReplaceError::NotLoaded <==> arc.path_found(hash)
                        && fs_info.loaded_filepaths@[info.file_path_index as int].is_loaded == 0)
                    &&& (e == ReplaceError::NullBuffer <==> arc.path_found(hash)
                        && fs_info.loaded_filepaths@[info.file_path_index as int].is_loaded != 0
                        && !fs_info.loaded_datas@[info.file_info_indice_index as int].has_data)
                },
                Ok(t) => {
                    &&& arc.path_found(hash)
                    &&& fs_info.loaded_filepaths@[info.file_path_index as int].is_loaded != 0
                    &&& fs_info.loaded_datas@[info.file_info_indice_index as int].has_data
                    &&& t.filepath_index == info.file_path_index
                    &&& t.data_index == info.file_info_indice_index
                    &&& t.decompressed_size == arc.file_datas@[info.file_data_index + language].decomp_size
                    &&& t.is_nutexb == (arc.file_paths@[info.file_path_index as int].ext_hash
                        == nutexb_ext_hash())
                },
            }
        }),
{
    let found = arc.find_path(hash);
    match found {
        None => Err(ReplaceError::LookupMiss),
        Some(i) => {
            proof {
                lemma_first_path_is_first(arc, hash);
                if arc.first_path(hash) < i as int {
                    assert(arc.file_paths@[arc.first_path(hash)].path_hash != hash);
                } else if (i as int) < arc.first_path(hash) {
                    assert(arc.file_paths@[i as int].path_hash != hash);
                }
            }
            let info: FileInfo = *arc.file_infos.get(arc.file_paths.get(i).unwrap().info_index)
                .unwrap();
            let filepath_index = info.file_path_index;
            let data_index = info.file_info_indice_index;
            if fs_info.loaded_filepaths.get(filepath_index).unwrap().is_loaded == 0 {
                return Err(ReplaceError::NotLoaded);
            }
            if !fs_info.loaded_datas.get(data_index).unwrap().has_data {
                return Err(ReplaceError::NullBuffer);
            }
            let num_datas = arc.file_datas.len();
            proof {
                assert(info == arc.file_infos@[arc.file_paths@[i as int].info_index as int]);
                assert(info.file_data_index + language < num_datas);
            }
            let decompressed_size = arc.file_datas.get(info.file_data_index + language).unwrap()
                .decomp_size;
            let ext_hash = arc.file_paths.get(filepath_index).unwrap().ext_hash;
            let nutexb: Vec<u8> = vec![0x6e, 0x75, 0x74, 0x65, 0x78, 0x62];
            proof {
                assert(nutexb@ =~= nutexb_bytes());
            }
            let is_nutexb = ext_hash == hash40_bytes(nutexb.as_slice());
            Ok(ReplacementTarget { filepath_index, data_index, decompressed_size, is_nutexb })
        },
    }
}

// ---------------------------------------------------------------------------
// Buffer substitution and footer repair
// ---------------------------------------------------------------------------

/// The destination buffer after the replacement content is written over its
/// prefix: the content, then the buffer's remaining original bytes.
pub open spec fn written_buffer(buf: Seq<u8>, content: Seq<u8>) -> Seq<u8> {
    content + buf.skip(content.len() as int)
}

/// The destination buffer after the whole replacement procedure: the content
/// is written over the prefix, and for a shorter-than-declared texture the
/// footer-sized tail of the content is copied again to the buffer's end, so
/// the buffer still terminates with a valid footer at the size the engine
/// expects.
pub open spec fn replaced_buffer(buf: Seq<u8>, content: Seq<u8>, is_nutexb: bool) -> Seq<u8> {
    let w = written_buffer(buf, content);
    if is_nutexb && content.len() < buf.len() {
        w.subrange(0, buf.len() - NUTEXB_FOOTER_SIZE) + content.subrange(
            content.len() - NUTEXB_FOOTER_SIZE,
            content.len() as int,
        )
    } else {
        w
    }
}

/// Copy the footer-sized tail of the written content, which sits at
/// `written - 0xB0 .. written`, to the buffer's end, where the format requires
/// the footer to live.
pub fn fixup_nutexb_footer(buffer: &mut Vec<u8>, written: usize)
    requires
        NUTEXB_FOOTER_SIZE <= written,
        written + NUTEXB_FOOTER_SIZE <= old(buffer)@.len(),
    ensures
        final(buffer)@.len() == old(buffer)@.len(),
        forall|i: int|
            0 <= i < old(buffer)@.len() - NUTEXB_FOOTER_SIZE ==> final(buffer)@[i] == old(
                buffer,
            )@[i],
        forall|j: int|
            0 <= j < NUTEXB_FOOTER_SIZE ==> #[trigger] final(buffer)@[old(buffer)@.len()
                - NUTEXB_FOOTER_SIZE + j] == old(buffer)@[written - NUTEXB_FOOTER_SIZE + j],
{
    let len = buffer.len();
    let dest_base = len - NUTEXB_FOOTER_SIZE;
    let src_base = written - NUTEXB_FOOTER_SIZE;
    let mut j: usize = 0;
    while j < NUTEXB_FOOTER_SIZE
        invariant
            j <= NUTEXB_FOOTER_SIZE,
            NUTEXB_FOOTER_SIZE <= written,
            written + NUTEXB_FOOTER_SIZE <= old(buffer)@.len(),
            len == old(buffer)@.len(),
            dest_base == len - NUTEXB_FOOTER_SIZE,
            src_base == written - NUTEXB_FOOTER_SIZE,
            buffer@.len() == old(buffer)@.len(),
            forall|i: int| 0 <= i < dest_base ==> buffer@[i] == old(buffer)@[i],
            forall|t: int|
                0 <= t < j ==> #[trigger] buffer@[dest_base + t] == old(buffer)@[src_base + t],
            forall|t: int|
                j <= t < NUTEXB_FOOTER_SIZE ==> #[trigger] buffer@[dest_base + t] == old(
                    buffer,
                )@[dest_base + t],
        decreases NUTEXB_FOOTER_SIZE - j,
    {
        let b = *buffer.get(src_base + j).unwrap();
        buffer.set(dest_base + j, b);
        j = j + 1;
    }
}

/// Write the replacement content into the destination buffer and, for a
/// shorter-than-declared texture, repair the trailing footer. The buffer keeps
/// its declared length throughout.
pub fn apply_replacement(buffer: &mut Vec<u8>, content: &[u8], is_nutexb: bool)
    requires
        content@.len() <= old(buffer)@.len(),
        is_nutexb && content@.len() < old(buffer)@.len() ==> NUTEXB_FOOTER_SIZE <= content@.len()
            && content@.len() + NUTEXB_FOOTER_SIZE <= old(buffer)@.len(),
    ensures
        final(buffer)@ == replaced_buffer(old(buffer)@, content@, is_nutexb),
{
    let written = content.len();
    let mut i: usize = 0;
    while i < written
        invariant
            i <= written,
            written == content@.len(),
            written <= old(buffer)@.len(),
            buffer@.len() == old(buffer)@.len(),
            forall|t: int| 0 <= t < i ==> buffer@[t] == content@[t],
            forall|t: int| i <= t < old(buffer)@.len() ==> buffer@[t] == old(buffer)@[t],
        decreases written - i,
    {
        let b = content[i];
        buffer.set(i, b);
        i = i + 1;
    }
    proof {
        assert(buffer@ =~= written_buffer(old(buffer)@, content@));
    }
    if is_nutexb && written < buffer.len() {
        let ghost w = buffer@;
        fixup_nutexb_footer(buffer, written);
        proof {
            let fin = buffer@;
            let rep = replaced_buffer(old(buffer)@, content@, is_nutexb);
            assert(fin.len() == rep.len());
            assert forall|idx: int| 0 <= idx < fin.len() implies fin[idx] == rep[idx] by {
                if idx < fin.len() - NUTEXB_FOOTER_SIZE {
                    assert(fin[idx] == w[idx]);
                } else {
                    let j = idx - (fin.len() - NUTEXB_FOOTER_SIZE);
                    assert(fin[fin.len() - NUTEXB_FOOTER_SIZE + j] == w[written
                        - NUTEXB_FOOTER_SIZE + j]);
                    assert(w[written - NUTEXB_FOOTER_SIZE + j] == content@[written
                        - NUTEXB_FOOTER_SIZE + j]);
                }
            }
            assert(fin =~= rep);
        }
    }
}

/// Footer preservation: for a shorter-than-declared texture, the final
/// buffer's last footer-sized stretch equals the footer-sized tail of the
/// written content, and every byte of the written content below that tail
/// stands in the buffer unchanged.
pub proof fn lemma_footer_preserved(buf: Seq<u8>, content: Seq<u8>)
    requires
        NUTEXB_FOOTER_SIZE <= content.len(),
        content.len() + NUTEXB_FOOTER_SIZE <= buf.len(),
    ensures
        forall|j: int|
            0 <= j < NUTEXB_FOOTER_SIZE ==> #[trigger] replaced_buffer(buf, content, true)[buf.len()
                - NUTEXB_FOOTER_SIZE + j] == content[content.len() - NUTEXB_FOOTER_SIZE + j],
        forall|i: int|
            0 <= i < content.len() ==> replaced_buffer(buf, content, true)[i] == content[i],
{
    assert(replaced_buffer(buf, content, true).len() == buf.len());
}

} // verus!
