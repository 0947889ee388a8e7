use vstd::prelude::*;

verus! {

use crate::cpp_vector::CppVector;
use crate::tables::RegistryEntry;

// ---------------------------------------------------------------------------
// Byte-signature search
// ---------------------------------------------------------------------------

/// The needle `n` occurs in the haystack `h` at position `i`.
pub open spec fn match_at(h: Seq<u8>, n: Seq<u8>, i: int) -> bool {
    &&& 0 <= i
    &&& i + n.len() <= h.len()
    &&& forall|j: int| 0 <= j < n.len() ==> h[#[trigger] (i + j)] == n[j]
}

/// The needle occurs somewhere in the haystack.
pub open spec fn has_match(h: Seq<u8>, n: Seq<u8>) -> bool {
    exists|i: int| match_at(h, n, i)
}

/// `i` is the first occurrence of the needle in the haystack.
pub open spec fn is_first_match(h: Seq<u8>, n: Seq<u8>, i: int) -> bool {
    &&& match_at(h, n, i)
    &&& forall|j: int| 0 <= j < i ==> !match_at(h, n, j)
}

/// The position of the first occurrence (meaningful only when `has_match`).
pub open spec fn first_match(h: Seq<u8>, n: Seq<u8>) -> int {
    choose|i: int| is_first_match(h, n, i)
}

proof fn lemma_exists_first_match(h: Seq<u8>, n: Seq<u8>, w: int)
    requires
        match_at(h, n, w),
    ensures
        exists|i: int| is_first_match(h, n, i),
    decreases w,
{
    if forall|j: int| 0 <= j < w ==> !match_at(h, n, j) {
        assert(is_first_match(h, n, w));
    } else {
        let j = choose|j: int| 0 <= j < w && match_at(h, n, j);
        lemma_exists_first_match(h, n, j);
    }
}

/// There is at most one first occurrence.
pub proof fn lemma_first_match_unique(h: Seq<u8>, n: Seq<u8>, i: int, j: int)
    requires
        is_first_match(h, n, i),
        is_first_match(h, n, j),
    ensures
        i == j,
{
    if i < j {
        assert(!match_at(h, n, i));
    } else if j < i {
        assert(!match_at(h, n, j));
    }
}

/// When the needle occurs, `first_match` is its first occurrence.
pub proof fn lemma_first_match_is_first(h: Seq<u8>, n: Seq<u8>)
    requires
        has_match(h, n),
    ensures
        is_first_match(h, n, first_match(h, n)),
{
    let w = choose|i: int| match_at(h, n, i);
    lemma_exists_first_match(h, n, w);
}

/// Exact byte-for-byte substring search: the offset of the first occurrence of
/// `needle` in `haystack`, or `None` when it does not occur.
pub fn find_subsequence(haystack: &[u8], needle: &[u8]) -> (r: Option<usize>)
    requires
        needle@.len() >= 1,
    ensures
        match r {
            Some(i) => is_first_match(haystack@, needle@, i as int),
            None => !has_match(haystack@, needle@),
        },
{
    let n = needle.len();
    let h = haystack.len();
    if h < n {
        proof {
            assert(forall|i: int| !match_at(haystack@, needle@, i));
        }
        return None;
    }
    let mut i: usize = 0;
    while i <= h - n
        invariant
            1 <= n <= h,
            h == haystack@.len(),
            n == needle@.len(),
            i <= h - n + 1,
            forall|j: int| 0 <= j < i ==> !match_at(haystack@, needle@, j),
        decreases h - n + 1 - i,
    {
        let mut k: usize = 0;
        while k < n && haystack[i + k] == needle[k]
            invariant
                1 <= n <= h,
                h == haystack@.len(),
                n == needle@.len(),
                i + n <= h,
                k <= n,
                forall|j: int| 0 <= j < k ==> haystack@[i + j] == needle@[j],
            decreases n - k,
        {
            k = k + 1;
        }
        if k == n {
            proof {
                assert(match_at(haystack@, needle@, i as int));
            }
            return Some(i);
        }
        proof {
            assert(haystack@[i + k] != needle@[k as int]);
            assert(!match_at(haystack@, needle@, i as int));
        }
        i = i + 1;
    }
    proof {
        assert(forall|j: int| match_at(haystack@, needle@, j) ==> j + n <= h && j < i);
    }
    None
}

// ---------------------------------------------------------------------------
// Position-relative instruction decode
// ---------------------------------------------------------------------------

/// The page displacement encoded in a page-relative load: the two immediate
/// fields are concatenated, shifted up by the page width, and sign-extended as
/// a 32-bit quantity.
pub open spec fn adrp_imm(insn: u32) -> u64 {
    let immhi = (insn & 0x00FFFFE0) >> 3;
    let immlo = (insn & 0x60000000) >> 29;
    ((((immhi | immlo) << 12) as i32) as u64)
}

/// The page base named by a page-relative load at address `site`: the site
/// masked to its 4 KiB page, plus the encoded page displacement.
pub open spec fn adrp_target(site: u64, insn: u32) -> u64 {
    (site & 0xFFFFFFFFFFFFF000).wrapping_add(adrp_imm(insn))
}

/// The intra-page byte offset encoded in an immediate-offset load: the 12-bit
/// immediate scaled by `1 << size`.
pub open spec fn ldr_imm_offset(insn: u32) -> u64 {
    let size = (insn & 0xC0000000) >> 30;
    let imm = (insn & 0x003FFC00) >> 10;
    (imm as u64) << (size as u64)
}

/// Decode a page-relative load at address `adrp_offset` whose instruction word
/// is `adrp`: yields the base address of the page holding the true target.
pub fn offset_from_adrp(adrp_offset: u64, adrp: u32) -> (r: u64)
    ensures
        r == adrp_target(adrp_offset, adrp),
{
    let immhi: u32 = (adrp & 0x00FFFFE0) >> 3;
    let immlo: u32 = (adrp & 0x60000000) >> 29;
    let imm: u64 = (((immhi | immlo) << 12) as i32) as u64;
    let base: u64 = adrp_offset & 0xFFFFFFFFFFFFF000;
    base.wrapping_add(imm)
}

/// Decode the immediate-offset load that follows the page-relative load:
/// yields the intra-page byte offset of the target.
pub fn offset_from_ldr(ldr: u32) -> (r: u64)
    ensures
        r == ldr_imm_offset(ldr),
{
    let size: u32 = (ldr & 0xC0000000) >> 30;
    let imm: u32 = (ldr & 0x003FFC00) >> 10;
    proof {
        assert((ldr & 0xC0000000) >> 30 < 4) by (bit_vector);
    }
    (imm as u64) << size
}

/// A synthetic page-relative load whose page displacement field is `pages`
/// (in 4 KiB pages): the two immediate fields of the split encoding, laid over
/// the page-relative-load opcode bits.
pub open spec fn encode_adrp(pages: u32) -> u32 {
    0x90000000u32 | ((pages & 3) << 29) | (((pages >> 2) & 0x7FFFF) << 5)
}

/// A synthetic immediate-offset load of scale `size` and immediate `imm12`,
/// laid over the immediate-offset-load opcode bits.
pub open spec fn encode_ldr(size: u32, imm12: u32) -> u32 {
    0x39400000u32 | (size << 30) | ((imm12 & 0xFFF) << 10)
}

/// Round trip, forward displacement: a synthetic instruction pair encoding the
/// absolute address `page(site) + pages * 4096 + (imm12 << size)` relative to
/// the instruction's own address `site` decodes back to exactly that address.
pub proof fn lemma_decode_round_trip(site: u64, pages: u32, size: u32, imm12: u32)
    by (bit_vector)
    requires
        pages < 0x80000,
        size < 4,
        imm12 < 0x1000,
        (site & 0xFFFFFFFFFFFFF000) + pages * 0x1000 + 0x8000 <= u64::MAX,
    ensures
        adrp_target(site, encode_adrp(pages)).wrapping_add(ldr_imm_offset(encode_ldr(size, imm12)))
            == (site & 0xFFFFFFFFFFFFF000) + (pages as u64) * 0x1000 + ((imm12 as u64) << (
        size as u64)),
{
}

/// Round trip, backward displacement: the displacement field is the two's
/// complement of the page count, and the decode sign-extends it back.
pub proof fn lemma_decode_round_trip_back(site: u64, pages_back: u32, size: u32, imm12: u32)
    by (bit_vector)
    requires
        1 <= pages_back <= 0x80000,
        size < 4,
        imm12 < 0x1000,
        pages_back * 0x1000 <= (site & 0xFFFFFFFFFFFFF000),
        (site & 0xFFFFFFFFFFFFF000) - pages_back * 0x1000 + 0x8000 <= u64::MAX,
    ensures
        adrp_target(site, encode_adrp((0x100000 - pages_back) as u32)).wrapping_add(
            ldr_imm_offset(encode_ldr(size, imm12)),
        ) == (site & 0xFFFFFFFFFFFFF000) - (pages_back as u64) * 0x1000 + ((imm12 as u64) << (
        size as u64)),
{
}

/// The 32-bit little-endian word at position `i` of `h`.
pub open spec fn le32_at(h: Seq<u8>, i: int) -> u32 {
    (h[i] as u32) | ((h[i + 1] as u32) << 8) | ((h[i + 2] as u32) << 16) | ((h[i + 3] as u32)
        << 24)
}

/// Read the 32-bit little-endian instruction word at byte position `i`.
pub fn read_u32_le(text: &[u8], i: usize) -> (r: u32)
    requires
        i + 4 <= text@.len(),
    ensures
        r == le32_at(text@, i as int),
{
    (text[i] as u32) | ((text[i + 1] as u32) << 8) | ((text[i + 2] as u32) << 16) | ((text[i + 3]
        as u32) << 24)
}

// ---------------------------------------------------------------------------
// Known signatures and their reference-build fallback offsets
// ---------------------------------------------------------------------------

pub const DEFAULT_IDK_OFFSET: usize = 0x32545a0;

pub const DEFAULT_ADD_IDX_TO_TABLE1_AND_TABLE2_OFFSET: usize = 0x324e9f0;

pub const DEFAULT_LOOKUP_STREAM_HASH_OFFSET: usize = 0x324f7a0;

pub const DEFAULT_LOADED_TABLES_ADRP_OFFSET: usize = 0x324c3a0;

/// Instruction-prologue signature of the `idk` target function.
pub open spec fn idk_sig() -> Seq<u8> {
    seq![
        0xf8u8, 0x5f, 0xbc, 0xa9, 0xf6, 0x57, 0x01, 0xa9, 0xf4, 0x4f, 0x02, 0xa9, 0xfd, 0x7b,
        0x03, 0xa9, 0xfd, 0xc3, 0x00, 0x91, 0xe8, 0x5f, 0x00, 0x32, 0x3f, 0x00, 0x08, 0x6b,
    ]
}

/// Instruction-prologue signature of the `add_idx_to_table1_and_table2` target.
pub open spec fn add_idx_sig() -> Seq<u8> {
    seq![
        0xf6u8, 0x57, 0xbd, 0xa9, 0xf4, 0x4f, 0x01, 0xa9, 0xfd, 0x7b, 0x02, 0xa9, 0xfd, 0x83,
        0x00, 0x91, 0x08, 0x18, 0x40, 0xb9, 0x1f, 0x01, 0x01, 0x6b,
    ]
}

/// Signature of the code just past the table-of-tables page-relative load.
pub open spec fn loaded_tables_adrp_sig() -> Seq<u8> {
    seq![
        0x28u8, 0x4b, 0x40, 0xb9, 0xf4, 0x03, 0x01, 0x2a, 0x1f, 0x01, 0x01, 0x6b, 0x29, 0x0a,
        0x00, 0x54, 0x36, 0x03, 0x40, 0xf9, 0xe0, 0x03, 0x16, 0xaa,
    ]
}

/// Instruction-prologue signature of the `lookup_stream_hash` target.
pub open spec fn lookup_stream_hash_sig() -> Seq<u8> {
    seq![
        0x29u8, 0x58, 0x40, 0xf9, 0x28, 0x60, 0x40, 0xf9, 0x2a, 0x05, 0x40, 0xb9, 0x09, 0x0d,
        0x0a, 0x8b, 0xaa, 0x01, 0x00, 0x34, 0x5f, 0x01, 0x00, 0xf1,
    ]
}

fn idk_code() -> (v: Vec<u8>)
    ensures
        v@ == idk_sig(),
{
    let v: Vec<u8> = vec![
        0xf8, 0x5f, 0xbc, 0xa9, 0xf6, 0x57, 0x01, 0xa9, 0xf4, 0x4f, 0x02, 0xa9, 0xfd, 0x7b,
        0x03, 0xa9, 0xfd, 0xc3, 0x00, 0x91, 0xe8, 0x5f, 0x00, 0x32, 0x3f, 0x00, 0x08, 0x6b,
    ];
    proof {
        assert(v@ =~= idk_sig());
    }
    v
}

fn add_idx_code() -> (v: Vec<u8>)
    ensures
        v@ == add_idx_sig(),
{
    let v: Vec<u8> = vec![
        0xf6, 0x57, 0xbd, 0xa9, 0xf4, 0x4f, 0x01, 0xa9, 0xfd, 0x7b, 0x02, 0xa9, 0xfd, 0x83,
        0x00, 0x91, 0x08, 0x18, 0x40, 0xb9, 0x1f, 0x01, 0x01, 0x6b,
    ];
    proof {
        assert(v@ =~= add_idx_sig());
    }
    v
}

fn loaded_tables_adrp_code() -> (v: Vec<u8>)
    ensures
        v@ == loaded_tables_adrp_sig(),
{
    let v: Vec<u8> = vec![
        0x28, 0x4b, 0x40, 0xb9, 0xf4, 0x03, 0x01, 0x2a, 0x1f, 0x01, 0x01, 0x6b, 0x29, 0x0a,
        0x00, 0x54, 0x36, 0x03, 0x40, 0xf9, 0xe0, 0x03, 0x16, 0xaa,
    ];
    proof {
        assert(v@ =~= loaded_tables_adrp_sig());
    }
    v
}

fn lookup_stream_hash_code() -> (v: Vec<u8>)
    ensures
        v@ == lookup_stream_hash_sig(),
{
    let v: Vec<u8> = vec![
        0x29, 0x58, 0x40, 0xf9, 0x28, 0x60, 0x40, 0xf9, 0x2a, 0x05, 0x40, 0xb9, 0x09, 0x0d,
        0x0a, 0x8b, 0xaa, 0x01, 0x00, 0x34, 0x5f, 0x01, 0x00, 0xf1,
    ];
    proof {
        assert(v@ =~= lookup_stream_hash_sig());
    }
    v
}

// ---------------------------------------------------------------------------
// Offset resolution
// ---------------------------------------------------------------------------

/// Process-relative addresses resolved once at startup; read-only thereafter.
pub struct EngineOffsets {
    pub idk_offset: usize,
    pub add_idx_to_table1_and_table2_offset: usize,
    pub lookup_stream_hash_offset: usize,
    pub loaded_tables_adrp_offset: usize,
    /// Absolute offset of the table-of-tables pointer, decoded from the
    /// two-instruction idiom; absent when the decode site lies outside the
    /// scanned region.
    pub loaded_tables_offset: Option<u64>,
}

/// The first occurrence of `sig` in `h`, or the reference-build `default` when
/// it does not occur.
pub open spec fn located_or(h: Seq<u8>, sig: Seq<u8>, default: usize) -> usize {
    if has_match(h, sig) {
        first_match(h, sig) as usize
    } else {
        default
    }
}

/// The page-relative load site: eight bytes before the first occurrence of its
/// signature, or the reference-build default when it does not occur.
pub open spec fn located_adrp_site(h: Seq<u8>) -> usize {
    if has_match(h, loaded_tables_adrp_sig()) {
        (first_match(h, loaded_tables_adrp_sig()) - 8) as usize
    } else {
        DEFAULT_LOADED_TABLES_ADRP_OFFSET
    }
}

/// The absolute table-of-tables offset decoded from the instruction pair at
/// `site`, when both instruction words lie inside the scanned region.
pub open spec fn decoded_table_offset(h: Seq<u8>, site: usize) -> Option<u64> {
    if site + 8 <= h.len() {
        Some(
            adrp_target(site as u64, le32_at(h, site as int)).wrapping_add(
                ldr_imm_offset(le32_at(h, site + 4)),
            ),
        )
    } else {
        None
    }
}

/// Scan the executable region for the known signatures and resolve every
/// engine offset: each is the first occurrence of its signature, or the
/// reference-build default when the signature is absent (a degraded but
/// non-fatal outcome). The table-of-tables offset is then decoded from the
/// page-relative load and the immediate-offset load that follows it. That
/// load site lies eight bytes before its signature, so the signature cannot
/// occur inside the first eight bytes of real code.
pub fn search_offsets(text: &[u8]) -> (r: EngineOffsets)
    requires
        forall|j: int| 0 <= j < 8 ==> !match_at(text@, loaded_tables_adrp_sig(), j),
    ensures
        r.idk_offset == located_or(text@, idk_sig(), DEFAULT_IDK_OFFSET),
        r.add_idx_to_table1_and_table2_offset == located_or(
            text@,
            add_idx_sig(),
            DEFAULT_ADD_IDX_TO_TABLE1_AND_TABLE2_OFFSET,
        ),
        r.lookup_stream_hash_offset == located_or(
            text@,
            lookup_stream_hash_sig(),
            DEFAULT_LOOKUP_STREAM_HASH_OFFSET,
        ),
        r.loaded_tables_adrp_offset == located_adrp_site(text@),
        r.loaded_tables_offset == decoded_table_offset(text@, located_adrp_site(text@)),
{
    let idk_needle = idk_code();
    let idk_offset = resolve_one(text, idk_needle.as_slice(), DEFAULT_IDK_OFFSET);

    let add_idx_needle = add_idx_code();
    let add_idx_to_table1_and_table2_offset = resolve_one(
        text,
        add_idx_needle.as_slice(),
        DEFAULT_ADD_IDX_TO_TABLE1_AND_TABLE2_OFFSET,
    );

    let lookup_needle = lookup_stream_hash_code();
    let lookup_stream_hash_offset = resolve_one(
        text,
        lookup_needle.as_slice(),
        DEFAULT_LOOKUP_STREAM_HASH_OFFSET,
    );

    let adrp_needle = loaded_tables_adrp_code();
    let loaded_tables_adrp_offset = match find_subsequence(text, adrp_needle.as_slice()) {
        Some(offset) => {
            proof {
                lemma_first_match_is_first(text@, loaded_tables_adrp_sig());
                lemma_first_match_unique(
                    text@,
                    loaded_tables_adrp_sig(),
                    offset as int,
                    first_match(text@, loaded_tables_adrp_sig()),
                );
            }
            offset - 8
        },
        None => DEFAULT_LOADED_TABLES_ADRP_OFFSET,
    };

    let loaded_tables_offset = if text.len() >= 8 && loaded_tables_adrp_offset <= text.len() - 8 {
        let adrp_insn = read_u32_le(text, loaded_tables_adrp_offset);
        let ldr_insn = read_u32_le(text, loaded_tables_adrp_offset + 4);
        let page = offset_from_adrp(loaded_tables_adrp_offset as u64, adrp_insn);
        let intra = offset_from_ldr(ldr_insn);
        Some(page.wrapping_add(intra))
    } else {
        None
    };

    EngineOffsets {
        idk_offset,
        add_idx_to_table1_and_table2_offset,
        lookup_stream_hash_offset,
        loaded_tables_adrp_offset,
        loaded_tables_offset,
    }
}

// ---------------------------------------------------------------------------
// Filesystem patch step
// ---------------------------------------------------------------------------

/// One entry of the engine's path table, keyed by content hash.
#[derive(Clone, Copy)]
pub struct PathHashEntry {
    pub hash: u64,
}

/// One entry of the engine's hash-indexed file table: the size fields the
/// engine reads when it allocates decompression buffers.
#[derive(Clone, Copy, PartialEq, Eq, Structural, Debug)]
pub struct SubfileSizeRecord {
    pub compressed_size: u32,
    pub decompressed_size: u32,
}

/// Some path-table entry carries hash `h`.
pub open spec fn hash_found(paths: Seq<PathHashEntry>, h: u64) -> bool {
    exists|i: int| 0 <= i < paths.len() && paths[i].hash == h
}

/// `i` is the first path-table entry carrying hash `h`.
pub open spec fn is_first_hash(paths: Seq<PathHashEntry>, h: u64, i: int) -> bool {
    &&& 0 <= i < paths.len()
    &&& paths[i].hash == h
    &&& forall|j: int| 0 <= j < i ==> paths[j].hash != h
}

/// The index of the first path-table entry carrying hash `h` (meaningful only
/// when `hash_found`).
pub open spec fn first_hash(paths: Seq<PathHashEntry>, h: u64) -> int {
    choose|i: int| is_first_hash(paths, h, i)
}

proof fn lemma_exists_first_hash(paths: Seq<PathHashEntry>, h: u64, w: int)
    requires
        0 <= w < paths.len(),
        paths[w].hash == h,
    ensures
        exists|i: int| is_first_hash(paths, h, i),
    decreases w,
{
    if forall|j: int| 0 <= j < w ==> paths[j].hash != h {
        assert(is_first_hash(paths, h, w));
    } else {
        let j = choose|j: int| 0 <= j < w && paths[j].hash == h;
        lemma_exists_first_hash(paths, h, j);
    }
}

/// When hash `h` occurs, `first_hash` is its first index.
pub proof fn lemma_first_hash_is_first(paths: Seq<PathHashEntry>, h: u64)
    requires
        hash_found(paths, h),
    ensures
        is_first_hash(paths, h, first_hash(paths, h)),
{
    let w = choose|i: int| 0 <= i < paths.len() && paths[i].hash == h;
    lemma_exists_first_hash(paths, h, w);
}

/// The table after one replacement's patch: when its hash names a path-table
/// entry whose index also names a size record, both size fields of that record
/// become the replacement's length (the replacement is stored uncompressed);
/// otherwise the table is unchanged (a lookup miss aborts only this entry).
pub open spec fn patch_one(
    subs: Seq<SubfileSizeRecord>,
    paths: Seq<PathHashEntry>,
    h: u64,
    size: u32,
) -> Seq<SubfileSizeRecord> {
    if hash_found(paths, h) && first_hash(paths, h) < subs.len() {
        subs.update(
            first_hash(paths, h),
            SubfileSizeRecord { compressed_size: size, decompressed_size: size },
        )
    } else {
        subs
    }
}

/// The table after every registry entry's patch, applied in order.
pub open spec fn patch_all(
    subs: Seq<SubfileSizeRecord>,
    paths: Seq<PathHashEntry>,
    entries: Seq<RegistryEntry>,
) -> Seq<SubfileSizeRecord>
    decreases entries.len(),
{
    if entries.len() == 0 {
        subs
    } else {
        patch_all(patch_one(subs, paths, entries[0].hash, entries[0].size), paths,
            entries.drop_first())
    }
}

/// Find the first path-table entry carrying hash `h`, by linear scan.
pub fn find_first_hash(paths: &CppVector<PathHashEntry>, h: u64) -> (r: Option<usize>)
    requires
        paths.wf(),
    ensures
        match r {
            Some(i) => is_first_hash(paths@, h, i as int),
            None => !hash_found(paths@, h),
        },
{
    let n = paths.len();
    let mut i: usize = 0;
    while i < n
        invariant
            paths.wf(),
            n == paths@.len(),
            i <= n,
            forall|j: int| 0 <= j < i ==> paths@[j].hash != h,
        decreases n - i,
    {
        if paths.get(i).hash == h {
            return Some(i);
        }
        i = i + 1;
    }
    None
}

/// For each replacement in the registry, locate the path-table entry with the
/// equal hash and overwrite both size fields of the matching size record with
/// the replacement file's byte length, in place. An entry whose hash names no
/// path is skipped; the rest are still patched.
pub fn filesize_replacement(
    paths: &CppVector<PathHashEntry>,
    subfiles: &mut CppVector<SubfileSizeRecord>,
    registry: &Vec<RegistryEntry>,
)
    requires
        paths.wf(),
        old(subfiles).wf(),
    ensures
        final(subfiles).wf(),
        final(subfiles)@ == patch_all(old(subfiles)@, paths@, registry@),
        final(subfiles).spec_begin() == old(subfiles).spec_begin(),
        final(subfiles).spec_end() == old(subfiles).spec_end(),
        final(subfiles).spec_elem_size() == old(subfiles).spec_elem_size(),
{
    let n = registry.len();
    let mut k: usize = 0;
    proof {
        assert(registry@.skip(0) =~= registry@);
    }
    while k < n
        invariant
            paths.wf(),
            subfiles.wf(),
            n == registry@.len(),
            k <= n,
            subfiles.spec_begin() == old(subfiles).spec_begin(),
            subfiles.spec_end() == old(subfiles).spec_end(),
            subfiles.spec_elem_size() == old(subfiles).spec_elem_size(),
            patch_all(old(subfiles)@, paths@, registry@) == patch_all(
                subfiles@,
                paths@,
                registry@.skip(k as int),
            ),
        decreases n - k,
    {
        let entry = *registry.get(k).unwrap();
        let ghost pre = subfiles@;
        match find_first_hash(paths, entry.hash) {
            Some(i) => {
                proof {
                    lemma_first_hash_is_first(paths@, entry.hash);
                    if is_first_hash(paths@, entry.hash, first_hash(paths@, entry.hash)) {
                        if first_hash(paths@, entry.hash) < i as int {
                            assert(paths@[first_hash(paths@, entry.hash)].hash != entry.hash);
                        } else if (i as int) < first_hash(paths@, entry.hash) {
                            assert(paths@[i as int].hash != entry.hash);
                        }
                    }
                }
                if i < subfiles.len() {
                    subfiles.set(
                        i,
                        SubfileSizeRecord {
                            compressed_size: entry.size,
                            decompressed_size: entry.size,
                        },
                    );
                }
            },
            None => {},
        }
        proof {
            assert(subfiles@ == patch_one(pre, paths@, entry.hash, entry.size));
            assert(registry@.skip(k as int)[0] == registry@[k as int]);
            assert(registry@.skip(k as int).drop_first() =~= registry@.skip(k as int + 1));
        }
        k = k + 1;
    }
    proof {
        assert(registry@.skip(n as int) =~= Seq::<RegistryEntry>::empty());
    }
}

/// The size that the patch step leaves at record index `k`, if any entry
/// writes there: the position written for a hash depends only on the path
/// table, and the last entry writing a position wins.
pub open spec fn last_write(
    paths: Seq<PathHashEntry>,
    entries: Seq<RegistryEntry>,
    n: int,
    k: int,
) -> Option<u32>
    decreases entries.len(),
{
    if entries.len() == 0 {
        None
    } else {
        match last_write(paths, entries.drop_first(), n, k) {
            Some(v) => Some(v),
            None => if hash_found(paths, entries[0].hash) && first_hash(paths, entries[0].hash)
                == k && k < n {
                Some(entries[0].size)
            } else {
                None
            },
        }
    }
}

proof fn lemma_patch_all_len(
    subs: Seq<SubfileSizeRecord>,
    paths: Seq<PathHashEntry>,
    entries: Seq<RegistryEntry>,
)
    ensures
        patch_all(subs, paths, entries).len() == subs.len(),
    decreases entries.len(),
{
    if entries.len() > 0 {
        if hash_found(paths, entries[0].hash) {
            lemma_first_hash_is_first(paths, entries[0].hash);
        }
        lemma_patch_all_len(
            patch_one(subs, paths, entries[0].hash, entries[0].size),
            paths,
            entries.drop_first(),
        );
    }
}

proof fn lemma_patch_all_pointwise(
    subs: Seq<SubfileSizeRecord>,
    paths: Seq<PathHashEntry>,
    entries: Seq<RegistryEntry>,
    k: int,
)
    requires
        0 <= k < subs.len(),
    ensures
        patch_all(subs, paths, entries)[k] == match last_write(paths, entries, subs.len() as int,
            k) {
            Some(v) => SubfileSizeRecord { compressed_size: v, decompressed_size: v },
            None => subs[k],
        },
    decreases entries.len(),
{
    if entries.len() > 0 {
        if hash_found(paths, entries[0].hash) {
            lemma_first_hash_is_first(paths, entries[0].hash);
        }
        let s1 = patch_one(subs, paths, entries[0].hash, entries[0].size);
        assert(s1.len() == subs.len());
        lemma_patch_all_pointwise(s1, paths, entries.drop_first(), k);
        assert(patch_all(subs, paths, entries) == patch_all(s1, paths, entries.drop_first()));
    }
}

/// Size-patch idempotence: applying the patch step twice with the same
/// registry yields the same size table as applying it once.
pub proof fn lemma_size_patch_idempotent(
    subs: Seq<SubfileSizeRecord>,
    paths: Seq<PathHashEntry>,
    entries: Seq<RegistryEntry>,
)
    ensures
        patch_all(patch_all(subs, paths, entries), paths, entries) == patch_all(
            subs,
            paths,
            entries,
        ),
{
    let s1 = patch_all(subs, paths, entries);
    lemma_patch_all_len(subs, paths, entries);
    lemma_patch_all_len(s1, paths, entries);
    assert forall|k: int| 0 <= k < s1.len() implies patch_all(s1, paths, entries)[k] == s1[k] by {
        lemma_patch_all_pointwise(subs, paths, entries, k);
        lemma_patch_all_pointwise(s1, paths, entries, k);
    }
    assert(patch_all(s1, paths, entries) =~= s1);
}

/// Locate one signature, falling back to its reference-build offset.
fn resolve_one(text: &[u8], needle: &[u8], default: usize) -> (r: usize)
    requires
        needle@.len() >= 1,
    ensures
        r == located_or(text@, needle@, default),
{
    match find_subsequence(text, needle) {
        Some(offset) => {
            proof {
                lemma_first_match_is_first(text@, needle@);
                lemma_first_match_unique(
                    text@,
                    needle@,
                    offset as int,
                    first_match(text@, needle@),
                );
            }
            offset
        },
        None => default,
    }
}

} // verus!
