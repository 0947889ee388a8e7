use arc_replacer::cpp_vector::CppVector;
use arc_replacer::patching::{
    find_subsequence, filesize_replacement, offset_from_adrp, offset_from_ldr, read_u32_le,
    search_offsets, PathHashEntry, SubfileSizeRecord, DEFAULT_ADD_IDX_TO_TABLE1_AND_TABLE2_OFFSET,
    DEFAULT_IDK_OFFSET, DEFAULT_LOOKUP_STREAM_HASH_OFFSET,
};
use arc_replacer::tables::RegistryEntry;

#[test]
fn search_none_when_absent() {
    let haystack = [1u8, 2, 3, 4, 5];
    assert_eq!(find_subsequence(&haystack, &[6u8, 7]), None);
}

#[test]
fn search_finds_at_offset_zero() {
    let haystack = [9u8, 8, 7, 6];
    assert_eq!(find_subsequence(&haystack, &[9u8, 8]), Some(0));
}

#[test]
fn search_finds_at_last_position() {
    let haystack = [1u8, 2, 3, 4, 5];
    assert_eq!(find_subsequence(&haystack, &[4u8, 5]), Some(3));
}

#[test]
fn search_whole_haystack() {
    let haystack = [1u8, 2, 3];
    assert_eq!(find_subsequence(&haystack, &[1u8, 2, 3]), Some(0));
}

#[test]
fn search_reports_first_of_several() {
    let haystack = [0u8, 5, 5, 0, 5, 5];
    assert_eq!(find_subsequence(&haystack, &[5u8, 5]), Some(1));
}

#[test]
fn search_needle_longer_than_haystack() {
    let haystack = [1u8];
    assert_eq!(find_subsequence(&haystack, &[1u8, 2]), None);
}

#[test]
fn adrp_decode_known_word() {
    // Displacement of three pages, site inside page 0x5000.
    assert_eq!(offset_from_adrp(0x5678, 0xF0000000), 0x8000);
    // Zero displacement: just the page base.
    assert_eq!(offset_from_adrp(0x5678, 0x90000000), 0x5000);
}

#[test]
fn ldr_decode_known_word() {
    // 64-bit load, immediate 0x10, scaled by 8.
    assert_eq!(offset_from_ldr(0xF9404000), 0x80);
    // 32-bit load, immediate 1, scaled by 4.
    assert_eq!(offset_from_ldr(0xB9400400), 0x4);
}

#[test]
fn decode_pair_recovers_absolute_address() {
    // The pair encodes page(site) + 3 pages + 0x80 relative to site 0x5678.
    let page = offset_from_adrp(0x5678, 0xF0000000);
    let intra = offset_from_ldr(0xF9404000);
    assert_eq!(page + intra, 0x5000 + 0x3000 + 0x80);
}

#[test]
fn read_u32_le_reads_low_endian() {
    let bytes = [0xddu8, 0xcc, 0xbb, 0xaa];
    assert_eq!(read_u32_le(&bytes, 0), 0xaabbccdd);
}

fn adrp_sig_bytes() -> Vec<u8> {
    vec![
        0x28, 0x4b, 0x40, 0xb9, 0xf4, 0x03, 0x01, 0x2a, 0x1f, 0x01, 0x01, 0x6b, 0x29, 0x0a,
        0x00, 0x54, 0x36, 0x03, 0x40, 0xf9, 0xe0, 0x03, 0x16, 0xaa,
    ]
}

fn idk_sig_bytes() -> Vec<u8> {
    vec![
        0xf8, 0x5f, 0xbc, 0xa9, 0xf6, 0x57, 0x01, 0xa9, 0xf4, 0x4f, 0x02, 0xa9, 0xfd, 0x7b,
        0x03, 0xa9, 0xfd, 0xc3, 0x00, 0x91, 0xe8, 0x5f, 0x00, 0x32, 0x3f, 0x00, 0x08, 0x6b,
    ]
}

#[test]
fn search_offsets_decodes_table_pointer() {
    // Instruction pair at 0..8, then the locator signature at 8, so the
    // page-relative load site resolves to offset 0.
    let mut text: Vec<u8> = Vec::new();
    text.extend_from_slice(&[0x00, 0x00, 0x00, 0xF0]); // page +3 displacement
    text.extend_from_slice(&[0x00, 0x40, 0x40, 0xF9]); // intra-page 0x80
    text.extend_from_slice(&adrp_sig_bytes());
    // A found signature elsewhere.
    let idk_at = text.len();
    text.extend_from_slice(&idk_sig_bytes());

    let offsets = search_offsets(&text);
    assert_eq!(offsets.loaded_tables_adrp_offset, 0);
    assert_eq!(offsets.loaded_tables_offset, Some(0x3080));
    assert_eq!(offsets.idk_offset, idk_at);
    // Absent signatures fall back to the reference-build defaults.
    assert_eq!(
        offsets.add_idx_to_table1_and_table2_offset,
        DEFAULT_ADD_IDX_TO_TABLE1_AND_TABLE2_OFFSET
    );
    assert_eq!(offsets.lookup_stream_hash_offset, DEFAULT_LOOKUP_STREAM_HASH_OFFSET);
}

#[test]
fn search_offsets_all_defaults_on_empty_text() {
    let text: Vec<u8> = vec![0u8; 64];
    let offsets = search_offsets(&text);
    assert_eq!(offsets.idk_offset, DEFAULT_IDK_OFFSET);
    // The default decode site lies outside the scanned region.
    assert_eq!(offsets.loaded_tables_offset, None);
}

fn sample_tables() -> (CppVector<PathHashEntry>, CppVector<SubfileSizeRecord>) {
    let paths = CppVector::new(
        0x1000,
        8,
        vec![
            PathHashEntry { hash: 10 },
            PathHashEntry { hash: 20 },
            PathHashEntry { hash: 30 },
        ],
    );
    let subs = CppVector::new(
        0x2000,
        8,
        vec![
            SubfileSizeRecord { compressed_size: 1, decompressed_size: 2 },
            SubfileSizeRecord { compressed_size: 3, decompressed_size: 4 },
            SubfileSizeRecord { compressed_size: 5, decompressed_size: 6 },
        ],
    );
    (paths, subs)
}

#[test]
fn filesize_patch_sets_both_fields() {
    let (paths, mut subs) = sample_tables();
    let registry = vec![RegistryEntry { hash: 20, size: 0x99 }];
    filesize_replacement(&paths, &mut subs, &registry);
    assert_eq!(*subs.get(0), SubfileSizeRecord { compressed_size: 1, decompressed_size: 2 });
    assert_eq!(
        *subs.get(1),
        SubfileSizeRecord { compressed_size: 0x99, decompressed_size: 0x99 }
    );
    assert_eq!(*subs.get(2), SubfileSizeRecord { compressed_size: 5, decompressed_size: 6 });
}

#[test]
fn filesize_patch_skips_unknown_hash() {
    let (paths, mut subs) = sample_tables();
    let registry = vec![RegistryEntry { hash: 77, size: 5 }];
    filesize_replacement(&paths, &mut subs, &registry);
    assert_eq!(*subs.get(0), SubfileSizeRecord { compressed_size: 1, decompressed_size: 2 });
    assert_eq!(*subs.get(1), SubfileSizeRecord { compressed_size: 3, decompressed_size: 4 });
    assert_eq!(*subs.get(2), SubfileSizeRecord { compressed_size: 5, decompressed_size: 6 });
}

#[test]
fn filesize_patch_twice_is_same_as_once() {
    let (paths, mut once) = sample_tables();
    let registry = vec![
        RegistryEntry { hash: 30, size: 0x1234 },
        RegistryEntry { hash: 10, size: 0x42 },
    ];
    filesize_replacement(&paths, &mut once, &registry);
    let (_, mut twice) = sample_tables();
    filesize_replacement(&paths, &mut twice, &registry);
    filesize_replacement(&paths, &mut twice, &registry);
    for i in 0..3 {
        assert_eq!(*once.get(i), *twice.get(i));
    }
    assert_eq!(
        *once.get(0),
        SubfileSizeRecord { compressed_size: 0x42, decompressed_size: 0x42 }
    );
    assert_eq!(
        *once.get(2),
        SubfileSizeRecord { compressed_size: 0x1234, decompressed_size: 0x1234 }
    );
}
