use arc_replacer::replacement::{
    apply_replacement, fixup_nutexb_footer, handle_file_replace, inflate_incoming,
    PendingSlots, ReplaceError, NUTEXB_FOOTER_SIZE,
};
use arc_replacer::tables::{
    ArcTables, FileData, FileInfo, FilePath, FilesystemInfo, LoadedData, LoadedFilepath,
    Registry, RegistryEntry,
};

fn nutexb_hash() -> u64 {
    smash_arc::hash40("nutexb").as_u64()
}

fn sample_arc() -> ArcTables {
    ArcTables {
        file_paths: vec![
            FilePath { path_hash: 0xAA, ext_hash: nutexb_hash(), info_index: 0 },
            FilePath { path_hash: 0xBB, ext_hash: 0x1234, info_index: 1 },
        ],
        file_infos: vec![
            FileInfo { file_path_index: 0, file_info_indice_index: 0, file_data_index: 0 },
            FileInfo { file_path_index: 1, file_info_indice_index: 1, file_data_index: 2 },
        ],
        file_datas: vec![
            FileData { decomp_size: 0x1000 },
            FileData { decomp_size: 0x2000 },
            FileData { decomp_size: 0x300 },
            FileData { decomp_size: 0x400 },
        ],
    }
}

fn sample_fs() -> FilesystemInfo {
    FilesystemInfo {
        loaded_filepaths: vec![LoadedFilepath { is_loaded: 1 }, LoadedFilepath { is_loaded: 1 }],
        loaded_datas: vec![LoadedData { has_data: true }, LoadedData { has_data: true }],
    }
}

#[test]
fn staging_is_per_operation() {
    let mut slots = PendingSlots::new(3);
    // Two concurrent operations with distinct hashes on distinct slots.
    slots.set_incoming(0, Some(0xAAAA));
    slots.set_incoming(2, Some(0xBBBB));
    assert_eq!(slots.take_incoming(0), Some(0xAAAA));
    assert_eq!(slots.take_incoming(2), Some(0xBBBB));
    // Consuming clears the slot.
    assert_eq!(slots.take_incoming(0), None);
    assert_eq!(slots.take_incoming(2), None);
}

#[test]
fn staging_none_clears_stale_hash() {
    let mut slots = PendingSlots::new(1);
    slots.set_incoming(0, Some(0x77));
    slots.set_incoming(0, None);
    assert_eq!(slots.take_incoming(0), None);
}

#[test]
fn incoming_stages_registered_hash() {
    let arc = sample_arc();
    let registry = Registry { entries: vec![RegistryEntry { hash: 0xAA, size: 16 }] };
    let mut slots = PendingSlots::new(2);
    let staged = inflate_incoming(&arc, &registry, &mut slots, 1, 0, 0);
    assert_eq!(staged, Some(0xAA));
    assert_eq!(slots.take_incoming(1), Some(0xAA));
}

#[test]
fn incoming_clears_for_unregistered_hash() {
    let arc = sample_arc();
    let registry = Registry { entries: vec![RegistryEntry { hash: 0xAA, size: 16 }] };
    let mut slots = PendingSlots::new(2);
    slots.set_incoming(1, Some(0xAA));
    // The second batch entry resolves to hash 0xBB, which has no replacement.
    let staged = inflate_incoming(&arc, &registry, &mut slots, 1, 1, 0);
    assert_eq!(staged, None);
    assert_eq!(slots.take_incoming(1), None);
}

#[test]
fn replace_resolves_target() {
    let arc = sample_arc();
    let fs = sample_fs();
    let t = handle_file_replace(&arc, &fs, 0xAA, 0).unwrap();
    assert_eq!(t.filepath_index, 0);
    assert_eq!(t.data_index, 0);
    assert_eq!(t.decompressed_size, 0x1000);
    assert!(t.is_nutexb);
}

#[test]
fn replace_reads_language_variant() {
    let arc = sample_arc();
    let fs = sample_fs();
    let t = handle_file_replace(&arc, &fs, 0xBB, 1).unwrap();
    assert_eq!(t.decompressed_size, 0x400);
    assert!(!t.is_nutexb);
}

#[test]
fn replace_lookup_miss() {
    let arc = sample_arc();
    let fs = sample_fs();
    assert_eq!(handle_file_replace(&arc, &fs, 0xCC, 0), Err(ReplaceError::LookupMiss));
}

#[test]
fn replace_not_loaded() {
    let arc = sample_arc();
    let mut fs = sample_fs();
    fs.loaded_filepaths[0] = LoadedFilepath { is_loaded: 0 };
    assert_eq!(handle_file_replace(&arc, &fs, 0xAA, 0), Err(ReplaceError::NotLoaded));
}

#[test]
fn replace_null_buffer() {
    let arc = sample_arc();
    let mut fs = sample_fs();
    fs.loaded_datas[0] = LoadedData { has_data: false };
    assert_eq!(handle_file_replace(&arc, &fs, 0xAA, 0), Err(ReplaceError::NullBuffer));
}

#[test]
fn footer_preserved_for_short_texture() {
    // decompressed size 0x1000, written size 0x900, footer 0xB0.
    let decompressed: usize = 0x1000;
    let written: usize = 0x900;
    let mut buffer: Vec<u8> = (0..decompressed).map(|i| (i % 251) as u8).collect();
    let original = buffer.clone();
    let content: Vec<u8> = (0..written).map(|i| ((i * 7) % 253) as u8).collect();

    apply_replacement(&mut buffer, &content, true);

    assert_eq!(buffer.len(), decompressed);
    // The written content fills the prefix unchanged.
    assert_eq!(&buffer[..written], &content[..]);
    // The stretch between the written content and the footer keeps the
    // pre-existing bytes.
    assert_eq!(
        &buffer[written..decompressed - NUTEXB_FOOTER_SIZE],
        &original[written..decompressed - NUTEXB_FOOTER_SIZE]
    );
    // The final footer equals the footer-sized tail of the written content.
    assert_eq!(
        &buffer[decompressed - NUTEXB_FOOTER_SIZE..],
        &content[written - NUTEXB_FOOTER_SIZE..written]
    );
}

#[test]
fn no_footer_copy_for_other_formats() {
    let mut buffer: Vec<u8> = vec![9u8; 0x400];
    let content: Vec<u8> = vec![1u8; 0x300];
    apply_replacement(&mut buffer, &content, false);
    assert_eq!(&buffer[..0x300], &content[..]);
    assert_eq!(&buffer[0x300..], &[9u8; 0x100][..]);
}

#[test]
fn full_size_texture_needs_no_footer_copy() {
    let mut buffer: Vec<u8> = vec![9u8; 0x200];
    let content: Vec<u8> = (0..0x200).map(|i| (i % 256) as u8).collect();
    apply_replacement(&mut buffer, &content, true);
    assert_eq!(buffer, content);
}

#[test]
fn footer_fixup_moves_tail() {
    let mut buffer: Vec<u8> = (0..0x300).map(|i| (i % 256) as u8).collect();
    let original = buffer.clone();
    fixup_nutexb_footer(&mut buffer, 0x200);
    assert_eq!(&buffer[..0x300 - NUTEXB_FOOTER_SIZE], &original[..0x300 - NUTEXB_FOOTER_SIZE]);
    assert_eq!(
        &buffer[0x300 - NUTEXB_FOOTER_SIZE..],
        &original[0x200 - NUTEXB_FOOTER_SIZE..0x200]
    );
}
