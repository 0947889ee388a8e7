use arc_replacer::visit::{ModPath, PathError, Region};

fn mod_path(s: &str) -> ModPath {
    ModPath::new(s.as_bytes().to_vec())
}

#[test]
fn smash_path_restores_separator() {
    let p = mod_path("ui;replace;chara.bntx");
    assert_eq!(p.as_smash_path(), b"ui:replace:chara.bntx".to_vec());
}

#[test]
fn smash_path_strips_region_marker() {
    let p = mod_path("ui/message/msg_menu+us_en.msbt");
    assert_eq!(p.as_smash_path(), b"ui/message/msg_menu.msbt".to_vec());
}

#[test]
fn smash_path_rewrites_video_container() {
    let p = mod_path("stream;/movie/intro.mp4");
    assert_eq!(p.as_smash_path(), b"stream:/movie/intro.webm".to_vec());
}

#[test]
fn smash_path_applies_all_rules_together() {
    let p = mod_path("a;b+us_en.mp4");
    assert_eq!(p.as_smash_path(), b"a:b.webm".to_vec());
}

#[test]
fn smash_path_untouched_without_markers() {
    let p = mod_path("fighter/mario/model.numshb");
    assert_eq!(p.as_smash_path(), b"fighter/mario/model.numshb".to_vec());
}

#[test]
fn hash40_matches_archive_library() {
    let p = mod_path("a;b+us_en.mp4");
    assert_eq!(p.hash40(), Ok(smash_arc::hash40("a:b.webm").as_u64()));
    let q = mod_path("fighter/mario/model.numshb");
    assert_eq!(q.hash40(), Ok(smash_arc::hash40("fighter/mario/model.numshb").as_u64()));
}

#[test]
fn hash40_rejects_unrepresentable_bytes() {
    let p = ModPath::new(vec![0x61, 0xFF, 0x62]);
    assert_eq!(p.hash40(), Err(PathError::NotRepresentable));
}

#[test]
fn stream_prefix_is_component_wise() {
    assert!(mod_path("stream/sound/bgm.nus3audio").is_stream());
    assert!(mod_path("stream").is_stream());
    assert!(!mod_path("streaming/sound.bin").is_stream());
    assert!(!mod_path("fighter/stream.bin").is_stream());
}

#[test]
fn region_from_marker() {
    assert_eq!(
        mod_path("ui/message/msg+us_fr.msbt").get_region(),
        Some(Region::UsFrench)
    );
    assert_eq!(
        mod_path("ui/message/msg+jp_ja.msbt").get_region(),
        Some(Region::Japanese)
    );
    assert_eq!(
        mod_path("ui/message/msg+zh_tw.msbt").get_region(),
        Some(Region::TaiwanChinese)
    );
}

#[test]
fn region_unknown_code_defaults_to_us_english() {
    assert_eq!(
        mod_path("ui/message/msg+xx_yy.msbt").get_region(),
        Some(Region::UsEnglish)
    );
}

#[test]
fn region_none_without_marker() {
    assert_eq!(mod_path("ui/message/msg.msbt").get_region(), None);
}

#[test]
fn region_none_without_extension() {
    assert_eq!(mod_path("ui/message/readme").get_region(), None);
}

#[test]
fn region_marker_in_directory_is_ignored() {
    // The marker must sit in the file name, not a directory component.
    assert_eq!(mod_path("mods+us_en/file.msbt").get_region(), None);
}
