use strm_inspector::export::build_export_name;
use strm_inspector::text::{end_action_label, gpu_compression_label, safe_name};

#[test]
fn sanitizes_export_names() {
    assert_eq!(safe_name("Loop / Win"), "Loop___Win");
}

#[test]
fn maps_known_actions() {
    assert_eq!(end_action_label(0), "Stop");
    assert_eq!(end_action_label(100), "Loop");
}

#[test]
fn maps_remaining_actions() {
    assert_eq!(end_action_label(200), "Play section");
    assert_eq!(end_action_label(1), "Unknown");
    assert_eq!(end_action_label(-1), "Unknown");
}

#[test]
fn maps_gpu_compression_labels() {
    assert_eq!(gpu_compression_label(1), "Unknown / Standard");
    assert_eq!(gpu_compression_label(2), "BC3 / DXT5");
    assert_eq!(gpu_compression_label(3), "BC7 / Standard");
    assert_eq!(gpu_compression_label(4), "BC7 / Rough");
    assert_eq!(gpu_compression_label(5), "BC7 / Roughest");
    assert_eq!(gpu_compression_label(0), "Unknown");
    assert_eq!(gpu_compression_label(6), "Unknown");
}

#[test]
fn empty_name_becomes_section() {
    assert_eq!(safe_name(""), "section");
}

#[test]
fn safe_name_keeps_allowed_characters_and_replaces_others() {
    assert_eq!(safe_name("abc-XYZ_09"), "abc-XYZ_09");
    assert_eq!(safe_name("é.x"), "__x");
    assert_eq!(safe_name("///"), "___");
}

#[test]
fn safe_name_is_idempotent_on_examples() {
    for name in ["Loop / Win", "", "été", "a-b_c"] {
        let once = safe_name(name);
        assert_eq!(safe_name(&once), once);
    }
}

#[test]
fn export_names_use_separator_or_underscore() {
    assert_eq!(build_export_name("My Clip", "-", 7).unwrap(), "My_Clip-7.png");
    assert_eq!(build_export_name("clip", "", 12).unwrap(), "clip_12.png");
    assert_eq!(build_export_name("", "", 0).unwrap(), "section_0.png");
}
