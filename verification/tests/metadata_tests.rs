use phupload::metadata::{convert_model, Metadata};

#[test]
fn known_models_get_friendly_names() {
    assert_eq!(convert_model("ILCE-7RM2"), "a7r II");
    assert_eq!(convert_model("ILCE-7RM3"), "a7r III");
    assert_eq!(convert_model("ILCE-7RM4"), "a7r IV");
    assert_eq!(convert_model("ILCE-7SM2"), "a7s II");
    assert_eq!(convert_model("ILCE-7SM3"), "a7s III");
    assert_eq!(convert_model("ILCE-7SM4"), "a7s IV");
}

#[test]
fn unknown_models_pass_through() {
    assert_eq!(convert_model("X100V"), "X100V");
    assert_eq!(convert_model(""), "");
}

#[test]
fn record_built_from_extractor_lines() {
    let out = b"Make: sony\nModel: ILCE-7RM2\nISO: 100\nFocalLength: 35.0 mm\nApertureValue: 2.8\nShutterSpeedValue: 1/250\nTitle: hello world\nDescription: a view\nKeywords: alpha, beta\nImageWidth: 6000\nImageHeight: 4000\n".to_vec();
    let m = Metadata::from_exiftool(out);
    assert_eq!(m.camera, "Sony a7r II");
    assert_eq!(m.iso, "100");
    assert_eq!(m.focal_length, "35.0 mm");
    assert_eq!(m.aperture, "2.8");
    assert_eq!(m.shutter_speed, "1/250");
    assert_eq!(m.title, "Hello World");
    assert_eq!(m.description, "a view");
    assert_eq!(m.created_at, "a view");
    assert_eq!(m.tags, vec!["alpha", "beta", "upload"]);
    assert_eq!(m.height_at_1200, 800);
}

#[test]
fn missing_tags_fall_back() {
    let m = Metadata::from_exiftool(Vec::new());
    assert_eq!(m.camera, " ");
    assert_eq!(m.iso, "");
    assert_eq!(m.aperture, "0.0");
    assert_eq!(m.tags, vec!["upload"]);
    assert_eq!(m.height_at_1200, 1200);
}

#[test]
fn last_line_wins_and_odd_lines_are_skipped() {
    let out = b"ISO: 100\nnot a tagged line\nISO: 200\n".to_vec();
    let m = Metadata::from_exiftool(out);
    assert_eq!(m.iso, "200");
}

#[test]
fn tag_splits_at_the_last_separator() {
    // The tag name takes everything up to the last `: `, so this line
    // records a tag named `Description: time: 12`, not `Description`.
    let out = b"Description: time: 12: 30\n".to_vec();
    let m = Metadata::from_exiftool(out);
    assert_eq!(m.description, "");
}

#[test]
fn degenerate_dimensions_do_not_break_the_height() {
    let m = Metadata::from_exiftool(b"ImageWidth: 0\nImageHeight: 4000\n".to_vec());
    assert_eq!(m.height_at_1200, 4000 * 1200);
    let m = Metadata::from_exiftool(b"ImageWidth: oops\nImageHeight: 2400\n".to_vec());
    assert_eq!(m.height_at_1200, 2400 * 1200);
    let m = Metadata::from_exiftool(b"ImageWidth: 6000\nImageHeight: huge\n".to_vec());
    assert_eq!(m.height_at_1200, 0);
}

#[test]
fn empty_keywords_yield_only_the_upload_tag() {
    let m = Metadata::from_exiftool(b"Keywords: \n".to_vec());
    assert_eq!(m.tags, vec!["upload"]);
}

#[test]
fn oversized_height_is_capped() {
    let m = Metadata::from_exiftool(b"ImageWidth: 1\nImageHeight: 2147483647\n".to_vec());
    assert_eq!(m.height_at_1200, i32::MAX);
}
