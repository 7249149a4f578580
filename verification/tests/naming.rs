use microvid::models::{EncodeSettings, NamingSettings};
use microvid::naming::{output_file_name, output_path, render_tag, sanitize};

#[test]
fn plain_name_by_default() {
    let s = EncodeSettings::default();
    let n = NamingSettings::default();
    assert_eq!(output_file_name("/m/The Wire S01E03.mp4", &s, &n, 480), "The Wire S01E03.mkv");
}

#[test]
fn tag_and_signature() {
    let s = EncodeSettings::default();
    let n = NamingSettings { add_tag: true, tag_template: "[{res} {codec}]".into(), add_signature: true, signature: "_myname".into() };
    assert_eq!(output_file_name("/m/The Wire S01E03.mkv", &s, &n, 480), "The Wire S01E03 [480p HEVC]_myname.mkv");
    let n2 = NamingSettings { add_tag: false, add_signature: true, signature: " [MV]".into(), ..Default::default() };
    assert_eq!(output_file_name("/m/a.mkv", &s, &n2, 480), "a [MV].mkv");
}

#[test]
fn illegal_chars_stripped() {
    let s = EncodeSettings::default();
    let n = NamingSettings { add_signature: true, signature: "a/b:c?".into(), ..Default::default() };
    assert_eq!(output_file_name("/m/a.mkv", &s, &n, 480), "aabc.mkv");
}

#[test]
fn mirrors_structure() {
    let s = EncodeSettings::default();
    let n = NamingSettings::default();
    let p = output_path("/lib/The Wire/Season 02/E01.mkv", "/lib/The Wire", "/out", true, &s, &n, 480);
    assert_eq!(p, "/out/Season 02/E01.mkv");
    let flat = output_path("/lib/The Wire/Season 02/E01.mkv", "/lib/The Wire", "/out", false, &s, &n, 480);
    assert_eq!(flat, "/out/E01.mkv");
}

#[test]
fn tag_fields_and_source_resolution() {
    let s = EncodeSettings::default();
    assert_eq!(render_tag("{res}-{codec}-{crf}", &s, 720), "720p-HEVC-26");
    assert_eq!(render_tag("{res}", &s, 0), "src");
    assert_eq!(sanitize("a\u{7}b|c"), "abc");
}

#[test]
fn source_outside_root_is_not_mirrored() {
    let s = EncodeSettings::default();
    let n = NamingSettings::default();
    assert_eq!(output_path("/other/E01.mkv", "/lib/The Wire", "/out", true, &s, &n, 480), "/out/E01.mkv");
}
