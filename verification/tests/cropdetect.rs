use microvid::cropdetect::{choose_crop, parse_crop_lines};
use microvid::models::Crop;

#[test]
fn parses_last_crop_line() {
    let s = "[Parsed_cropdetect_0 @ 0x1] x1:0 x2:1919 y1:140 y2:939 w:1920 h:800 x:0 y:140 pts:1 t:0.04 crop=1920:800:0:140\nfoo crop=1920:796:0:142\n";
    assert_eq!(parse_crop_lines(s), Some(Crop { w: 1920, h: 796, x: 0, y: 142 }));
}

#[test]
fn picks_safest_and_rejects_tiny_or_huge() {
    let a = Crop { w: 1920, h: 800, x: 0, y: 140 };
    let b = Crop { w: 1920, h: 816, x: 0, y: 132 };
    assert_eq!(choose_crop(&[a, b], 1920, 1080), Some(b));
    assert_eq!(choose_crop(&[Crop { w: 1920, h: 1072, x: 0, y: 4 }], 1920, 1080), None);
    assert_eq!(choose_crop(&[Crop { w: 1920, h: 400, x: 0, y: 340 }], 1920, 1080), None);
}

#[test]
fn no_report_or_overflowing_number_gives_no_crop() {
    assert_eq!(parse_crop_lines("nothing here"), None);
    assert_eq!(parse_crop_lines("crop=1920:800:0"), None);
    assert_eq!(parse_crop_lines("crop=99999999999:800:0:140"), None);
}

#[test]
fn odd_crop_values_are_made_even() {
    let c = Crop { w: 1919, h: 801, x: 1, y: 139 };
    assert_eq!(choose_crop(&[c], 1920, 1080), Some(Crop { w: 1918, h: 800, x: 0, y: 138 }));
}

#[test]
fn zero_sized_or_no_samples_give_no_crop() {
    assert_eq!(choose_crop(&[], 1920, 1080), None);
    assert_eq!(choose_crop(&[Crop { w: 0, h: 800, x: 0, y: 0 }], 1920, 1080), None);
}

#[test]
fn report_with_other_script_digits_does_not_parse() {
    let text = "[Parsed_cropdetect_0] crop=1920:800:0:140\n[Parsed_cropdetect_0] crop=1920:8\u{0660}0:0:140\n";
    assert_eq!(parse_crop_lines(text), None);
    let text = "crop=1920:800:0:140\ncrop=1920:abc\n";
    assert_eq!(parse_crop_lines(text), Some(Crop { w: 1920, h: 800, x: 0, y: 140 }));
}
