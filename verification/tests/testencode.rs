use microvid::testencode::{bench_clip, bench_rounds, frame_b64, test_clip};

#[test]
fn clips_stay_inside_the_file() {
    assert_eq!(test_clip(3_600_000_000, None), (1_785_000, 30_000));
    assert_eq!(test_clip(3_600_000_000, Some(-5)), (0, 30_000));
    assert_eq!(test_clip(3_600_000_000, Some(3_599_000)), (3_570_000, 30_000));
    assert_eq!(test_clip(10_000_000, None), (0, 10_000));
    assert_eq!(test_clip(500_000, None), (0, 1_000));
    assert_eq!(bench_clip(60_000_000), (22_500, 15_000));
    assert_eq!((bench_rounds(0), bench_rounds(3), bench_rounds(9)), (1, 3, 4));
}

#[test]
fn frames_as_base64() {
    assert_eq!(frame_b64(true, b"Man"), Some("TWFu".to_string()));
    assert_eq!(frame_b64(true, b"Ma"), Some("TWE=".to_string()));
    assert_eq!(frame_b64(true, b"M"), Some("TQ==".to_string()));
    assert_eq!(frame_b64(true, &[0xff, 0xfe, 0x00, 0x3e, 0x3f]), Some("//4APj8=".to_string()));
    assert_eq!(frame_b64(false, b"Man"), None);
    assert_eq!(frame_b64(true, b""), None);
}
