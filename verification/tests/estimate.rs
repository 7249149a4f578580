use microvid::estimate::{calibration_key, height_bucket, upscale_note};
use microvid::models::{Codec, EncodeSettings, MediaInfo, Ratio, Resolution, VideoStream};

fn info(w: u32, h: u32) -> MediaInfo {
    MediaInfo {
        path: "x".into(),
        size_bytes: 1_400_000_000,
        duration_us: 3_600_000_000,
        container: "mkv".into(),
        bitrate: None,
        video: Some(VideoStream {
            index: 0,
            codec: "h264".into(),
            profile: None,
            width: w,
            height: h,
            fps: Ratio { num: 24, den: 1 },
            sar: Ratio { num: 1, den: 1 },
            pix_fmt: "yuv420p".into(),
            bit_depth: 8,
            bitrate: None,
            hdr: false,
        }),
        audio: vec![],
        subtitles: vec![],
        chapters: 0,
    }
}

#[test]
fn buckets() {
    assert_eq!(height_bucket(0), 360);
    assert_eq!(height_bucket(400), 360);
    assert_eq!(height_bucket(401), 480);
    assert_eq!(height_bucket(520), 480);
    assert_eq!(height_bucket(576), 576);
    assert_eq!(height_bucket(800), 720);
    assert_eq!(height_bucket(1080), 1080);
    assert_eq!(height_bucket(2160), 1080);
}

#[test]
fn calibration_keys() {
    let s = EncodeSettings::default();
    assert_eq!(calibration_key(&s, 480), "hevc:slower:480");
    let mut hw = EncodeSettings::default();
    hw.hardware = true;
    assert_eq!(calibration_key(&hw, 700), "hw:slower:720");
    let mut x = EncodeSettings::default();
    x.codec = Codec::X264;
    x.preset = Some("fast".into());
    assert_eq!(calibration_key(&x, 1080), "x264:fast:1080");
}

#[test]
fn note_when_source_is_shorter() {
    let mut s = EncodeSettings::default();
    s.resolution = Resolution::P1080;
    let n = upscale_note(&info(1280, 720), &s).unwrap();
    assert!(n.contains("no upscaling"));
    assert_eq!(n, "Source is 720p, output stays 720p (no upscaling)");
    assert_eq!(upscale_note(&info(1920, 1080), &s), None);
    s.resolution = Resolution::Source;
    assert_eq!(upscale_note(&info(1280, 720), &s), None);
}
