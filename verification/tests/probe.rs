use microvid::models::Ratio;
use microvid::probe::{bit_depth_of, check_probe, is_video_file, parse_ffprobe_json, parse_micros, parse_ratio, probe_report, Json, ProbeError};

fn to_json(v: &serde_json::Value) -> Json {
    match v {
        serde_json::Value::Null => Json::Null,
        serde_json::Value::Bool(b) => Json::Bool(*b),
        serde_json::Value::Number(n) => Json::Number(n.to_string()),
        serde_json::Value::String(s) => Json::Str(s.clone()),
        serde_json::Value::Array(a) => Json::Array(a.iter().map(to_json).collect()),
        serde_json::Value::Object(o) => Json::Object(o.iter().map(|(k, v)| (k.clone(), to_json(v))).collect()),
    }
}

fn parse(text: &str) -> Json {
    to_json(&serde_json::from_str::<serde_json::Value>(text).unwrap())
}

fn ratio_f64(r: Ratio) -> f64 {
    r.num as f64 / r.den as f64
}

#[test]
fn parses_typical_probe() {
    let json = parse(r#"{
      "streams": [
        {"index":0,"codec_type":"video","codec_name":"h264","profile":"High","width":1920,"height":1080,
         "pix_fmt":"yuv420p","avg_frame_rate":"24000/1001","sample_aspect_ratio":"1:1","disposition":{"default":1,"attached_pic":0}},
        {"index":1,"codec_type":"audio","codec_name":"ac3","channels":6,"channel_layout":"5.1","bit_rate":"384000",
         "tags":{"language":"eng"},"disposition":{"default":1}},
        {"index":2,"codec_type":"subtitle","codec_name":"subrip","tags":{"language":"eng","title":"English"},"disposition":{"default":0,"forced":0}},
        {"index":3,"codec_type":"subtitle","codec_name":"hdmv_pgs_subtitle","tags":{"language":"fre"},"disposition":{"default":0,"forced":1}}
      ],
      "format": {"format_name":"matroska,webm","duration":"3492.5","size":"1500000000","bit_rate":"3435000"},
      "chapters": [{"id":0},{"id":1}]
    }"#);
    let info = parse_ffprobe_json("/tmp/x.mkv", &json, None);
    let v = info.video.unwrap();
    assert_eq!((v.width, v.height), (1920, 1080));
    assert!((ratio_f64(v.fps) - 23.976).abs() < 0.001);
    assert_eq!(v.bit_depth, 8);
    assert_eq!(info.audio[0].channels, 6);
    assert_eq!(info.subtitles.len(), 2);
    assert!(info.subtitles[0].text_based);
    assert!(!info.subtitles[1].text_based);
    assert!(info.subtitles[1].forced);
    assert_eq!(info.chapters, 2);
    assert_eq!(info.size_bytes, 1_500_000_000);
}

#[test]
fn detects_anamorphic_and_10bit() {
    let json = parse(r#"{"streams":[{"index":0,"codec_type":"video","codec_name":"hevc","width":1440,"height":1080,
      "pix_fmt":"yuv420p10le","avg_frame_rate":"25/1","sample_aspect_ratio":"4:3"}],"format":{"duration":"10"}}"#);
    let info = parse_ffprobe_json("/tmp/y.mkv", &json, None);
    let v = info.video.unwrap();
    assert!((ratio_f64(v.sar) - 4.0 / 3.0).abs() < 1e-9);
    let dar = (v.width as f64 / v.height as f64) * ratio_f64(v.sar);
    assert!((dar - 16.0 / 9.0).abs() < 1e-9);
    assert_eq!(v.bit_depth, 10);
}

#[test]
fn reads_every_field_of_a_stream() {
    let json = parse(r#"{"streams":[
        {"index":0,"codec_type":"video","codec_name":"mjpeg","width":600,"height":600,"disposition":{"attached_pic":1}},
        {"index":1,"codec_type":"video","codec_name":"hevc","width":"3840","height":2160,"pix_fmt":"yuv420p",
         "bits_per_raw_sample":"12","avg_frame_rate":"0/0","r_frame_rate":"30000/1001","sample_aspect_ratio":"0:1",
         "color_transfer":"smpte2084","bit_rate":"20000000"},
        {"index":2,"codec_type":"audio","codec_name":"aac","tags":{"title":"Commentary"}},
        {"index":3,"codec_type":"data"}
      ],"format":{"duration":3.25}}"#);
    let info = parse_ffprobe_json("/m/z.mkv", &json, Some(42));
    let v = info.video.unwrap();
    assert_eq!(v.index, 1);
    assert_eq!(v.codec, "hevc");
    assert_eq!(v.width, 3840);
    assert_eq!(v.fps, Ratio { num: 30000, den: 1001 });
    assert_eq!(v.sar, Ratio { num: 1, den: 1 });
    assert_eq!(v.bit_depth, 12);
    assert!(v.hdr);
    assert_eq!(v.bitrate, Some(20_000_000));
    assert_eq!(info.audio.len(), 1);
    let a = &info.audio[0];
    assert_eq!((a.index, a.rel_index, a.channels), (2, 0, 2));
    assert_eq!(a.title.as_deref(), Some("Commentary"));
    assert!(!a.is_default);
    assert_eq!(info.duration_us, 3_250_000);
    assert_eq!(info.size_bytes, 42);
    assert_eq!(info.container, "");
    assert_eq!(info.chapters, 0);
    assert_eq!(info.path, "/m/z.mkv");
}

#[test]
fn a_file_without_video_is_refused() {
    let json = parse(r#"{"streams":[{"index":0,"codec_type":"audio","codec_name":"flac"}],"format":{}}"#);
    let info = parse_ffprobe_json("/m/song.flac", &json, None);
    assert!(matches!(check_probe(info), Err(ProbeError::NoVideo)));
    assert_eq!(ProbeError::NoVideo.message(), "no video stream found");
}

#[test]
fn numbers_ratios_and_depths() {
    assert_eq!(parse_ratio("24000/1001"), Some(Ratio { num: 24000, den: 1001 }));
    assert_eq!(parse_ratio(" 4 : 3 "), Some(Ratio { num: 4, den: 3 }));
    assert_eq!(parse_ratio("1/0"), None);
    assert_eq!(parse_ratio("N/A"), None);
    assert_eq!(parse_ratio("25"), None);
    assert_eq!(parse_ratio("2.5/1"), Some(Ratio { num: 25, den: 10 }));
    assert_eq!(parse_ratio("30/1.001"), Some(Ratio { num: 30000, den: 1001 }));
    assert_eq!(parse_ratio(".5:+2"), Some(Ratio { num: 5, den: 20 }));
    assert_eq!(parse_ratio("5/0.0"), None);
    assert_eq!(parse_ratio("4294967295.1/1"), None);
    assert_eq!(parse_micros("3492.5"), Some(3_492_500_000));
    assert_eq!(parse_micros("+.5"), Some(500_000));
    assert_eq!(parse_micros("7"), Some(7_000_000));
    assert_eq!(parse_micros("1.0000009"), Some(1_000_000));
    assert_eq!(parse_micros("."), None);
    assert_eq!(parse_micros("1e3"), None);
    assert_eq!(bit_depth_of("yuv420p", Some(0)), 8);
    assert_eq!(bit_depth_of("yuv420p12le", None), 12);
    assert_eq!(bit_depth_of("yuv420p10le", Some(264)), 8);
}

#[test]
fn video_files_by_extension() {
    assert!(is_video_file("/m/a.MKV"));
    assert!(is_video_file("clip.m2ts"));
    assert!(!is_video_file("/m/a.srt"));
    assert!(!is_video_file("/m/mkv"));
    assert!(!is_video_file("/m/.mkv"));
}

#[test]
fn probe_report_outcomes() {
    assert_eq!(probe_report("/m/x.mkv", None, Some(5)).err(), Some(ProbeError::BadReport));
    assert_eq!(ProbeError::BadReport.message(), "parsing ffprobe json");
    assert_eq!(ProbeError::NoVideo.message(), "no video stream found");
    let empty = Json::Object(vec![("streams".to_string(), Json::Array(vec![]))]);
    assert_eq!(probe_report("/m/x.mkv", Some(empty), Some(5)).err(), Some(ProbeError::NoVideo));
}
