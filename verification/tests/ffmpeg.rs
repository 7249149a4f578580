use microvid::ffmpeg::{
    candidates, capabilities_from, current_triple, exe, join, parent, parse_encoders, parse_progress_line, parse_version,
    resolve, ExeEnv, ProgressLine, ResolveError,
};
use std::cell::RefCell;

fn micros(v: Option<u64>) -> Option<f64> {
    v.map(|x| x as f64 / 1_000_000.0)
}

#[test]
fn parses_progress_block() {
    let mut acc = ProgressLine::default();
    let lines = ["frame=120", "fps=48.5", "total_size=123456", "out_time_us=5000000", "speed=2.02x", "progress=continue"];
    let mut result = None;
    for l in lines {
        if let Some(r) = parse_progress_line(&mut acc, l) {
            result = Some(r);
        }
    }
    let r = result.expect("block");
    assert_eq!(r.frame, Some(120));
    assert_eq!(micros(r.fps), Some(48.5));
    assert_eq!(r.total_size, Some(123456));
    assert_eq!(r.out_time_us.map(|u| u as f64 / 1_000_000.0), Some(5.0));
    assert_eq!(micros(r.speed), Some(2.02));
    assert!(!r.end);
}

#[test]
fn handles_na_values_and_end() {
    let mut acc = ProgressLine::default();
    parse_progress_line(&mut acc, "speed=N/A");
    parse_progress_line(&mut acc, "fps=0.0");
    let r = parse_progress_line(&mut acc, "progress=end").unwrap();
    assert_eq!(r.speed, None);
    assert!(r.end);
}

#[test]
fn block_resets_and_old_time_key() {
    let mut acc = ProgressLine::default();
    assert!(parse_progress_line(&mut acc, "out_time_ms=2500000").is_none());
    assert!(parse_progress_line(&mut acc, "out_time_ms=9").is_none());
    assert!(parse_progress_line(&mut acc, "no equals sign").is_none());
    assert!(parse_progress_line(&mut acc, " bitrate = 1.2kbits/s ").is_none());
    let r = parse_progress_line(&mut acc, "progress=continue").unwrap();
    assert_eq!(r.out_time_us, Some(2_500_000));
    assert_eq!(acc, ProgressLine::default());
    parse_progress_line(&mut acc, "out_time_us=-9223372036854775807");
    assert_eq!(acc.out_time_us, Some(-9223372036854775807));
}

#[test]
fn exe_names_and_triples() {
    assert_eq!(exe("ffmpeg", true), "ffmpeg.exe");
    assert_eq!(exe("ffmpeg", false), "ffmpeg");
    assert_eq!(current_triple("aarch64", "macos"), "aarch64-apple-darwin");
    assert_eq!(current_triple("x86_64", "windows"), "x86_64-pc-windows-msvc");
    assert_eq!(current_triple("x86_64", "linux"), "x86_64-unknown-linux-gnu");
    assert_eq!(current_triple("riscv64", "freebsd"), "riscv64-freebsd");
}

#[test]
fn paths_join_and_parent() {
    assert_eq!(join("/a", "b"), "/a/b");
    assert_eq!(join("/a/", "b"), "/a/b");
    assert_eq!(join("", "b"), "b");
    assert_eq!(join("/a", "/b"), "/b");
    assert_eq!(parent("/usr/bin/ffmpeg"), Some("/usr/bin".to_string()));
    assert_eq!(parent("/ffmpeg"), Some("/".to_string()));
    assert_eq!(parent("ffmpeg"), Some(String::new()));
    assert_eq!(parent("/a/b/"), Some("/a".to_string()));
    assert_eq!(parent("/"), None);
    assert_eq!(parent(""), None);
}

fn env() -> ExeEnv {
    ExeEnv {
        exe_dir: Some("/app/MacOS".into()),
        manifest_dir: None,
        build_manifest_dir: "/src/tauri".into(),
        triple: "aarch64-apple-darwin".into(),
        windows: false,
    }
}

#[test]
fn candidate_order() {
    let c = candidates("ffmpeg", Some("/opt/ff"), &env());
    let got: Vec<(&str, &str)> = c.iter().map(|(p, s)| (p.as_str(), *s)).collect();
    assert_eq!(
        got,
        vec![
            ("/opt/ff/ffmpeg", "custom"),
            ("/app/MacOS/ffmpeg", "bundled"),
            ("/app/MacOS/../Resources/ffmpeg", "bundled"),
            ("/src/tauri/binaries/ffmpeg-aarch64-apple-darwin", "bundled"),
            ("ffmpeg", "path"),
        ]
    );
}

#[test]
fn resolves_first_working_binaries() {
    let tried = RefCell::new(Vec::new());
    let works = |p: &String| {
        tried.borrow_mut().push(p.clone());
        p == "/app/MacOS/../Resources/ffmpeg" || p == "/app/MacOS/../Resources/ffprobe-aarch64-apple-darwin"
    };
    let (ff, fp, src) = resolve(Some("  "), false, &env(), &works).unwrap();
    assert_eq!(ff, "/app/MacOS/../Resources/ffmpeg");
    assert_eq!(fp, "/app/MacOS/../Resources/ffprobe-aarch64-apple-darwin");
    assert_eq!(src, "bundled");
    assert_eq!(tried.borrow()[0], "/app/MacOS/ffmpeg");
    assert_eq!(tried.borrow()[2], "/app/MacOS/../Resources/ffprobe");

    let custom_file = |p: &String| p == "/opt/ff/ffmpeg" || p == "ffprobe";
    let (ff, fp, src) = resolve(Some(" /opt/ff/ffmpeg "), true, &env(), &custom_file).unwrap();
    assert_eq!((ff.as_str(), fp.as_str(), src), ("/opt/ff/ffmpeg", "ffprobe", "custom"));

    let none = |_: &String| false;
    assert_eq!(resolve(None, false, &env(), &none), Err(ResolveError::NoFfmpeg));
    let only_ffmpeg = |p: &String| p == "ffmpeg";
    assert_eq!(resolve(None, false, &env(), &only_ffmpeg), Err(ResolveError::NoFfprobe));
    assert_eq!(ResolveError::NoFfprobe.message(), "ffprobe not found next to ffmpeg or on PATH");
}

#[test]
fn reads_version_and_encoders() {
    assert_eq!(parse_version("ffmpeg version 7.1.1-tessus Copyright (c) 2000\nbuilt with clang\n"), "7.1.1-tessus");
    assert_eq!(parse_version(""), "?");
    assert_eq!(parse_version("ffmpeg version \n"), "?");
    let enc = "Encoders:\n V..... = Video\n ------\n V....D libx264              libx264 H.264\n A....D aac_at   AAC (AudioToolbox)\n V....D hevc_videotoolbox VideoToolbox H.265\n V....D h264_nvenc  NVIDIA\n";
    assert_eq!(parse_encoders(enc), vec!["=", "libx264", "aac_at", "hevc_videotoolbox", "h264_nvenc"]);
    let caps = capabilities_from("/x/ffmpeg".into(), "/x/ffprobe".into(), "bundled", "ffmpeg version 6.0\n", enc);
    assert_eq!(caps.version, "6.0");
    assert!(caps.has_aac_at && caps.has_x264 && !caps.has_x265 && !caps.has_fdk_aac && !caps.has_svtav1);
    assert_eq!(caps.hw_h264.as_deref(), Some("h264_nvenc"));
    assert_eq!(caps.hw_hevc.as_deref(), Some("hevc_videotoolbox"));
    assert_eq!(caps.audio_encoder(), "aac_at");
}
