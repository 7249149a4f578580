use microvid::command::{build_args, downmix_pan, effective_crop, escape_filter_path, output_dims, select_audio, BuildError, BuildInput};
use microvid::models::{
    AudioMode, AudioStream, Capabilities, Channels, Codec, Container, ContentType, Crop, CropMode, EncodeSettings, MediaInfo, Ratio,
    Resolution, SubtitleMode, SubtitleStream, VideoStream,
};

fn info(w: u32, h: u32, sar: Ratio) -> MediaInfo {
    MediaInfo {
        path: "/media/Show S01E01.mkv".into(),
        size_bytes: 1_400_000_000,
        duration_us: 2_600_000_000,
        container: "matroska".into(),
        bitrate: None,
        video: Some(VideoStream {
            index: 0,
            codec: "h264".into(),
            profile: None,
            width: w,
            height: h,
            fps: Ratio { num: 24000, den: 1001 },
            sar,
            pix_fmt: "yuv420p".into(),
            bit_depth: 8,
            bitrate: None,
            hdr: false,
        }),
        audio: vec![AudioStream {
            index: 1,
            rel_index: 0,
            codec: "ac3".into(),
            channels: 6,
            channel_layout: Some("5.1(side)".into()),
            language: Some("eng".into()),
            title: None,
            bitrate: Some(384000),
            is_default: true,
        }],
        subtitles: vec![SubtitleStream {
            index: 2,
            rel_index: 0,
            codec: "subrip".into(),
            language: Some("eng".into()),
            title: None,
            forced: false,
            is_default: false,
            text_based: true,
        }],
        chapters: 3,
    }
}

fn square() -> Ratio {
    Ratio { num: 1, den: 1 }
}

fn caps() -> Capabilities {
    Capabilities {
        ffmpeg_path: "ffmpeg".into(),
        ffprobe_path: "ffprobe".into(),
        source: "bundled".into(),
        version: "9".into(),
        encoders: vec![],
        has_aac_at: true,
        has_fdk_aac: false,
        has_x264: true,
        has_x265: true,
        has_svtav1: true,
        hw_h264: Some("h264_videotoolbox".into()),
        hw_hevc: Some("hevc_videotoolbox".into()),
    }
}

fn args(info: &MediaInfo, s: &EncodeSettings, crop: Option<Crop>, sub: Option<&str>) -> Vec<String> {
    let c = caps();
    build_args(BuildInput { info, settings: s, crop, external_sub: sub, output: "/out/x.mkv.part", caps: &c, clip: None }).unwrap()
}

fn has_pair(a: &[String], k: &str, v: &str) -> bool {
    a.windows(2).any(|w| w[0] == k && w[1] == v)
}

#[test]
fn default_hevc_480p() {
    let i = info(1920, 1080, square());
    let s = EncodeSettings::default();
    let a = args(&i, &s, None, None);
    assert!(has_pair(&a, "-c:v", "libx265"));
    assert!(has_pair(&a, "-preset", "slower"));
    assert!(has_pair(&a, "-crf", "26"));
    assert!(has_pair(&a, "-tag:v", "hvc1"));
    assert!(has_pair(&a, "-vf", "scale=854:480:flags=lanczos,setsar=1"));
    assert!(has_pair(&a, "-c:a", "aac_at"));
    assert!(has_pair(&a, "-b:a", "80k"));
    assert!(a.iter().any(|x| x.starts_with("pan=stereo|FL<FL+0.707*FC+0.5*SL")));
    assert!(has_pair(&a, "-map", "0:s:0"));
    assert!(has_pair(&a, "-c:s:0", "copy"));
    assert!(has_pair(&a, "-f", "matroska"));
    assert_eq!(a.last().unwrap(), "/out/x.mkv.part");
}

#[test]
fn never_upscales_and_keeps_aspect() {
    let i = info(1280, 720, square());
    let mut s = EncodeSettings::default();
    s.resolution = Resolution::P1080;
    assert_eq!(output_dims(&i, &s, None), (1280, 720));
    let a = args(&i, &s, None, None);
    assert!(!a.iter().any(|x| x.starts_with("scale=")), "no scale filter expected: {a:?}");
    // anamorphic 1440x1080 with SAR 4:3 → 16:9 output
    let i2 = info(1440, 1080, Ratio { num: 4, den: 3 });
    s.resolution = Resolution::P480;
    assert_eq!(output_dims(&i2, &s, None), (854, 480));
}

#[test]
fn crop_then_scale() {
    let i = info(1920, 1080, square());
    let s = EncodeSettings::default();
    let c = Crop { w: 1920, h: 800, x: 0, y: 140 };
    assert_eq!(output_dims(&i, &s, Some(c)), (1152, 480));
    let a = args(&i, &s, Some(c), None);
    assert!(has_pair(&a, "-vf", "crop=1920:800:0:140,scale=1152:480:flags=lanczos,setsar=1"));
}

#[test]
fn x264_recipe() {
    let i = info(1920, 1080, square());
    let mut s = EncodeSettings::default();
    s.codec = Codec::X264;
    s.resolution = Resolution::P360;
    s.content_type = ContentType::Drama;
    let a = args(&i, &s, None, None);
    assert!(has_pair(&a, "-c:v", "libx264"));
    assert!(has_pair(&a, "-preset", "veryslow"));
    assert!(has_pair(&a, "-crf", "24"));
    assert!(has_pair(&a, "-profile:v", "main"));
    assert!(has_pair(&a, "-level", "3.1"));
    assert!(has_pair(&a, "-tune", "film"));
    assert!(has_pair(&a, "-vf", "scale=640:360:flags=lanczos,setsar=1"));
}

#[test]
fn external_subtitle_with_delay() {
    let i = info(1920, 1080, square());
    let mut s = EncodeSettings::default();
    s.subtitles.mode = SubtitleMode::File;
    s.subtitles.delay_ms = -1500;
    s.subtitles.keep_source_subs = false;
    let a = args(&i, &s, None, Some("/media/Show S01E01.en.srt"));
    assert!(has_pair(&a, "-itsoffset", "-1.500"));
    assert!(has_pair(&a, "-i", "/media/Show S01E01.en.srt"));
    assert!(has_pair(&a, "-map", "1:0"));
    assert!(!has_pair(&a, "-map", "0:s:0"));
    assert!(has_pair(&a, "-c:s:0", "copy"));
    assert!(has_pair(&a, "-metadata:s:s:0", "language=eng"));
    assert!(has_pair(&a, "-disposition:s:0", "default"));
}

#[test]
fn burn_in_uses_filter() {
    let i = info(1920, 1080, square());
    let mut s = EncodeSettings::default();
    s.subtitles.mode = SubtitleMode::File;
    s.subtitles.burn_in = true;
    let a = args(&i, &s, None, Some("/m/it's.srt"));
    let vf = a.iter().position(|x| x == "-vf").map(|p| a[p + 1].clone()).unwrap();
    assert!(vf.ends_with("subtitles=/m/it\\\\\\'s.srt"), "{vf}");
    assert!(!has_pair(&a, "-map", "1:0"));
}

#[test]
fn av1_and_mono_and_mp4() {
    let i = info(1920, 1080, square());
    let mut s = EncodeSettings::default();
    s.codec = Codec::Av1;
    s.content_type = ContentType::News;
    s.audio.channels = Channels::Mono;
    s.audio.bitrate_kbps = 48;
    s.container = Container::Mp4;
    let a = args(&i, &s, None, None);
    assert!(has_pair(&a, "-c:v", "libsvtav1"));
    assert!(has_pair(&a, "-crf", "40"));
    assert!(has_pair(&a, "-pix_fmt", "yuv420p10le"));
    assert!(has_pair(&a, "-ac", "1"));
    assert!(has_pair(&a, "-c:s:0", "mov_text"));
    assert!(has_pair(&a, "-f", "mp4"));
}

#[test]
fn hardware_fast_mode() {
    let i = info(1920, 1080, square());
    let mut s = EncodeSettings::default();
    s.hardware = true;
    let a = args(&i, &s, None, None);
    assert!(has_pair(&a, "-c:v", "hevc_videotoolbox"));
    assert!(has_pair(&a, "-q:v", "48"));
}

#[test]
fn clip_mode_skips_subs() {
    let i = info(1920, 1080, square());
    let s = EncodeSettings::default();
    let c = caps();
    let a = build_args(BuildInput {
        info: &i,
        settings: &s,
        crop: None,
        external_sub: Some("/x.srt"),
        output: "/o.mkv",
        caps: &c,
        clip: Some((1_300_000, 30_000)),
    })
    .unwrap();
    assert!(has_pair(&a, "-ss", "1300.000"));
    assert!(has_pair(&a, "-t", "30.000"));
    assert!(!has_pair(&a, "-map", "1:0"));
    assert!(!has_pair(&a, "-map", "0:s:0"));
}

#[test]
fn downmix_layouts() {
    assert!(downmix_pan(Some("5.1"), 6).unwrap().contains("0.5*BL"));
    assert!(downmix_pan(Some("5.1(side)"), 6).unwrap().contains("0.5*SL"));
    assert!(downmix_pan(Some("7.1"), 8).unwrap().contains("SL"));
    assert!(downmix_pan(Some("stereo"), 2).is_none());
    assert!(downmix_pan(Some("4.0"), 4).is_none());
}

#[test]
fn full_default_argument_list() {
    let i = info(1920, 1080, square());
    let s = EncodeSettings::default();
    let a = args(&i, &s, None, None);
    let expected: Vec<&str> = vec![
        "-y", "-hide_banner", "-nostdin", "-loglevel", "error", "-nostats", "-progress", "pipe:1", "-stats_period", "0.5",
        "-i", "/media/Show S01E01.mkv", "-map", "0:v:0", "-map", "0:a:0", "-map", "0:s:0", "-map_metadata", "0",
        "-map_chapters", "0", "-vf", "scale=854:480:flags=lanczos,setsar=1", "-c:v", "libx265", "-preset", "slower",
        "-crf", "26", "-profile:v", "main", "-pix_fmt", "yuv420p", "-tag:v", "hvc1", "-x265-params", "log-level=error",
        "-c:a", "aac_at", "-b:a", "80k", "-filter:a:0", "pan=stereo|FL<FL+0.707*FC+0.5*SL|FR<FR+0.707*FC+0.5*SR",
        "-disposition:a:0", "default", "-c:s:0", "copy", "-f", "matroska", "-max_muxing_queue_size", "2048", "/out/x.mkv.part",
    ];
    assert_eq!(a, expected);
}

#[test]
fn no_video_is_an_error() {
    let mut i = info(1920, 1080, square());
    i.video = None;
    let s = EncodeSettings::default();
    let c = caps();
    let r = build_args(BuildInput { info: &i, settings: &s, crop: None, external_sub: None, output: "/o.mkv", caps: &c, clip: None });
    assert_eq!(r, Err(BuildError::NoVideo));
    assert_eq!(output_dims(&i, &s, None), (0, 0));
}

#[test]
fn nvenc_mp4_extra_args_and_generic_downmix() {
    let mut i = info(1920, 1080, square());
    i.audio[0].channel_layout = Some("quad".into());
    i.audio[0].channels = 4;
    let mut s = EncodeSettings::default();
    s.codec = Codec::X264;
    s.hardware = true;
    s.extra_args = vec!["  ".into(), "-threads".into(), "4".into()];
    let mut c = caps();
    c.hw_h264 = Some("h264_nvenc".into());
    let a = build_args(BuildInput { info: &i, settings: &s, crop: None, external_sub: None, output: "/o.mkv", caps: &c, clip: None }).unwrap();
    assert!(has_pair(&a, "-cq", "24"));
    assert!(has_pair(&a, "-preset", "p6"));
    assert!(has_pair(&a, "-ac", "2"));
    assert!(has_pair(&a, "-threads", "4"));
    assert!(!a.iter().any(|x| x.trim().is_empty()));
}

#[test]
fn audio_track_selection() {
    let mut i = info(1920, 1080, square());
    let mut second = i.audio[0].clone();
    second.rel_index = 1;
    second.is_default = false;
    i.audio[0].is_default = false;
    i.audio.push(second);
    let mut s = EncodeSettings::default();
    assert_eq!(select_audio(&i, &s), vec![0]);
    i.audio[1].is_default = true;
    assert_eq!(select_audio(&i, &s), vec![1]);
    s.audio.mode = AudioMode::All;
    assert_eq!(select_audio(&i, &s), vec![0, 1]);
    s.audio.mode = AudioMode::Select;
    s.audio.tracks = vec![0];
    assert_eq!(select_audio(&i, &s), vec![0]);
    s.audio.tracks = vec![7];
    assert_eq!(select_audio(&i, &s), Vec::<usize>::new());
    let a = args(&i, &s, None, None);
    assert!(a.iter().any(|x| x == "-an"));
    assert!(!a.iter().any(|x| x.starts_with("0:a:")));
    assert!(!a.iter().any(|x| x.starts_with("-disposition:a:")));
}

#[test]
fn flagged_default_audio_track() {
    let mut i = info(1920, 1080, square());
    let mut second = i.audio[0].clone();
    second.rel_index = 1;
    second.is_default = false;
    i.audio.push(second);
    let mut s = EncodeSettings::default();
    s.audio.mode = AudioMode::All;
    let a = args(&i, &s, None, None);
    assert!(has_pair(&a, "-disposition:a:0", "default"));
    assert!(has_pair(&a, "-disposition:a:1", "0"));
    s.audio.default_track = Some(1);
    let a = args(&i, &s, None, None);
    assert!(has_pair(&a, "-disposition:a:0", "0"));
    assert!(has_pair(&a, "-disposition:a:1", "default"));
    s.audio.default_track = Some(5);
    let a = args(&i, &s, None, None);
    assert!(has_pair(&a, "-disposition:a:0", "default"));
}

#[test]
fn flagged_default_subtitle_track() {
    let mut i = info(1920, 1080, square());
    let mut second = i.subtitles[0].clone();
    second.rel_index = 1;
    i.subtitles.push(second);
    let mut s = EncodeSettings::default();
    s.subtitles.mode = SubtitleMode::File;
    let a = args(&i, &s, None, Some("/m/x.srt"));
    assert!(has_pair(&a, "-disposition:s:2", "default"));
    assert!(!a.iter().any(|x| x == "-disposition:s:0"));
    s.subtitles.default_track = Some(1);
    let a = args(&i, &s, None, Some("/m/x.srt"));
    assert!(has_pair(&a, "-disposition:s:0", "0"));
    assert!(has_pair(&a, "-disposition:s:1", "default"));
    assert!(has_pair(&a, "-disposition:s:2", "0"));
    s.subtitles.default_track = Some(-1);
    let a = args(&i, &s, None, Some("/m/x.srt"));
    assert!(has_pair(&a, "-disposition:s:0", "0"));
    assert!(has_pair(&a, "-disposition:s:1", "0"));
    assert!(has_pair(&a, "-disposition:s:2", "default"));
    s.subtitles.default_track = Some(-1);
    let a = args(&i, &s, None, None);
    assert!(!a.iter().any(|x| x.starts_with("-disposition:s:")));
}

#[test]
fn crop_modes() {
    let i = info(1920, 1080, square());
    let mut s = EncodeSettings::default();
    assert_eq!(effective_crop(&i, &s, Some(Crop { w: 1920, h: 1080, x: 0, y: 0 })), None);
    assert_eq!(effective_crop(&i, &s, Some(Crop { w: 1920, h: 800, x: 0, y: 140 })), Some(Crop { w: 1920, h: 800, x: 0, y: 140 }));
    s.crop = CropMode::Manual { w: 4000, h: 700, x: 2, y: 4 };
    assert_eq!(effective_crop(&i, &s, None), Some(Crop { w: 1920, h: 700, x: 2, y: 4 }));
    s.crop = CropMode::Off;
    assert_eq!(effective_crop(&i, &s, Some(Crop { w: 1920, h: 800, x: 0, y: 140 })), None);
}

#[test]
fn escaping_each_special_character() {
    assert_eq!(escape_filter_path("a:b"), "a\\\\:b");
    assert_eq!(escape_filter_path("[x],y;"), "\\[x\\]\\,y\\;");
    assert_eq!(escape_filter_path("plain"), "plain");
}
