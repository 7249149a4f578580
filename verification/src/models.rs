//! Shared data types: encode settings, media information, jobs and application settings.
//!
//! Quantities that are fractional in ffprobe's output are held exactly: frame rates and
//! sample aspect ratios as integer ratios, durations in microseconds.
use vstd::prelude::*;

verus! {

#[derive(Clone, Copy, Debug, PartialEq, Eq, Structural, Hash)]
pub enum Codec {
    X264,
    Hevc,
    Av1,
}

impl Codec {
    pub open spec fn label_spec(self) -> Seq<char> {
        match self {
            Codec::X264 => "x264"@,
            Codec::Hevc => "HEVC"@,
            Codec::Av1 => "AV1"@,
        }
    }

    pub open spec fn key_spec(self) -> Seq<char> {
        match self {
            Codec::X264 => "x264"@,
            Codec::Hevc => "hevc"@,
            Codec::Av1 => "av1"@,
        }
    }

    /// Display label used in output tags.
    pub fn label(self) -> (r: &'static str)
        ensures
            r@ == self.label_spec(),
    {
        match self {
            Codec::X264 => "x264",
            Codec::Hevc => "HEVC",
            Codec::Av1 => "AV1",
        }
    }

    /// Lower-case key used in calibration keys.
    pub fn key(self) -> (r: &'static str)
        ensures
            r@ == self.key_spec(),
    {
        match self {
            Codec::X264 => "x264",
            Codec::Hevc => "hevc",
            Codec::Av1 => "av1",
        }
    }
}

#[derive(Clone, Copy, Debug, PartialEq, Eq, Structural, Hash)]
pub enum Resolution {
    P360,
    P480,
    P576,
    P720,
    P1080,
    Source,
}

impl Resolution {
    pub open spec fn height_spec(self) -> Option<u32> {
        match self {
            Resolution::P360 => Some(360),
            Resolution::P480 => Some(480),
            Resolution::P576 => Some(576),
            Resolution::P720 => Some(720),
            Resolution::P1080 => Some(1080),
            Resolution::Source => None,
        }
    }

    /// Target height, or None to keep the source height.
    pub fn height(self) -> (r: Option<u32>)
        ensures
            r == self.height_spec(),
    {
        match self {
            Resolution::P360 => Some(360),
            Resolution::P480 => Some(480),
            Resolution::P576 => Some(576),
            Resolution::P720 => Some(720),
            Resolution::P1080 => Some(1080),
            Resolution::Source => None,
        }
    }
}

#[derive(Clone, Copy, Debug, PartialEq, Eq, Structural, Hash)]
pub enum ContentType {
    General,
    Drama,
    Sitcom,
    Animation,
    Action,
    News,
}

/// The CRF recipe table: one row per content type, one column per codec.
pub open spec fn crf_table(codec: Codec, ct: ContentType) -> u8 {
    match (codec, ct) {
        (Codec::X264, ContentType::General) => 24,
        (Codec::X264, ContentType::Drama) => 24,
        (Codec::X264, ContentType::Sitcom) => 25,
        (Codec::X264, ContentType::Animation) => 27,
        (Codec::X264, ContentType::Action) => 22,
        (Codec::X264, ContentType::News) => 28,
        (Codec::Hevc, ContentType::General) => 26,
        (Codec::Hevc, ContentType::Drama) => 26,
        (Codec::Hevc, ContentType::Sitcom) => 27,
        (Codec::Hevc, ContentType::Animation) => 29,
        (Codec::Hevc, ContentType::Action) => 24,
        (Codec::Hevc, ContentType::News) => 30,
        (Codec::Av1, ContentType::General) => 34,
        (Codec::Av1, ContentType::Drama) => 34,
        (Codec::Av1, ContentType::Sitcom) => 36,
        (Codec::Av1, ContentType::Animation) => 38,
        (Codec::Av1, ContentType::Action) => 32,
        (Codec::Av1, ContentType::News) => 40,
    }
}

impl ContentType {
    /// Default CRF per codec, generalised from the "threesixtyp" recipe.
    pub fn default_crf(self, codec: Codec) -> (r: u8)
        ensures
            r == crf_table(codec, self),
    {
        match (codec, self) {
            (Codec::X264, ContentType::General) => 24,
            (Codec::X264, ContentType::Drama) => 24,
            (Codec::X264, ContentType::Sitcom) => 25,
            (Codec::X264, ContentType::Animation) => 27,
            (Codec::X264, ContentType::Action) => 22,
            (Codec::X264, ContentType::News) => 28,
            (Codec::Hevc, ContentType::General) => 26,
            (Codec::Hevc, ContentType::Drama) => 26,
            (Codec::Hevc, ContentType::Sitcom) => 27,
            (Codec::Hevc, ContentType::Animation) => 29,
            (Codec::Hevc, ContentType::Action) => 24,
            (Codec::Hevc, ContentType::News) => 30,
            (Codec::Av1, ContentType::General) => 34,
            (Codec::Av1, ContentType::Drama) => 34,
            (Codec::Av1, ContentType::Sitcom) => 36,
            (Codec::Av1, ContentType::Animation) => 38,
            (Codec::Av1, ContentType::Action) => 32,
            (Codec::Av1, ContentType::News) => 40,
        }
    }
}

#[derive(Clone, Copy, Debug, PartialEq, Eq, Structural)]
pub enum Channels {
    Stereo,
    Mono,
}

#[derive(Clone, Copy, Debug, PartialEq, Eq, Structural)]
pub enum AudioMode {
    /// The source's default track only.
    Default,
    All,
    /// The tracks listed in `tracks`.
    Select,
}

#[derive(Clone, Debug, PartialEq)]
pub struct AudioSettings {
    pub bitrate_kbps: u32,
    pub channels: Channels,
    pub mode: AudioMode,
    /// Audio stream indexes (a:N) to keep when mode is Select.
    pub tracks: Vec<usize>,
    /// Which kept track is flagged as default (a:N). None = the first kept track.
    pub default_track: Option<usize>,
}

impl Default for AudioSettings {
    fn default() -> (r: Self)
        ensures
            r.bitrate_kbps == 80,
            r.channels == Channels::Stereo,
            r.mode == AudioMode::Default,
            r.tracks@ == Seq::<usize>::empty(),
            r.default_track is None,
    {
        AudioSettings {
            bitrate_kbps: 80,
            channels: Channels::Stereo,
            mode: AudioMode::Default,
            tracks: Vec::new(),
            default_track: None,
        }
    }
}

#[derive(Clone, Copy, Debug, PartialEq, Eq, Structural)]
pub enum CropMode {
    Auto,
    /// No cropping (serialised as "none").
    Off,
    Manual { w: u32, h: u32, x: u32, y: u32 },
}

#[derive(Clone, Copy, Debug, PartialEq, Eq, Structural)]
pub enum SubtitleMode {
    /// Best matching file next to the video, else source tracks only.
    Auto,
    /// A specific external file (settings.subtitles.file).
    File,
    /// Only keep subtitle tracks already inside the source.
    Source,
    /// No subtitles at all (serialised as "none").
    Off,
}

#[derive(Clone, Debug, PartialEq)]
pub struct SubtitleSettings {
    pub mode: SubtitleMode,
    pub file: Option<String>,
    pub delay_ms: i64,
    pub burn_in: bool,
    pub keep_source_subs: bool,
    /// Source subtitle streams (s:N) to keep; None = all of them.
    pub source_tracks: Option<Vec<usize>>,
    /// Track flagged default: -1 = the external file, N = source stream s:N, None = auto.
    pub default_track: Option<i64>,
    /// ISO 639-2 language tag applied to an external subtitle track.
    pub language: String,
}

impl Default for SubtitleSettings {
    fn default() -> (r: Self)
        ensures
            r.mode == SubtitleMode::Auto,
            r.file is None,
            r.delay_ms == 0,
            !r.burn_in,
            r.keep_source_subs,
            r.source_tracks is None,
            r.default_track is None,
            r.language@ == "eng"@,
    {
        SubtitleSettings {
            mode: SubtitleMode::Auto,
            file: None,
            delay_ms: 0,
            burn_in: false,
            keep_source_subs: true,
            source_tracks: None,
            default_track: None,
            language: "eng".to_owned(),
        }
    }
}

#[derive(Clone, Copy, Debug, PartialEq, Eq, Structural)]
pub enum Container {
    Mkv,
    Mp4,
}

impl Container {
    pub open spec fn ext_spec(self) -> Seq<char> {
        match self {
            Container::Mkv => "mkv"@,
            Container::Mp4 => "mp4"@,
        }
    }

    /// File extension of the container.
    pub fn ext(self) -> (r: &'static str)
        ensures
            r@ == self.ext_spec(),
    {
        match self {
            Container::Mkv => "mkv",
            Container::Mp4 => "mp4",
        }
    }
}

#[derive(Clone, Debug, PartialEq)]
pub struct EncodeSettings {
    pub codec: Codec,
    pub resolution: Resolution,
    pub content_type: ContentType,
    /// None = use the content-type table.
    pub crf: Option<u8>,
    /// Encoder preset override (x264/x265 names, or "0".."13" for SVT-AV1).
    pub preset: Option<String>,
    pub ten_bit: bool,
    pub tune: Option<String>,
    /// Use a hardware encoder ("fast mode") instead of the software encoder.
    pub hardware: bool,
    pub audio: AudioSettings,
    pub crop: CropMode,
    pub subtitles: SubtitleSettings,
    pub container: Container,
    pub extra_args: Vec<String>,
}

/// Default encoder preset of each codec (x264 `veryslow`, x265 `slower`, SVT-AV1 preset 4).
pub open spec fn default_preset(codec: Codec) -> Seq<char> {
    match codec {
        Codec::X264 => "veryslow"@,
        Codec::Hevc => "slower"@,
        Codec::Av1 => "4"@,
    }
}

impl Default for EncodeSettings {
    fn default() -> (r: Self)
        ensures
            r.codec == Codec::Hevc,
            r.resolution == Resolution::P480,
            r.content_type == ContentType::General,
            r.crf is None,
            r.preset is None,
            !r.ten_bit,
            r.tune is None,
            !r.hardware,
            r.audio.bitrate_kbps == 80,
            r.audio.channels == Channels::Stereo,
            r.audio.mode == AudioMode::Default,
            r.audio.tracks@ == Seq::<usize>::empty(),
            r.audio.default_track is None,
            r.crop == CropMode::Auto,
            r.subtitles.mode == SubtitleMode::Auto,
            r.subtitles.file is None,
            r.subtitles.delay_ms == 0,
            !r.subtitles.burn_in,
            r.subtitles.keep_source_subs,
            r.subtitles.source_tracks is None,
            r.subtitles.default_track is None,
            r.subtitles.language@ == "eng"@,
            r.container == Container::Mkv,
            r.extra_args@ == Seq::<String>::empty(),
    {
        EncodeSettings {
            codec: Codec::Hevc,
            resolution: Resolution::P480,
            content_type: ContentType::General,
            crf: None,
            preset: None,
            ten_bit: false,
            tune: None,
            hardware: false,
            audio: AudioSettings::default(),
            crop: CropMode::Auto,
            subtitles: SubtitleSettings::default(),
            container: Container::Mkv,
            extra_args: Vec::new(),
        }
    }
}

impl EncodeSettings {
    pub open spec fn effective_crf_spec(&self) -> u8 {
        match self.crf {
            Some(c) => c,
            None => crf_table(self.codec, self.content_type),
        }
    }

    pub open spec fn effective_preset_spec(&self) -> Seq<char> {
        match self.preset {
            Some(p) if p@.len() > 0 => p@,
            _ => default_preset(self.codec),
        }
    }

    /// The CRF in use: the override, else the recipe table.
    pub fn effective_crf(&self) -> (r: u8)
        ensures
            r == self.effective_crf_spec(),
    {
        match self.crf {
            Some(c) => c,
            None => self.content_type.default_crf(self.codec),
        }
    }

    /// The encoder preset in use: a non-empty override, else the codec's default.
    pub fn effective_preset(&self) -> (r: String)
        ensures
            r@ == self.effective_preset_spec(),
    {
        if let Some(p) = &self.preset {
            if !p.as_str().is_empty() {
                return p.clone();
            }
        }
        match self.codec {
            Codec::X264 => "veryslow".to_owned(),
            Codec::Hevc => "slower".to_owned(),
            Codec::Av1 => "4".to_owned(),
        }
    }
}

// ---------- media info ----------

/// A non-negative rational number `num / den`.
#[derive(Clone, Copy, Debug, PartialEq, Eq, Structural)]
pub struct Ratio {
    pub num: u32,
    pub den: u32,
}

#[derive(Clone, Debug, PartialEq)]
pub struct VideoStream {
    pub index: usize,
    pub codec: String,
    pub profile: Option<String>,
    pub width: u32,
    pub height: u32,
    /// Frames per second.
    pub fps: Ratio,
    /// Sample aspect ratio (1:1 for square pixels).
    pub sar: Ratio,
    pub pix_fmt: String,
    pub bit_depth: u8,
    pub bitrate: Option<u64>,
    pub hdr: bool,
}

impl VideoStream {
    /// The sample aspect ratio in use: the stream's when positive, else 1:1.
    pub open spec fn sar_used(&self) -> (u32, u32) {
        if self.sar.num > 0 && self.sar.den > 0 {
            (self.sar.num, self.sar.den)
        } else {
            (1, 1)
        }
    }
}

#[derive(Clone, Debug, PartialEq)]
pub struct AudioStream {
    pub index: usize,
    pub rel_index: usize,
    pub codec: String,
    pub channels: u32,
    pub channel_layout: Option<String>,
    pub language: Option<String>,
    pub title: Option<String>,
    pub bitrate: Option<u64>,
    pub is_default: bool,
}

#[derive(Clone, Debug, PartialEq)]
pub struct SubtitleStream {
    pub index: usize,
    pub rel_index: usize,
    pub codec: String,
    pub language: Option<String>,
    pub title: Option<String>,
    pub forced: bool,
    pub is_default: bool,
    pub text_based: bool,
}

#[derive(Clone, Debug, PartialEq)]
pub struct MediaInfo {
    pub path: String,
    pub size_bytes: u64,
    /// Duration in microseconds.
    pub duration_us: u64,
    pub container: String,
    pub bitrate: Option<u64>,
    pub video: Option<VideoStream>,
    pub audio: Vec<AudioStream>,
    pub subtitles: Vec<SubtitleStream>,
    pub chapters: usize,
}

#[derive(Clone, Copy, Debug, PartialEq, Eq, Structural)]
pub struct Crop {
    pub w: u32,
    pub h: u32,
    pub x: u32,
    pub y: u32,
}

#[derive(Clone, Debug, PartialEq)]
pub struct SubCandidate {
    pub path: String,
    pub language: Option<String>,
    /// "same-name" | "subs-folder" | "downloaded"
    pub source: String,
    pub score: u32,
}

// ---------- jobs ----------

#[derive(Clone, Copy, Debug, PartialEq, Eq, Structural)]
pub enum JobStatus {
    Probing,
    Pending,
    Running,
    Done,
    Failed,
    Cancelled,
    Interrupted,
    Skipped,
}

impl JobStatus {
    pub open spec fn as_str_spec(self) -> Seq<char> {
        match self {
            JobStatus::Probing => "probing"@,
            JobStatus::Pending => "pending"@,
            JobStatus::Running => "running"@,
            JobStatus::Done => "done"@,
            JobStatus::Failed => "failed"@,
            JobStatus::Cancelled => "cancelled"@,
            JobStatus::Interrupted => "interrupted"@,
            JobStatus::Skipped => "skipped"@,
        }
    }

    pub open spec fn is_finished_spec(self) -> bool {
        self == JobStatus::Done || self == JobStatus::Failed || self == JobStatus::Cancelled
            || self == JobStatus::Skipped
    }

    /// Lower-case name stored in the database.
    pub fn as_str(self) -> (r: &'static str)
        ensures
            r@ == self.as_str_spec(),
    {
        match self {
            JobStatus::Probing => "probing",
            JobStatus::Pending => "pending",
            JobStatus::Running => "running",
            JobStatus::Done => "done",
            JobStatus::Failed => "failed",
            JobStatus::Cancelled => "cancelled",
            JobStatus::Interrupted => "interrupted",
            JobStatus::Skipped => "skipped",
        }
    }

    /// A job that will not run again unless retried.
    pub fn is_finished(self) -> (r: bool)
        ensures
            r == self.is_finished_spec(),
    {
        match self {
            JobStatus::Done | JobStatus::Failed | JobStatus::Cancelled | JobStatus::Skipped => true,
            _ => false,
        }
    }
}

/// A queued file: what the queue's rules read and write. The live progress figures,
/// the estimate and the run's averages (fractional numbers) are kept beside it by
/// the application; `out_height` is the output height of that estimate.
pub struct Job {
    pub id: String,
    pub source: String,
    /// Folder the source was added from (used to mirror structure).
    pub root: String,
    pub output: String,
    pub settings: EncodeSettings,
    pub status: JobStatus,
    /// Added while the queue was running: waits for the user to review settings and press Start.
    pub held: bool,
    pub info: Option<MediaInfo>,
    pub crop: Option<Crop>,
    pub sub_candidates: Vec<SubCandidate>,
    /// Subtitle file picked automatically (mode Auto) after probing.
    pub auto_subtitle: Option<String>,
    pub out_height: Option<u32>,
    pub error: Option<String>,
    pub log_tail: String,
    pub created_at: i64,
    pub started_at: Option<i64>,
    pub finished_at: Option<i64>,
    pub in_size: u64,
    pub out_size: Option<u64>,
    pub pid: Option<u32>,
    pub order: i64,
}

// ---------- settings ----------

#[derive(Clone, Debug, PartialEq)]
pub struct NamingSettings {
    pub add_tag: bool,
    pub tag_template: String,
    pub add_signature: bool,
    pub signature: String,
}

impl Default for NamingSettings {
    fn default() -> (r: Self)
        ensures
            !r.add_tag,
            r.tag_template@ == "[{res} {codec}]"@,
            !r.add_signature,
            r.signature@ == Seq::<char>::empty(),
    {
        NamingSettings {
            add_tag: false,
            tag_template: "[{res} {codec}]".to_owned(),
            add_signature: false,
            signature: String::new(),
        }
    }
}

#[derive(Clone, Debug, PartialEq)]
pub struct OpenSubtitlesSettings {
    pub api_key: String,
    pub username: String,
    pub password: String,
    pub languages: String,
}

impl Default for OpenSubtitlesSettings {
    fn default() -> (r: Self)
        ensures
            r.api_key@ == Seq::<char>::empty(),
            r.username@ == Seq::<char>::empty(),
            r.password@ == Seq::<char>::empty(),
            r.languages@ == Seq::<char>::empty(),
    {
        OpenSubtitlesSettings {
            api_key: String::new(),
            username: String::new(),
            password: String::new(),
            languages: String::new(),
        }
    }
}

#[derive(Clone, Debug, PartialEq)]
pub struct AppSettings {
    pub output_dir: Option<String>,
    pub preserve_structure: bool,
    pub recursive: bool,
    /// 0 = use the machine's suggestion.
    pub parallel_jobs: u32,
    pub prevent_sleep: bool,
    /// "ask" | "always" | "never"
    pub auto_resume: String,
    pub skip_existing: bool,
    /// Start files added while the queue is running without waiting for review.
    pub auto_start_new: bool,
    pub notify_on_finish: bool,
    /// "none" | "notify" | "sleep" | "shutdown"
    pub post_queue_action: String,
    pub ffmpeg_path: Option<String>,
    pub naming: NamingSettings,
    pub defaults: EncodeSettings,
    pub opensubtitles: OpenSubtitlesSettings,
    pub save_subs_next_to_video: bool,
    pub advanced_mode: bool,
    /// "system" | "light" | "dark"
    pub theme: String,
}

impl Default for AppSettings {
    fn default() -> (r: Self)
        ensures
            r.output_dir is None,
            r.preserve_structure,
            r.recursive,
            r.parallel_jobs == 0,
            r.prevent_sleep,
            r.auto_resume@ == "ask"@,
            r.skip_existing,
            !r.auto_start_new,
            r.notify_on_finish,
            r.post_queue_action@ == "notify"@,
            r.ffmpeg_path is None,
            !r.naming.add_tag,
            r.naming.tag_template@ == "[{res} {codec}]"@,
            !r.naming.add_signature,
            r.naming.signature@ == Seq::<char>::empty(),
            r.defaults.codec == Codec::Hevc,
            r.defaults.resolution == Resolution::P480,
            r.defaults.content_type == ContentType::General,
            r.defaults.crf is None,
            r.defaults.preset is None,
            r.defaults.container == Container::Mkv,
            r.defaults.crop == CropMode::Auto,
            r.opensubtitles.api_key@ == Seq::<char>::empty(),
            r.opensubtitles.languages@ == Seq::<char>::empty(),
            r.save_subs_next_to_video,
            !r.advanced_mode,
            r.theme@ == "system"@,
    {
        AppSettings {
            output_dir: None,
            preserve_structure: true,
            recursive: true,
            parallel_jobs: 0,
            prevent_sleep: true,
            auto_resume: "ask".to_owned(),
            skip_existing: true,
            auto_start_new: false,
            notify_on_finish: true,
            post_queue_action: "notify".to_owned(),
            ffmpeg_path: None,
            naming: NamingSettings::default(),
            defaults: EncodeSettings::default(),
            opensubtitles: OpenSubtitlesSettings::default(),
            save_subs_next_to_video: true,
            advanced_mode: false,
            theme: "system".to_owned(),
        }
    }
}

// ---------- runtime info ----------

#[derive(Clone, Debug, PartialEq)]
pub struct Capabilities {
    pub ffmpeg_path: String,
    pub ffprobe_path: String,
    /// "bundled" | "custom" | "path"
    pub source: String,
    pub version: String,
    pub encoders: Vec<String>,
    pub has_aac_at: bool,
    pub has_fdk_aac: bool,
    pub has_x264: bool,
    pub has_x265: bool,
    pub has_svtav1: bool,
    pub hw_h264: Option<String>,
    pub hw_hevc: Option<String>,
}

impl Capabilities {
    pub open spec fn audio_encoder_spec(&self) -> Seq<char> {
        if self.has_aac_at {
            "aac_at"@
        } else if self.has_fdk_aac {
            "libfdk_aac"@
        } else {
            "aac"@
        }
    }

    /// The best available AAC encoder: Apple AudioToolbox, then FDK, then ffmpeg's own.
    pub fn audio_encoder(&self) -> (r: &'static str)
        ensures
            r@ == self.audio_encoder_spec(),
    {
        if self.has_aac_at {
            "aac_at"
        } else if self.has_fdk_aac {
            "libfdk_aac"
        } else {
            "aac"
        }
    }
}

} // verus!
