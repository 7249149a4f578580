use microvid::models::{
    AppSettings, EncodeSettings, Job, JobStatus, MediaInfo, NamingSettings, Ratio, Resolution, SubCandidate, SubtitleMode,
    VideoStream,
};
use microvid::state::{
    apply_probe, chosen_subtitle, compute_output, ffmpeg_path_changed, is_editable, is_refreshable, job_counts, needs_shift,
    output_height, parallel_jobs, probe_failed, queue_idle, refresh_auto_subtitle, settings_affect_jobs, shifted_sub_path,
};

fn media(h: u32) -> MediaInfo {
    MediaInfo {
        path: "/lib/Show/S1/e1.mkv".into(),
        size_bytes: 1,
        duration_us: 1,
        container: "mkv".into(),
        bitrate: None,
        video: Some(VideoStream {
            index: 0,
            codec: "h264".into(),
            profile: None,
            width: h * 16 / 9,
            height: h,
            fps: Ratio { num: 25, den: 1 },
            sar: Ratio { num: 1, den: 1 },
            pix_fmt: "yuv420p".into(),
            bit_depth: 8,
            bitrate: None,
            hdr: false,
        }),
        audio: vec![],
        subtitles: vec![],
        chapters: 0,
    }
}

fn job(status: JobStatus) -> Job {
    Job {
        id: "j1".into(),
        source: "/lib/Show/S1/e1.mkv".into(),
        root: "/lib/Show".into(),
        output: String::new(),
        settings: EncodeSettings::default(),
        status,
        held: false,
        info: None,
        crop: None,
        sub_candidates: vec![],
        auto_subtitle: None,
        out_height: None,
        error: None,
        log_tail: String::new(),
        created_at: 0,
        started_at: None,
        finished_at: None,
        in_size: 100,
        out_size: Some(40),
        pid: None,
        order: 1,
    }
}

#[test]
fn parallel_jobs_setting() {
    assert_eq!(parallel_jobs(0, 3), 3);
    assert_eq!(parallel_jobs(9, 3), 6);
    assert_eq!(parallel_jobs(2, 3), 2);
}

#[test]
fn output_paths_follow_the_settings() {
    let mut j = job(JobStatus::Pending);
    let mut app = AppSettings::default();
    assert_eq!(output_height(&j), 480);
    assert_eq!(compute_output(&j, &app, "/Movies/MicroVid"), "/Movies/MicroVid/S1/e1.mkv");
    app.output_dir = Some("/out".into());
    app.preserve_structure = false;
    app.naming = NamingSettings { add_tag: true, ..Default::default() };
    j.settings.resolution = Resolution::Source;
    j.info = Some(media(720));
    assert_eq!(output_height(&j), 720);
    assert_eq!(compute_output(&j, &app, "/Movies/MicroVid"), "/out/e1 [720p HEVC].mkv");
    j.out_height = Some(360);
    assert_eq!(output_height(&j), 360);
}

#[test]
fn subtitle_choice_and_shifting() {
    let mut j = job(JobStatus::Pending);
    j.sub_candidates = vec![
        SubCandidate { path: "/lib/Show/S1/e1.srt".into(), language: None, source: "same-name".into(), score: 100 },
        SubCandidate { path: "/lib/Show/S1/e1.en.srt".into(), language: Some("eng".into()), source: "same-name".into(), score: 90 },
    ];
    refresh_auto_subtitle(&mut j);
    assert_eq!(j.auto_subtitle.as_deref(), Some("/lib/Show/S1/e1.en.srt"));
    assert_eq!(chosen_subtitle(&j).as_deref(), Some("/lib/Show/S1/e1.en.srt"));
    j.settings.subtitles.mode = SubtitleMode::File;
    j.settings.subtitles.file = Some("/x.SRT".into());
    assert_eq!(chosen_subtitle(&j).as_deref(), Some("/x.SRT"));
    j.settings.subtitles.mode = SubtitleMode::Source;
    assert_eq!(chosen_subtitle(&j), None);
    let mut s = EncodeSettings::default().subtitles;
    assert!(!needs_shift(&s, "/x.srt"));
    s.burn_in = true;
    s.delay_ms = -300;
    assert!(needs_shift(&s, "/x.SRT"));
    assert!(!needs_shift(&s, "/x.ass"));
    assert_eq!(shifted_sub_path("/cache", "j1"), "/cache/j1-shifted.srt");
}

#[test]
fn probe_results() {
    let mut j = job(JobStatus::Probing);
    apply_probe(&mut j, media(1080), None, vec![]);
    assert_eq!(j.status, JobStatus::Pending);
    assert!(j.info.is_some());
    let mut r = job(JobStatus::Cancelled);
    apply_probe(&mut r, media(1080), None, vec![]);
    assert_eq!(r.status, JobStatus::Cancelled);
    let mut f = job(JobStatus::Probing);
    probe_failed(&mut f, "ffprobe failed: bad data");
    assert_eq!(f.status, JobStatus::Failed);
    assert_eq!(f.error.as_deref(), Some("Could not read file: ffprobe failed: bad data"));
}

#[test]
fn counts_and_idle() {
    let mut jobs = vec![job(JobStatus::Done), job(JobStatus::Done), job(JobStatus::Running), job(JobStatus::Interrupted), job(JobStatus::Failed)];
    jobs[1].out_size = None;
    let c = job_counts(&jobs);
    assert_eq!((c.total, c.done, c.running, c.pending, c.failed), (5, 2, 1, 1, 1));
    assert_eq!((c.in_bytes_done, c.out_bytes_done), (200, 40));
    assert!(!queue_idle(&jobs, 0));
    jobs.remove(2);
    assert!(queue_idle(&jobs, 0));
    assert!(!queue_idle(&jobs, 1));
    let mut big = vec![job(JobStatus::Done), job(JobStatus::Done)];
    big[0].in_size = u64::MAX;
    assert_eq!(job_counts(&big).in_bytes_done, u64::MAX);
}

#[test]
fn settings_changes() {
    let a = AppSettings::default();
    let mut b = AppSettings::default();
    assert!(!settings_affect_jobs(&a, &b));
    b.theme = "dark".into();
    assert!(!settings_affect_jobs(&a, &b));
    b.naming.signature = "x".into();
    assert!(settings_affect_jobs(&a, &b));
    let mut c = AppSettings::default();
    c.parallel_jobs = 3;
    assert!(settings_affect_jobs(&a, &c));
    c.ffmpeg_path = Some("/opt".into());
    assert!(ffmpeg_path_changed(&a, &c));
    assert!(is_refreshable(&job(JobStatus::Pending)));
    assert!(!is_refreshable(&job(JobStatus::Running)));
    assert!(!is_refreshable(&job(JobStatus::Done)));
    let ids = vec!["j1".to_string()];
    assert!(is_editable(&job(JobStatus::Failed), &ids));
    assert!(!is_editable(&job(JobStatus::Running), &ids));
    assert!(!is_editable(&job(JobStatus::Failed), &[]));
}
