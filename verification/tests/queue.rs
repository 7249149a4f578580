use microvid::models::{EncodeSettings, Job, JobStatus, MediaInfo};
use microvid::queue::{
    order_sources, skip_existing,
    cancel_waiting, clear_finished, finish_job, log_header, new_job, part_path, post_action_command, push_tail, recover,
    remove_jobs, reorder, retry, run_end, sources_to_add, tick, RunEnd,
};

fn media() -> MediaInfo {
    MediaInfo {
        path: "/m/a.mkv".into(),
        size_bytes: 1,
        duration_us: 1,
        container: "mkv".into(),
        bitrate: None,
        video: None,
        audio: vec![],
        subtitles: vec![],
        chapters: 0,
    }
}

fn job(id: &str, status: JobStatus, order: i64, analysed: bool) -> Job {
    Job {
        id: id.into(),
        source: format!("/m/{id}.mkv"),
        root: "/m".into(),
        output: format!("/out/{id}.mkv"),
        settings: EncodeSettings::default(),
        status,
        held: false,
        info: if analysed { Some(media()) } else { None },
        crop: None,
        sub_candidates: vec![],
        auto_subtitle: None,
        out_height: None,
        error: Some("old".into()),
        log_tail: String::new(),
        created_at: 0,
        started_at: None,
        finished_at: Some(5),
        in_size: 10,
        out_size: Some(3),
        pid: Some(42),
        order,
    }
}

fn ids(v: &[&str]) -> Vec<String> {
    v.iter().map(|s| s.to_string()).collect()
}

#[test]
fn tick_starts_ready_jobs_in_order_up_to_the_limit() {
    let mut jobs = vec![
        job("a", JobStatus::Pending, 3, true),
        job("b", JobStatus::Pending, 1, false),
        job("c", JobStatus::Done, 0, true),
        job("d", JobStatus::Pending, 2, true),
        job("e", JobStatus::Pending, 2, true),
    ];
    let started = tick(&mut jobs, 0, 2, false, 1_700_000_000);
    assert_eq!(started, vec![3, 4]);
    assert_eq!(jobs[3].status, JobStatus::Running);
    assert_eq!(jobs[3].started_at, Some(1_700_000_000));
    assert_eq!(jobs[3].error, None);
    assert_eq!(jobs[0].status, JobStatus::Pending);
    assert_eq!(jobs[1].status, JobStatus::Pending);
    assert_eq!(tick(&mut jobs, 2, 2, false, 1_700_000_000), Vec::<usize>::new());
    assert_eq!(tick(&mut jobs, 0, 4, true, 1_700_000_000), Vec::<usize>::new());
    assert_eq!(tick(&mut jobs, 2, 4, false, 1_700_000_100), vec![0]);
}

#[test]
fn retry_requeues_only_stopped_jobs() {
    let mut jobs = vec![
        job("a", JobStatus::Failed, 1, true),
        job("b", JobStatus::Interrupted, 2, false),
        job("c", JobStatus::Running, 3, true),
        job("d", JobStatus::Cancelled, 4, true),
    ];
    let changed = retry(&mut jobs, &ids(&["a", "b", "c"]));
    assert_eq!(changed, vec![0, 1]);
    assert_eq!(jobs[0].status, JobStatus::Pending);
    assert_eq!((jobs[0].error.clone(), jobs[0].out_size, jobs[0].finished_at), (None, None, None));
    assert_eq!(jobs[1].status, JobStatus::Probing);
    assert_eq!(jobs[2].status, JobStatus::Running);
    assert_eq!(jobs[3].status, JobStatus::Cancelled);
}

#[test]
fn recovery_after_a_crash() {
    let mut jobs = vec![
        job("a", JobStatus::Running, 7, true),
        job("b", JobStatus::Pending, 9, true),
        job("c", JobStatus::Running, -1, true),
    ];
    let (count, next_order) = recover(&mut jobs);
    assert_eq!((count, next_order), (2, 9));
    assert_eq!(jobs[0].status, JobStatus::Interrupted);
    assert_eq!(jobs[0].pid, None);
    assert_eq!(jobs[0].error.as_deref(), Some("Interrupted by a crash or shutdown"));
    assert_eq!(jobs[1].status, JobStatus::Pending);
    assert_eq!(jobs[1].pid, Some(42));
    let mut empty: Vec<Job> = vec![];
    assert_eq!(recover(&mut empty), (0, 0));
    // an interrupted job that was analysed waits again after a retry
    retry(&mut jobs, &ids(&["a"]));
    assert_eq!(jobs[0].status, JobStatus::Pending);
}

#[test]
fn cancel_clear_and_remove() {
    let mut jobs = vec![
        job("a", JobStatus::Pending, 1, true),
        job("b", JobStatus::Running, 2, true),
        job("c", JobStatus::Done, 3, true),
        job("d", JobStatus::Interrupted, 4, true),
    ];
    cancel_waiting(&mut jobs, &ids(&["a", "b", "d"]));
    let st: Vec<JobStatus> = jobs.iter().map(|j| j.status).collect();
    assert_eq!(st, vec![JobStatus::Cancelled, JobStatus::Running, JobStatus::Done, JobStatus::Cancelled]);
    let removed = clear_finished(&mut jobs);
    assert_eq!(removed, ids(&["a", "c", "d"]));
    assert_eq!(jobs.len(), 1);
    let mut more = vec![job("x", JobStatus::Pending, 1, true), job("y", JobStatus::Running, 2, true), job("z", JobStatus::Failed, 3, true)];
    remove_jobs(&mut more, &ids(&["x", "y"]));
    let left: Vec<&str> = more.iter().map(|j| j.id.as_str()).collect();
    assert_eq!(left, vec!["y", "z"]);
}

#[test]
fn reorder_puts_listed_jobs_first() {
    let mut jobs = vec![job("a", JobStatus::Pending, 1, true), job("b", JobStatus::Pending, 2, true), job("c", JobStatus::Pending, 3, true)];
    let next = reorder(&mut jobs, &ids(&["c", "a"]));
    let order: Vec<(&str, i64)> = jobs.iter().map(|j| (j.id.as_str(), j.order)).collect();
    assert_eq!(order, vec![("c", 1), ("a", 2), ("b", 2)]);
    assert_eq!(next, 3);
}

#[test]
fn adding_sources_skips_queued_and_repeated_files() {
    let jobs = vec![job("a", JobStatus::Pending, 1, true), job("b", JobStatus::Done, 2, true)];
    let found = ids(&["/m/a.mkv", "/m/b.mkv", "/m/new.mkv", "/m/new.mkv"]);
    assert_eq!(sources_to_add(&jobs, &found), vec![1, 2]);
    let j = new_job("/m/new.mkv", "/m", EncodeSettings::default(), 99, 3, 1_700_000_000);
    assert_eq!(j.id.len(), 36);
    assert_eq!((j.status, j.order, j.in_size), (JobStatus::Probing, 3, 99));
    assert_eq!(j.source, "/m/new.mkv");
    assert_eq!(j.created_at, 1_700_000_000);
}

#[test]
fn run_endings() {
    let tail = ids(&["frame=1", "Error while opening encoder", "   ", ""]);
    assert!(matches!(run_end(true, false, &tail, "exit status: 1"), RunEnd::Cancelled));
    assert!(matches!(run_end(false, true, &tail, "exit status: 0"), RunEnd::Done));
    match run_end(false, false, &tail, "exit status: 1") {
        RunEnd::Failed(m) => assert_eq!(m, "Error while opening encoder"),
        _ => panic!("expected a failure"),
    }
    match run_end(false, false, &[], "exit status: 9") {
        RunEnd::Failed(m) => assert_eq!(m, "ffmpeg exited with exit status: 9"),
        _ => panic!("expected a failure"),
    }
    let mut j = job("a", JobStatus::Running, 1, true);
    finish_job(&mut j, Err("boom".into()), 77);
    assert_eq!((j.status, j.error.as_deref(), j.finished_at, j.pid), (JobStatus::Failed, Some("boom"), Some(77), None));
    let mut k = job("b", JobStatus::Running, 1, true);
    finish_job(&mut k, Ok(JobStatus::Done), 78);
    assert_eq!((k.status, k.error.as_deref(), k.finished_at), (JobStatus::Done, Some("old"), Some(78)));
}

#[test]
fn tail_log_and_part_file() {
    let mut tail: Vec<String> = vec![];
    for i in 0..85 {
        push_tail(&mut tail, format!("line {i}"));
    }
    assert_eq!(tail.len(), 80);
    assert_eq!(tail[0], "line 5");
    assert_eq!(tail[79], "line 84");
    assert_eq!(log_header(&ids(&["-i", "/m/Show S01.mkv", "-c:v", "libx265"])), "ffmpeg -i \"/m/Show S01.mkv\" -c:v libx265\n");
    assert_eq!(log_header(&[]), "ffmpeg \n");
    assert_eq!(part_path("/out/x.mkv"), "/out/x.mkv.part");
}

#[test]
fn post_queue_actions() {
    assert_eq!(post_action_command("sleep", "macos"), Some(("pmset".to_string(), ids(&["sleepnow"]))));
    assert_eq!(post_action_command("shutdown", "windows"), Some(("shutdown".to_string(), ids(&["/s", "/t", "60"]))));
    assert_eq!(post_action_command("shutdown", "linux"), Some(("systemctl".to_string(), ids(&["poweroff"]))));
    assert_eq!(post_action_command("notify", "macos"), None);
}

#[test]
fn found_files_come_out_in_path_order() {
    let files = vec![
        "/v/b/x.mkv".to_string(),
        "/v/a.b/x.mkv".to_string(),
        "/v/a/y.mkv".to_string(),
        "/v/a/b/z.mkv".to_string(),
        "/v/a/y.mkv".to_string(),
    ];
    let r = order_sources(files);
    assert_eq!(
        r,
        vec![
            "/v/a/b/z.mkv".to_string(),
            "/v/a/y.mkv".to_string(),
            "/v/a/y.mkv".to_string(),
            "/v/a.b/x.mkv".to_string(),
            "/v/b/x.mkv".to_string(),
        ]
    );
    assert!(order_sources(vec![]).is_empty());
}

#[test]
fn existing_output_is_skipped_only_when_asked() {
    let mut j = job("a", JobStatus::Running, 1, true);
    let before = j.error.clone();
    assert!(!skip_existing(&mut j, true, false));
    assert!(!skip_existing(&mut j, false, true));
    assert_eq!(j.error, before);
    assert!(skip_existing(&mut j, true, true));
    assert_eq!(j.error.as_deref(), Some("Output already exists"));
}
