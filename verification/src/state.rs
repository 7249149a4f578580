//! Derived job fields and queue figures: the parallel-jobs setting in use, output
//! paths, the automatic subtitle, counts for the status bar, and what a settings
//! change affects.
use vstd::prelude::*;
use crate::models::{
    AppSettings, Crop, EncodeSettings, Job, JobStatus, MediaInfo, NamingSettings, SubCandidate, SubtitleMode,
    SubtitleSettings,
};
use crate::queue::strs;
use crate::text::owned;

verus! {

// ---------------------------------------------------------------- parallel jobs

/// The number of encodes to run at once: the machine's suggestion when the setting
/// is 0, else the setting kept within 1..=6.
pub open spec fn parallel_jobs_spec(setting: u32, suggested: u32) -> u32 {
    if setting == 0 {
        suggested
    } else if setting > 6 {
        6
    } else {
        setting
    }
}

/// The parallel-jobs setting in use.
pub fn parallel_jobs(setting: u32, suggested: u32) -> (r: u32)
    ensures
        r == parallel_jobs_spec(setting, suggested),
        setting != 0 ==> 1 <= r <= 6,
{
    if setting == 0 {
        suggested
    } else if setting > 6 {
        6
    } else {
        setting
    }
}

// ---------------------------------------------------------------- output path

/// The output height used to name a job's output: the estimate's, else the chosen
/// resolution, else the source's, else 0.
pub open spec fn output_height_spec(j: Job) -> u32 {
    match j.out_height {
        Some(h) => h,
        None => match j.settings.resolution.height_spec() {
            Some(h) => h,
            None => match j.info {
                Some(i) => match i.video {
                    Some(v) => v.height,
                    None => 0,
                },
                None => 0,
            },
        },
    }
}

pub fn output_height(job: &Job) -> (r: u32)
    ensures
        r == output_height_spec(*job),
{
    match job.out_height {
        Some(h) => h,
        None => match job.settings.resolution.height() {
            Some(h) => h,
            None => match &job.info {
                Some(i) => match &i.video {
                    Some(v) => v.height,
                    None => 0,
                },
                None => 0,
            },
        },
    }
}

/// The output folder: the configured one, else the default.
pub open spec fn output_dir_spec(settings: AppSettings, default_dir: Seq<char>) -> Seq<char> {
    match settings.output_dir {
        Some(d) => d@,
        None => default_dir,
    }
}

/// The output path of a job under the application settings.
pub fn compute_output(job: &Job, settings: &AppSettings, default_output_dir: &str) -> (r: String)
    ensures
        r@ == crate::naming::output_path_spec(
            job.source@,
            job.root@,
            output_dir_spec(*settings, default_output_dir@),
            settings.preserve_structure,
            job.settings,
            settings.naming,
            output_height_spec(*job),
        ),
{
    let out_h = output_height(job);
    let dir: &str = match &settings.output_dir {
        Some(d) => d.as_str(),
        None => default_output_dir,
    };
    crate::naming::output_path(
        job.source.as_str(),
        job.root.as_str(),
        dir,
        settings.preserve_structure,
        &job.settings,
        &settings.naming,
        out_h,
    )
}

// ---------------------------------------------------------------- subtitles

/// The subtitle picked automatically for a job: the best candidate for the job's
/// subtitle language.
pub open spec fn auto_subtitle_spec(j: Job) -> Option<Seq<char>> {
    if j.sub_candidates@.len() == 0 {
        None
    } else {
        Some(
            j.sub_candidates@[crate::subtitles::best_index(
                j.sub_candidates@,
                j.settings.subtitles.language@,
                j.sub_candidates@.len(),
            ) as int].path@,
        )
    }
}

/// Recomputes the automatic subtitle of a job; nothing else changes.
pub fn refresh_auto_subtitle(job: &mut Job)
    requires
        forall|i: int| 0 <= i < old(job).sub_candidates@.len() ==> #[trigger] old(job).sub_candidates@[i].score <= u32::MAX - 15,
    ensures
        crate::probe::opt_str(final(job).auto_subtitle) == auto_subtitle_spec(*old(job)),
        *final(job) == (Job { auto_subtitle: final(job).auto_subtitle, ..*old(job) }),
{
    let picked = match crate::subtitles::best_candidate(&job.sub_candidates, job.settings.subtitles.language.as_str()) {
        Some(c) => Some(owned(c.path.as_str())),
        None => None,
    };
    job.auto_subtitle = picked;
}

/// The external subtitle a job uses: the chosen file in File mode, the automatic one
/// in Auto mode, none otherwise.
pub open spec fn chosen_subtitle_spec(j: Job) -> Option<Seq<char>> {
    match j.settings.subtitles.mode {
        SubtitleMode::File => crate::probe::opt_str(j.settings.subtitles.file),
        SubtitleMode::Auto => crate::probe::opt_str(j.auto_subtitle),
        _ => None,
    }
}

pub fn chosen_subtitle(job: &Job) -> (r: Option<String>)
    ensures
        crate::probe::opt_str(r) == chosen_subtitle_spec(*job),
{
    match job.settings.subtitles.mode {
        SubtitleMode::File => match &job.settings.subtitles.file {
            Some(f) => Some(owned(f.as_str())),
            None => None,
        },
        SubtitleMode::Auto => match &job.auto_subtitle {
            Some(f) => Some(owned(f.as_str())),
            None => None,
        },
        _ => None,
    }
}

/// A burned-in SRT file with a delay is shifted into a temporary copy first.
pub open spec fn needs_shift_spec(s: SubtitleSettings, path: Seq<char>) -> bool {
    s.burn_in && s.delay_ms != 0 && crate::path::extension(path) is Some && crate::path::ext_lower(path)
        == "srt"@
}

pub fn needs_shift(s: &SubtitleSettings, path: &str) -> (r: bool)
    ensures
        r == needs_shift_spec(*s, path@),
{
    if !(s.burn_in && s.delay_ms != 0) {
        return false;
    }
    let p = crate::text::chars_of(path);
    if crate::path::extension_of(&p).is_none() {
        return false;
    }
    let e = crate::path::ext_lower_of(&p);
    crate::text::seq_eq(&e, &crate::text::chars_of("srt"))
}

/// Where the shifted copy of a job's subtitle goes: "<cache>/<id>-shifted.srt".
pub fn shifted_sub_path(cache_dir: &str, job_id: &str) -> (r: String)
    ensures
        r@ == crate::ffmpeg::join_spec(cache_dir@, job_id@ + "-shifted.srt"@),
{
    crate::ffmpeg::join(cache_dir, crate::text::concat2(job_id, "-shifted.srt").as_str())
}

// ---------------------------------------------------------------- probing results

/// A probed job: its media info, detected crop and subtitle candidates recorded; a
/// job still being analysed now waits to run.
pub open spec fn probed(a: Job, info: MediaInfo, crop: Option<Crop>, cands: Seq<SubCandidate>, b: Job) -> bool {
    &&& b.info == Some(info)
    &&& b.crop == crop
    &&& b.sub_candidates@ == cands
    &&& b.status == (if a.status == JobStatus::Probing {
        JobStatus::Pending
    } else {
        a.status
    })
    &&& b == Job { info: b.info, crop: b.crop, sub_candidates: b.sub_candidates, status: b.status, ..a }
}

pub fn apply_probe(job: &mut Job, info: MediaInfo, crop: Option<Crop>, cands: Vec<SubCandidate>)
    ensures
        probed(*old(job), info, crop, cands@, *final(job)),
{
    job.info = Some(info);
    job.crop = crop;
    job.sub_candidates = cands;
    if job.status == JobStatus::Probing {
        job.status = JobStatus::Pending;
    }
}

/// A job whose file could not be read fails with "Could not read file: <reason>".
pub fn probe_failed(job: &mut Job, reason: &str)
    ensures
        final(job).status == JobStatus::Failed,
        (final(job).error matches Some(e) && e@ == "Could not read file: "@ + reason@),
        *final(job) == (Job { status: final(job).status, error: final(job).error, ..*old(job) }),
{
    job.status = JobStatus::Failed;
    job.error = Some(crate::text::concat2("Could not read file: ", reason));
}

// ---------------------------------------------------------------- counts

/// The integer figures of the queue.
pub struct JobCounts {
    pub total: usize,
    pub done: usize,
    pub running: usize,
    /// Waiting, being analysed, or interrupted.
    pub pending: usize,
    pub failed: usize,
    /// Input bytes of the done jobs (saturating).
    pub in_bytes_done: u64,
    /// Output bytes of the done jobs (saturating).
    pub out_bytes_done: u64,
}

pub open spec fn count_where(jobs: Seq<Job>, f: spec_fn(JobStatus) -> bool) -> nat
    decreases jobs.len(),
{
    if jobs.len() == 0 {
        0
    } else {
        count_where(jobs.drop_last(), f) + if f(jobs.last().status) {
            1nat
        } else {
            0nat
        }
    }
}

/// Input bytes of the done jobs.
pub open spec fn done_in_bytes(jobs: Seq<Job>) -> nat
    decreases jobs.len(),
{
    if jobs.len() == 0 {
        0
    } else {
        done_in_bytes(jobs.drop_last()) + if jobs.last().status == JobStatus::Done {
            jobs.last().in_size as nat
        } else {
            0nat
        }
    }
}

/// Output bytes of the done jobs (a missing size counts 0).
pub open spec fn done_out_bytes(jobs: Seq<Job>) -> nat
    decreases jobs.len(),
{
    if jobs.len() == 0 {
        0
    } else {
        done_out_bytes(jobs.drop_last()) + if jobs.last().status == JobStatus::Done {
            match jobs.last().out_size {
                Some(n) => n as nat,
                None => 0nat,
            }
        } else {
            0nat
        }
    }
}

pub open spec fn is_pending_like(st: JobStatus) -> bool {
    st == JobStatus::Pending || st == JobStatus::Probing || st == JobStatus::Interrupted
}

pub open spec fn sat(n: nat) -> u64 {
    if n > u64::MAX {
        u64::MAX
    } else {
        n as u64
    }
}

/// Counts the jobs by status, and the bytes read and written by the done ones.
pub fn job_counts(jobs: &Vec<Job>) -> (r: JobCounts)
    ensures
        r.total == jobs@.len(),
        r.done == count_where(jobs@, |s: JobStatus| s == JobStatus::Done),
        r.running == count_where(jobs@, |s: JobStatus| s == JobStatus::Running),
        r.pending == count_where(jobs@, |s: JobStatus| is_pending_like(s)),
        r.failed == count_where(jobs@, |s: JobStatus| s == JobStatus::Failed),
        r.in_bytes_done == sat(done_in_bytes(jobs@)),
        r.out_bytes_done == sat(done_out_bytes(jobs@)),
{
    let mut c = JobCounts {
        total: 0,
        done: 0,
        running: 0,
        pending: 0,
        failed: 0,
        in_bytes_done: 0,
        out_bytes_done: 0,
    };
    let mut i: usize = 0;
    while i < jobs.len()
        invariant
            i <= jobs@.len(),
            c.total == i,
            c.done == count_where(jobs@.take(i as int), |s: JobStatus| s == JobStatus::Done),
            c.running == count_where(jobs@.take(i as int), |s: JobStatus| s == JobStatus::Running),
            c.pending == count_where(jobs@.take(i as int), |s: JobStatus| is_pending_like(s)),
            c.failed == count_where(jobs@.take(i as int), |s: JobStatus| s == JobStatus::Failed),
            c.done <= i && c.running <= i && c.pending <= i && c.failed <= i,
            c.in_bytes_done == sat(done_in_bytes(jobs@.take(i as int))),
            c.out_bytes_done == sat(done_out_bytes(jobs@.take(i as int))),
        decreases jobs@.len() - i,
    {
        let ghost pre = jobs@.take(i as int);
        proof {
            assert(jobs@.take(i + 1).drop_last() =~= pre);
            assert(jobs@.take(i + 1).last() == jobs@[i as int]);
        }
        let st = jobs[i].status;
        c.total = c.total + 1;
        if st == JobStatus::Done {
            c.done = c.done + 1;
            c.in_bytes_done = c.in_bytes_done.saturating_add(jobs[i].in_size);
            let o: u64 = match jobs[i].out_size {
                Some(n) => n,
                None => 0,
            };
            c.out_bytes_done = c.out_bytes_done.saturating_add(o);
        } else if st == JobStatus::Running {
            c.running = c.running + 1;
        } else if st == JobStatus::Pending || st == JobStatus::Probing || st == JobStatus::Interrupted {
            c.pending = c.pending + 1;
        } else if st == JobStatus::Failed {
            c.failed = c.failed + 1;
        }
        i = i + 1;
    }
    proof {
        assert(jobs@.take(jobs@.len() as int) =~= jobs@);
    }
    c
}

/// The queue has drained: nothing runs, waits or is being analysed.
pub open spec fn idle_spec(jobs: Seq<Job>, running_handles: nat) -> bool {
    running_handles == 0 && forall|i: int|
        0 <= i < jobs.len() ==> !(#[trigger] jobs[i].status == JobStatus::Running || jobs[i].status
            == JobStatus::Pending || jobs[i].status == JobStatus::Probing)
}

pub fn queue_idle(jobs: &Vec<Job>, running_handles: usize) -> (r: bool)
    ensures
        r == idle_spec(jobs@, running_handles as nat),
{
    if running_handles != 0 {
        return false;
    }
    let mut i: usize = 0;
    while i < jobs.len()
        invariant
            i <= jobs@.len(),
            forall|k: int|
                0 <= k < i ==> !(#[trigger] jobs@[k].status == JobStatus::Running || jobs@[k].status
                    == JobStatus::Pending || jobs@[k].status == JobStatus::Probing),
        decreases jobs@.len() - i,
    {
        let st = jobs[i].status;
        if st == JobStatus::Running || st == JobStatus::Pending || st == JobStatus::Probing {
            return false;
        }
        i = i + 1;
    }
    true
}

// ---------------------------------------------------------------- settings changes

pub open spec fn naming_eq(a: NamingSettings, b: NamingSettings) -> bool {
    a.add_tag == b.add_tag && a.tag_template@ == b.tag_template@ && a.add_signature == b.add_signature
        && a.signature@ == b.signature@
}

/// Whether unfinished jobs must get new output paths and estimates after the
/// settings change from `old` to `new`: naming, output folder, structure mirroring
/// or the parallel-jobs setting changed.
pub open spec fn affects_jobs_spec(old: AppSettings, new: AppSettings) -> bool {
    !naming_eq(old.naming, new.naming) || crate::probe::opt_str(old.output_dir) != crate::probe::opt_str(
        new.output_dir,
    ) || old.preserve_structure != new.preserve_structure || old.parallel_jobs != new.parallel_jobs
}

fn opt_str_eq(a: &Option<String>, b: &Option<String>) -> (r: bool)
    ensures
        r == (crate::probe::opt_str(*a) == crate::probe::opt_str(*b)),
{
    match (a, b) {
        (Some(x), Some(y)) => crate::text::str_eq(x.as_str(), y.as_str()),
        (None, None) => true,
        _ => false,
    }
}

pub fn settings_affect_jobs(old: &AppSettings, new: &AppSettings) -> (r: bool)
    ensures
        r == affects_jobs_spec(*old, *new),
{
    let same_naming = old.naming.add_tag == new.naming.add_tag && crate::text::str_eq(
        old.naming.tag_template.as_str(),
        new.naming.tag_template.as_str(),
    ) && old.naming.add_signature == new.naming.add_signature && crate::text::str_eq(
        old.naming.signature.as_str(),
        new.naming.signature.as_str(),
    );
    !same_naming || !opt_str_eq(&old.output_dir, &new.output_dir) || old.preserve_structure
        != new.preserve_structure || old.parallel_jobs != new.parallel_jobs
}

/// Whether a new ffmpeg location was set (the cached capabilities are dropped).
pub fn ffmpeg_path_changed(old: &AppSettings, new: &AppSettings) -> (r: bool)
    ensures
        r == (crate::probe::opt_str(old.ffmpeg_path) != crate::probe::opt_str(new.ffmpeg_path)),
{
    !opt_str_eq(&old.ffmpeg_path, &new.ffmpeg_path)
}

/// A job whose derived fields follow the settings: not finished and not running.
pub open spec fn refreshable(j: Job) -> bool {
    !j.status.is_finished_spec() && j.status != JobStatus::Running
}

pub fn is_refreshable(job: &Job) -> (r: bool)
    ensures
        r == refreshable(*job),
{
    !job.status.is_finished() && job.status != JobStatus::Running
}

/// A job whose settings can be edited: listed and not running.
pub fn is_editable(job: &Job, ids: &[String]) -> (r: bool)
    ensures
        r == (strs(ids@).contains(job.id@) && job.status != JobStatus::Running),
{
    if job.status == JobStatus::Running {
        return false;
    }
    let ghost iv = strs(ids@);
    let mut i: usize = 0;
    while i < ids.len()
        invariant
            i <= ids@.len(),
            iv == strs(ids@),
            job.status != JobStatus::Running,
            forall|k: int| 0 <= k < i ==> iv[k] != job.id@,
        decreases ids@.len() - i,
    {
        if crate::text::str_eq(ids[i].as_str(), job.id.as_str()) {
            assert(iv[i as int] == job.id@);
            return true;
        }
        i = i + 1;
    }
    false
}

} // verus!
