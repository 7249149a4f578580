//! Locating the ffmpeg/ffprobe binaries, reading their capabilities, and parsing
//! the `-progress pipe:1` key/value stream.
use vstd::prelude::*;
use crate::models::Capabilities;
use crate::path::push_component;
use crate::subtitles::{next_nl, strip_cr};
use crate::text::{chars_of, is_ws, owned, starts_with, string_of, trim, trim_vec};

verus! {

// ---------------------------------------------------------------- file names and paths

/// The executable's file name: ".exe" is appended on Windows.
pub open spec fn exe_spec(name: Seq<char>, windows: bool) -> Seq<char> {
    if windows {
        name + ".exe"@
    } else {
        name
    }
}

/// The executable's file name for `name`.
pub fn exe(name: &str, windows: bool) -> (r: String)
    ensures
        r@ == exe_spec(name@, windows),
{
    if windows {
        crate::text::concat2(name, ".exe")
    } else {
        owned(name)
    }
}

/// The target triple of the sidecar binaries for a CPU architecture and an OS name
/// (as `std::env::consts` gives them).
pub open spec fn triple_spec(arch: Seq<char>, os: Seq<char>) -> Seq<char> {
    if os == "macos"@ {
        arch + "-apple-darwin"@
    } else if os == "windows"@ {
        arch + "-pc-windows-msvc"@
    } else if os == "linux"@ {
        arch + "-unknown-linux-gnu"@
    } else {
        arch + "-"@ + os
    }
}

/// The target triple for `arch` and `os`.
pub fn current_triple(arch: &str, os: &str) -> (r: String)
    ensures
        r@ == triple_spec(arch@, os@),
{
    if crate::text::str_eq(os, "macos") {
        crate::text::concat2(arch, "-apple-darwin")
    } else if crate::text::str_eq(os, "windows") {
        crate::text::concat2(arch, "-pc-windows-msvc")
    } else if crate::text::str_eq(os, "linux") {
        crate::text::concat2(arch, "-unknown-linux-gnu")
    } else {
        crate::text::concat3(arch, "-", os)
    }
}

/// `Path::join` on '/'-separated paths: an absolute `c` replaces `base`.
pub open spec fn join_spec(base: Seq<char>, c: Seq<char>) -> Seq<char> {
    if c.len() > 0 && c[0] == '/' {
        c
    } else {
        push_component(base, c)
    }
}

/// `Path::join`.
pub fn join(base: &str, c: &str) -> (r: String)
    ensures
        r@ == join_spec(base@, c@),
{
    let cv = chars_of(c);
    if cv.len() > 0 && cv[0] == '/' {
        return owned(c);
    }
    let mut b = chars_of(base);
    crate::path::push_component_exec(&mut b, &cv);
    string_of(&b)
}

/// Number of '/' at the end of `p`.
pub open spec fn trailing_slashes(p: Seq<char>) -> nat
    decreases p.len(),
{
    if p.len() > 0 && p.last() == '/' {
        1 + trailing_slashes(p.drop_last())
    } else {
        0
    }
}

/// Position of the last '/' in `p`.
pub open spec fn last_slash(p: Seq<char>) -> Option<int>
    decreases p.len(),
{
    if p.len() == 0 {
        None
    } else if p.last() == '/' {
        Some(p.len() - 1)
    } else {
        last_slash(p.drop_last())
    }
}

/// `Path::parent` for '/'-separated paths: the path without its last component and
/// the separators before it ("/" for a top-level entry, "" for a bare name); none
/// for "" and "/".
pub open spec fn parent_spec(p: Seq<char>) -> Option<Seq<char>> {
    let q = p.take(p.len() - trailing_slashes(p));
    if q.len() == 0 {
        None
    } else {
        match last_slash(q) {
            None => Some(Seq::empty()),
            Some(k) => {
                let d = q.take(k);
                let d2 = d.take(d.len() - trailing_slashes(d));
                if d2.len() == 0 {
                    Some(seq!['/'])
                } else {
                    Some(d2)
                }
            },
        }
    }
}

proof fn lemma_trailing_slashes(p: Seq<char>)
    ensures
        trailing_slashes(p) <= p.len(),
        forall|i: int| p.len() - trailing_slashes(p) <= i < p.len() ==> p[i] == '/',
        trailing_slashes(p) < p.len() ==> p[p.len() - trailing_slashes(p) - 1] != '/',
    decreases p.len(),
{
    if p.len() > 0 && p.last() == '/' {
        lemma_trailing_slashes(p.drop_last());
        assert forall|i: int| p.len() - trailing_slashes(p) <= i < p.len() implies p[i] == '/' by {
            if i < p.len() - 1 {
                assert(p.drop_last()[i] == p[i]);
            }
        }
        if trailing_slashes(p) < p.len() {
            assert(p.drop_last()[p.len() - trailing_slashes(p) - 1] == p[p.len() - trailing_slashes(p) - 1]);
        }
    }
}

fn strip_trailing_slashes(p: &[char]) -> (r: Vec<char>)
    ensures
        r@ == p@.take(p@.len() - trailing_slashes(p@)),
{
    let mut n: usize = p.len();
    assert(p@.take(n as int) =~= p@);
    while n > 0 && p[n - 1] == '/'
        invariant
            n <= p@.len(),
            trailing_slashes(p@) == (p@.len() - n) + trailing_slashes(p@.take(n as int)),
        decreases n,
    {
        proof {
            assert(p@.take(n as int).drop_last() =~= p@.take(n - 1));
        }
        n = n - 1;
    }
    crate::path::slice_to(p, n)
}

fn last_slash_exec(p: &[char]) -> (r: Option<usize>)
    ensures
        match r {
            Some(k) => last_slash(p@) == Some(k as int) && k < p@.len(),
            None => last_slash(p@) is None,
        },
{
    let mut n: usize = p.len();
    proof {
        assert(p@.take(n as int) =~= p@);
    }
    while n > 0
        invariant
            n <= p@.len(),
            last_slash(p@) == last_slash(p@.take(n as int)),
        decreases n,
    {
        if p[n - 1] == '/' {
            return Some(n - 1);
        }
        proof {
            assert(p@.take(n as int).drop_last() =~= p@.take(n - 1));
        }
        n = n - 1;
    }
    None
}

/// `Path::parent`.
pub fn parent(p: &str) -> (r: Option<String>)
    ensures
        match r {
            Some(s) => parent_spec(p@) == Some(s@),
            None => parent_spec(p@) is None,
        },
{
    let pv = chars_of(p);
    let q = strip_trailing_slashes(&pv);
    if q.len() == 0 {
        return None;
    }
    match last_slash_exec(&q) {
        None => Some(String::new()),
        Some(k) => {
            let d = crate::path::slice_to(&q, k);
            let d2 = strip_trailing_slashes(&d);
            if d2.len() == 0 {
                let mut s = String::new();
                crate::text::push_char(&mut s, '/');
                assert(s@ =~= seq!['/']);
                Some(s)
            } else {
                Some(string_of(&d2))
            }
        },
    }
}

// ---------------------------------------------------------------- finding the binaries

/// Where the application runs from, as the places to look for the binaries.
pub struct ExeEnv {
    /// Folder of the running executable, when known.
    pub exe_dir: Option<String>,
    /// `CARGO_MANIFEST_DIR` at run time, when set.
    pub manifest_dir: Option<String>,
    /// `CARGO_MANIFEST_DIR` when the application was built.
    pub build_manifest_dir: String,
    /// Target triple of the sidecar binaries.
    pub triple: String,
    pub windows: bool,
}

/// The sidecar file name "<tool>-<triple>".
pub open spec fn sidecar_name(tool: Seq<char>, env: ExeEnv) -> Seq<char> {
    exe_spec(tool + "-"@ + env.triple@, env.windows)
}

/// Candidate locations in priority order: custom folder → next to the executable →
/// the app bundle's Resources → the development sidecars → the bare name (PATH).
pub open spec fn candidates_spec(tool: Seq<char>, custom_dir: Option<Seq<char>>, env: ExeEnv) -> Seq<(Seq<char>, Seq<char>)> {
    let name = exe_spec(tool, env.windows);
    let a: Seq<(Seq<char>, Seq<char>)> = match custom_dir {
        Some(d) => seq![(join_spec(d, name), "custom"@)],
        None => Seq::empty(),
    };
    let b: Seq<(Seq<char>, Seq<char>)> = match env.exe_dir {
        Some(d) => seq![
            (join_spec(d@, name), "bundled"@),
            (join_spec(join_spec(join_spec(d@, ".."@), "Resources"@), name), "bundled"@),
        ],
        None => Seq::empty(),
    };
    let c: Seq<(Seq<char>, Seq<char>)> = match env.manifest_dir {
        Some(m) => seq![(join_spec(join_spec(m@, "binaries"@), sidecar_name(tool, env)), "bundled"@)],
        None => Seq::empty(),
    };
    a + b + c + seq![
        (join_spec(join_spec(env.build_manifest_dir@, "binaries"@), sidecar_name(tool, env)), "bundled"@),
        (name, "path"@),
    ]
}

pub open spec fn cands_view(v: Seq<(String, &'static str)>) -> Seq<(Seq<char>, Seq<char>)> {
    v.map_values(|e: (String, &'static str)| (e.0@, e.1@))
}

fn push_cand(v: &mut Vec<(String, &'static str)>, p: String, src: &'static str)
    ensures
        cands_view(final(v)@) == cands_view(old(v)@).push((p@, src@)),
{
    v.push((p, src));
    assert(cands_view(v@) =~= cands_view(old(v)@).push((p@, src@)));
}

/// Candidate locations of `tool`, in priority order.
pub fn candidates(tool: &str, custom_dir: Option<&str>, env: &ExeEnv) -> (r: Vec<(String, &'static str)>)
    ensures
        cands_view(r@) == candidates_spec(
            tool@,
            match custom_dir {
                Some(d) => Some(d@),
                None => None,
            },
            *env,
        ),
{
    proof {
        reveal_strlit("custom");
        reveal_strlit("bundled");
        reveal_strlit("path");
    }
    let name = exe(tool, env.windows);
    let side = exe(crate::text::concat3(tool, "-", env.triple.as_str()).as_str(), env.windows);
    let mut out: Vec<(String, &'static str)> = Vec::new();
    if let Some(d) = custom_dir {
        push_cand(&mut out, join(d, name.as_str()), "custom");
    }
    if let Some(d) = &env.exe_dir {
        push_cand(&mut out, join(d.as_str(), name.as_str()), "bundled");
        let up = join(d.as_str(), "..");
        let res = join(up.as_str(), "Resources");
        push_cand(&mut out, join(res.as_str(), name.as_str()), "bundled");
    }
    if let Some(m) = &env.manifest_dir {
        let bin = join(m.as_str(), "binaries");
        push_cand(&mut out, join(bin.as_str(), side.as_str()), "bundled");
    }
    let bin = join(env.build_manifest_dir.as_str(), "binaries");
    push_cand(&mut out, join(bin.as_str(), side.as_str()), "bundled");
    push_cand(&mut out, name, "path");
    proof {
        let ghost cd = match custom_dir {
            Some(d) => Some(d@),
            None => None,
        };
        assert(cands_view(out@) =~= candidates_spec(tool@, cd, *env));
    }
    out
}

/// The custom location from the settings: blank means none; a file stands for its
/// folder.
pub open spec fn custom_dir_spec(custom: Option<Seq<char>>, is_file: bool) -> Option<Seq<char>> {
    match custom {
        Some(s) => {
            let p = trim(s);
            if p.len() == 0 {
                None
            } else if is_file {
                match parent_spec(p) {
                    Some(d) => Some(d),
                    None => Some(p),
                }
            } else {
                Some(p)
            }
        },
        None => None,
    }
}

/// Why the binaries could not be found.
#[derive(Clone, Copy, Debug, PartialEq, Eq, Structural)]
pub enum ResolveError {
    NoFfmpeg,
    NoFfprobe,
}

impl ResolveError {
    /// The message shown to the user.
    pub fn message(self) -> (r: &'static str)
        ensures
            self == ResolveError::NoFfmpeg ==> r@ == "ffmpeg not found (bundled sidecar missing and none on PATH)"@,
            self == ResolveError::NoFfprobe ==> r@ == "ffprobe not found next to ffmpeg or on PATH"@,
    {
        match self {
            ResolveError::NoFfmpeg => "ffmpeg not found (bundled sidecar missing and none on PATH)",
            ResolveError::NoFfprobe => "ffprobe not found next to ffmpeg or on PATH",
        }
    }
}

/// Candidate `i` is the first that the check accepted: it answered yes for it and no
/// for every candidate before it.
pub open spec fn picked<W: Fn(&String) -> bool>(cands: Seq<(String, &'static str)>, works: W, i: int) -> bool {
    &&& 0 <= i < cands.len()
    &&& works.ensures((&cands[i].0,), true)
    &&& forall|j: int| 0 <= j < i ==> works.ensures((&#[trigger] cands[j].0,), false)
}

/// The check answered no for every candidate.
pub open spec fn none_works<W: Fn(&String) -> bool>(cands: Seq<(String, &'static str)>, works: W) -> bool {
    forall|j: int| 0 <= j < cands.len() ==> works.ensures((&#[trigger] cands[j].0,), false)
}

/// The first candidate that `works` accepts, trying them in order; every candidate
/// before it was tried and refused.
fn first_working<W: Fn(&String) -> bool>(cands: &Vec<(String, &'static str)>, works: &W) -> (r: Option<usize>)
    requires
        forall|p: &String| #[trigger] works.requires((p,)),
    ensures
        match r {
            Some(i) => picked(cands@, *works, i as int),
            None => none_works(cands@, *works),
        },
{
    let mut i: usize = 0;
    while i < cands.len()
        invariant
            i <= cands@.len(),
            forall|p: &String| #[trigger] works.requires((p,)),
            forall|j: int| 0 <= j < i ==> works.ensures((&#[trigger] cands@[j].0,), false),
        decreases cands@.len() - i,
    {
        let ok = works(&cands[i].0);
        if ok {
            return Some(i);
        }
        i = i + 1;
    }
    None
}

/// Where to look for ffprobe once ffmpeg is found: next to it (plain and sidecar
/// names), then the usual candidates.
pub open spec fn ffprobe_candidates_spec(ffmpeg: Seq<char>, custom_dir: Option<Seq<char>>, env: ExeEnv) -> Seq<(Seq<char>, Seq<char>)> {
    let near: Seq<(Seq<char>, Seq<char>)> = match parent_spec(ffmpeg) {
        Some(d) => seq![
            (join_spec(d, exe_spec("ffprobe"@, env.windows)), "bundled"@),
            (join_spec(d, sidecar_name("ffprobe"@, env)), "bundled"@),
        ],
        None => Seq::empty(),
    };
    near + candidates_spec("ffprobe"@, custom_dir, env)
}

fn ffprobe_candidates(ffmpeg: &str, custom_dir: Option<&str>, env: &ExeEnv) -> (r: Vec<(String, &'static str)>)
    ensures
        cands_view(r@) == ffprobe_candidates_spec(
            ffmpeg@,
            match custom_dir {
                Some(d) => Some(d@),
                None => None,
            },
            *env,
        ),
{
    proof {
        reveal_strlit("bundled");
    }
    let mut out: Vec<(String, &'static str)> = Vec::new();
    if let Some(d) = parent(ffmpeg) {
        push_cand(&mut out, join(d.as_str(), exe("ffprobe", env.windows).as_str()), "bundled");
        let side = exe(crate::text::concat3("ffprobe", "-", env.triple.as_str()).as_str(), env.windows);
        push_cand(&mut out, join(d.as_str(), side.as_str()), "bundled");
    }
    let rest = candidates("ffprobe", custom_dir, env);
    let ghost near = out@;
    let mut i: usize = 0;
    while i < rest.len()
        invariant
            i <= rest@.len(),
            cands_view(out@) == cands_view(near) + cands_view(rest@).take(i as int),
        decreases rest@.len() - i,
    {
        push_cand(&mut out, owned(rest[i].0.as_str()), rest[i].1);
        assert(cands_view(rest@).take(i + 1) =~= cands_view(rest@).take(i as int).push(cands_view(rest@)[i as int]));
        i = i + 1;
    }
    assert(cands_view(rest@).take(rest@.len() as int) =~= cands_view(rest@));
    proof {
        let ghost cd = match custom_dir {
            Some(d) => Some(d@),
            None => None,
        };
        assert(cands_view(out@) =~= ffprobe_candidates_spec(ffmpeg@, cd, *env));
    }
    out
}

/// The custom location from the settings.
fn custom_dir_of(custom: Option<&str>, custom_is_file: bool) -> (r: Option<String>)
    ensures
        match r {
            Some(d) => custom_dir_spec(
                match custom {
                    Some(c) => Some(c@),
                    None => None,
                },
                custom_is_file,
            ) == Some(d@),
            None => custom_dir_spec(
                match custom {
                    Some(c) => Some(c@),
                    None => None,
                },
                custom_is_file,
            ) is None,
        },
{
    match custom {
        Some(c) => {
            let pv = trim_vec(&chars_of(c));
            if pv.len() == 0 {
                return None;
            }
            let p = string_of(&pv);
            if custom_is_file {
                match parent(p.as_str()) {
                    Some(d) => Some(d),
                    None => Some(p),
                }
            } else {
                Some(p)
            }
        },
        None => None,
    }
}

/// Resolves both binaries. `custom` (from the settings) may be a folder or the path
/// of the ffmpeg binary; `custom_is_file` says whether the trimmed custom path is a
/// file. `works` runs a candidate with `-version` and reports whether it succeeded;
/// candidates are tried in order and the first that works is taken. The result is
/// (ffmpeg, ffprobe, where ffmpeg was found: "custom", "bundled" or "path").
pub fn resolve<W: Fn(&String) -> bool>(custom: Option<&str>, custom_is_file: bool, env: &ExeEnv, works: &W) -> (r: Result<
    (String, String, &'static str),
    ResolveError,
>)
    requires
        forall|p: &String| #[trigger] works.requires((p,)),
    ensures
        ({
            let cd = custom_dir_spec(
                match custom {
                    Some(c) => Some(c@),
                    None => None,
                },
                custom_is_file,
            );
            match r {
                Ok((ff, fp, src)) => exists|fc: Seq<(String, &'static str)>, i: int, pc: Seq<(String, &'static str)>, j: int|
                    #![trigger picked(fc, *works, i), picked(pc, *works, j)]
                    {
                        &&& cands_view(fc) == candidates_spec("ffmpeg"@, cd, *env)
                        &&& picked(fc, *works, i)
                        &&& fc[i].0 == ff
                        &&& fc[i].1 == src
                        &&& cands_view(pc) == ffprobe_candidates_spec(ff@, cd, *env)
                        &&& picked(pc, *works, j)
                        &&& pc[j].0 == fp
                    },
                Err(ResolveError::NoFfmpeg) => exists|fc: Seq<(String, &'static str)>|
                    #![trigger none_works(fc, *works)]
                    cands_view(fc) == candidates_spec("ffmpeg"@, cd, *env) && none_works(fc, *works),
                Err(ResolveError::NoFfprobe) => exists|fc: Seq<(String, &'static str)>, i: int, pc: Seq<(String, &'static str)>|
                    #![trigger picked(fc, *works, i), none_works(pc, *works)]
                    {
                        &&& cands_view(fc) == candidates_spec("ffmpeg"@, cd, *env)
                        &&& picked(fc, *works, i)
                        &&& cands_view(pc) == ffprobe_candidates_spec(fc[i].0@, cd, *env)
                        &&& none_works(pc, *works)
                    },
            }
        }),
{
    let cd = custom_dir_of(custom, custom_is_file);
    let cdr: Option<&str> = match &cd {
        Some(d) => Some(d.as_str()),
        None => None,
    };
    let fc = candidates("ffmpeg", cdr, env);
    let i = match first_working(&fc, works) {
        Some(i) => i,
        None => {
            assert(none_works(fc@, *works));
            return Err(ResolveError::NoFfmpeg);
        },
    };
    let ghost fcs = fc@;
    let mut fc = fc;
    let (ff, src) = fc.remove(i);
    let pc = ffprobe_candidates(ff.as_str(), cdr, env);
    let j = match first_working(&pc, works) {
        Some(j) => j,
        None => {
            assert(picked(fcs, *works, i as int));
            assert(none_works(pc@, *works));
            return Err(ResolveError::NoFfprobe);
        },
    };
    let ghost pcs = pc@;
    let mut pc = pc;
    let (fp, _) = pc.remove(j);
    assert(picked(fcs, *works, i as int));
    assert(picked(pcs, *works, j as int));
    Ok((ff, fp, src))
}

// ---------------------------------------------------------------- capabilities

/// Position of the first whitespace at or after `i` (or the length).
pub open spec fn word_end(s: Seq<char>, i: int) -> int
    decreases s.len() - i,
{
    if i < 0 || i >= s.len() {
        s.len() as int
    } else if is_ws(s[i]) {
        i
    } else {
        word_end(s, i + 1)
    }
}

/// Position of the first non-whitespace at or after `i` (or the length).
pub open spec fn skip_ws(s: Seq<char>, i: int) -> int
    decreases s.len() - i,
{
    if i < 0 || i >= s.len() {
        s.len() as int
    } else if is_ws(s[i]) {
        skip_ws(s, i + 1)
    } else {
        i
    }
}

/// The first whitespace-separated word of `s` at or after `i`
/// (`split_whitespace().next()`).
pub open spec fn word_from(s: Seq<char>, i: int) -> Option<Seq<char>> {
    let a = skip_ws(s, i);
    if 0 <= a < s.len() && a <= word_end(s, a) <= s.len() {
        Some(s.subrange(a, word_end(s, a)))
    } else {
        None
    }
}

/// The first line of `s` (`lines().next()`), or "".
pub open spec fn first_line(s: Seq<char>) -> Seq<char> {
    if s.len() == 0 {
        Seq::empty()
    } else {
        let k = next_nl(s, 0);
        if k < s.len() {
            strip_cr(s.take(k))
        } else {
            s
        }
    }
}

/// `trim_start_matches(p)`: every leading copy of the non-empty `p` removed.
pub open spec fn strip_prefix_all(s: Seq<char>, p: Seq<char>) -> Seq<char>
    decreases s.len(),
{
    if p.len() > 0 && starts_with(s, p) {
        strip_prefix_all(s.skip(p.len() as int), p)
    } else {
        s
    }
}

/// The version word of `ffmpeg -version`: the first word after "ffmpeg version " on
/// the first line, or "?".
pub open spec fn version_spec(out: Seq<char>) -> Seq<char> {
    match word_from(strip_prefix_all(first_line(out), "ffmpeg version "@), 0) {
        Some(w) => w,
        None => "?"@,
    }
}

/// Encoder flags: six ASCII letters, digits or dots ("V....D").
pub open spec fn is_flags(f: Seq<char>) -> bool {
    f.len() == 6 && forall|i: int| 0 <= i < 6 ==> #[trigger] flag_char(f[i])
}

pub open spec fn flag_char(c: char) -> bool {
    ('a' <= c && c <= 'z') || ('A' <= c && c <= 'Z') || ('0' <= c && c <= '9') || c == '.'
}

/// The encoder named on one line of `ffmpeg -encoders` (" V....D libx264  H.264 ..."):
/// the second word, when the first is a flags word.
pub open spec fn encoder_name(line: Seq<char>) -> Option<Seq<char>> {
    let l = trim(line);
    match word_from(l, 0) {
        Some(flags) => match word_from(l, word_end(l, skip_ws(l, 0))) {
            Some(name) => if is_flags(flags) {
                Some(name)
            } else {
                None
            },
            None => None,
        },
        None => None,
    }
}

/// The encoders listed by `ffmpeg -encoders`, from position `i` of its output.
pub open spec fn encoders_from(s: Seq<char>, i: int) -> Seq<Seq<char>>
    decreases s.len() - i,
{
    if i < 0 || i >= s.len() {
        Seq::empty()
    } else {
        let k = next_nl(s, i);
        let line = if i <= k < s.len() {
            strip_cr(s.subrange(i, k))
        } else {
            s.subrange(i, s.len() as int)
        };
        let rest = if i <= k < s.len() {
            encoders_from(s, k + 1)
        } else {
            Seq::empty()
        };
        match encoder_name(line) {
            Some(n) => seq![n] + rest,
            None => rest,
        }
    }
}

/// The first of `names` that is among `encoders`.
pub open spec fn pick_spec(encoders: Seq<Seq<char>>, names: Seq<Seq<char>>) -> Option<Seq<char>>
    decreases names.len(),
{
    if names.len() == 0 {
        None
    } else if encoders.contains(names[0]) {
        Some(names[0])
    } else {
        pick_spec(encoders, names.skip(1))
    }
}

pub open spec fn hw_h264_names() -> Seq<Seq<char>> {
    seq!["h264_videotoolbox"@, "h264_nvenc"@, "h264_qsv"@, "h264_amf"@]
}

pub open spec fn hw_hevc_names() -> Seq<Seq<char>> {
    seq!["hevc_videotoolbox"@, "hevc_nvenc"@, "hevc_qsv"@, "hevc_amf"@]
}

pub open spec fn strings_view(v: Seq<String>) -> Seq<Seq<char>> {
    v.map_values(|s: String| s@)
}

proof fn lemma_skip_ws(s: Seq<char>, i: int)
    requires
        0 <= i <= s.len(),
    ensures
        i <= skip_ws(s, i) <= s.len(),
        skip_ws(s, i) < s.len() ==> !is_ws(s[skip_ws(s, i)]),
    decreases s.len() - i,
{
    if i < s.len() && is_ws(s[i]) {
        lemma_skip_ws(s, i + 1);
    }
}

proof fn lemma_word_end(s: Seq<char>, i: int)
    requires
        0 <= i <= s.len(),
    ensures
        i <= word_end(s, i) <= s.len(),
    decreases s.len() - i,
{
    if i < s.len() && !is_ws(s[i]) {
        lemma_word_end(s, i + 1);
    }
}

fn skip_ws_exec(s: &[char], i: usize) -> (r: usize)
    requires
        i <= s@.len(),
    ensures
        r == skip_ws(s@, i as int),
        i <= r <= s@.len(),
{
    proof {
        lemma_skip_ws(s@, i as int);
    }
    let mut k: usize = i;
    while k < s.len() && crate::text::is_ws_exec(s[k])
        invariant
            i <= k <= s@.len(),
            skip_ws(s@, i as int) == skip_ws(s@, k as int),
        decreases s@.len() - k,
    {
        k = k + 1;
    }
    k
}

fn word_end_exec(s: &[char], i: usize) -> (r: usize)
    requires
        i <= s@.len(),
    ensures
        r == word_end(s@, i as int),
        i <= r <= s@.len(),
{
    proof {
        lemma_word_end(s@, i as int);
    }
    let mut k: usize = i;
    while k < s.len() && !crate::text::is_ws_exec(s[k])
        invariant
            i <= k <= s@.len(),
            word_end(s@, i as int) == word_end(s@, k as int),
        decreases s@.len() - k,
    {
        k = k + 1;
    }
    k
}

fn word_from_exec(s: &[char], i: usize) -> (r: Option<Vec<char>>)
    requires
        i <= s@.len(),
    ensures
        match r {
            Some(w) => word_from(s@, i as int) == Some(w@),
            None => word_from(s@, i as int) is None,
        },
{
    let a = skip_ws_exec(s, i);
    if a >= s.len() {
        return None;
    }
    let b = word_end_exec(s, a);
    let w = crate::path::slice_to(&crate::path::slice_from(s, a), b - a);
    assert(w@ =~= s@.subrange(a as int, b as int));
    Some(w)
}

fn first_line_exec(s: &[char]) -> (r: Vec<char>)
    ensures
        r@ == first_line(s@),
{
    if s.len() == 0 {
        return Vec::new();
    }
    let k = crate::subtitles::next_nl_exec(s, 0);
    if k < s.len() {
        let mut l = crate::path::slice_to(s, k);
        if l.len() > 0 && l[l.len() - 1] == '\r' {
            l.pop();
        }
        l
    } else {
        crate::path::copy_chars(s)
    }
}

fn strip_prefix_all_exec(s: &[char], p: &[char]) -> (r: Vec<char>)
    ensures
        r@ == strip_prefix_all(s@, p@),
{
    let mut a: usize = 0;
    assert(s@.skip(0) =~= s@);
    while p.len() > 0 && p.len() <= s.len() - a && crate::text::matches_at(s, a, p)
        invariant
            a <= s@.len(),
            strip_prefix_all(s@, p@) == strip_prefix_all(s@.skip(a as int), p@),
        decreases s@.len() - a,
    {
        proof {
            assert(s@.skip(a as int).take(p@.len() as int) =~= s@.subrange(a as int, a + p@.len()));
            assert(s@.skip(a as int).skip(p@.len() as int) =~= s@.skip(a + p@.len()));
        }
        a = a + p.len();
    }
    proof {
        if p@.len() > 0 && p@.len() <= s@.len() - a {
            assert(s@.skip(a as int).take(p@.len() as int) =~= s@.subrange(a as int, a + p@.len()));
        }
    }
    crate::path::slice_from(s, a)
}

/// The version word of the output of `ffmpeg -hide_banner -version`.
pub fn parse_version(out: &str) -> (r: String)
    ensures
        r@ == version_spec(out@),
{
    let l = first_line_exec(&chars_of(out));
    let t = strip_prefix_all_exec(&l, &chars_of("ffmpeg version "));
    match word_from_exec(&t, 0) {
        Some(w) => string_of(&w),
        None => owned("?"),
    }
}

fn flag_char_exec(c: char) -> (r: bool)
    ensures
        r == flag_char(c),
{
    ('a' <= c && c <= 'z') || ('A' <= c && c <= 'Z') || ('0' <= c && c <= '9') || c == '.'
}

fn is_flags_exec(f: &[char]) -> (r: bool)
    ensures
        r == is_flags(f@),
{
    if f.len() != 6 {
        return false;
    }
    let mut i: usize = 0;
    while i < 6
        invariant
            i <= 6,
            f@.len() == 6,
            forall|j: int| 0 <= j < i ==> #[trigger] flag_char(f@[j]),
        decreases 6 - i,
    {
        if !flag_char_exec(f[i]) {
            assert(!flag_char(f@[i as int]));
            return false;
        }
        i = i + 1;
    }
    true
}

fn encoder_name_exec(line: &[char]) -> (r: Option<Vec<char>>)
    ensures
        match r {
            Some(n) => encoder_name(line@) == Some(n@),
            None => encoder_name(line@) is None,
        },
{
    let l = trim_vec(line);
    let flags = match word_from_exec(&l, 0) {
        Some(f) => f,
        None => return None,
    };
    let a = skip_ws_exec(&l, 0);
    let e = word_end_exec(&l, a);
    let name = match word_from_exec(&l, e) {
        Some(n) => n,
        None => return None,
    };
    if !is_flags_exec(&flags) {
        return None;
    }
    Some(name)
}

/// The encoders listed in the output of `ffmpeg -hide_banner -encoders`, in order.
pub fn parse_encoders(out: &str) -> (r: Vec<String>)
    ensures
        strings_view(r@) == encoders_from(out@, 0),
{
    let s = chars_of(out);
    let mut names: Vec<String> = Vec::new();
    let mut i: usize = 0;
    while i < s.len()
        invariant
            i <= s@.len(),
            s@ == out@,
            encoders_from(s@, 0) == strings_view(names@) + encoders_from(s@, i as int),
        decreases s@.len() - i,
    {
        let k = crate::subtitles::next_nl_exec(&s, i);
        let mut line = crate::path::slice_to(&crate::path::slice_from(&s, i), k - i);
        assert(line@ =~= s@.subrange(i as int, k as int));
        if k < s.len() && line.len() > 0 && line[line.len() - 1] == '\r' {
            line.pop();
        }
        let ghost before = strings_view(names@);
        match encoder_name_exec(&line) {
            Some(n) => {
                names.push(string_of(&n));
                assert(strings_view(names@) =~= before.push(n@));
            },
            None => {
                assert(strings_view(names@) =~= before);
            },
        }
        if k < s.len() {
            i = k + 1;
        } else {
            i = s.len();
        }
    }
    names
}

fn has_encoder(encoders: &Vec<String>, n: &str) -> (r: bool)
    ensures
        r == strings_view(encoders@).contains(n@),
{
    let ghost v = strings_view(encoders@);
    let mut i: usize = 0;
    while i < encoders.len()
        invariant
            i <= encoders@.len(),
            v == strings_view(encoders@),
            forall|j: int| 0 <= j < i ==> v[j] != n@,
        decreases encoders@.len() - i,
    {
        if crate::text::str_eq(encoders[i].as_str(), n) {
            assert(v[i as int] == n@);
            return true;
        }
        i = i + 1;
    }
    false
}

fn pick_encoder(encoders: &Vec<String>, names: &Vec<&'static str>) -> (r: Option<String>)
    ensures
        match r {
            Some(s) => pick_spec(strings_view(encoders@), names@.map_values(|n: &'static str| n@)) == Some(s@),
            None => pick_spec(strings_view(encoders@), names@.map_values(|n: &'static str| n@)) is None,
        },
{
    let ghost nv = names@.map_values(|n: &'static str| n@);
    let mut i: usize = 0;
    assert(nv.skip(0) =~= nv);
    while i < names.len()
        invariant
            i <= names@.len(),
            nv == names@.map_values(|n: &'static str| n@),
            pick_spec(strings_view(encoders@), nv) == pick_spec(strings_view(encoders@), nv.skip(i as int)),
        decreases names@.len() - i,
    {
        assert(nv.skip(i as int)[0] == names@[i as int]@);
        assert(nv.skip(i as int).skip(1) =~= nv.skip(i + 1));
        if has_encoder(encoders, names[i]) {
            return Some(owned(names[i]));
        }
        i = i + 1;
    }
    None
}

/// What the found ffmpeg can do, from the output of `ffmpeg -hide_banner -version`
/// and of `ffmpeg -hide_banner -encoders`: its version word, its encoders, and the
/// hardware encoders to use (the first available of VideoToolbox, NVENC, Quick Sync,
/// AMF).
pub fn capabilities_from(
    ffmpeg_path: String,
    ffprobe_path: String,
    source: &str,
    version_out: &str,
    encoders_out: &str,
) -> (r: Capabilities)
    ensures
        r.ffmpeg_path == ffmpeg_path,
        r.ffprobe_path == ffprobe_path,
        r.source@ == source@,
        r.version@ == version_spec(version_out@),
        strings_view(r.encoders@) == encoders_from(encoders_out@, 0),
        r.has_aac_at == encoders_from(encoders_out@, 0).contains("aac_at"@),
        r.has_fdk_aac == encoders_from(encoders_out@, 0).contains("libfdk_aac"@),
        r.has_x264 == encoders_from(encoders_out@, 0).contains("libx264"@),
        r.has_x265 == encoders_from(encoders_out@, 0).contains("libx265"@),
        r.has_svtav1 == encoders_from(encoders_out@, 0).contains("libsvtav1"@),
        crate::probe::opt_str(r.hw_h264) == pick_spec(encoders_from(encoders_out@, 0), hw_h264_names()),
        crate::probe::opt_str(r.hw_hevc) == pick_spec(encoders_from(encoders_out@, 0), hw_hevc_names()),
{
    let encoders = parse_encoders(encoders_out);
    let h264: Vec<&'static str> = vec!["h264_videotoolbox", "h264_nvenc", "h264_qsv", "h264_amf"];
    let hevc: Vec<&'static str> = vec!["hevc_videotoolbox", "hevc_nvenc", "hevc_qsv", "hevc_amf"];
    assert(h264@.map_values(|n: &'static str| n@) =~= hw_h264_names());
    assert(hevc@.map_values(|n: &'static str| n@) =~= hw_hevc_names());
    let hw_h264 = pick_encoder(&encoders, &h264);
    let hw_hevc = pick_encoder(&encoders, &hevc);
    Capabilities {
        ffmpeg_path,
        ffprobe_path,
        source: owned(source),
        version: parse_version(version_out),
        has_aac_at: has_encoder(&encoders, "aac_at"),
        has_fdk_aac: has_encoder(&encoders, "libfdk_aac"),
        has_x264: has_encoder(&encoders, "libx264"),
        has_x265: has_encoder(&encoders, "libx265"),
        has_svtav1: has_encoder(&encoders, "libsvtav1"),
        hw_h264,
        hw_hevc,
        encoders,
    }
}

// ---------------------------------------------------------------- progress stream

/// One block of `-progress` output. `fps` and `speed` are in millionths
/// (48.5 fps is 48_500_000); the output time is in microseconds.
#[derive(Clone, Copy, Debug, PartialEq, Eq, Structural)]
pub struct ProgressLine {
    pub frame: Option<u64>,
    pub fps: Option<u64>,
    pub total_size: Option<u64>,
    pub out_time_us: Option<i64>,
    pub speed: Option<u64>,
    pub end: bool,
}

pub open spec fn empty_progress() -> ProgressLine {
    ProgressLine { frame: None, fps: None, total_size: None, out_time_us: None, speed: None, end: false }
}

impl Default for ProgressLine {
    fn default() -> (r: Self)
        ensures
            r == empty_progress(),
    {
        ProgressLine { frame: None, fps: None, total_size: None, out_time_us: None, speed: None, end: false }
    }
}

/// `str::parse::<i64>`: digits with an optional leading '+' or '-'.
pub open spec fn parse_i64_spec(t: Seq<char>) -> Option<i64> {
    if t.len() > 0 && t[0] == '-' {
        match crate::probe::digits_u64(t.skip(1)) {
            Some(n) => if n <= 0x8000_0000_0000_0000 {
                Some((-(n as int)) as i64)
            } else {
                None
            },
            None => None,
        }
    } else {
        match crate::probe::parse_u64_spec(t) {
            Some(n) => if n <= i64::MAX {
                Some(n as i64)
            } else {
                None
            },
            None => None,
        }
    }
}

fn parse_i64_exec(t: &[char]) -> (r: Option<i64>)
    ensures
        r == parse_i64_spec(t@),
{
    if t.len() > 0 && t[0] == '-' {
        match crate::probe::digits_u64_exec(t, 1) {
            Some(n) => if n <= 0x8000_0000_0000_0000 {
                if n == 0x8000_0000_0000_0000 {
                    Some(i64::MIN)
                } else {
                    Some(-(n as i64))
                }
            } else {
                None
            },
            None => None,
        }
    } else {
        match crate::probe::parse_u64_exec(t) {
            Some(n) => if n <= 0x7fff_ffff_ffff_ffff {
                Some(n as i64)
            } else {
                None
            },
            None => None,
        }
    }
}

/// Position of the first '=' in `s`.
pub open spec fn eq_index(s: Seq<char>, i: int) -> Option<int>
    decreases s.len() - i,
{
    if i < 0 || i >= s.len() {
        None
    } else if s[i] == '=' {
        Some(i)
    } else {
        eq_index(s, i + 1)
    }
}

/// Feeds one `key=value` line into the block being read (`acc`): the new state of
/// the block, and the finished block when the line is `progress=...` (after which
/// reading starts on an empty block). Values that do not parse are recorded as
/// absent; lines without '=' and unknown keys change nothing.
pub open spec fn progress_step(acc: ProgressLine, line: Seq<char>) -> (ProgressLine, Option<ProgressLine>) {
    let l = trim(line);
    match eq_index(l, 0) {
        None => (acc, None),
        Some(i) => {
            let k = trim(l.take(i));
            let v = trim(l.skip(i + 1));
            if k == "frame"@ {
                (ProgressLine { frame: crate::probe::parse_u64_spec(v), ..acc }, None)
            } else if k == "fps"@ {
                (ProgressLine { fps: crate::probe::decimal_micros(v), ..acc }, None)
            } else if k == "total_size"@ {
                (ProgressLine { total_size: crate::probe::parse_u64_spec(v), ..acc }, None)
            } else if k == "out_time_us"@ {
                (ProgressLine { out_time_us: parse_i64_spec(v), ..acc }, None)
            } else if k == "out_time_ms"@ && acc.out_time_us is None {
                (ProgressLine { out_time_us: parse_i64_spec(v), ..acc }, None)
            } else if k == "speed"@ {
                (
                    ProgressLine {
                        speed: crate::probe::decimal_micros(trim(crate::command::strip_suffix_all(v, "x"@))),
                        ..acc
                    },
                    None,
                )
            } else if k == "progress"@ {
                (empty_progress(), Some(ProgressLine { end: v == "end"@, ..acc }))
            } else {
                (acc, None)
            }
        },
    }
}

fn is_key(k: &[char], lit: &str) -> (r: bool)
    ensures
        r == (k@ == lit@),
{
    crate::text::seq_eq(k, &chars_of(lit))
}

/// Feeds a single `key=value` line. Returns the block when it is complete
/// (`progress=...`), and starts the next one empty.
pub fn parse_progress_line(acc: &mut ProgressLine, line: &str) -> (r: Option<ProgressLine>)
    ensures
        (*final(acc), r) == progress_step(*old(acc), line@),
{
    let l = trim_vec(&chars_of(line));
    let mut i: usize = 0;
    while i < l.len() && l[i] != '='
        invariant
            i <= l@.len(),
            eq_index(l@, 0) == eq_index(l@, i as int),
        decreases l@.len() - i,
    {
        i = i + 1;
    }
    if i == l.len() {
        return None;
    }
    let k = trim_vec(&crate::path::slice_to(&l, i));
    let v = trim_vec(&crate::path::slice_from(&l, i + 1));
    let vs = string_of(&v);
    if is_key(&k, "frame") {
        acc.frame = crate::probe::parse_u64_exec(&v);
    } else if is_key(&k, "fps") {
        acc.fps = crate::probe::parse_micros(vs.as_str());
    } else if is_key(&k, "total_size") {
        acc.total_size = crate::probe::parse_u64_exec(&v);
    } else if is_key(&k, "out_time_us") {
        acc.out_time_us = parse_i64_exec(&v);
    } else if is_key(&k, "out_time_ms") && acc.out_time_us.is_none() {
        acc.out_time_us = parse_i64_exec(&v);
    } else if is_key(&k, "speed") {
        let sv = trim_vec(&crate::command::strip_suffix_chars(&v, &chars_of("x")));
        acc.speed = crate::probe::parse_micros(string_of(&sv).as_str());
    } else if is_key(&k, "progress") {
        acc.end = is_key(&v, "end");
        let done = *acc;
        *acc = ProgressLine::default();
        return Some(done);
    }
    None
}

/// Law: a block ends with a `progress=` line, after which reading starts on an empty
/// block; any other line yields no block.
pub proof fn law_progress_block_resets(acc: ProgressLine, line: Seq<char>)
    ensures
        progress_step(acc, line).1 is Some ==> progress_step(acc, line).0 == empty_progress(),
        progress_step(acc, line).1 is None ==> progress_step(acc, line).0.end == acc.end,
{
}

} // verus!
