//! Reading ffprobe's JSON report into a `MediaInfo`, and recognising video files.
use vstd::prelude::*;
use crate::cropdetect::{digits_value, is_digit};
use crate::models::{AudioStream, MediaInfo, Ratio, SubtitleStream, VideoStream};
use crate::path::{ext_lower, ext_lower_of};
use crate::text::{chars_of, contains_seq, trim, trim_vec};

verus! {

/// A JSON value as ffprobe prints it. Numbers keep their text; an object keeps its
/// entries in order (keys are distinct in what ffprobe prints).
pub enum Json {
    Null,
    Bool(bool),
    Number(String),
    Str(String),
    Array(Vec<Json>),
    Object(Vec<(String, Json)>),
}

// ---------------------------------------------------------------- video files

/// Extensions of the video files the queue accepts.
pub open spec fn is_video_ext(e: Seq<char>) -> bool {
    ||| e == "mkv"@ || e == "mp4"@ || e == "m4v"@ || e == "avi"@ || e == "mov"@ || e == "wmv"@
    ||| e == "ts"@ || e == "m2ts"@ || e == "mts"@ || e == "webm"@ || e == "flv"@ || e == "mpg"@
    ||| e == "mpeg"@ || e == "vob"@ || e == "ogv"@ || e == "3gp"@ || e == "divx"@
}

/// A file whose extension, ASCII lower-cased, is a video extension.
pub open spec fn is_video_file_spec(path: Seq<char>) -> bool {
    crate::path::extension(path) is Some && is_video_ext(ext_lower(path))
}

fn is_lit(t: &[char], lit: &str) -> (r: bool)
    ensures
        r == (t@ == lit@),
{
    let l = chars_of(lit);
    crate::text::seq_eq(t, &l)
}

/// Whether `path` names a video file, by its extension.
pub fn is_video_file(path: &str) -> (r: bool)
    ensures
        r == is_video_file_spec(path@),
{
    let p = chars_of(path);
    if crate::path::extension_of(&p).is_none() {
        return false;
    }
    let e = ext_lower_of(&p);
    is_lit(&e, "mkv") || is_lit(&e, "mp4") || is_lit(&e, "m4v") || is_lit(&e, "avi") || is_lit(&e, "mov")
        || is_lit(&e, "wmv") || is_lit(&e, "ts") || is_lit(&e, "m2ts") || is_lit(&e, "mts") || is_lit(
        &e,
        "webm",
    ) || is_lit(&e, "flv") || is_lit(&e, "mpg") || is_lit(&e, "mpeg") || is_lit(&e, "vob") || is_lit(
        &e,
        "ogv",
    ) || is_lit(&e, "3gp") || is_lit(&e, "divx")
}

// ---------------------------------------------------------------- reading JSON

/// The value of the first entry named `k` among `entries[i..]`.
pub open spec fn find_key(entries: Seq<(String, Json)>, k: Seq<char>, i: int) -> Option<Json>
    decreases entries.len() - i,
{
    if i < 0 || i >= entries.len() {
        None
    } else if entries[i].0@ == k {
        Some(entries[i].1)
    } else {
        find_key(entries, k, i + 1)
    }
}

/// `value.get(k)`: the member `k` of an object.
pub open spec fn jget(v: Json, k: Seq<char>) -> Option<Json> {
    match v {
        Json::Object(entries) => find_key(entries@, k, 0),
        _ => None,
    }
}

/// The member `k` when it is a string.
pub open spec fn str_of(v: Json, k: Seq<char>) -> Option<Seq<char>> {
    match jget(v, k) {
        Some(Json::Str(s)) => Some(s@),
        _ => None,
    }
}

/// The text of a non-empty run of ASCII digits read as a `u64`, when it is one.
pub open spec fn digits_u64(t: Seq<char>) -> Option<u64> {
    if t.len() > 0 && (forall|i: int| 0 <= i < t.len() ==> is_digit(#[trigger] t[i])) && digits_value(t)
        <= u64::MAX {
        Some(digits_value(t) as u64)
    } else {
        None
    }
}

/// `str::parse::<u64>`: digits with an optional leading '+'.
pub open spec fn parse_u64_spec(t: Seq<char>) -> Option<u64> {
    if t.len() > 0 && t[0] == '+' {
        digits_u64(t.skip(1))
    } else {
        digits_u64(t)
    }
}

/// A number member read as an unsigned integer (`as_u64`), or a string member
/// parsed as one.
pub open spec fn u64_of(v: Json, k: Seq<char>) -> Option<u64> {
    match jget(v, k) {
        Some(Json::Number(t)) => digits_u64(t@),
        Some(Json::Str(t)) => parse_u64_spec(t@),
        _ => None,
    }
}

/// The member `k` of the `tags` object, when it is a string.
pub open spec fn tag_of(v: Json, k: Seq<char>) -> Option<Seq<char>> {
    match jget(v, "tags"@) {
        Some(t) => str_of(t, k),
        None => None,
    }
}

/// The `disposition` flag `k` is the integer 1.
pub open spec fn disposition_of(v: Json, k: Seq<char>) -> bool {
    match jget(v, "disposition"@) {
        Some(d) => match jget(d, k) {
            Some(Json::Number(t)) => digits_u64(t@) == Some(1u64),
            _ => false,
        },
        None => false,
    }
}

fn find_key_exec<'a>(entries: &'a Vec<(String, Json)>, k: &str) -> (r: Option<&'a Json>)
    ensures
        match r {
            Some(x) => find_key(entries@, k@, 0) == Some(*x),
            None => find_key(entries@, k@, 0) is None,
        },
{
    let mut i: usize = 0;
    while i < entries.len()
        invariant
            i <= entries@.len(),
            find_key(entries@, k@, 0) == find_key(entries@, k@, i as int),
        decreases entries@.len() - i,
    {
        if crate::text::str_eq(entries[i].0.as_str(), k) {
            return Some(&entries[i].1);
        }
        i = i + 1;
    }
    None
}

/// `value.get(k)`.
pub fn get<'a>(v: &'a Json, k: &str) -> (r: Option<&'a Json>)
    ensures
        match r {
            Some(x) => jget(*v, k@) == Some(*x),
            None => jget(*v, k@) is None,
        },
{
    match v {
        Json::Object(entries) => find_key_exec(entries, k),
        _ => None,
    }
}

fn str_member(v: &Json, k: &str) -> (r: Option<String>)
    ensures
        match r {
            Some(s) => str_of(*v, k@) == Some(s@),
            None => str_of(*v, k@) is None,
        },
{
    match get(v, k) {
        Some(Json::Str(s)) => Some(crate::text::owned(s.as_str())),
        _ => None,
    }
}

fn all_digits(t: &[char], from: usize) -> (r: bool)
    requires
        from <= t@.len(),
    ensures
        r == (forall|i: int| from <= i < t@.len() ==> is_digit(#[trigger] t@[i])),
{
    let mut i: usize = from;
    while i < t.len()
        invariant
            from <= i <= t@.len(),
            forall|j: int| from <= j < i ==> is_digit(#[trigger] t@[j]),
        decreases t@.len() - i,
    {
        if !('0' <= t[i] && t[i] <= '9') {
            return false;
        }
        i = i + 1;
    }
    true
}

proof fn lemma_digits_value_step(t: Seq<char>, i: int)
    requires
        0 <= i < t.len(),
    ensures
        digits_value(t.take(i + 1)) == digits_value(t.take(i)) * 10 + ((t[i] as u32) - 48) as nat,
{
    assert(t.take(i + 1).drop_last() =~= t.take(i));
}

proof fn lemma_digits_value_mono(t: Seq<char>, i: int, j: int)
    requires
        0 <= i <= j <= t.len(),
        forall|k: int| 0 <= k < t.len() ==> is_digit(#[trigger] t[k]),
    ensures
        digits_value(t.take(i)) <= digits_value(t.take(j)),
    decreases j - i,
{
    if i < j {
        lemma_digits_value_mono(t, i, j - 1);
        lemma_digits_value_step(t, j - 1);
    }
}

/// The digits `t[from..]` read as a `u64`, when they are a non-empty run that fits.
pub(crate) fn digits_u64_exec(t: &[char], from: usize) -> (r: Option<u64>)
    requires
        from <= t@.len(),
    ensures
        r == digits_u64(t@.skip(from as int)),
{
    let ghost u = t@.skip(from as int);
    if from == t.len() {
        return None;
    }
    if !all_digits(t, from) {
        proof {
            assert(!(forall|i: int| 0 <= i < u.len() ==> is_digit(#[trigger] u[i]))) by {
                let w = choose|i: int| from <= i < t@.len() && !is_digit(#[trigger] t@[i]);
                assert(u[w - from] == t@[w]);
            }
        }
        return None;
    }
    assert forall|i: int| 0 <= i < u.len() implies is_digit(#[trigger] u[i]) by {
        assert(u[i] == t@[i + from]);
    }
    let mut v: u64 = 0;
    let mut i: usize = from;
    assert(u.take(0) =~= Seq::<char>::empty());
    while i < t.len()
        invariant
            from <= i <= t@.len(),
            u == t@.skip(from as int),
            forall|k: int| 0 <= k < u.len() ==> is_digit(#[trigger] u[k]),
            v as nat == digits_value(u.take(i - from)),
        decreases t@.len() - i,
    {
        proof {
            lemma_digits_value_step(u, i - from);
            assert(u[i - from] == t@[i as int]);
            assert(is_digit(t@[i as int]));
        }
        let d = (t[i] as u32 - 48) as u64;
        if v > 1844674407370955161 || (v == 1844674407370955161 && d > 5) {
            proof {
                lemma_digits_value_mono(u, i - from + 1, u.len() as int);
                assert(u.take(u.len() as int) =~= u);
            }
            return None;
        }
        v = v * 10 + d;
        i = i + 1;
    }
    assert(u.take(u.len() as int) =~= u);
    Some(v)
}

/// `str::parse::<u64>`.
pub(crate) fn parse_u64_exec(t: &[char]) -> (r: Option<u64>)
    ensures
        r == parse_u64_spec(t@),
{
    if t.len() > 0 && t[0] == '+' {
        digits_u64_exec(t, 1)
    } else {
        assert(t@.skip(0) =~= t@);
        digits_u64_exec(t, 0)
    }
}

fn u64_member(v: &Json, k: &str) -> (r: Option<u64>)
    ensures
        r == u64_of(*v, k@),
{
    match get(v, k) {
        Some(Json::Number(t)) => {
            let c = chars_of(t.as_str());
            assert(c@.skip(0) =~= c@);
            digits_u64_exec(&c, 0)
        },
        Some(Json::Str(t)) => parse_u64_exec(&chars_of(t.as_str())),
        _ => None,
    }
}

fn tag_member(v: &Json, k: &str) -> (r: Option<String>)
    ensures
        match r {
            Some(s) => tag_of(*v, k@) == Some(s@),
            None => tag_of(*v, k@) is None,
        },
{
    match get(v, "tags") {
        Some(t) => str_member(t, k),
        None => None,
    }
}

fn disposition_member(v: &Json, k: &str) -> (r: bool)
    ensures
        r == disposition_of(*v, k@),
{
    match get(v, "disposition") {
        Some(d) => match get(d, k) {
            Some(Json::Number(t)) => {
                let c = chars_of(t.as_str());
                assert(c@.skip(0) =~= c@);
                digits_u64_exec(&c, 0) == Some(1u64)
            },
            _ => false,
        },
        None => false,
    }
}

// ---------------------------------------------------------------- ratios, durations, bit depth

/// Position of the first ':' or '/' in `t` at or after `i`.
pub open spec fn ratio_sep(t: Seq<char>, i: int) -> Option<int>
    decreases t.len() - i,
{
    if i < 0 || i >= t.len() {
        None
    } else if t[i] == ':' || t[i] == '/' {
        Some(i)
    } else {
        ratio_sep(t, i + 1)
    }
}

/// `x` times ten to the `k`.
pub open spec fn times10(x: nat, k: nat) -> nat
    decreases k,
{
    if k == 0 {
        x
    } else {
        times10(x, (k - 1) as nat) * 10
    }
}

/// A ratio "A:B" or "A/B", each part trimmed and a plain decimal: the quotient as
/// whole numbers, both parts scaled to the same decimal places ("2.5/1" is 25/10);
/// none when B is zero or a scaled part passes `u32`.
pub open spec fn parse_ratio_spec(t: Seq<char>) -> Option<Ratio> {
    match ratio_sep(t, 0) {
        Some(i) => match (decimal_split(trim(t.take(i))), decimal_split(trim(t.skip(i + 1)))) {
            (Some((ai, af)), Some((bi, bf))) => {
                let num = times10(digits_value(ai + af), bf.len());
                let den = times10(digits_value(bi + bf), af.len());
                if den == 0 || num > u32::MAX || den > u32::MAX {
                    None
                } else {
                    Some(Ratio { num: num as u32, den: den as u32 })
                }
            },
            _ => None,
        },
        None => None,
    }
}

proof fn lemma_times10_mono(x: nat, i: nat, k: nat)
    requires
        i <= k,
    ensures
        times10(x, i) <= times10(x, k),
        times10(x, k) >= x,
        x == 0 ==> times10(x, k) == 0,
    decreases k,
{
    if k > 0 {
        if i < k {
            lemma_times10_mono(x, i, (k - 1) as nat);
        }
        lemma_times10_mono(x, 0, (k - 1) as nat);
    }
}

/// `x` times ten to the `k`, when it fits a `u32`.
fn scale10(x: u64, k: usize) -> (r: Option<u32>)
    ensures
        match r {
            Some(v) => times10(x as nat, k as nat) == v,
            None => times10(x as nat, k as nat) > u32::MAX,
        },
{
    proof {
        lemma_times10_mono(x as nat, 0, k as nat);
    }
    if x == 0 {
        return Some(0);
    }
    if x > 4294967295 {
        return None;
    }
    let mut v: u64 = x;
    let mut j: usize = 0;
    while j < k
        invariant
            j <= k,
            v as nat == times10(x as nat, j as nat),
            v <= u32::MAX,
        decreases k - j,
    {
        if v > 429496729 {
            proof {
                lemma_times10_mono(x as nat, (j + 1) as nat, k as nat);
            }
            return None;
        }
        v = v * 10;
        j = j + 1;
    }
    Some(v as u32)
}

/// The digits of a decimal's two parts read as one whole number, when it fits.
fn joined_value(a: &Vec<char>, b: &Vec<char>) -> (r: Option<u64>)
    requires
        a@.len() + b@.len() > 0,
        forall|i: int| 0 <= i < a@.len() ==> is_digit(#[trigger] a@[i]),
        forall|i: int| 0 <= i < b@.len() ==> is_digit(#[trigger] b@[i]),
    ensures
        match r {
            Some(v) => digits_value(a@ + b@) == v,
            None => digits_value(a@ + b@) > u64::MAX,
        },
{
    let mut c = crate::path::copy_chars(a);
    crate::subtitles::extend_chars(&mut c, b);
    assert(c@.skip(0) =~= c@);
    assert forall|i: int| 0 <= i < c@.len() implies is_digit(#[trigger] c@[i]) by {
        if i < a@.len() {
            assert(c@[i] == a@[i]);
        } else {
            assert(c@[i] == b@[i - a@.len()]);
        }
    }
    digits_u64_exec(&c, 0)
}

/// Reads a ratio such as "24000/1001", "4:3" or "2.5/1".
pub fn parse_ratio(s: &str) -> (r: Option<Ratio>)
    ensures
        r == parse_ratio_spec(s@),
{
    let t = chars_of(s);
    let mut i: usize = 0;
    while i < t.len() && t[i] != ':' && t[i] != '/'
        invariant
            i <= t@.len(),
            ratio_sep(t@, 0) == ratio_sep(t@, i as int),
        decreases t@.len() - i,
    {
        i = i + 1;
    }
    if i == t.len() {
        return None;
    }
    let a = trim_vec(&crate::path::slice_to(&t, i));
    let b = trim_vec(&crate::path::slice_from(&t, i + 1));
    let (ai, af) = match decimal_split_exec(&a) {
        Some(x) => x,
        None => {
            return None;
        },
    };
    let (bi, bf) = match decimal_split_exec(&b) {
        Some(x) => x,
        None => {
            return None;
        },
    };
    let num = match joined_value(&ai, &af) {
        Some(v) => scale10(v, bf.len()),
        None => {
            proof {
                lemma_times10_mono(digits_value(ai@ + af@), 0, bf@.len());
            }
            None
        },
    };
    let den = match joined_value(&bi, &bf) {
        Some(v) => scale10(v, af.len()),
        None => {
            proof {
                lemma_times10_mono(digits_value(bi@ + bf@), 0, af@.len());
            }
            None
        },
    };
    match (num, den) {
        (Some(x), Some(y)) => if y == 0 {
            None
        } else {
            Some(Ratio { num: x, den: y })
        },
        _ => None,
    }
}

/// The first `n` characters of `f` (all of them when shorter) read as a fraction
/// with `n` decimal places: "5" with n = 6 is 500000.
pub open spec fn frac_value(f: Seq<char>, n: nat) -> nat
    decreases n,
{
    if n == 0 {
        0
    } else {
        let d: nat = if (n - 1) < f.len() {
            ((f[n - 1] as u32) - 48) as nat
        } else {
            0
        };
        frac_value(f, (n - 1) as nat) * 10 + d
    }
}

/// A decimal "[+]D*[.D*]" with at least one digit, split into its integer and
/// fraction digits.
pub open spec fn decimal_split(t: Seq<char>) -> Option<(Seq<char>, Seq<char>)> {
    let u = if t.len() > 0 && t[0] == '+' {
        t.skip(1)
    } else {
        t
    };
    let p = crate::cropdetect::digit_run(u, 0);
    let ip = u.take(p as int);
    let rest = u.skip(p as int);
    let frac: Option<Seq<char>> = if rest.len() == 0 {
        Some(Seq::<char>::empty())
    } else if rest[0] == '.' && crate::cropdetect::digit_run(rest, 1) + 1 == rest.len() {
        Some(rest.skip(1))
    } else {
        None
    };
    match frac {
        Some(f) => if ip.len() + f.len() > 0 {
            Some((ip, f))
        } else {
            None
        },
        None => None,
    }
}

/// A decimal "[+]D*[.D*]" with at least one digit, in millionths (digits past the
/// sixth decimal place are dropped), when it fits a `u64`.
pub open spec fn decimal_micros(t: Seq<char>) -> Option<u64> {
    match decimal_split(t) {
        Some((ip, f)) => {
            let v = digits_value(ip) * 1000000 + frac_value(f, 6);
            if v <= u64::MAX {
                Some(v as u64)
            } else {
                None
            }
        },
        None => None,
    }
}

/// The format's duration in microseconds: a number member or a string member in
/// plain decimal notation; 0 when absent or written otherwise.
pub open spec fn duration_spec(format: Json) -> u64 {
    match jget(format, "duration"@) {
        Some(Json::Number(t)) => match decimal_micros(t@) {
            Some(v) => v,
            None => 0,
        },
        Some(Json::Str(t)) => match decimal_micros(t@) {
            Some(v) => v,
            None => 0,
        },
        _ => 0,
    }
}

proof fn lemma_digit_run_skip(s: Seq<char>, p: int, i: int)
    requires
        0 <= p <= s.len(),
        0 <= i,
    ensures
        crate::cropdetect::digit_run(s.skip(p), i) == crate::cropdetect::digit_run(s, p + i),
    decreases s.len() - p - i,
{
    if p + i < s.len() {
        lemma_digit_run_skip(s, p, i + 1);
        assert(s.skip(p)[i] == s[p + i]);
    }
}

proof fn lemma_frac_value_bound(f: Seq<char>, n: nat)
    requires
        forall|i: int| 0 <= i < f.len() ==> is_digit(#[trigger] f[i]),
    ensures
        frac_value(f, n) < vstd::arithmetic::power::pow(10, n),
    decreases n,
{
    vstd::arithmetic::power::lemma_pow_positive(10, n);
    if n > 0 {
        lemma_frac_value_bound(f, (n - 1) as nat);
        let p = vstd::arithmetic::power::pow(10, (n - 1) as nat);
        assert(vstd::arithmetic::power::pow(10, n) == 10 * p) by {
            vstd::arithmetic::power::lemma_pow_adds(10, 1, (n - 1) as nat);
            vstd::arithmetic::power::lemma_pow1(10);
        }
        let d: nat = if (n - 1) < f.len() {
            ((f[n - 1] as u32) - 48) as nat
        } else {
            0
        };
        assert(d <= 9);
        let x = frac_value(f, (n - 1) as nat);
        assert(x * 10 + d < 10 * p) by (nonlinear_arith)
            requires
                x < p,
                d <= 9,
        ;
    }
}

fn decimal_split_exec(t: &[char]) -> (r: Option<(Vec<char>, Vec<char>)>)
    ensures
        match r {
            Some((a, b)) => decimal_split(t@) == Some((a@, b@)) && (forall|i: int|
                0 <= i < a@.len() ==> is_digit(#[trigger] a@[i])) && (forall|i: int|
                0 <= i < b@.len() ==> is_digit(#[trigger] b@[i])),
            None => decimal_split(t@) is None,
        },
{
    let u: Vec<char> = if t.len() > 0 && t[0] == '+' {
        crate::path::slice_from(t, 1)
    } else {
        crate::path::copy_chars(t)
    };
    assert(u@ == (if t@.len() > 0 && t@[0] == '+' {
        t@.skip(1)
    } else {
        t@
    }));
    proof {
        crate::cropdetect::lemma_digit_run_bound(u@, 0);
    }
    let mut p: usize = 0;
    while p < u.len() && '0' <= u[p] && u[p] <= '9'
        invariant
            p <= u@.len(),
            crate::cropdetect::digit_run(u@, 0) == p + crate::cropdetect::digit_run(u@, p as int),
        decreases u@.len() - p,
    {
        p = p + 1;
    }
    assert(crate::cropdetect::digit_run(u@, p as int) == 0);
    assert(p == crate::cropdetect::digit_run(u@, 0));
    let ghost ip = u@.take(p as int);
    let ghost rest = u@.skip(p as int);
    assert forall|i: int| 0 <= i < ip.len() implies is_digit(#[trigger] ip[i]) by {
        crate::cropdetect::lemma_digit_run_bound(u@, 0);
    }
    let mut fstart: usize = p;
    if p < u.len() {
        assert(rest[0] == u@[p as int]);
        if u[p] != '.' {
            return None;
        }
        let run = crate::cropdetect::digit_run_exec(&u, p + 1);
        proof {
            lemma_digit_run_skip(u@, p as int, 1);
        }
        if run + p + 1 != u.len() {
            return None;
        }
        proof {
            crate::cropdetect::lemma_digit_run_bound(u@, p + 1);
        }
        fstart = p + 1;
    }
    let ghost f = u@.skip(fstart as int);
    assert(f == (if rest.len() == 0 {
        Seq::<char>::empty()
    } else {
        rest.skip(1)
    }));
    assert forall|i: int| 0 <= i < f.len() implies is_digit(#[trigger] f[i]) by {
        assert(f[i] == u@[fstart + i]);
    }
    if p == 0 && fstart == u.len() {
        return None;
    }
    let a = crate::path::slice_to(&u, p);
    let b = crate::path::slice_from(&u, fstart);
    Some((a, b))
}

/// Reads a plain decimal number in millionths (seconds as microseconds).
pub fn parse_micros(s: &str) -> (r: Option<u64>)
    ensures
        r == decimal_micros(s@),
{
    let t = chars_of(s);
    let (ip_digits, f) = match decimal_split_exec(&t) {
        Some(x) => x,
        None => {
            return None;
        },
    };
    let iv = match digits_u64_exec(&ip_digits, 0) {
        Some(v) => v,
        None => {
            if ip_digits.len() == 0 {
                0
            } else {
                proof {
                    assert(ip_digits@.skip(0) =~= ip_digits@);
                }
                return None;
            }
        },
    };
    proof {
        assert(ip_digits@.skip(0) =~= ip_digits@);
        if ip_digits@.len() == 0 {
            assert(ip_digits@ =~= Seq::<char>::empty());
        }
    }
    assert(iv as nat == digits_value(ip_digits@));
    // fraction, six places
    let mut fv: u64 = 0;
    let mut k: usize = 0;
    while k < 6
        invariant
            k <= 6,
            forall|i: int| 0 <= i < f@.len() ==> is_digit(#[trigger] f@[i]),
            fv as nat == frac_value(f@, k as nat),
            fv < 1000000,
        decreases 6 - k,
    {
        let d: u64 = if k < f.len() {
            (f[k] as u32 - 48) as u64
        } else {
            0
        };
        proof {
            lemma_frac_value_bound(f@, (k + 1) as nat);
            vstd::arithmetic::power::lemma_pow_increases(10, (k + 1) as nat, 6);
            assert(vstd::arithmetic::power::pow(10, 6) == 1000000) by {
                reveal_with_fuel(vstd::arithmetic::power::pow, 7);
            }
        }
        fv = fv * 10 + d;
        k = k + 1;
    }
    if iv > 18446744073709 || (iv == 18446744073709 && fv > 551615) {
        proof {
            assert(iv * 1000000 + fv > u64::MAX) by (nonlinear_arith)
                requires
                    iv > 18446744073709 || (iv == 18446744073709 && fv > 551615),
            ;
        }
        return None;
    }
    assert(iv * 1000000 + fv <= u64::MAX) by (nonlinear_arith)
        requires
            iv < 18446744073709 || (iv == 18446744073709 && fv <= 551615),
            fv < 1000000,
    ;
    Some(iv * 1000000 + fv)
}

fn duration_of(format: &Json) -> (r: u64)
    ensures
        r == duration_spec(*format),
{
    match get(format, "duration") {
        Some(Json::Number(t)) => match parse_micros(t.as_str()) {
            Some(v) => v,
            None => 0,
        },
        Some(Json::Str(t)) => match parse_micros(t.as_str()) {
            Some(v) => v,
            None => 0,
        },
        _ => 0,
    }
}

/// Bits per sample: the stream's own count when positive (as a byte, truncated), else
/// 10 or 12 when the pixel format names it, else 8.
pub open spec fn bit_depth_spec(pix_fmt: Seq<char>, bits_per_raw: Option<u64>) -> u8 {
    match bits_per_raw {
        Some(b) if b > 0 => (b % 256) as u8,
        _ => if contains_seq(pix_fmt, "10"@) {
            10
        } else if contains_seq(pix_fmt, "12"@) {
            12
        } else {
            8
        },
    }
}

/// The bit depth of a video stream.
pub fn bit_depth_of(pix_fmt: &str, bits_per_raw: Option<u64>) -> (r: u8)
    ensures
        r == bit_depth_spec(pix_fmt@, bits_per_raw),
{
    if let Some(b) = bits_per_raw {
        if b > 0 {
            return (b % 256) as u8;
        }
    }
    let p = chars_of(pix_fmt);
    if crate::text::seq_contains(&p, &chars_of("10")) {
        10
    } else if crate::text::seq_contains(&p, &chars_of("12")) {
        12
    } else {
        8
    }
}

// ---------------------------------------------------------------- streams

/// The text of an optional string, or empty.
pub open spec fn or_empty(o: Option<Seq<char>>) -> Seq<char> {
    match o {
        Some(s) => s,
        None => Seq::empty(),
    }
}

pub open spec fn opt_str(o: Option<String>) -> Option<Seq<char>> {
    match o {
        Some(s) => Some(s@),
        None => None,
    }
}

/// A stream's `codec_type`.
pub open spec fn codec_type(s: Json) -> Seq<char> {
    or_empty(str_of(s, "codec_type"@))
}

/// A stream's `index` (a number member), or 0.
pub open spec fn index_of(s: Json) -> usize {
    match jget(s, "index"@) {
        Some(Json::Number(t)) => match digits_u64(t@) {
            Some(n) => n as usize,
            None => 0,
        },
        _ => 0,
    }
}

/// Subtitle codecs that are text, not bitmaps.
pub open spec fn is_text_codec(c: Seq<char>) -> bool {
    c == "subrip"@ || c == "srt"@ || c == "ass"@ || c == "ssa"@ || c == "webvtt"@ || c == "mov_text"@
        || c == "text"@ || c == "ttml"@
}

/// The ratio read from the member `k`, when it is a string that reads as one.
pub open spec fn ratio_of(s: Json, k: Seq<char>) -> Option<Ratio> {
    match str_of(s, k) {
        Some(t) => parse_ratio_spec(t),
        None => None,
    }
}

/// Frames per second: the average rate when positive, else the base rate, else 24.
pub open spec fn fps_spec(s: Json) -> Ratio {
    match ratio_of(s, "avg_frame_rate"@) {
        Some(r) if r.num > 0 => r,
        _ => match ratio_of(s, "r_frame_rate"@) {
            Some(r) => r,
            None => Ratio { num: 24, den: 1 },
        },
    }
}

/// Sample aspect ratio: the stream's when positive, else 1:1.
pub open spec fn sar_spec(s: Json) -> Ratio {
    match ratio_of(s, "sample_aspect_ratio"@) {
        Some(r) if r.num > 0 => r,
        _ => Ratio { num: 1, den: 1 },
    }
}

/// A video stream read from its JSON object `s`.
pub open spec fn video_ok(v: VideoStream, s: Json) -> bool {
    let pix = or_empty(str_of(s, "pix_fmt"@));
    let transfer = or_empty(str_of(s, "color_transfer"@));
    &&& v.index == index_of(s)
    &&& v.codec@ == or_empty(str_of(s, "codec_name"@))
    &&& opt_str(v.profile) == str_of(s, "profile"@)
    &&& v.width == (match u64_of(s, "width"@) {
        Some(n) => n,
        None => 0,
    }) as u32
    &&& v.height == (match u64_of(s, "height"@) {
        Some(n) => n,
        None => 0,
    }) as u32
    &&& v.fps == fps_spec(s)
    &&& v.sar == sar_spec(s)
    &&& v.pix_fmt@ == pix
    &&& v.bit_depth == bit_depth_spec(pix, u64_of(s, "bits_per_raw_sample"@))
    &&& v.bitrate == u64_of(s, "bit_rate"@)
    &&& v.hdr == (transfer == "smpte2084"@ || transfer == "arib-std-b67"@)
}

/// The `rel`-th audio stream read from its JSON object `s`.
pub open spec fn audio_ok(a: AudioStream, s: Json, rel: int) -> bool {
    &&& a.index == index_of(s)
    &&& a.rel_index == rel
    &&& a.codec@ == or_empty(str_of(s, "codec_name"@))
    &&& a.channels == (match u64_of(s, "channels"@) {
        Some(n) => n,
        None => 2,
    }) as u32
    &&& opt_str(a.channel_layout) == str_of(s, "channel_layout"@)
    &&& opt_str(a.language) == tag_of(s, "language"@)
    &&& opt_str(a.title) == tag_of(s, "title"@)
    &&& a.bitrate == u64_of(s, "bit_rate"@)
    &&& a.is_default == disposition_of(s, "default"@)
}

/// The `rel`-th subtitle stream read from its JSON object `s`.
pub open spec fn subtitle_ok(t: SubtitleStream, s: Json, rel: int) -> bool {
    let codec = or_empty(str_of(s, "codec_name"@));
    &&& t.index == index_of(s)
    &&& t.rel_index == rel
    &&& t.codec@ == codec
    &&& opt_str(t.language) == tag_of(s, "language"@)
    &&& opt_str(t.title) == tag_of(s, "title"@)
    &&& t.forced == disposition_of(s, "forced"@)
    &&& t.is_default == disposition_of(s, "default"@)
    &&& t.text_based == is_text_codec(codec)
}

/// The first video stream that is not an attached picture (cover art).
pub open spec fn first_video(streams: Seq<Json>) -> Option<Json>
    decreases streams.len(),
{
    if streams.len() == 0 {
        None
    } else {
        match first_video(streams.drop_last()) {
            Some(v) => Some(v),
            None => if codec_type(streams.last()) == "video"@ && !disposition_of(streams.last(), "attached_pic"@) {
                Some(streams.last())
            } else {
                None
            },
        }
    }
}

/// The streams of one `codec_type`, in order.
pub open spec fn streams_of_type(streams: Seq<Json>, kind: Seq<char>) -> Seq<Json>
    decreases streams.len(),
{
    if streams.len() == 0 {
        Seq::empty()
    } else if codec_type(streams.last()) == kind {
        streams_of_type(streams.drop_last(), kind).push(streams.last())
    } else {
        streams_of_type(streams.drop_last(), kind)
    }
}

/// The elements of an array member, or none.
pub open spec fn array_of(v: Json, k: Seq<char>) -> Seq<Json> {
    match jget(v, k) {
        Some(Json::Array(a)) => a@,
        _ => Seq::empty(),
    }
}

/// The `format` object, or null.
pub open spec fn format_of(json: Json) -> Json {
    match jget(json, "format"@) {
        Some(f) => f,
        None => Json::Null,
    }
}

/// The number of chapters: the length of the `chapters` array, or 0.
pub open spec fn chapters_of(json: Json) -> nat {
    match jget(json, "chapters"@) {
        Some(Json::Array(a)) => a@.len(),
        _ => 0,
    }
}

/// `MediaInfo` read from ffprobe's JSON report on the file at `path`; `file_size` is
/// the size on disk, used when the report gives none.
pub open spec fn media_info_ok(m: MediaInfo, path: Seq<char>, json: Json, file_size: Option<u64>) -> bool {
    let format = format_of(json);
    let streams = array_of(json, "streams"@);
    let audio = streams_of_type(streams, "audio"@);
    let subs = streams_of_type(streams, "subtitle"@);
    &&& m.path@ == path
    &&& m.size_bytes == (match u64_of(format, "size"@) {
        Some(n) => n,
        None => match file_size {
            Some(n) => n,
            None => 0,
        },
    })
    &&& m.duration_us == duration_spec(format)
    &&& m.container@ == or_empty(str_of(format, "format_name"@))
    &&& m.bitrate == u64_of(format, "bit_rate"@)
    &&& (match first_video(streams) {
        Some(s) => m.video matches Some(v) && video_ok(v, s),
        None => m.video is None,
    })
    &&& m.audio@.len() == audio.len()
    &&& (forall|i: int| 0 <= i < audio.len() ==> audio_ok(#[trigger] m.audio@[i], audio[i], i))
    &&& m.subtitles@.len() == subs.len()
    &&& (forall|i: int| 0 <= i < subs.len() ==> subtitle_ok(#[trigger] m.subtitles@[i], subs[i], i))
    &&& m.chapters == chapters_of(json)
}

fn or_empty_exec(o: Option<String>) -> (r: String)
    ensures
        r@ == or_empty(opt_str(o)),
{
    match o {
        Some(s) => s,
        None => String::new(),
    }
}

fn is_text_codec_exec(c: &str) -> (r: bool)
    ensures
        r == is_text_codec(c@),
{
    let v = chars_of(c);
    is_lit(&v, "subrip") || is_lit(&v, "srt") || is_lit(&v, "ass") || is_lit(&v, "ssa") || is_lit(&v, "webvtt")
        || is_lit(&v, "mov_text") || is_lit(&v, "text") || is_lit(&v, "ttml")
}

fn index_exec(s: &Json) -> (r: usize)
    ensures
        r == index_of(*s),
{
    match get(s, "index") {
        Some(Json::Number(t)) => {
            let c = chars_of(t.as_str());
            assert(c@.skip(0) =~= c@);
            match digits_u64_exec(&c, 0) {
                Some(n) => n as usize,
                None => 0,
            }
        },
        _ => 0,
    }
}

fn ratio_member(s: &Json, k: &str) -> (r: Option<Ratio>)
    ensures
        r == ratio_of(*s, k@),
{
    match str_member(s, k) {
        Some(t) => parse_ratio(t.as_str()),
        None => None,
    }
}

fn codec_type_is(s: &Json, kind: &str) -> (r: bool)
    ensures
        r == (codec_type(*s) == kind@),
{
    let t = or_empty_exec(str_member(s, "codec_type"));
    crate::text::str_eq(t.as_str(), kind)
}

fn read_video(s: &Json) -> (v: VideoStream)
    ensures
        video_ok(v, *s),
{
    let avg = ratio_member(s, "avg_frame_rate");
    let fps = match avg {
        Some(r) if r.num > 0 => r,
        _ => match ratio_member(s, "r_frame_rate") {
            Some(r) => r,
            None => Ratio { num: 24, den: 1 },
        },
    };
    let sar = match ratio_member(s, "sample_aspect_ratio") {
        Some(r) if r.num > 0 => r,
        _ => Ratio { num: 1, den: 1 },
    };
    let pix_fmt = or_empty_exec(str_member(s, "pix_fmt"));
    let transfer = or_empty_exec(str_member(s, "color_transfer"));
    let width: u64 = match u64_member(s, "width") {
        Some(n) => n,
        None => 0,
    };
    let height: u64 = match u64_member(s, "height") {
        Some(n) => n,
        None => 0,
    };
    let bit_depth = bit_depth_of(pix_fmt.as_str(), u64_member(s, "bits_per_raw_sample"));
    let hdr = crate::text::str_eq(transfer.as_str(), "smpte2084") || crate::text::str_eq(
        transfer.as_str(),
        "arib-std-b67",
    );
    VideoStream {
        index: index_exec(s),
        codec: or_empty_exec(str_member(s, "codec_name")),
        profile: str_member(s, "profile"),
        width: width as u32,
        height: height as u32,
        fps,
        sar,
        pix_fmt,
        bit_depth,
        bitrate: u64_member(s, "bit_rate"),
        hdr,
    }
}

fn read_audio(s: &Json, rel: usize) -> (a: AudioStream)
    ensures
        audio_ok(a, *s, rel as int),
{
    let channels: u64 = match u64_member(s, "channels") {
        Some(n) => n,
        None => 2,
    };
    AudioStream {
        index: index_exec(s),
        rel_index: rel,
        codec: or_empty_exec(str_member(s, "codec_name")),
        channels: channels as u32,
        channel_layout: str_member(s, "channel_layout"),
        language: tag_member(s, "language"),
        title: tag_member(s, "title"),
        bitrate: u64_member(s, "bit_rate"),
        is_default: disposition_member(s, "default"),
    }
}

fn read_subtitle(s: &Json, rel: usize) -> (t: SubtitleStream)
    ensures
        subtitle_ok(t, *s, rel as int),
{
    let codec = or_empty_exec(str_member(s, "codec_name"));
    let text_based = is_text_codec_exec(codec.as_str());
    SubtitleStream {
        index: index_exec(s),
        rel_index: rel,
        codec,
        language: tag_member(s, "language"),
        title: tag_member(s, "title"),
        forced: disposition_member(s, "forced"),
        is_default: disposition_member(s, "default"),
        text_based,
    }
}

/// Reads ffprobe's JSON report (`-show_format -show_streams -show_chapters`) on the
/// file at `path`; `file_size` is the size on disk, used when the report gives none.
pub fn parse_ffprobe_json(path: &str, json: &Json, file_size: Option<u64>) -> (r: MediaInfo)
    ensures
        media_info_ok(r, path@, *json, file_size),
{
    let null = Json::Null;
    let format: &Json = match get(json, "format") {
        Some(f) => f,
        None => &null,
    };
    let empty: Vec<Json> = Vec::new();
    let streams: &Vec<Json> = match get(json, "streams") {
        Some(Json::Array(a)) => a,
        _ => &empty,
    };
    assert(streams@ == array_of(*json, "streams"@));
    let mut video: Option<VideoStream> = None;
    let mut audio: Vec<AudioStream> = Vec::new();
    let mut subtitles: Vec<SubtitleStream> = Vec::new();
    let mut i: usize = 0;
    while i < streams.len()
        invariant
            i <= streams@.len(),
            match first_video(streams@.take(i as int)) {
                Some(s) => video matches Some(v) && video_ok(v, s),
                None => video is None,
            },
            audio@.len() == streams_of_type(streams@.take(i as int), "audio"@).len(),
            forall|j: int|
                0 <= j < audio@.len() ==> audio_ok(
                    #[trigger] audio@[j],
                    streams_of_type(streams@.take(i as int), "audio"@)[j],
                    j,
                ),
            subtitles@.len() == streams_of_type(streams@.take(i as int), "subtitle"@).len(),
            forall|j: int|
                0 <= j < subtitles@.len() ==> subtitle_ok(
                    #[trigger] subtitles@[j],
                    streams_of_type(streams@.take(i as int), "subtitle"@)[j],
                    j,
                ),
        decreases streams@.len() - i,
    {
        let s = &streams[i];
        let ghost pre = streams@.take(i as int);
        let ghost post = streams@.take(i + 1);
        proof {
            assert(post.drop_last() =~= pre);
            assert(post.last() == *s);
        }
        if codec_type_is(s, "video") {
            if video.is_none() && !disposition_member(s, "attached_pic") {
                video = Some(read_video(s));
            }
            proof {
                reveal_strlit("video");
                reveal_strlit("audio");
                reveal_strlit("subtitle");
                assert("video"@[0] != "audio"@[0]);
                assert("video"@.len() != "subtitle"@.len());
                assert(streams_of_type(post, "audio"@) == streams_of_type(pre, "audio"@));
                assert(streams_of_type(post, "subtitle"@) == streams_of_type(pre, "subtitle"@));
            }
        } else if codec_type_is(s, "audio") {
            let ghost before = audio@;
            let a = read_audio(s, audio.len());
            audio.push(a);
            proof {
                reveal_strlit("video");
                reveal_strlit("audio");
                reveal_strlit("subtitle");
                assert("audio"@.len() != "subtitle"@.len());
                assert(streams_of_type(post, "audio"@) == streams_of_type(pre, "audio"@).push(*s));
                assert(streams_of_type(post, "subtitle"@) == streams_of_type(pre, "subtitle"@));
                assert forall|j: int| 0 <= j < audio@.len() implies audio_ok(
                    #[trigger] audio@[j],
                    streams_of_type(post, "audio"@)[j],
                    j,
                ) by {
                    if j < before.len() {
                        assert(audio@[j] == before[j]);
                    }
                }
            }
        } else if codec_type_is(s, "subtitle") {
            let ghost before = subtitles@;
            let t = read_subtitle(s, subtitles.len());
            subtitles.push(t);
            proof {
                reveal_strlit("video");
                reveal_strlit("audio");
                reveal_strlit("subtitle");
                assert("audio"@.len() != "subtitle"@.len());
                assert(streams_of_type(post, "subtitle"@) == streams_of_type(pre, "subtitle"@).push(*s));
                assert(streams_of_type(post, "audio"@) == streams_of_type(pre, "audio"@));
                assert forall|j: int| 0 <= j < subtitles@.len() implies subtitle_ok(
                    #[trigger] subtitles@[j],
                    streams_of_type(post, "subtitle"@)[j],
                    j,
                ) by {
                    if j < before.len() {
                        assert(subtitles@[j] == before[j]);
                    }
                }
            }
        } else {
            proof {
                assert(streams_of_type(post, "audio"@) == streams_of_type(pre, "audio"@));
                assert(streams_of_type(post, "subtitle"@) == streams_of_type(pre, "subtitle"@));
            }
        }
        i = i + 1;
    }
    proof {
        assert(streams@.take(streams@.len() as int) =~= streams@);
    }
    let size_bytes = match u64_member(format, "size") {
        Some(n) => n,
        None => match file_size {
            Some(n) => n,
            None => 0,
        },
    };
    let chapters: usize = match get(json, "chapters") {
        Some(Json::Array(a)) => a.len(),
        _ => 0,
    };
    MediaInfo {
        path: crate::text::owned(path),
        size_bytes,
        duration_us: duration_of(format),
        container: or_empty_exec(str_member(format, "format_name")),
        bitrate: u64_member(format, "bit_rate"),
        video,
        audio,
        subtitles,
        chapters,
    }
}

/// Why a probed file cannot be queued.
#[derive(Clone, Copy, Debug, PartialEq, Eq, Structural)]
pub enum ProbeError {
    /// The report is not JSON.
    BadReport,
    /// The report lists no video stream.
    NoVideo,
}

impl ProbeError {
    /// The message shown to the user.
    pub fn message(self) -> (r: &'static str)
        ensures
            self == ProbeError::BadReport ==> r@ == "parsing ffprobe json"@,
            self == ProbeError::NoVideo ==> r@ == "no video stream found"@,
    {
        match self {
            ProbeError::BadReport => "parsing ffprobe json",
            ProbeError::NoVideo => "no video stream found",
        }
    }
}

/// A probed file is accepted only when it has a video stream.
pub fn check_probe(info: MediaInfo) -> (r: Result<MediaInfo, ProbeError>)
    ensures
        match r {
            Ok(m) => m == info && info.video is Some,
            Err(e) => e == ProbeError::NoVideo && info.video is None,
        },
{
    if info.video.is_none() {
        Err(ProbeError::NoVideo)
    } else {
        Ok(info)
    }
}

/// What a probe run yields from ffprobe's report, given as parsed JSON (none when
/// the output was not JSON): the media info of a file with a video stream, else
/// the reason it cannot be queued.
pub fn probe_report(path: &str, report: Option<Json>, file_size: Option<u64>) -> (r: Result<MediaInfo, ProbeError>)
    ensures
        match report {
            None => r == Err::<MediaInfo, ProbeError>(ProbeError::BadReport),
            Some(j) => match r {
                Ok(m) => media_info_ok(m, path@, j, file_size) && first_video(array_of(j, "streams"@)) is Some,
                Err(e) => e == ProbeError::NoVideo && first_video(array_of(j, "streams"@)) is None,
            },
        },
{
    match report {
        None => Err(ProbeError::BadReport),
        Some(j) => check_probe(parse_ffprobe_json(path, &j, file_size)),
    }
}

/// Law: the audio and the subtitle streams are numbered by their position among the
/// report's streams of their kind (what `-map 0:a:N` and `-map 0:s:N` count),
/// whatever their `index` member says.
pub proof fn law_streams_numbered_by_kind(m: MediaInfo, path: Seq<char>, json: Json, file_size: Option<u64>)
    requires
        media_info_ok(m, path, json, file_size),
    ensures
        forall|i: int| 0 <= i < m.audio@.len() ==> #[trigger] m.audio@[i].rel_index == i,
        forall|i: int| 0 <= i < m.subtitles@.len() ==> #[trigger] m.subtitles@[i].rel_index == i,
{
    let streams = array_of(json, "streams"@);
    let audio = streams_of_type(streams, "audio"@);
    let subs = streams_of_type(streams, "subtitle"@);
    assert forall|i: int| 0 <= i < m.audio@.len() implies #[trigger] m.audio@[i].rel_index == i by {
        assert(audio_ok(m.audio@[i], audio[i], i));
    }
    assert forall|i: int| 0 <= i < m.subtitles@.len() implies #[trigger] m.subtitles@[i].rel_index == i by {
        assert(subtitle_ok(m.subtitles@[i], subs[i], i));
    }
}

} // verus!
