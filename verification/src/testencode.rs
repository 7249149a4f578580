//! The test encode and the benchmark: which part of the file they encode, and the
//! still frames shown for comparison.
use vstd::prelude::*;
use base64::Engine;

verus! {

/// The character for a six-bit value in the standard base64 alphabet
/// (`A`-`Z`, `a`-`z`, `0`-`9`, `+`, `/`).
pub open spec fn b64_char(v: int) -> char {
    if v < 26 {
        (65 + v) as char
    } else if v < 52 {
        (97 + v - 26) as char
    } else if v < 62 {
        (48 + v - 52) as char
    } else if v == 62 {
        '+'
    } else {
        '/'
    }
}

/// One group of one to three bytes as four characters, `=` standing for the
/// characters of missing bytes.
pub open spec fn b64_group(b: Seq<u8>) -> Seq<char> {
    let b1: int = if b.len() > 1 {
        b[1] as int
    } else {
        0
    };
    let b2: int = if b.len() > 2 {
        b[2] as int
    } else {
        0
    };
    let n: int = (b[0] as int) * 65536 + b1 * 256 + b2;
    seq![
        b64_char(n / 262144),
        b64_char((n / 4096) % 64),
        if b.len() > 1 {
            b64_char((n / 64) % 64)
        } else {
            '='
        },
        if b.len() > 2 {
            b64_char(n % 64)
        } else {
            '='
        },
    ]
}

/// The standard (RFC 4648, padded) base64 text of `bytes`: each group of three
/// bytes, the last one possibly shorter, as four characters.
pub open spec fn base64_standard(bytes: Seq<u8>) -> Seq<char>
    decreases bytes.len(),
{
    if bytes.len() == 0 {
        Seq::<char>::empty()
    } else if bytes.len() <= 3 {
        b64_group(bytes)
    } else {
        b64_group(bytes.take(3)) + base64_standard(bytes.skip(3))
    }
}

/// `base64::engine::general_purpose::STANDARD.encode(bytes)`: the standard padded
/// base64 text of the bytes, four characters per started group of three bytes.
/// The source panics when that length overflows `usize`, which the bound here rules
/// out.
#[verifier::external_body]
fn encode_base64(bytes: &[u8]) -> (r: String)
    requires
        bytes@.len() <= usize::MAX / 2,
    ensures
        r@ == base64_standard(bytes@),
        r@.len() == 4 * ((bytes@.len() + 2) / 3),
{
    base64::engine::general_purpose::STANDARD.encode(bytes)
}

/// A still frame grabbed by ffmpeg, as base64 JPEG data: none when ffmpeg failed or
/// wrote nothing.
pub fn frame_b64(success: bool, jpeg: &[u8]) -> (r: Option<String>)
    requires
        jpeg@.len() <= usize::MAX / 2,
    ensures
        match r {
            Some(s) => success && jpeg@.len() > 0 && s@ == base64_standard(jpeg@),
            None => !success || jpeg@.len() == 0,
        },
{
    if !success || jpeg.len() == 0 {
        return None;
    }
    Some(encode_base64(jpeg))
}

/// Length of the test clip, in milliseconds.
pub open spec fn clip_ms() -> nat {
    30000
}

pub open spec fn min_nat(a: nat, b: nat) -> nat {
    if a < b {
        a
    } else {
        b
    }
}

pub open spec fn max_int(a: int, b: int) -> int {
    if a > b {
        a
    } else {
        b
    }
}

/// The part of a file of `dur_ms` milliseconds that a clip of at most `len_ms`
/// encodes: the clip lasts `len_ms`, or the whole file when shorter (at least one
/// second); it starts at `start_ms` when given, else centred, kept within the file.
pub open spec fn clip_window(dur_ms: nat, len_ms: nat, start_ms: Option<int>) -> (nat, nat) {
    let clip = min_nat(len_ms, if dur_ms > 1000 {
        dur_ms
    } else {
        1000
    });
    let latest = max_int(dur_ms - clip, 0);
    let wanted = match start_ms {
        Some(s) => s,
        None => max_int(dur_ms / 2 - clip / 2, 0),
    };
    let start = if wanted < 0 {
        0
    } else if wanted > latest {
        latest
    } else {
        wanted
    };
    (start as nat, clip)
}

fn window(dur_ms: u64, len_ms: u64, start_ms: Option<i64>) -> (r: (u64, u64))
    requires
        len_ms <= 30000,
    ensures
        (r.0 as nat, r.1 as nat) == clip_window(
            dur_ms as nat,
            len_ms as nat,
            match start_ms {
                Some(s) => Some(s as int),
                None => None,
            },
        ),
{
    let longest: u64 = if dur_ms > 1000 {
        dur_ms
    } else {
        1000
    };
    let clip: u64 = if len_ms < longest {
        len_ms
    } else {
        longest
    };
    let latest: u64 = if dur_ms > clip {
        dur_ms - clip
    } else {
        0
    };
    let start: u64 = match start_ms {
        Some(s) => if s < 0 {
            0
        } else if s as u64 > latest {
            latest
        } else {
            s as u64
        },
        None => {
            let w: u64 = if dur_ms / 2 > clip / 2 {
                dur_ms / 2 - clip / 2
            } else {
                0
            };
            if w > latest {
                latest
            } else {
                w
            }
        },
    };
    (start, clip)
}

/// The 30-second test clip of a file of `duration_us` microseconds, as (start, length)
/// in milliseconds; `start_ms` is the start the user asked for.
pub fn test_clip(duration_us: u64, start_ms: Option<i64>) -> (r: (u64, u64))
    ensures
        (r.0 as nat, r.1 as nat) == clip_window(
            (duration_us / 1000) as nat,
            clip_ms(),
            match start_ms {
                Some(s) => Some(s as int),
                None => None,
            },
        ),
{
    window(duration_us / 1000, 30000, start_ms)
}

/// The 15-second benchmark clip, centred, as (start, length) in milliseconds.
pub fn bench_clip(duration_us: u64) -> (r: (u64, u64))
    ensures
        (r.0 as nat, r.1 as nat) == clip_window((duration_us / 1000) as nat, 15000, None),
{
    window(duration_us / 1000, 15000, None)
}

/// The benchmark runs 1, 2, … up to this many encoders at once: the request kept
/// within 1..=4.
pub fn bench_rounds(max_jobs: u32) -> (r: u32)
    ensures
        r == (if max_jobs < 1 {
            1
        } else if max_jobs > 4 {
            4
        } else {
            max_jobs
        }),
{
    if max_jobs < 1 {
        1
    } else if max_jobs > 4 {
        4
    } else {
        max_jobs
    }
}

/// Law: the clip lies within the file (or starts at 0 when the file is shorter than
/// the clip), and is never longer than asked.
pub proof fn law_clip_within_file(dur_ms: nat, len_ms: nat, start_ms: Option<int>)
    requires
        len_ms >= 1000,
    ensures
        clip_window(dur_ms, len_ms, start_ms).1 <= len_ms,
        clip_window(dur_ms, len_ms, start_ms).1 >= 1000 || clip_window(dur_ms, len_ms, start_ms).1 == len_ms,
        dur_ms >= clip_window(dur_ms, len_ms, start_ms).1 ==> clip_window(dur_ms, len_ms, start_ms).0 + clip_window(
            dur_ms,
            len_ms,
            start_ms,
        ).1 <= dur_ms,
        dur_ms < clip_window(dur_ms, len_ms, start_ms).1 ==> clip_window(dur_ms, len_ms, start_ms).0 == 0,
{
}

} // verus!
