//! Black-bar detection: read ffmpeg's cropdetect reports, keep the most conservative crop.
use vstd::prelude::*;
use crate::models::Crop;
use crate::text::chars_of;

verus! {

pub open spec fn is_digit(c: char) -> bool {
    '0' <= c && c <= '9'
}

/// Decimal digits of Unicode (category Nd) beyond ASCII, by code point.
pub open spec fn nd_beyond_ascii(u: u32) -> bool {
    ||| 0x660 <= u <= 0x669
    ||| 0x6f0 <= u <= 0x6f9
    ||| 0x7c0 <= u <= 0x7c9
    ||| 0x966 <= u <= 0x96f
    ||| 0x9e6 <= u <= 0x9ef
    ||| 0xa66 <= u <= 0xa6f
    ||| 0xae6 <= u <= 0xaef
    ||| 0xb66 <= u <= 0xb6f
    ||| 0xbe6 <= u <= 0xbef
    ||| 0xc66 <= u <= 0xc6f
    ||| 0xce6 <= u <= 0xcef
    ||| 0xd66 <= u <= 0xd6f
    ||| 0xde6 <= u <= 0xdef
    ||| 0xe50 <= u <= 0xe59
    ||| 0xed0 <= u <= 0xed9
    ||| 0xf20 <= u <= 0xf29
    ||| 0x1040 <= u <= 0x1049
    ||| 0x1090 <= u <= 0x1099
    ||| 0x17e0 <= u <= 0x17e9
    ||| 0x1810 <= u <= 0x1819
    ||| 0x1946 <= u <= 0x194f
    ||| 0x19d0 <= u <= 0x19d9
    ||| 0x1a80 <= u <= 0x1a89
    ||| 0x1a90 <= u <= 0x1a99
    ||| 0x1b50 <= u <= 0x1b59
    ||| 0x1bb0 <= u <= 0x1bb9
    ||| 0x1c40 <= u <= 0x1c49
    ||| 0x1c50 <= u <= 0x1c59
    ||| 0xa620 <= u <= 0xa629
    ||| 0xa8d0 <= u <= 0xa8d9
    ||| 0xa900 <= u <= 0xa909
    ||| 0xa9d0 <= u <= 0xa9d9
    ||| 0xa9f0 <= u <= 0xa9f9
    ||| 0xaa50 <= u <= 0xaa59
    ||| 0xabf0 <= u <= 0xabf9
    ||| 0xff10 <= u <= 0xff19
    ||| 0x104a0 <= u <= 0x104a9
    ||| 0x10d30 <= u <= 0x10d39
    ||| 0x10d40 <= u <= 0x10d49
    ||| 0x11066 <= u <= 0x1106f
    ||| 0x110f0 <= u <= 0x110f9
    ||| 0x11136 <= u <= 0x1113f
    ||| 0x111d0 <= u <= 0x111d9
    ||| 0x112f0 <= u <= 0x112f9
    ||| 0x11450 <= u <= 0x11459
    ||| 0x114d0 <= u <= 0x114d9
    ||| 0x11650 <= u <= 0x11659
    ||| 0x116c0 <= u <= 0x116c9
    ||| 0x116d0 <= u <= 0x116e3
    ||| 0x11730 <= u <= 0x11739
    ||| 0x118e0 <= u <= 0x118e9
    ||| 0x11950 <= u <= 0x11959
    ||| 0x11bf0 <= u <= 0x11bf9
    ||| 0x11c50 <= u <= 0x11c59
    ||| 0x11d50 <= u <= 0x11d59
    ||| 0x11da0 <= u <= 0x11da9
    ||| 0x11f50 <= u <= 0x11f59
    ||| 0x16130 <= u <= 0x16139
    ||| 0x16a60 <= u <= 0x16a69
    ||| 0x16ac0 <= u <= 0x16ac9
    ||| 0x16b50 <= u <= 0x16b59
    ||| 0x16d70 <= u <= 0x16d79
    ||| 0x1ccf0 <= u <= 0x1ccf9
    ||| 0x1d7ce <= u <= 0x1d7ff
    ||| 0x1e140 <= u <= 0x1e149
    ||| 0x1e2f0 <= u <= 0x1e2f9
    ||| 0x1e4f0 <= u <= 0x1e4f9
    ||| 0x1e5f1 <= u <= 0x1e5fa
    ||| 0x1e950 <= u <= 0x1e959
    ||| 0x1fbf0 <= u <= 0x1fbf9
}

/// What a pattern's `\d` matches: a Unicode decimal digit.
pub open spec fn is_dec_digit(c: char) -> bool {
    is_digit(c) || nd_beyond_ascii(c as u32)
}

pub(crate) fn is_dec_digit_exec(c: char) -> (r: bool)
    ensures
        r == is_dec_digit(c),
{
    let u = c as u32;
    ('0' <= c && c <= '9') || (0x660 <= u && u <= 0x669) ||
        (0x6f0 <= u && u <= 0x6f9) ||
        (0x7c0 <= u && u <= 0x7c9) ||
        (0x966 <= u && u <= 0x96f) ||
        (0x9e6 <= u && u <= 0x9ef) ||
        (0xa66 <= u && u <= 0xa6f) ||
        (0xae6 <= u && u <= 0xaef) ||
        (0xb66 <= u && u <= 0xb6f) ||
        (0xbe6 <= u && u <= 0xbef) ||
        (0xc66 <= u && u <= 0xc6f) ||
        (0xce6 <= u && u <= 0xcef) ||
        (0xd66 <= u && u <= 0xd6f) ||
        (0xde6 <= u && u <= 0xdef) ||
        (0xe50 <= u && u <= 0xe59) ||
        (0xed0 <= u && u <= 0xed9) ||
        (0xf20 <= u && u <= 0xf29) ||
        (0x1040 <= u && u <= 0x1049) ||
        (0x1090 <= u && u <= 0x1099) ||
        (0x17e0 <= u && u <= 0x17e9) ||
        (0x1810 <= u && u <= 0x1819) ||
        (0x1946 <= u && u <= 0x194f) ||
        (0x19d0 <= u && u <= 0x19d9) ||
        (0x1a80 <= u && u <= 0x1a89) ||
        (0x1a90 <= u && u <= 0x1a99) ||
        (0x1b50 <= u && u <= 0x1b59) ||
        (0x1bb0 <= u && u <= 0x1bb9) ||
        (0x1c40 <= u && u <= 0x1c49) ||
        (0x1c50 <= u && u <= 0x1c59) ||
        (0xa620 <= u && u <= 0xa629) ||
        (0xa8d0 <= u && u <= 0xa8d9) ||
        (0xa900 <= u && u <= 0xa909) ||
        (0xa9d0 <= u && u <= 0xa9d9) ||
        (0xa9f0 <= u && u <= 0xa9f9) ||
        (0xaa50 <= u && u <= 0xaa59) ||
        (0xabf0 <= u && u <= 0xabf9) ||
        (0xff10 <= u && u <= 0xff19) ||
        (0x104a0 <= u && u <= 0x104a9) ||
        (0x10d30 <= u && u <= 0x10d39) ||
        (0x10d40 <= u && u <= 0x10d49) ||
        (0x11066 <= u && u <= 0x1106f) ||
        (0x110f0 <= u && u <= 0x110f9) ||
        (0x11136 <= u && u <= 0x1113f) ||
        (0x111d0 <= u && u <= 0x111d9) ||
        (0x112f0 <= u && u <= 0x112f9) ||
        (0x11450 <= u && u <= 0x11459) ||
        (0x114d0 <= u && u <= 0x114d9) ||
        (0x11650 <= u && u <= 0x11659) ||
        (0x116c0 <= u && u <= 0x116c9) ||
        (0x116d0 <= u && u <= 0x116e3) ||
        (0x11730 <= u && u <= 0x11739) ||
        (0x118e0 <= u && u <= 0x118e9) ||
        (0x11950 <= u && u <= 0x11959) ||
        (0x11bf0 <= u && u <= 0x11bf9) ||
        (0x11c50 <= u && u <= 0x11c59) ||
        (0x11d50 <= u && u <= 0x11d59) ||
        (0x11da0 <= u && u <= 0x11da9) ||
        (0x11f50 <= u && u <= 0x11f59) ||
        (0x16130 <= u && u <= 0x16139) ||
        (0x16a60 <= u && u <= 0x16a69) ||
        (0x16ac0 <= u && u <= 0x16ac9) ||
        (0x16b50 <= u && u <= 0x16b59) ||
        (0x16d70 <= u && u <= 0x16d79) ||
        (0x1ccf0 <= u && u <= 0x1ccf9) ||
        (0x1d7ce <= u && u <= 0x1d7ff) ||
        (0x1e140 <= u && u <= 0x1e149) ||
        (0x1e2f0 <= u && u <= 0x1e2f9) ||
        (0x1e4f0 <= u && u <= 0x1e4f9) ||
        (0x1e5f1 <= u && u <= 0x1e5fa) ||
        (0x1e950 <= u && u <= 0x1e959) ||
        (0x1fbf0 <= u && u <= 0x1fbf9)
}

/// Length of the run of Unicode decimal digits starting at `i`.
pub open spec fn dec_run(s: Seq<char>, i: int) -> nat
    decreases s.len() - i,
{
    if 0 <= i < s.len() && is_dec_digit(s[i]) {
        1 + dec_run(s, i + 1)
    } else {
        0
    }
}

pub(crate) proof fn lemma_dec_run_bound(s: Seq<char>, i: int)
    ensures
        0 <= i <= s.len() ==> i + dec_run(s, i) <= s.len(),
        forall|j: int| i <= j < i + dec_run(s, i) ==> is_dec_digit(#[trigger] s[j]),
        0 <= i && i + dec_run(s, i) < s.len() ==> !is_dec_digit(s[i + dec_run(s, i)]),
    decreases s.len() - i,
{
    if 0 <= i < s.len() && is_dec_digit(s[i]) {
        lemma_dec_run_bound(s, i + 1);
    }
}

/// A run of decimal digits splits after any of its first `n` digits.
pub(crate) proof fn lemma_dec_run_split(s: Seq<char>, k: int, n: nat)
    requires
        0 <= k,
        n <= dec_run(s, k),
    ensures
        dec_run(s, k) == n + dec_run(s, k + n),
    decreases n,
{
    if n > 0 {
        lemma_dec_run_split(s, k + 1, (n - 1) as nat);
    }
}

pub(crate) fn dec_run_exec(s: &[char], i: usize) -> (r: usize)
    requires
        i <= s@.len(),
    ensures
        r == dec_run(s@, i as int),
        i + r <= s@.len(),
{
    proof {
        lemma_dec_run_bound(s@, i as int);
    }
    let mut j: usize = i;
    while j < s.len() && is_dec_digit_exec(s[j])
        invariant
            i <= j <= s@.len(),
            dec_run(s@, i as int) == (j - i) + dec_run(s@, j as int),
        decreases s@.len() - j,
    {
        j = j + 1;
    }
    j - i
}

/// All characters are ASCII digits.
pub open spec fn all_ascii_digits(d: Seq<char>) -> bool {
    forall|i: int| 0 <= i < d.len() ==> is_digit(#[trigger] d[i])
}

/// Length of the run of ASCII digits starting at `i`.
pub open spec fn digit_run(s: Seq<char>, i: int) -> nat
    decreases s.len() - i,
{
    if 0 <= i < s.len() && is_digit(s[i]) {
        1 + digit_run(s, i + 1)
    } else {
        0
    }
}

/// The number written by a string of ASCII digits.
pub open spec fn digits_value(d: Seq<char>) -> nat
    decreases d.len(),
{
    if d.len() == 0 {
        0
    } else {
        digits_value(d.drop_last()) * 10 + ((d.last() as u32) - 48) as nat
    }
}

/// The run of decimal digits starting at `i`.
pub open spec fn run_at(s: Seq<char>, i: int) -> Seq<char> {
    s.subrange(i, i + dec_run(s, i))
}

/// Start of the k-th number (k = 0..3) of a `crop=W:H:X:Y` report beginning at `p`.
pub open spec fn group_start(s: Seq<char>, p: int, k: nat) -> int
    decreases k,
{
    if k == 0 {
        p + 5
    } else {
        group_start(s, p, (k - 1) as nat) + dec_run(s, group_start(s, p, (k - 1) as nat)) + 1
    }
}

/// The k-th number of the report at `p` is followed by ':'.
pub open spec fn colon_after(s: Seq<char>, p: int, k: nat) -> bool {
    let e = group_start(s, p, k) + dec_run(s, group_start(s, p, k));
    e < s.len() && s[e] == ':'
}

/// A `crop=D+:D+:D+:D+` report begins at position `p` (D a Unicode decimal digit).
pub open spec fn crop_match_at(s: Seq<char>, p: int) -> bool {
    &&& 0 <= p
    &&& p + 5 <= s.len()
    &&& s.subrange(p, p + 5) == "crop="@
    &&& forall|k: nat| k < 4 ==> dec_run(s, #[trigger] group_start(s, p, k)) >= 1
    &&& forall|k: nat| k < 3 ==> #[trigger] colon_after(s, p, k)
}

/// The last report that begins before position `k`.
pub open spec fn last_match(s: Seq<char>, k: int) -> Option<int>
    decreases k,
{
    if k <= 0 {
        None
    } else if crop_match_at(s, k - 1) {
        Some(k - 1)
    } else {
        last_match(s, k - 1)
    }
}

/// The value of the k-th number of the report at `p`, when it is written in ASCII
/// digits and fits a `u32` (what `str::parse` accepts).
pub open spec fn group_value(s: Seq<char>, p: int, k: nat) -> Option<u32> {
    let d = run_at(s, group_start(s, p, k));
    let v = digits_value(d);
    if all_ascii_digits(d) && v <= u32::MAX {
        Some(v as u32)
    } else {
        None
    }
}

/// The crop of the last report in `text` (cropdetect converges over the frames of a
/// sample); none when there is no report or one of its numbers does not parse.
pub open spec fn parse_crop_spec(text: Seq<char>) -> Option<Crop> {
    match last_match(text, text.len() as int) {
        None => None,
        Some(p) => match (
            group_value(text, p, 0),
            group_value(text, p, 1),
            group_value(text, p, 2),
            group_value(text, p, 3),
        ) {
            (Some(w), Some(h), Some(x), Some(y)) => Some(Crop { w, h, x, y }),
            _ => None,
        },
    }
}

pub(crate) proof fn lemma_digit_run_bound(s: Seq<char>, i: int)
    ensures
        0 <= i <= s.len() ==> i + digit_run(s, i) <= s.len(),
        forall|j: int| i <= j < i + digit_run(s, i) ==> is_digit(#[trigger] s[j]),
        0 <= i && i + digit_run(s, i) < s.len() ==> !is_digit(s[i + digit_run(s, i)]),
    decreases s.len() - i,
{
    if 0 <= i < s.len() && is_digit(s[i]) {
        lemma_digit_run_bound(s, i + 1);
    }
}

/// A digit run splits after any of its first `n` digits.
pub(crate) proof fn lemma_digit_run_split(s: Seq<char>, k: int, n: nat)
    requires
        0 <= k,
        n <= digit_run(s, k),
    ensures
        digit_run(s, k) == n + digit_run(s, k + n),
    decreases n,
{
    if n > 0 {
        lemma_digit_run_split(s, k + 1, (n - 1) as nat);
    }
}

pub(crate) fn digit_run_exec(s: &[char], i: usize) -> (r: usize)
    requires
        i <= s@.len(),
    ensures
        r == digit_run(s@, i as int),
        i + r <= s@.len(),
{
    proof {
        lemma_digit_run_bound(s@, i as int);
    }
    let mut j: usize = i;
    while j < s.len() && '0' <= s[j] && s[j] <= '9'
        invariant
            i <= j <= s@.len(),
            digit_run(s@, i as int) == (j - i) + digit_run(s@, j as int),
        decreases s@.len() - j,
    {
        j = j + 1;
    }
    j - i
}

/// The value of a digit run, when it fits a `u32`.
fn ascii_digits_exec(s: &[char], start: usize, len: usize) -> (r: bool)
    requires
        start + len <= s@.len(),
    ensures
        r == all_ascii_digits(s@.subrange(start as int, start + len)),
{
    let ghost d = s@.subrange(start as int, start + len);
    let sl = s.len();
    let mut k: usize = 0;
    while k < len
        invariant
            k <= len,
            sl == s@.len(),
            start + len <= s@.len(),
            d == s@.subrange(start as int, start + len),
            forall|i: int| 0 <= i < k ==> is_digit(#[trigger] d[i]),
        decreases len - k,
    {
        let c = s[start + k];
        assert(d[k as int] == c);
        if !('0' <= c && c <= '9') {
            return false;
        }
        k = k + 1;
    }
    true
}

fn digits_to_u32(s: &[char], start: usize, len: usize) -> (r: Option<u32>)
    requires
        start + len <= s@.len(),
        forall|j: int| start <= j < start + len ==> is_digit(#[trigger] s@[j]),
    ensures
        match r {
            Some(v) => digits_value(s@.subrange(start as int, start + len)) == v,
            None => digits_value(s@.subrange(start as int, start + len)) > u32::MAX,
        },
{
    let mut v: u64 = 0;
    let mut k: usize = 0;
    let mut over = false;
    let sl = s.len();
    while k < len
        invariant
            k <= len,
            sl == s@.len(),
            start + len <= s@.len(),
            forall|j: int| start <= j < start + len ==> is_digit(#[trigger] s@[j]),
            !over ==> v == digits_value(s@.subrange(start as int, start + k)) && v <= u32::MAX,
            over ==> digits_value(s@.subrange(start as int, start + k)) > u32::MAX,
        decreases len - k,
    {
        let c = s[start + k];
        let d = (c as u32 - 48) as u64;
        let ghost pre = s@.subrange(start as int, start + k);
        proof {
            assert(s@.subrange(start as int, start + k + 1).drop_last() =~= pre);
            assert(s@.subrange(start as int, start + k + 1).last() == c);
            assert(is_digit(s@[start + k]));
        }
        if !over {
            let nv = v * 10 + d;
            if nv > 4294967295 {
                over = true;
            } else {
                v = nv;
            }
        } else {
            proof {
                assert(digits_value(pre) * 10 + d >= digits_value(pre)) by (nonlinear_arith);
            }
        }
        k = k + 1;
    }
    if over {
        None
    } else {
        Some(v as u32)
    }
}

fn match_at_exec(s: &[char], p: usize, lit: &[char]) -> (r: Option<[usize; 4]>)
    requires
        lit@ == "crop="@,
        p <= s@.len(),
    ensures
        match r {
            Some(g) => crop_match_at(s@, p as int) && forall|k: int| 0 <= k < 4 ==> g[k] as int
                == group_start(s@, p as int, k as nat),
            None => !crop_match_at(s@, p as int),
        },
{
    proof {
        reveal_strlit("crop=");
    }
    if !crate::text::matches_at(s, p, lit) {
        return None;
    }
    let ghost sv = s@;
    let sl = s.len();
    let mut g: [usize; 4] = [0, 0, 0, 0];
    let mut pos: usize = p + 5;
    let mut k: usize = 0;
    while k < 4
        invariant
            k <= 4,
            p + 5 <= sv.len(),
            sv == s@,
            sl == sv.len(),
            sv.subrange(p as int, p + 5) == "crop="@,
            k < 4 ==> pos as int == group_start(sv, p as int, k as nat),
            pos <= sv.len(),
            forall|j: int| 0 <= j < k ==> g[j] as int == group_start(sv, p as int, j as nat),
            forall|j: nat| j < k ==> dec_run(sv, #[trigger] group_start(sv, p as int, j)) >= 1,
            forall|j: nat| j < k && j < 3 ==> #[trigger] colon_after(sv, p as int, j),
        decreases 4 - k,
    {
        let n = dec_run_exec(s, pos);
        if n == 0 {
            proof {
                assert(dec_run(sv, group_start(sv, p as int, k as nat)) == 0);
            }
            return None;
        }
        g[k] = pos;
        if k < 3 {
            if pos + n >= s.len() || s[pos + n] != ':' {
                proof {
                    assert(!colon_after(sv, p as int, k as nat));
                }
                return None;
            }
            pos = pos + n + 1;
        }
        k = k + 1;
    }
    Some(g)
}

/// Parses the last `crop=W:H:X:Y` report of cropdetect's output.
pub fn parse_crop_lines(stderr: &str) -> (r: Option<Crop>)
    ensures
        r == parse_crop_spec(stderr@),
{
    let s = chars_of(stderr);
    let lit = chars_of("crop=");
    let mut k: usize = s.len();
    let mut found: Option<(usize, [usize; 4])> = None;
    while k > 0 && found.is_none()
        invariant
            k <= s@.len(),
            lit@ == "crop="@,
            found is None ==> last_match(s@, s@.len() as int) == last_match(s@, k as int),
            found matches Some((p, g)) ==> last_match(s@, s@.len() as int) == Some(p as int)
                && forall|j: int| 0 <= j < 4 ==> g[j] as int == group_start(s@, p as int, j as nat),
        decreases k,
    {
        let p = k - 1;
        match match_at_exec(&s, p, &lit) {
            Some(g) => {
                found = Some((p, g));
            },
            None => {},
        }
        k = k - 1;
    }
    match found {
        None => {
            proof {
                assert(last_match(s@, 0) is None);
            }
            None
        },
        Some((p, g)) => {
            proof {
                assert(crop_match_at(s@, p as int)) by {
                    reveal_with_fuel(last_match, 1);
                    lemma_last_match_is_match(s@, s@.len() as int);
                }
            }
            let mut vals: [u32; 4] = [0, 0, 0, 0];
            let mut j: usize = 0;
            while j < 4
                invariant
                    j <= 4,
                    s@ == stderr@,
                    last_match(s@, s@.len() as int) == Some(p as int),
                    crop_match_at(s@, p as int),
                    forall|i: int| 0 <= i < 4 ==> g[i] as int == group_start(s@, p as int, i as nat),
                    forall|i: int| 0 <= i < j ==> group_value(s@, p as int, i as nat) == Some(#[trigger] vals[i]),
                decreases 4 - j,
            {
                let st = g[j];
                proof {
                    lemma_group_start_bound(s@, p as int, j as nat);
                    lemma_dec_run_bound(s@, st as int);
                }
                let n = dec_run_exec(&s, st);
                let parsed = if ascii_digits_exec(&s, st, n) {
                    proof {
                        let d = s@.subrange(st as int, st + n);
                        assert forall|i: int| st <= i < st + n implies is_digit(#[trigger] s@[i]) by {
                            assert(d[i - st] == s@[i]);
                        }
                    }
                    digits_to_u32(&s, st, n)
                } else {
                    None
                };
                match parsed {
                    Some(v) => {
                        vals[j] = v;
                    },
                    None => {
                        proof {
                            assert(run_at(s@, st as int) == s@.subrange(st as int, st + n));
                            assert(group_value(s@, p as int, j as nat) is None);
                            assert(last_match(s@, s@.len() as int) == Some(p as int));
                            if j == 0 {
                                assert(group_value(s@, p as int, 0) is None);
                            } else if j == 1 {
                                assert(group_value(s@, p as int, 1) is None);
                            } else if j == 2 {
                                assert(group_value(s@, p as int, 2) is None);
                            } else {
                                assert(group_value(s@, p as int, 3) is None);
                            }
                        }
                        return None;
                    },
                }
                j = j + 1;
            }
            Some(Crop { w: vals[0], h: vals[1], x: vals[2], y: vals[3] })
        },
    }
}

proof fn lemma_last_match_is_match(s: Seq<char>, k: int)
    ensures
        last_match(s, k) matches Some(p) ==> crop_match_at(s, p),
    decreases k,
{
    if k > 0 && !crop_match_at(s, k - 1) {
        lemma_last_match_is_match(s, k - 1);
    }
}

proof fn lemma_group_start_bound(s: Seq<char>, p: int, k: nat)
    requires
        crop_match_at(s, p),
        k < 4,
    ensures
        0 <= group_start(s, p, k) <= s.len(),
    decreases k,
{
    if k == 0 {
    } else {
        lemma_group_start_bound(s, p, (k - 1) as nat);
        let st = group_start(s, p, (k - 1) as nat);
        assert(dec_run(s, group_start(s, p, (k - 1) as nat)) >= 1);
        assert(colon_after(s, p, (k - 1) as nat));
    }
}

// ---------------------------------------------------------------- choosing a crop

pub open spec fn area(c: Crop) -> nat {
    (c.w as nat) * (c.h as nat)
}

/// The sample covering the largest area among the first `k`, the later one on ties.
pub open spec fn widest(samples: Seq<Crop>, k: nat) -> Crop
    recommends
        k >= 1,
    decreases k,
{
    if k <= 1 {
        samples[0]
    } else {
        let b = widest(samples, (k - 1) as nat);
        if area(samples[k - 1]) >= area(b) {
            samples[k - 1]
        } else {
            b
        }
    }
}

/// `a.saturating_sub(b)`.
pub open spec fn sat_sub(a: u32, b: u32) -> nat {
    if a >= b {
        (a - b) as nat
    } else {
        0
    }
}

/// The crop to apply: the widest sample, unless it is empty, removes less than 16
/// pixels in both directions, or keeps less than 60% of either dimension; with every
/// field rounded down to even.
pub open spec fn choose_spec(samples: Seq<Crop>, width: u32, height: u32) -> Option<Crop> {
    if samples.len() == 0 {
        None
    } else {
        let b = widest(samples, samples.len());
        if b.w == 0 || b.h == 0 {
            None
        } else if sat_sub(height, b.h) < 16 && sat_sub(width, b.w) < 16 {
            None
        } else if 5 * (b.h as nat) < 3 * (height as nat) || 5 * (b.w as nat) < 3 * (width as nat) {
            None
        } else {
            Some(
                Crop {
                    w: (b.w - b.w % 2) as u32,
                    h: (b.h - b.h % 2) as u32,
                    x: (b.x - b.x % 2) as u32,
                    y: (b.y - b.y % 2) as u32,
                },
            )
        }
    }
}

/// Law: the widest sample is applied (rounded down to even) whenever it is not empty,
/// keeps at least 60% of the width and of the height, and removes at least 16
/// pixels in width or in height; bars on the sides count as much as bars on top.
pub proof fn law_choose_applies_real_bars(samples: Seq<Crop>, width: u32, height: u32)
    requires
        samples.len() > 0,
        widest(samples, samples.len()).w > 0,
        widest(samples, samples.len()).h > 0,
        5 * (widest(samples, samples.len()).w as nat) >= 3 * (width as nat),
        5 * (widest(samples, samples.len()).h as nat) >= 3 * (height as nat),
        widest(samples, samples.len()).w + 16 <= width || widest(samples, samples.len()).h + 16 <= height,
    ensures
        ({
            let b = widest(samples, samples.len());
            choose_spec(samples, width, height) == Some(
                Crop {
                    w: (b.w - b.w % 2) as u32,
                    h: (b.h - b.h % 2) as u32,
                    x: (b.x - b.x % 2) as u32,
                    y: (b.y - b.y % 2) as u32,
                },
            )
        }),
{
}

/// Law: a sample that removes less than 16 pixels both ways, or keeps less than 60%
/// of a dimension, is never applied.
pub proof fn law_choose_rejects(samples: Seq<Crop>, width: u32, height: u32)
    requires
        samples.len() > 0,
        (widest(samples, samples.len()).w + 16 > width && widest(samples, samples.len()).h + 16 > height)
            || 5 * (widest(samples, samples.len()).w as nat) < 3 * (width as nat)
            || 5 * (widest(samples, samples.len()).h as nat) < 3 * (height as nat),
    ensures
        choose_spec(samples, width, height) is None,
{
}

/// Choose the safest crop across samples: the one covering the largest area, then
/// reject it when it barely changes anything or looks like a false positive.
pub fn choose_crop(samples: &[Crop], width: u32, height: u32) -> (r: Option<Crop>)
    ensures
        r == choose_spec(samples@, width, height),
{
    if samples.len() == 0 {
        return None;
    }
    let mut best = samples[0];
    let mut i: usize = 1;
    while i < samples.len()
        invariant
            1 <= i <= samples@.len(),
            best == widest(samples@, i as nat),
        decreases samples@.len() - i,
    {
        let c = samples[i];
        let cw = c.w as u64;
        let ch = c.h as u64;
        let bw = best.w as u64;
        let bh = best.h as u64;
        assert(cw * ch <= 0xffff_ffff_ffff_ffffu64 && bw * bh <= 0xffff_ffff_ffff_ffffu64) by (nonlinear_arith)
            requires
                cw < 0x1_0000_0000,
                ch < 0x1_0000_0000,
                bw < 0x1_0000_0000,
                bh < 0x1_0000_0000,
        ;
        let ca = cw * ch;
        let ba = bw * bh;
        if ca >= ba {
            best = c;
        }
        i = i + 1;
    }
    if best.w == 0 || best.h == 0 {
        return None;
    }
    let removed_h = if height >= best.h {
        height - best.h
    } else {
        0
    };
    let removed_w = if width >= best.w {
        width - best.w
    } else {
        0
    };
    if removed_h < 16 && removed_w < 16 {
        return None;
    }
    if 5 * (best.h as u64) < 3 * (height as u64) || 5 * (best.w as u64) < 3 * (width as u64) {
        return None;
    }
    Some(
        Crop {
            w: best.w - best.w % 2,
            h: best.h - best.h % 2,
            x: best.x - best.x % 2,
            y: best.y - best.y % 2,
        },
    )
}

proof fn lemma_widest_is_sample(samples: Seq<Crop>, k: nat)
    requires
        1 <= k <= samples.len(),
    ensures
        exists|i: int| 0 <= i < k && samples[i] == widest(samples, k),
        forall|i: int| 0 <= i < k ==> area(#[trigger] samples[i]) <= area(widest(samples, k)),
    decreases k,
{
    if k > 1 {
        lemma_widest_is_sample(samples, (k - 1) as nat);
        let b = widest(samples, (k - 1) as nat);
        if area(samples[k - 1]) >= area(b) {
            assert(samples[k - 1] == widest(samples, k));
        } else {
            let i = choose|i: int| 0 <= i < k - 1 && samples[i] == b;
            assert(samples[i] == widest(samples, k));
        }
    } else {
        assert(samples[0] == widest(samples, k));
    }
}

/// Law: a chosen crop has even dimensions and offsets, keeps at least 60% of the
/// frame in each direction, removes at least 16 pixels in one of them, and is
/// (up to rounding to even) a sample of largest area.
pub proof fn law_choose(samples: Seq<Crop>, width: u32, height: u32)
    ensures
        choose_spec(samples, width, height) matches Some(c) ==> {
            &&& c.w % 2 == 0 && c.h % 2 == 0 && c.x % 2 == 0 && c.y % 2 == 0
            &&& 5 * (c.h as nat) + 5 >= 3 * (height as nat) && 5 * (c.w as nat) + 5 >= 3 * (width as nat)
            &&& exists|i: int| #![trigger samples[i]]
                0 <= i < samples.len() && {
                    let b = samples[i];
                    &&& c.w == b.w - b.w % 2 && c.h == b.h - b.h % 2
                    &&& c.x == b.x - b.x % 2 && c.y == b.y - b.y % 2
                    &&& sat_sub(height, b.h) >= 16 || sat_sub(width, b.w) >= 16
                    &&& forall|j: int| 0 <= j < samples.len() ==> area(#[trigger] samples[j]) <= area(b)
                }
        },
{
    if samples.len() > 0 {
        lemma_widest_is_sample(samples, samples.len());
    }
}

} // verus!
