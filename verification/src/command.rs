//! EncodeSettings + MediaInfo → ffmpeg argv.
use vstd::prelude::*;
use crate::models::{
    AudioMode, AudioStream, Capabilities, Channels, Codec, Container, ContentType, Crop, CropMode,
    EncodeSettings, MediaInfo, Ratio, SubtitleMode, SubtitleStream, VideoStream,
};
use crate::path::{ext_lower, ext_lower_of};
use crate::text::{
    chars_of, contains_seq, dec, dec_padded, ends_with, matches_at, seq_contains, seq_eq,
    string_of, trim, u64_to_padded, u64_to_string,
};

verus! {

// ---------------------------------------------------------------- argv helpers

/// The character sequences of a list of strings.
pub open spec fn strs(v: Seq<String>) -> Seq<Seq<char>> {
    v.map_values(|s: String| s@)
}

proof fn lemma_strs_add(a: Seq<String>, b: Seq<String>)
    ensures
        strs(a + b) == strs(a) + strs(b),
{
    assert(strs(a + b) =~= strs(a) + strs(b));
}

fn push_lit(v: &mut Vec<String>, s: &str)
    ensures
        strs(final(v)@) == strs(old(v)@).push(s@),
{
    v.push(s.to_owned());
    assert(strs(v@) =~= strs(old(v)@).push(s@));
}

fn push_owned(v: &mut Vec<String>, s: String)
    ensures
        strs(final(v)@) == strs(old(v)@).push(s@),
{
    let ghost sv = s@;
    v.push(s);
    assert(strs(v@) =~= strs(old(v)@).push(sv));
}

fn extend_args(v: &mut Vec<String>, w: Vec<String>)
    ensures
        strs(final(v)@) == strs(old(v)@) + strs(w@),
{
    let mut w = w;
    let ghost wv = w@;
    v.append(&mut w);
    proof {
        lemma_strs_add(old(v)@, wv);
    }
}

// ---------------------------------------------------------------- filter escaping

/// One level of ffmpeg filter escaping: a backslash before every character of `special`.
pub open spec fn escape_level(s: Seq<char>, special: Seq<char>) -> Seq<char>
    decreases s.len(),
{
    if s.len() == 0 {
        Seq::<char>::empty()
    } else {
        let r = escape_level(s.drop_last(), special);
        if special.contains(s.last()) {
            r + seq!['\\', s.last()]
        } else {
            r.push(s.last())
        }
    }
}

/// Characters escaped at the option-value level.
pub open spec fn value_specials() -> Seq<char> {
    seq!['\\', '\'', '=', ':']
}

/// Characters escaped at the filtergraph level.
pub open spec fn graph_specials() -> Seq<char> {
    seq!['\\', '\'', '[', ']', ',', ';']
}

/// A path escaped for use as a filter option value.
pub open spec fn filter_escape(p: Seq<char>) -> Seq<char> {
    escape_level(escape_level(p, value_specials()), graph_specials())
}

/// One level of unescaping, as ffmpeg's parser applies it: a backslash makes the
/// following character literal.
pub open spec fn unescape(s: Seq<char>) -> Seq<char>
    decreases s.len(),
{
    if s.len() == 0 {
        Seq::<char>::empty()
    } else if s[0] == '\\' && s.len() >= 2 {
        seq![s[1]] + unescape(s.skip(2))
    } else {
        seq![s[0]] + unescape(s.skip(1))
    }
}

proof fn lemma_escape_append(a: Seq<char>, b: Seq<char>, special: Seq<char>)
    ensures
        escape_level(a + b, special) == escape_level(a, special) + escape_level(b, special),
    decreases b.len(),
{
    if b.len() == 0 {
        assert(a + b =~= a);
    } else {
        assert((a + b).drop_last() =~= a + b.drop_last());
        assert((a + b).last() == b.last());
        lemma_escape_append(a, b.drop_last(), special);
    }
}

proof fn lemma_unescape_escape(p: Seq<char>, special: Seq<char>)
    requires
        special.contains('\\'),
    ensures
        unescape(escape_level(p, special)) == p,
    decreases p.len(),
{
    if p.len() > 0 {
        let first = seq![p[0]];
        let rest = p.skip(1);
        assert(p =~= first + rest);
        lemma_escape_append(first, rest, special);
        assert(first.drop_last() =~= Seq::<char>::empty());
        assert(escape_level(first.drop_last(), special) =~= Seq::<char>::empty());
        assert(first.last() == p[0]);
        let e = escape_level(p, special);
        let er = escape_level(rest, special);
        lemma_unescape_escape(rest, special);
        if special.contains(p[0]) {
            assert(escape_level(first, special) =~= seq!['\\', p[0]]);
            assert(e =~= seq!['\\', p[0]] + er);
            assert(e.skip(2) =~= er);
            assert(unescape(e) =~= seq![p[0]] + unescape(er));
        } else {
            assert(escape_level(first, special) =~= seq![p[0]]);
            assert(e =~= seq![p[0]] + er);
            assert(e.skip(1) =~= er);
            assert(p[0] != '\\');
            assert(unescape(e) =~= seq![p[0]] + unescape(er));
        }
        assert(seq![p[0]] + rest =~= p);
    }
}

/// Law: ffmpeg's two levels of unescaping give the original path back, whatever
/// characters it holds.
pub proof fn law_filter_escape_roundtrip(p: Seq<char>)
    ensures
        unescape(unescape(filter_escape(p))) == p,
{
    assert(graph_specials().contains('\\')) by {
        assert(graph_specials()[0] == '\\');
    }
    assert(value_specials().contains('\\')) by {
        assert(value_specials()[0] == '\\');
    }
    lemma_unescape_escape(escape_level(p, value_specials()), graph_specials());
    lemma_unescape_escape(p, value_specials());
}

fn escape_level_exec(s: &[char], special: &[char]) -> (r: Vec<char>)
    ensures
        r@ == escape_level(s@, special@),
{
    let mut r: Vec<char> = Vec::new();
    let mut i: usize = 0;
    while i < s.len()
        invariant
            i <= s@.len(),
            r@ == escape_level(s@.take(i as int), special@),
        decreases s@.len() - i,
    {
        let c = s[i];
        proof {
            assert(s@.take(i + 1).drop_last() =~= s@.take(i as int));
            assert(s@.take(i + 1).last() == c);
        }
        let mut j: usize = 0;
        let mut found = false;
        while j < special.len()
            invariant
                j <= special@.len(),
                found == (exists|k: int| 0 <= k < j && special@[k] == c),
            decreases special@.len() - j,
        {
            if special[j] == c {
                found = true;
            }
            j = j + 1;
        }
        proof {
            if found {
                let k = choose|k: int| 0 <= k < j && special@[k] == c;
                assert(special@.contains(c));
            } else {
                assert(!special@.contains(c));
            }
        }
        if found {
            r.push('\\');
            r.push(c);
            assert(r@ =~= escape_level(s@.take(i as int), special@) + seq!['\\', c]);
        } else {
            r.push(c);
        }
        i = i + 1;
    }
    assert(s@.take(s@.len() as int) =~= s@);
    r
}

/// Escape a path for use as a filter option value (ffmpeg's two-level escaping).
pub fn escape_filter_path(p: &str) -> (r: String)
    ensures
        r@ == filter_escape(p@),
{
    let pv = chars_of(p);
    let v1 = vec!['\\', '\'', '=', ':'];
    let v2 = vec!['\\', '\'', '[', ']', ',', ';'];
    assert(v1@ =~= value_specials());
    assert(v2@ =~= graph_specials());
    let l1 = escape_level_exec(&pv, &v1);
    let l2 = escape_level_exec(&l1, &v2);
    string_of(&l2)
}

// ---------------------------------------------------------------- small tables

/// `trim_end_matches`: removes the suffix `pat` as long as it is there.
pub open spec fn strip_suffix_all(s: Seq<char>, pat: Seq<char>) -> Seq<char>
    decreases s.len(),
{
    if pat.len() > 0 && ends_with(s, pat) {
        strip_suffix_all(s.take(s.len() - pat.len()), pat)
    } else {
        s
    }
}

pub open spec fn pan_51(side: bool) -> Seq<char> {
    "pan=stereo|FL<FL+0.707*FC+0.5*"@ + (if side {
        "SL"@
    } else {
        "BL"@
    }) + "|FR<FR+0.707*FC+0.5*"@ + (if side {
        "SR"@
    } else {
        "BR"@
    })
}

pub open spec fn pan_71() -> Seq<char> {
    "pan=stereo|FL<FL+0.707*FC+0.5*BL+0.5*SL|FR<FR+0.707*FC+0.5*BR+0.5*SR"@
}

/// The dialogue-preserving stereo downmix filter for a layout, if there is one.
pub open spec fn downmix_spec(layout: Option<Seq<char>>, channels: u32) -> Option<Seq<char>> {
    if channels <= 2 {
        None
    } else {
        let l = match layout {
            Some(x) => x,
            None => Seq::<char>::empty(),
        };
        let side = contains_seq(l, "(side)"@);
        let t = strip_suffix_all(l, "(side)"@);
        if t == "5.1"@ {
            Some(pan_51(side))
        } else if t == "7.1"@ {
            Some(pan_71())
        } else {
            None
        }
    }
}

/// `s` with every trailing copy of `pat` removed.
pub fn strip_suffix_chars(s: &[char], pat: &[char]) -> (r: Vec<char>)
    ensures
        r@ == strip_suffix_all(s@, pat@),
{
    let mut n: usize = s.len();
    proof {
        assert(s@.take(n as int) =~= s@);
    }
    while pat.len() > 0 && pat.len() <= n && matches_at(s, n - pat.len(), pat)
        invariant
            n <= s@.len(),
            strip_suffix_all(s@, pat@) == strip_suffix_all(s@.take(n as int), pat@),
        decreases n,
    {
        let ghost t = s@.take(n as int);
        proof {
            assert(t.skip(t.len() - pat@.len()) =~= s@.subrange(n - pat@.len(), n as int));
            assert(t.take(t.len() - pat@.len()) =~= s@.take(n - pat@.len()));
        }
        n = n - pat.len();
    }
    proof {
        let t = s@.take(n as int);
        if pat@.len() > 0 && pat@.len() <= n {
            assert(t.skip(t.len() - pat@.len()) =~= s@.subrange(n - pat@.len(), n as int));
        }
    }
    crate::path::slice_to(s, n)
}

/// Dialogue-preserving stereo downmix for known surround layouts; None = let ffmpeg use `-ac 2`.
pub fn downmix_pan(layout: Option<&str>, channels: u32) -> (r: Option<String>)
    ensures
        match r {
            Some(x) => downmix_spec(
                match layout {
                    Some(l) => Some(l@),
                    None => None,
                },
                channels,
            ) == Some(x@),
            None => downmix_spec(
                match layout {
                    Some(l) => Some(l@),
                    None => None,
                },
                channels,
            ) is None,
        },
{
    if channels <= 2 {
        return None;
    }
    let l: Vec<char> = match layout {
        Some(x) => chars_of(x),
        None => Vec::new(),
    };
    let side_pat = chars_of("(side)");
    let side = seq_contains(&l, &side_pat);
    let t = strip_suffix_chars(&l, &side_pat);
    let five = chars_of("5.1");
    let seven = chars_of("7.1");
    if seq_eq(&t, &five) {
        let mut s = "pan=stereo|FL<FL+0.707*FC+0.5*".to_owned();
        s.append(if side { "SL" } else { "BL" });
        s.append("|FR<FR+0.707*FC+0.5*");
        s.append(if side { "SR" } else { "BR" });
        Some(s)
    } else if seq_eq(&t, &seven) {
        Some("pan=stereo|FL<FL+0.707*FC+0.5*BL+0.5*SL|FR<FR+0.707*FC+0.5*BR+0.5*SR".to_owned())
    } else {
        None
    }
}

/// Subtitle codec for an external file of the given (lower-case) extension.
pub open spec fn sub_codec_spec(ext: Seq<char>, container: Container) -> Seq<char> {
    match container {
        Container::Mp4 => "mov_text"@,
        Container::Mkv => if ext == "ass"@ || ext == "ssa"@ || ext == "srt"@ {
            "copy"@
        } else {
            "srt"@
        },
    }
}

fn sub_codec_for_ext(ext: &[char], container: Container) -> (r: &'static str)
    ensures
        r@ == sub_codec_spec(ext@, container),
{
    match container {
        Container::Mp4 => "mov_text",
        Container::Mkv => {
            let ass = chars_of("ass");
            let ssa = chars_of("ssa");
            let srt = chars_of("srt");
            if seq_eq(ext, &ass) || seq_eq(ext, &ssa) || seq_eq(ext, &srt) {
                "copy"
            } else {
                "srt"
            }
        },
    }
}

/// More than 31 frames per second.
pub open spec fn fps_above_31(fps: Ratio) -> bool {
    fps.num > 31 * fps.den
}

/// H.264 level for the output height and frame rate.
pub open spec fn x264_level_spec(h: u32, fps: Ratio) -> Seq<char> {
    if h <= 480 {
        "3.1"@
    } else if h <= 720 {
        "4.0"@
    } else if fps_above_31(fps) {
        "4.2"@
    } else {
        "4.1"@
    }
}

fn x264_level(h: u32, fps: Ratio) -> (r: &'static str)
    ensures
        r@ == x264_level_spec(h, fps),
{
    if h <= 480 {
        "3.1"
    } else if h <= 720 {
        "4.0"
    } else if fps.num as u64 > 31 * (fps.den as u64) {
        "4.2"
    } else {
        "4.1"
    }
}

// ---------------------------------------------------------------- geometry

/// `n & !1`: the even number at or below `n`.
pub open spec fn even_spec(n: u32) -> u32 {
    (n - n % 2) as u32
}

fn even(n: u32) -> (r: u32)
    ensures
        r == even_spec(n),
{
    n - n % 2
}

pub open spec fn min_u32(a: u32, b: u32) -> u32 {
    if a <= b {
        a
    } else {
        b
    }
}

pub open spec fn max_u32(a: u32, b: u32) -> u32 {
    if a >= b {
        a
    } else {
        b
    }
}

/// The picture region kept from the source, before scaling.
pub open spec fn region_dims(v: VideoStream, mode: CropMode, crop: Option<Crop>) -> (u32, u32) {
    match mode {
        CropMode::Off => (v.width, v.height),
        CropMode::Manual { w, h, .. } => (min_u32(w, v.width), min_u32(h, v.height)),
        CropMode::Auto => match crop {
            Some(c) => (c.w, c.h),
            None => (v.width, v.height),
        },
    }
}

/// Target height: the resolution's height, never above the region's height.
pub open spec fn target_height(s: EncodeSettings, sh: u32) -> u32 {
    match s.resolution.height_spec() {
        Some(t) => min_u32(t, sh),
        None => sh,
    }
}

/// Numerator and denominator of the exact output width `out_h · dar`, where the
/// display aspect ratio of the region is `sw / max(sh, 1) · sar`.
pub open spec fn width_num(v: VideoStream, sw: u32, out_h: u32) -> nat {
    (out_h as nat) * (sw as nat) * (v.sar_used().0 as nat)
}

pub open spec fn width_den(v: VideoStream, sh: u32) -> nat {
    (max_u32(sh, 1) as nat) * (v.sar_used().1 as nat)
}

/// Nearest even width, at least 2: `2 · round(num / (2 · den))`, capped to fit a `u32`.
pub open spec fn even_round(num: nat, den: nat) -> u32 {
    let r = (num + den) / (2 * den);
    if r > 2147483647 {
        4294967294u32
    } else if r == 0 {
        2u32
    } else {
        (2 * r) as u32
    }
}

/// Output width/height after crop + scale, never upscaling, aspect preserved.
pub open spec fn output_dims_spec(info: MediaInfo, s: EncodeSettings, crop: Option<Crop>) -> (
    u32,
    u32,
) {
    match info.video {
        None => (0, 0),
        Some(v) => {
            let (sw, sh) = region_dims(v, s.crop, crop);
            let out_h = even_spec(max_u32(target_height(s, sh), 2));
            (even_round(width_num(v, sw, out_h), width_den(v, sh)), out_h)
        },
    }
}

fn even_round_exec(out_h: u32, sw: u32, sn: u32, sh1: u32, sd: u32) -> (r: u32)
    requires
        sh1 >= 1,
        sd >= 1,
    ensures
        r == even_round(
            (out_h as nat) * (sw as nat) * (sn as nat),
            (sh1 as nat) * (sd as nat),
        ),
{
    let a = out_h as u128;
    let b = sw as u128;
    let c = sn as u128;
    assert(a * b <= 0xffff_ffff_ffff_ffffu128 * 1) by (nonlinear_arith)
        requires
            a < 0x1_0000_0000,
            b < 0x1_0000_0000,
    ;
    let ab = a * b;
    assert(ab * c <= 0xffff_ffff_ffff_ffffu128 * 0xffff_ffffu128) by (nonlinear_arith)
        requires
            ab <= 0xffff_ffff_ffff_ffffu128,
            c < 0x1_0000_0000,
    ;
    let num = ab * c;
    let d1 = sh1 as u128;
    let d2 = sd as u128;
    assert(d1 * d2 <= 0xffff_ffff_ffff_ffffu128 && d1 * d2 >= 1) by (nonlinear_arith)
        requires
            1 <= d1 < 0x1_0000_0000,
            1 <= d2 < 0x1_0000_0000,
    ;
    let den = d1 * d2;
    let r = (num + den) / (2 * den);
    if r > 2147483647 {
        4294967294
    } else if r == 0 {
        2
    } else {
        (2 * r) as u32
    }
}

/// Output width/height after crop + scale, never upscaling, aspect preserved.
pub fn output_dims(info: &MediaInfo, settings: &EncodeSettings, crop: Option<Crop>) -> (r: (
    u32,
    u32,
))
    ensures
        r == output_dims_spec(*info, *settings, crop),
{
    let v = match &info.video {
        Some(v) => v,
        None => return (0, 0),
    };
    let (sw, sh) = match settings.crop {
        CropMode::Off => (v.width, v.height),
        CropMode::Manual { w, h, .. } => (
            if w <= v.width {
                w
            } else {
                v.width
            },
            if h <= v.height {
                h
            } else {
                v.height
            },
        ),
        CropMode::Auto => match crop {
            Some(c) => (c.w, c.h),
            None => (v.width, v.height),
        },
    };
    let target_h = match settings.resolution.height() {
        Some(t) => if t <= sh {
            t
        } else {
            sh
        },
        None => sh,
    };
    let out_h = even(if target_h >= 2 {
        target_h
    } else {
        2
    });
    let (sn, sd) = if v.sar.num > 0 && v.sar.den > 0 {
        (v.sar.num, v.sar.den)
    } else {
        (1, 1)
    };
    let sh1 = if sh >= 1 {
        sh
    } else {
        1
    };
    let out_w = even_round_exec(out_h, sw, sn, sh1, sd);
    (out_w, out_h)
}

/// Law: the output height is even, at least 2, and never above the kept region's
/// height or the requested resolution (never upscales) when those are at least 2;
/// the width is even and at least 2, and within one pixel of the exact
/// aspect-preserving width.
pub proof fn law_output_dims(info: MediaInfo, s: EncodeSettings, crop: Option<Crop>)
    requires
        info.video is Some,
    ensures
        ({
            let v = info.video->0;
            let (sw, sh) = region_dims(v, s.crop, crop);
            let (out_w, out_h) = output_dims_spec(info, s, crop);
            let num = width_num(v, sw, out_h);
            let den = width_den(v, sh);
            &&& out_h % 2 == 0 && out_h >= 2
            &&& sh >= 2 ==> out_h <= sh
            &&& s.resolution.height_spec() matches Some(t) ==> (t >= 2 ==> out_h <= t)
            &&& out_w % 2 == 0 && out_w >= 2
            &&& 1 <= (num + den) / (2 * den) <= 2147483647 ==> {
                &&& (out_w as int) * (den as int) <= (num as int) + (den as int)
                &&& (num as int) < (out_w as int) * (den as int) + (den as int)
            }
        }),
{
    let v = info.video->0;
    let (sw, sh) = region_dims(v, s.crop, crop);
    let (out_w, out_h) = output_dims_spec(info, s, crop);
    let num = width_num(v, sw, out_h);
    let den = width_den(v, sh);
    assert(den >= 1) by (nonlinear_arith)
        requires
            den == (max_u32(sh, 1) as nat) * (v.sar_used().1 as nat),
            max_u32(sh, 1) >= 1,
            v.sar_used().1 >= 1,
    ;
    let q = (num + den) / (2 * den);
    assert(q * (2 * den) <= num + den && num + den < q * (2 * den) + 2 * den) by (nonlinear_arith)
        requires
            den >= 1,
            q == (num + den) / (2 * den),
    ;
    let th = target_height(s, sh);
    let m = max_u32(th, 2);
    assert(out_h == even_spec(m));
    assert(out_h <= m && out_h % 2 == 0 && out_h >= 2);
    if 1 <= q <= 2147483647 {
        assert(out_w == 2 * q);
        assert((out_w as int) * (den as int) == q * (2 * den)) by (nonlinear_arith)
            requires
                out_w == 2 * q,
        ;
        assert((out_w as int) * (den as int) <= (num as int) + (den as int));
        assert((num as int) < (out_w as int) * (den as int) + (den as int));
    }
    assert(out_w % 2 == 0 && out_w >= 2);
    assert(sh >= 2 ==> out_h <= sh);
    assert(s.resolution.height_spec() matches Some(t) ==> (t >= 2 ==> out_h <= t));
}

/// The crop actually applied: manual crops are clamped to the frame, detected crops
/// are used only when they remove something.
pub open spec fn effective_crop_spec(info: MediaInfo, s: EncodeSettings, detected: Option<Crop>) -> Option<Crop> {
    match info.video {
        None => None,
        Some(v) => match s.crop {
            CropMode::Off => None,
            CropMode::Manual { w, h, x, y } => Some(
                Crop { w: min_u32(w, v.width), h: min_u32(h, v.height), x, y },
            ),
            CropMode::Auto => match detected {
                Some(c) => if c.w < v.width || c.h < v.height {
                    Some(c)
                } else {
                    None
                },
                None => None,
            },
        },
    }
}

pub fn effective_crop(info: &MediaInfo, settings: &EncodeSettings, detected: Option<Crop>) -> (r: Option<Crop>)
    ensures
        r == effective_crop_spec(*info, *settings, detected),
{
    let v = match &info.video {
        Some(v) => v,
        None => return None,
    };
    match settings.crop {
        CropMode::Off => None,
        CropMode::Manual { w, h, x, y } => Some(
            Crop {
                w: if w <= v.width {
                    w
                } else {
                    v.width
                },
                h: if h <= v.height {
                    h
                } else {
                    v.height
                },
                x,
                y,
            },
        ),
        CropMode::Auto => match detected {
            Some(c) => if c.w < v.width || c.h < v.height {
                Some(c)
            } else {
                None
            },
            None => None,
        },
    }
}

// ---------------------------------------------------------------- audio selection

/// First source track flagged default among the first `k` tracks.
pub open spec fn first_default(audio: Seq<AudioStream>, k: nat) -> Option<nat>
    decreases k,
{
    if k == 0 {
        None
    } else {
        match first_default(audio, (k - 1) as nat) {
            Some(i) => Some(i),
            None => if audio[k - 1].is_default {
                Some((k - 1) as nat)
            } else {
                None
            },
        }
    }
}

/// The source's default track, else its first track (none for a file without audio).
pub open spec fn default_pick(audio: Seq<AudioStream>) -> Seq<usize> {
    if audio.len() == 0 {
        Seq::<usize>::empty()
    } else {
        match first_default(audio, audio.len()) {
            Some(i) => seq![i as usize],
            None => seq![0usize],
        }
    }
}

/// Positions (ascending, among the first `k`) of the tracks listed in `tracks`.
pub open spec fn listed(audio: Seq<AudioStream>, tracks: Seq<usize>, k: nat) -> Seq<usize>
    decreases k,
{
    if k == 0 {
        Seq::<usize>::empty()
    } else {
        let r = listed(audio, tracks, (k - 1) as nat);
        if tracks.contains(audio[k - 1].rel_index) {
            r.push((k - 1) as usize)
        } else {
            r
        }
    }
}

/// Positions in `info.audio` of the tracks that are kept, in output order: all of
/// them, only the listed ones (none when no listed track exists), or the default
/// pick.
pub open spec fn select_audio_spec(info: MediaInfo, s: EncodeSettings) -> Seq<usize> {
    let a = info.audio@;
    if a.len() == 0 {
        Seq::<usize>::empty()
    } else {
        match s.audio.mode {
            AudioMode::All => Seq::new(a.len(), |i: int| i as usize),
            AudioMode::Select => listed(a, s.audio.tracks@, a.len()),
            AudioMode::Default => default_pick(a),
        }
    }
}

proof fn lemma_first_default_range(audio: Seq<AudioStream>, k: nat)
    ensures
        first_default(audio, k) matches Some(i) ==> i < k,
    decreases k,
{
    if k > 0 {
        lemma_first_default_range(audio, (k - 1) as nat);
    }
}

proof fn lemma_listed_range(audio: Seq<AudioStream>, tracks: Seq<usize>, k: nat)
    ensures
        forall|j: int| 0 <= j < listed(audio, tracks, k).len() ==> #[trigger] listed(audio, tracks, k)[j] < k,
        listed(audio, tracks, k).len() <= k,
    decreases k,
{
    if k > 0 {
        lemma_listed_range(audio, tracks, (k - 1) as nat);
    }
}

fn default_pick_exec(audio: &Vec<AudioStream>) -> (r: Vec<usize>)
    ensures
        r@ == default_pick(audio@),
{
    if audio.len() == 0 {
        return Vec::new();
    }
    let mut i: usize = 0;
    while i < audio.len()
        invariant
            i <= audio@.len(),
            first_default(audio@, i as nat) is None,
        decreases audio@.len() - i,
    {
        if audio[i].is_default {
            proof {
                assert(first_default(audio@, (i + 1) as nat) == Some(i as nat));
                lemma_first_default_prefix(audio@, (i + 1) as nat, audio@.len());
            }
            let mut r = Vec::new();
            r.push(i);
            assert(r@ =~= seq![i]);
            return r;
        }
        i = i + 1;
    }
    let mut r = Vec::new();
    r.push(0);
    assert(r@ =~= seq![0usize]);
    r
}

proof fn lemma_first_default_prefix(audio: Seq<AudioStream>, k: nat, n: nat)
    requires
        k <= n,
        first_default(audio, k) is Some,
    ensures
        first_default(audio, n) == first_default(audio, k),
    decreases n - k,
{
    if n > k {
        lemma_first_default_prefix(audio, k, (n - 1) as nat);
    }
}

fn contains_usize(v: &Vec<usize>, x: usize) -> (r: bool)
    ensures
        r == v@.contains(x),
{
    let mut i: usize = 0;
    while i < v.len()
        invariant
            i <= v@.len(),
            forall|j: int| 0 <= j < i ==> v@[j] != x,
        decreases v@.len() - i,
    {
        if v[i] == x {
            return true;
        }
        i = i + 1;
    }
    false
}

/// Positions in `info.audio` of the audio tracks that are kept.
pub fn select_audio(info: &MediaInfo, settings: &EncodeSettings) -> (r: Vec<usize>)
    ensures
        r@ == select_audio_spec(*info, *settings),
        forall|j: int| 0 <= j < r@.len() ==> #[trigger] r@[j] < info.audio@.len(),
{
    let n = info.audio.len();
    if n == 0 {
        return Vec::new();
    }
    proof {
        lemma_first_default_range(info.audio@, info.audio@.len());
    }
    match settings.audio.mode {
        AudioMode::All => {
            let mut r: Vec<usize> = Vec::new();
            let mut i: usize = 0;
            while i < n
                invariant
                    i <= n == info.audio@.len(),
                    r@ =~= Seq::new(i as nat, |k: int| k as usize),
                decreases n - i,
            {
                r.push(i);
                i = i + 1;
            }
            r
        },
        AudioMode::Select => {
            let mut r: Vec<usize> = Vec::new();
            let mut i: usize = 0;
            while i < n
                invariant
                    i <= n == info.audio@.len(),
                    r@ == listed(info.audio@, settings.audio.tracks@, i as nat),
                decreases n - i,
            {
                if contains_usize(&settings.audio.tracks, info.audio[i].rel_index) {
                    r.push(i);
                }
                i = i + 1;
            }
            proof {
                lemma_listed_range(info.audio@, settings.audio.tracks@, n as nat);
            }
            r
        },
        AudioMode::Default => default_pick_exec(&info.audio),
    }
}


// ---------------------------------------------------------------- the argument list

/// Why no argument list can be built.
#[derive(Clone, Copy, Debug, PartialEq, Eq, Structural)]
pub enum BuildError {
    /// The source has no video stream.
    NoVideo,
}

impl BuildError {
    /// The message shown to the user.
    pub fn message(self) -> (r: &'static str)
        ensures
            r@ == "source has no video stream"@,
    {
        proof {
            reveal_strlit("source has no video stream");
        }
        "source has no video stream"
    }
}

/// Everything the argument list depends on.
pub struct BuildInput<'a> {
    pub info: &'a MediaInfo,
    pub settings: &'a EncodeSettings,
    pub crop: Option<Crop>,
    /// External subtitle file (already delay-shifted when burning in).
    pub external_sub: Option<&'a str>,
    /// Output file (may carry a `.part` suffix; the muxer is forced explicitly).
    pub output: &'a str,
    pub caps: &'a Capabilities,
    /// (start, duration) in milliseconds, for test encodes.
    pub clip: Option<(u64, u64)>,
}

/// Milliseconds as seconds with three decimals ("1300.000").
pub open spec fn secs3(ms: nat) -> Seq<char> {
    dec(ms / 1000) + seq!['.'] + dec_padded(ms % 1000, 3)
}

/// Signed milliseconds as seconds with three decimals ("-1.500").
pub open spec fn signed_secs3(ms: int) -> Seq<char> {
    if ms < 0 {
        seq!['-'] + secs3((-ms) as nat)
    } else {
        secs3(ms as nat)
    }
}

pub open spec fn header_args() -> Seq<Seq<char>> {
    seq![
        "-y"@,
        "-hide_banner"@,
        "-nostdin"@,
        "-loglevel"@,
        "error"@,
        "-nostats"@,
        "-progress"@,
        "pipe:1"@,
        "-stats_period"@,
        "0.5"@,
    ]
}

pub open spec fn clip_args(clip: Option<(u64, u64)>) -> Seq<Seq<char>> {
    match clip {
        Some((st, du)) => seq!["-ss"@, secs3(st as nat), "-t"@, secs3(du as nat)],
        None => Seq::<Seq<char>>::empty(),
    }
}

/// The external subtitle file is muxed as its own track.
pub open spec fn mux_external(s: EncodeSettings, sub: Option<Seq<char>>, clip: Option<(u64, u64)>) -> bool {
    sub is Some && !s.subtitles.burn_in && clip is None
}

pub open spec fn input_args(info: MediaInfo, s: EncodeSettings, sub: Option<Seq<char>>, clip: Option<(u64, u64)>) -> Seq<Seq<char>> {
    seq!["-i"@, info.path@] + if mux_external(s, sub, clip) {
        (if s.subtitles.delay_ms != 0 {
            seq!["-itsoffset"@, signed_secs3(s.subtitles.delay_ms as int)]
        } else {
            Seq::<Seq<char>>::empty()
        }) + seq!["-i"@, sub->0]
    } else {
        Seq::<Seq<char>>::empty()
    }
}

/// `-map 0:a:N` for the first `k` kept audio tracks.
pub open spec fn audio_maps(audio: Seq<AudioStream>, sel: Seq<usize>, k: nat) -> Seq<Seq<char>>
    decreases k,
{
    if k == 0 {
        Seq::<Seq<char>>::empty()
    } else {
        audio_maps(audio, sel, (k - 1) as nat) + seq![
            "-map"@,
            "0:a:"@ + dec(audio[sel[k - 1] as int].rel_index as nat),
        ]
    }
}

/// Source subtitle tracks are kept.
pub open spec fn keep_source_subs(s: EncodeSettings, clip: Option<(u64, u64)>) -> bool {
    s.subtitles.keep_source_subs && s.subtitles.mode != SubtitleMode::Off && clip is None
}

/// A source subtitle stream is kept (text-only for mp4; only the listed ones when a list is set).
pub open spec fn sub_kept(st: SubtitleStream, s: EncodeSettings) -> bool {
    &&& (s.container == Container::Mp4 ==> st.text_based)
    &&& match s.subtitles.source_tracks {
        Some(ts) => ts@.contains(st.rel_index),
        None => true,
    }
}

/// The kept subtitle streams among the first `k`.
pub open spec fn kept_subs(subs: Seq<SubtitleStream>, s: EncodeSettings, k: nat) -> Seq<SubtitleStream>
    decreases k,
{
    if k == 0 {
        Seq::<SubtitleStream>::empty()
    } else {
        let r = kept_subs(subs, s, (k - 1) as nat);
        if sub_kept(subs[k - 1], s) {
            r.push(subs[k - 1])
        } else {
            r
        }
    }
}

/// The kept source subtitle streams (none when source subtitles are not kept).
pub open spec fn kept_list(info: MediaInfo, s: EncodeSettings, clip: Option<(u64, u64)>) -> Seq<SubtitleStream> {
    if keep_source_subs(s, clip) {
        kept_subs(info.subtitles@, s, info.subtitles@.len())
    } else {
        Seq::<SubtitleStream>::empty()
    }
}

/// `-map 0:s:N` for the first `k` kept subtitle streams.
pub open spec fn sub_maps(kept: Seq<SubtitleStream>, k: nat) -> Seq<Seq<char>>
    decreases k,
{
    if k == 0 {
        Seq::<Seq<char>>::empty()
    } else {
        sub_maps(kept, (k - 1) as nat) + seq!["-map"@, "0:s:"@ + dec(kept[k - 1].rel_index as nat)]
    }
}

pub open spec fn map_args(info: MediaInfo, s: EncodeSettings, sub: Option<Seq<char>>, clip: Option<(u64, u64)>) -> Seq<Seq<char>> {
    let sel = select_audio_spec(info, s);
    let kept = kept_list(info, s, clip);
    seq!["-map"@, "0:v:0"@] + audio_maps(info.audio@, sel, sel.len()) + sub_maps(kept, kept.len())
        + (if mux_external(s, sub, clip) {
        seq!["-map"@, "1:0"@]
    } else {
        Seq::<Seq<char>>::empty()
    }) + (if clip is None {
        seq![
            "-map_metadata"@,
            "0"@,
            "-map_chapters"@,
            if s.container == Container::Mkv {
                "0"@
            } else {
                "-1"@
            },
        ]
    } else {
        Seq::<Seq<char>>::empty()
    })
}

/// `-c:s:N <codec>` for the first `k` kept source subtitle streams.
pub open spec fn sub_codec_args(codec: Seq<char>, k: nat) -> Seq<Seq<char>>
    decreases k,
{
    if k == 0 {
        Seq::<Seq<char>>::empty()
    } else {
        sub_codec_args(codec, (k - 1) as nat) + seq!["-c:s:"@ + dec((k - 1) as nat), codec]
    }
}

/// Codec and language of the external subtitle, output subtitle track `n`.
pub open spec fn external_sub_args(n: nat, sub: Seq<char>, s: EncodeSettings) -> Seq<Seq<char>> {
    seq![
        "-c:s:"@ + dec(n),
        sub_codec_spec(ext_lower(sub), s.container),
        "-metadata:s:s:"@ + dec(n),
        "language="@ + s.subtitles.language@,
    ]
}

/// Output position of the first kept source subtitle stream that is s:`n`.
pub open spec fn find_sub(kept: Seq<SubtitleStream>, n: int) -> Option<nat>
    decreases kept.len(),
{
    if kept.len() == 0 {
        None
    } else {
        match find_sub(kept.drop_last(), n) {
            Some(p) => Some(p),
            None => if kept.last().rel_index as int == n {
                Some((kept.len() - 1) as nat)
            } else {
                None
            },
        }
    }
}

/// Output subtitle track chosen as the default: the external file for -1 (when it
/// is muxed), the kept source stream s:N for N; none when the choice is unset or
/// names no output track.
pub open spec fn sub_default_pos(info: MediaInfo, s: EncodeSettings, sub: Option<Seq<char>>, clip: Option<(u64, u64)>) -> Option<nat> {
    let kept = kept_list(info, s, clip);
    match s.subtitles.default_track {
        Some(d) => if d == -1 {
            if mux_external(s, sub, clip) {
                Some(kept.len())
            } else {
                None
            }
        } else if d >= 0 {
            find_sub(kept, d as int)
        } else {
            None
        },
        None => None,
    }
}

/// Default flags of the output subtitle tracks: with a chosen track, `default` on it
/// and `0` on every other; otherwise the external file, when muxed, is the default.
pub open spec fn sub_disp_args(info: MediaInfo, s: EncodeSettings, sub: Option<Seq<char>>, clip: Option<(u64, u64)>) -> Seq<Seq<char>> {
    let n = kept_list(info, s, clip).len();
    let mux = mux_external(s, sub, clip);
    match sub_default_pos(info, s, sub, clip) {
        Some(p) => disp_args("-disposition:s:"@, p, if mux {
            n + 1
        } else {
            n
        }),
        None => if mux {
            seq!["-disposition:s:"@ + dec(n), "default"@]
        } else {
            Seq::<Seq<char>>::empty()
        },
    }
}

pub open spec fn subtitle_codec_args(info: MediaInfo, s: EncodeSettings, sub: Option<Seq<char>>, clip: Option<(u64, u64)>) -> Seq<Seq<char>> {
    let kept = kept_list(info, s, clip);
    let codec = if s.container == Container::Mp4 {
        "mov_text"@
    } else {
        "copy"@
    };
    sub_codec_args(codec, kept.len()) + (if mux_external(s, sub, clip) {
        external_sub_args(kept.len(), sub->0, s)
    } else {
        Seq::<Seq<char>>::empty()
    }) + sub_disp_args(info, s, sub, clip)
}

/// The sample aspect ratio differs from 1 by more than 0.001.
pub open spec fn sar_off(v: VideoStream) -> bool {
    let (n, d) = v.sar_used();
    1000 * ((n as int) - (d as int)) > d || 1000 * ((d as int) - (n as int)) > d
}

/// The first text-based subtitle stream among the first `k`.
pub open spec fn first_text_sub(subs: Seq<SubtitleStream>, k: nat) -> Option<SubtitleStream>
    decreases k,
{
    if k == 0 {
        None
    } else {
        match first_text_sub(subs, (k - 1) as nat) {
            Some(x) => Some(x),
            None => if subs[k - 1].text_based {
                Some(subs[k - 1])
            } else {
                None
            },
        }
    }
}

pub open spec fn crop_filter(c: Crop) -> Seq<char> {
    "crop="@ + dec(c.w as nat) + seq![':'] + dec(c.h as nat) + seq![':'] + dec(c.x as nat) + seq![':']
        + dec(c.y as nat)
}

pub open spec fn scale_filter(w: u32, h: u32) -> Seq<char> {
    "scale="@ + dec(w as nat) + seq![':'] + dec(h as nat) + ":flags=lanczos"@
}

/// The video filter chain: crop, scale to the output size, burn-in subtitles.
pub open spec fn video_filters(info: MediaInfo, s: EncodeSettings, crop: Option<Crop>, sub: Option<Seq<char>>, clip: Option<(u64, u64)>) -> Seq<Seq<char>> {
    let v = info.video->0;
    let ec = effective_crop_spec(info, s, crop);
    let (ow, oh) = output_dims_spec(info, s, crop);
    let needs_scale = ow != v.width || oh != v.height || sar_off(v) || ec is Some;
    (match ec {
        Some(c) => seq![crop_filter(c)],
        None => Seq::<Seq<char>>::empty(),
    }) + (if needs_scale {
        seq![scale_filter(ow, oh), "setsar=1"@]
    } else {
        Seq::<Seq<char>>::empty()
    }) + if s.subtitles.burn_in && clip is None {
        match sub {
            Some(p) => seq!["subtitles="@ + filter_escape(p)],
            None => match first_text_sub(info.subtitles@, info.subtitles@.len()) {
                Some(st) => seq![
                    "subtitles="@ + filter_escape(info.path@) + ":si="@ + dec(st.rel_index as nat),
                ],
                None => Seq::<Seq<char>>::empty(),
            },
        }
    } else {
        Seq::<Seq<char>>::empty()
    }
}

/// Filters joined with commas.
pub open spec fn join_comma(v: Seq<Seq<char>>) -> Seq<char>
    decreases v.len(),
{
    if v.len() == 0 {
        Seq::<char>::empty()
    } else if v.len() == 1 {
        v[0]
    } else {
        join_comma(v.drop_last()) + seq![','] + v.last()
    }
}

pub open spec fn vf_args(filters: Seq<Seq<char>>) -> Seq<Seq<char>> {
    if filters.len() > 0 {
        seq!["-vf"@, join_comma(filters)]
    } else {
        Seq::<Seq<char>>::empty()
    }
}

/// The hardware encoder in use, if fast mode applies to this codec.
pub open spec fn hw_encoder(s: EncodeSettings, caps: Capabilities) -> Option<Seq<char>> {
    if s.hardware {
        match s.codec {
            Codec::X264 => match caps.hw_h264 {
                Some(e) => Some(e@),
                None => None,
            },
            Codec::Hevc => match caps.hw_hevc {
                Some(e) => Some(e@),
                None => None,
            },
            Codec::Av1 => None,
        }
    } else {
        None
    }
}

/// VideoToolbox quality from the CRF: `clamp(100 - 2·crf, 30, 90)`.
pub open spec fn hw_quality(crf: u8) -> nat {
    let q: int = if 2 * crf >= 100 {
        0
    } else {
        100 - 2 * crf
    };
    if q < 30 {
        30
    } else if q > 90 {
        90
    } else {
        q as nat
    }
}

pub open spec fn hw_rate_args(enc: Seq<char>, crf: u8) -> Seq<Seq<char>> {
    let c = dec(crf as nat);
    if ends_with(enc, "videotoolbox"@) {
        seq!["-q:v"@, dec(hw_quality(crf)), "-allow_sw"@, "1"@]
    } else if ends_with(enc, "nvenc"@) {
        seq!["-rc"@, "vbr"@, "-cq"@, c, "-b:v"@, "0"@, "-preset"@, "p6"@]
    } else if ends_with(enc, "qsv"@) {
        seq!["-global_quality"@, c, "-preset"@, "slower"@]
    } else if ends_with(enc, "amf"@) {
        seq!["-rc"@, "cqp"@, "-qp_i"@, c, "-qp_p"@, c]
    } else {
        Seq::<Seq<char>>::empty()
    }
}

pub open spec fn hw_args(enc: Seq<char>, s: EncodeSettings) -> Seq<Seq<char>> {
    seq!["-c:v"@, enc] + hw_rate_args(enc, s.effective_crf_spec()) + seq![
        "-pix_fmt"@,
        if s.codec == Codec::Hevc && s.ten_bit {
            "p010le"@
        } else {
            "yuv420p"@
        },
    ] + if s.codec == Codec::Hevc {
        seq!["-tag:v"@, "hvc1"@]
    } else {
        Seq::<Seq<char>>::empty()
    }
}

/// The tune in use: the override, else the content type's tune for the codec.
pub open spec fn tune_choice(s: EncodeSettings) -> Option<Seq<char>> {
    match s.tune {
        Some(t) => Some(t@),
        None => if s.codec == Codec::X264 && s.content_type == ContentType::Drama {
            Some("film"@)
        } else if s.codec != Codec::Av1 && s.content_type == ContentType::Animation {
            Some("animation"@)
        } else {
            None
        },
    }
}

pub open spec fn tune_args(s: EncodeSettings) -> Seq<Seq<char>> {
    match tune_choice(s) {
        Some(t) => if t.len() > 0 && t != "none"@ {
            seq!["-tune"@, t]
        } else {
            Seq::<Seq<char>>::empty()
        },
        None => Seq::<Seq<char>>::empty(),
    }
}

/// 10-bit output (always for AV1).
pub open spec fn ten_bit(s: EncodeSettings) -> bool {
    s.ten_bit || s.codec == Codec::Av1
}

pub open spec fn pix_fmt(s: EncodeSettings) -> Seq<char> {
    if ten_bit(s) {
        "yuv420p10le"@
    } else {
        "yuv420p"@
    }
}

pub open spec fn software_args(s: EncodeSettings, out_h: u32, fps: Ratio) -> Seq<Seq<char>> {
    let p = s.effective_preset_spec();
    let c = dec(s.effective_crf_spec() as nat);
    match s.codec {
        Codec::X264 => seq![
            "-c:v"@,
            "libx264"@,
            "-preset"@,
            p,
            "-crf"@,
            c,
            "-profile:v"@,
            if ten_bit(s) {
                "high10"@
            } else {
                "main"@
            },
            "-level"@,
            x264_level_spec(out_h, fps),
        ] + tune_args(s) + seq!["-pix_fmt"@, pix_fmt(s)],
        Codec::Hevc => seq![
            "-c:v"@,
            "libx265"@,
            "-preset"@,
            p,
            "-crf"@,
            c,
            "-profile:v"@,
            if ten_bit(s) {
                "main10"@
            } else {
                "main"@
            },
        ] + tune_args(s) + seq![
            "-pix_fmt"@,
            pix_fmt(s),
            "-tag:v"@,
            "hvc1"@,
            "-x265-params"@,
            "log-level=error"@,
        ],
        Codec::Av1 => seq![
            "-c:v"@,
            "libsvtav1"@,
            "-preset"@,
            p,
            "-crf"@,
            c,
            "-svtav1-params"@,
            "tune=0:film-grain=0"@,
            "-pix_fmt"@,
            "yuv420p10le"@,
        ],
    }
}

pub open spec fn video_args(info: MediaInfo, s: EncodeSettings, crop: Option<Crop>, caps: Capabilities) -> Seq<Seq<char>> {
    match hw_encoder(s, caps) {
        Some(enc) => hw_args(enc, s),
        None => software_args(s, output_dims_spec(info, s, crop).1, info.video->0.fps),
    }
}

pub open spec fn layout_of(t: AudioStream) -> Option<Seq<char>> {
    match t.channel_layout {
        Some(l) => Some(l@),
        None => None,
    }
}

/// `-filter:a:N <pan>` for the first `k` kept tracks that have a known surround layout.
pub open spec fn pan_args(audio: Seq<AudioStream>, sel: Seq<usize>, k: nat) -> Seq<Seq<char>>
    decreases k,
{
    if k == 0 {
        Seq::<Seq<char>>::empty()
    } else {
        let t = audio[sel[k - 1] as int];
        pan_args(audio, sel, (k - 1) as nat) + if t.channels > 2 {
            match downmix_spec(layout_of(t), t.channels) {
                Some(p) => seq!["-filter:a:"@ + dec((k - 1) as nat), p],
                None => Seq::<Seq<char>>::empty(),
            }
        } else {
            Seq::<Seq<char>>::empty()
        }
    }
}

/// Some of the first `k` kept tracks is surround without a known downmix.
pub open spec fn needs_generic_downmix(audio: Seq<AudioStream>, sel: Seq<usize>, k: nat) -> bool
    decreases k,
{
    if k == 0 {
        false
    } else {
        let t = audio[sel[k - 1] as int];
        needs_generic_downmix(audio, sel, (k - 1) as nat) || (t.channels > 2 && downmix_spec(
            layout_of(t),
            t.channels,
        ) is None)
    }
}

/// `<prefix>j` with `default` for output track `pos` and `0` for every other one of
/// the first `k` output tracks.
pub open spec fn disp_args(prefix: Seq<char>, pos: nat, k: nat) -> Seq<Seq<char>>
    decreases k,
{
    if k == 0 {
        Seq::<Seq<char>>::empty()
    } else {
        disp_args(prefix, pos, (k - 1) as nat) + seq![
            prefix + dec((k - 1) as nat),
            if (k - 1) as nat == pos {
                "default"@
            } else {
                "0"@
            },
        ]
    }
}

/// Output position of the first kept audio track that is source stream a:`n`.
pub open spec fn find_audio(audio: Seq<AudioStream>, sel: Seq<usize>, n: usize) -> Option<nat>
    decreases sel.len(),
{
    if sel.len() == 0 {
        None
    } else {
        match find_audio(audio, sel.drop_last(), n) {
            Some(p) => Some(p),
            None => if audio[sel.last() as int].rel_index == n {
                Some((sel.len() - 1) as nat)
            } else {
                None
            },
        }
    }
}

/// Output position of the audio track flagged default: the kept track named by
/// `default_track` where one is kept, else the first kept track.
pub open spec fn audio_default_pos(audio: Seq<AudioStream>, sel: Seq<usize>, d: Option<usize>) -> nat {
    match d {
        Some(n) => match find_audio(audio, sel, n) {
            Some(p) => p,
            None => 0,
        },
        None => 0,
    }
}

pub open spec fn audio_args(info: MediaInfo, s: EncodeSettings, caps: Capabilities) -> Seq<Seq<char>> {
    let sel = select_audio_spec(info, s);
    let a = info.audio@;
    if sel.len() == 0 {
        seq!["-an"@]
    } else {
        seq![
            "-c:a"@,
            caps.audio_encoder_spec(),
            "-b:a"@,
            dec(s.audio.bitrate_kbps as nat) + seq!['k'],
        ] + match s.audio.channels {
            Channels::Mono => seq!["-ac"@, "1"@],
            Channels::Stereo => pan_args(a, sel, sel.len()) + if needs_generic_downmix(
                a,
                sel,
                sel.len(),
            ) {
                seq!["-ac"@, "2"@]
            } else {
                Seq::<Seq<char>>::empty()
            },
        } + disp_args("-disposition:a:"@, audio_default_pos(a, sel, s.audio.default_track), sel.len())
    }
}

pub open spec fn container_args(c: Container) -> Seq<Seq<char>> {
    match c {
        Container::Mkv => seq!["-f"@, "matroska"@],
        Container::Mp4 => seq!["-f"@, "mp4"@, "-movflags"@, "+faststart"@],
    }
}

/// The user's extra arguments that are not blank, among the first `k`.
pub open spec fn extra_args(extra: Seq<String>, k: nat) -> Seq<Seq<char>>
    decreases k,
{
    if k == 0 {
        Seq::<Seq<char>>::empty()
    } else {
        let r = extra_args(extra, (k - 1) as nat);
        if trim(extra[k - 1]@).len() > 0 {
            r.push(extra[k - 1]@)
        } else {
            r
        }
    }
}

fn front_exec(
    info: &MediaInfo,
    s: &EncodeSettings,
    crop: Option<Crop>,
    external_sub: Option<&str>,
    clip: Option<(u64, u64)>,
    caps: &Capabilities,
    sel: &Vec<usize>,
    sub_maps_v: Vec<String>,
) -> (r: Vec<String>)
    requires
        info.video is Some,
        sel@ == select_audio_spec(*info, *s),
        forall|j: int| 0 <= j < sel@.len() ==> #[trigger] sel@[j] < info.audio@.len(),
        strs(sub_maps_v@) == sub_maps(kept_list(*info, *s, clip), kept_list(*info, *s, clip).len()),
    ensures
        strs(r@) == header_args() + clip_args(clip) + input_args(*info, *s, opt_view(external_sub), clip)
            + map_args(*info, *s, opt_view(external_sub), clip) + vf_args(
            video_filters(*info, *s, crop, opt_view(external_sub), clip),
        ) + video_args(*info, *s, crop, *caps) + audio_args(*info, *s, *caps),
{
    let mut a = header_exec();
    extend_args(&mut a, clip_exec(clip));
    extend_args(&mut a, input_exec(info, s, external_sub, clip));
    extend_args(&mut a, maps_exec(info, s, external_sub, clip, sel, sub_maps_v));
    extend_args(&mut a, vf_exec(video_filters_exec(info, s, crop, external_sub, clip)));
    extend_args(&mut a, video_exec(info, s, crop, caps));
    extend_args(&mut a, audio_exec(info, s, caps, sel));
    a
}

#[verifier::rlimit(50)]
fn back_exec(
    info: &MediaInfo,
    s: &EncodeSettings,
    external_sub: Option<&str>,
    output: &str,
    clip: Option<(u64, u64)>,
    sub_codecs_v: Vec<String>,
    kept: usize,
    found: Option<usize>,
) -> (r: Vec<String>)
    requires
        match s.subtitles.default_track {
            Some(d) => d >= 0 ==> opt_nat(found) == find_sub(kept_list(*info, *s, clip), d as int),
            None => true,
        },
        strs(sub_codecs_v@) == sub_codec_args(
            if s.container == Container::Mp4 {
                "mov_text"@
            } else {
                "copy"@
            },
            kept_list(*info, *s, clip).len(),
        ),
        kept == kept_list(*info, *s, clip).len(),
    ensures
        strs(r@) == subtitle_codec_args(*info, *s, opt_view(external_sub), clip) + (if !keep_source_subs(
            *s,
            clip,
        ) && !mux_external(*s, opt_view(external_sub), clip) {
            seq!["-sn"@]
        } else {
            Seq::<Seq<char>>::empty()
        }) + container_args(s.container) + seq!["-max_muxing_queue_size"@, "2048"@] + extra_args(
            s.extra_args@,
            s.extra_args@.len(),
        ) + seq![output@],
{
    let ghost sv = opt_view(external_sub);
    let mux = external_sub.is_some() && !s.subtitles.burn_in && clip.is_none();
    let keep = s.subtitles.keep_source_subs && s.subtitles.mode != SubtitleMode::Off && clip.is_none();
    let mut b: Vec<String> = Vec::new();
    extend_args(&mut b, sub_codecs_v);
    extend_args(&mut b, sub_tail_exec(info, s, external_sub, clip, kept, found));
    assert(strs(b@) =~= subtitle_codec_args(*info, *s, sv, clip));
    let mut c: Vec<String> = Vec::new();
    if !keep && !mux {
        push_lit(&mut c, "-sn");
    }
    match s.container {
        Container::Mkv => {
            push_lit(&mut c, "-f");
            push_lit(&mut c, "matroska");
        },
        Container::Mp4 => {
            push_lit(&mut c, "-f");
            push_lit(&mut c, "mp4");
            push_lit(&mut c, "-movflags");
            push_lit(&mut c, "+faststart");
        },
    }
    push_lit(&mut c, "-max_muxing_queue_size");
    push_lit(&mut c, "2048");
    assert(strs(c@) =~= (if !keep_source_subs(*s, clip) && !mux_external(*s, sv, clip) {
        seq!["-sn"@]
    } else {
        Seq::<Seq<char>>::empty()
    }) + container_args(s.container) + seq!["-max_muxing_queue_size"@, "2048"@]);
    extend_args(&mut c, extras_exec(&s.extra_args));
    push_lit(&mut c, output);
    extend_args(&mut b, c);
    b
}

fn sub_tail_exec(
    info: &MediaInfo,
    s: &EncodeSettings,
    external_sub: Option<&str>,
    clip: Option<(u64, u64)>,
    kept: usize,
    found: Option<usize>,
) -> (r: Vec<String>)
    requires
        match s.subtitles.default_track {
            Some(d) => d >= 0 ==> opt_nat(found) == find_sub(kept_list(*info, *s, clip), d as int),
            None => true,
        },
        kept == kept_list(*info, *s, clip).len(),
    ensures
        strs(r@) == (if mux_external(*s, opt_view(external_sub), clip) {
            external_sub_args(kept as nat, opt_view(external_sub)->0, *s)
        } else {
            Seq::<Seq<char>>::empty()
        }) + sub_disp_args(*info, *s, opt_view(external_sub), clip),
{
    let ghost sv = opt_view(external_sub);
    let mux = external_sub.is_some() && !s.subtitles.burn_in && clip.is_none();
    let mut b: Vec<String> = Vec::new();
    if mux {
        extend_args(&mut b, external_sub_exec(kept, external_sub.unwrap(), s));
    }
    let ghost head = strs(b@);
    let pos: Option<usize> = match s.subtitles.default_track {
        Some(d) => if d == -1 {
            if mux {
                Some(kept)
            } else {
                None
            }
        } else if d >= 0 {
            found
        } else {
            None
        },
        None => None,
    };
    assert(opt_nat(pos) == sub_default_pos(*info, *s, sv, clip));
    proof {
        reveal_strlit("default");
        reveal_strlit("0");
    }
    match pos {
        Some(p) => {
            extend_args(&mut b, disp_exec("-disposition:s:", p, kept));
            if mux {
                push_owned(&mut b, with_number("-disposition:s:", kept as u64));
                if p == kept {
                    push_lit(&mut b, "default");
                } else {
                    push_lit(&mut b, "0");
                }
            }
        },
        None => {
            if mux {
                push_owned(&mut b, with_number("-disposition:s:", kept as u64));
                push_lit(&mut b, "default");
            }
        },
    }
    assert(strs(b@) =~= head + sub_disp_args(*info, *s, sv, clip));
    b
}

/// The complete ffmpeg argument list for a source with a video stream.
pub open spec fn args_spec(
    info: MediaInfo,
    s: EncodeSettings,
    crop: Option<Crop>,
    sub: Option<Seq<char>>,
    output: Seq<char>,
    caps: Capabilities,
    clip: Option<(u64, u64)>,
) -> Seq<Seq<char>> {
    header_args() + clip_args(clip) + input_args(info, s, sub, clip) + map_args(info, s, sub, clip)
        + vf_args(video_filters(info, s, crop, sub, clip)) + video_args(info, s, crop, caps)
        + audio_args(info, s, caps) + subtitle_codec_args(info, s, sub, clip) + (if !keep_source_subs(
        s,
        clip,
    ) && !mux_external(s, sub, clip) {
        seq!["-sn"@]
    } else {
        Seq::<Seq<char>>::empty()
    }) + container_args(s.container) + seq!["-max_muxing_queue_size"@, "2048"@] + extra_args(
        s.extra_args@,
        s.extra_args@.len(),
    ) + seq![output]
}

pub open spec fn opt_view(o: Option<&str>) -> Option<Seq<char>> {
    match o {
        Some(x) => Some(x@),
        None => None,
    }
}


// ---------------------------------------------------------------- building the list

fn secs3_exec(ms: u64) -> (r: String)
    ensures
        r@ == secs3(ms as nat),
{
    let mut r = u64_to_string(ms / 1000);
    r.append(".");
    let frac = u64_to_padded(ms % 1000, 3);
    r.append(frac.as_str());
    proof {
        reveal_strlit(".");
    }
    assert(r@ =~= secs3(ms as nat));
    r
}

fn signed_secs3_exec(ms: i64) -> (r: String)
    ensures
        r@ == signed_secs3(ms as int),
{
    if ms < 0 {
        let m: u64 = if ms == i64::MIN {
            9223372036854775808u64
        } else {
            (-ms) as u64
        };
        let mut r = "-".to_owned();
        let t = secs3_exec(m);
        r.append(t.as_str());
        proof {
            reveal_strlit("-");
        }
        assert(r@ =~= signed_secs3(ms as int));
        r
    } else {
        secs3_exec(ms as u64)
    }
}

/// `prefix` followed by the decimal rendering of `n`.
fn with_number(prefix: &str, n: u64) -> (r: String)
    ensures
        r@ == prefix@ + dec(n as nat),
{
    let mut r = prefix.to_owned();
    let d = u64_to_string(n);
    r.append(d.as_str());
    r
}

fn header_exec() -> (r: Vec<String>)
    ensures
        strs(r@) == header_args(),
{
    let mut a: Vec<String> = Vec::new();
    push_lit(&mut a, "-y");
    push_lit(&mut a, "-hide_banner");
    push_lit(&mut a, "-nostdin");
    push_lit(&mut a, "-loglevel");
    push_lit(&mut a, "error");
    push_lit(&mut a, "-nostats");
    push_lit(&mut a, "-progress");
    push_lit(&mut a, "pipe:1");
    push_lit(&mut a, "-stats_period");
    push_lit(&mut a, "0.5");
    assert(strs(a@) =~= header_args());
    a
}

fn clip_exec(clip: Option<(u64, u64)>) -> (r: Vec<String>)
    ensures
        strs(r@) == clip_args(clip),
{
    let mut a: Vec<String> = Vec::new();
    if let Some((st, du)) = clip {
        push_lit(&mut a, "-ss");
        push_owned(&mut a, secs3_exec(st));
        push_lit(&mut a, "-t");
        push_owned(&mut a, secs3_exec(du));
    }
    assert(strs(a@) =~= clip_args(clip));
    a
}

fn input_exec(info: &MediaInfo, s: &EncodeSettings, sub: Option<&str>, clip: Option<(u64, u64)>) -> (r: Vec<String>)
    ensures
        strs(r@) == input_args(*info, *s, opt_view(sub), clip),
{
    let mut a: Vec<String> = Vec::new();
    push_lit(&mut a, "-i");
    push_owned(&mut a, info.path.clone());
    let mux = sub.is_some() && !s.subtitles.burn_in && clip.is_none();
    if mux {
        let p = sub.unwrap();
        if s.subtitles.delay_ms != 0 {
            push_lit(&mut a, "-itsoffset");
            push_owned(&mut a, signed_secs3_exec(s.subtitles.delay_ms));
        }
        push_lit(&mut a, "-i");
        push_lit(&mut a, p);
    }
    assert(strs(a@) =~= input_args(*info, *s, opt_view(sub), clip));
    a
}

fn sub_kept_exec(st: &SubtitleStream, s: &EncodeSettings) -> (r: bool)
    ensures
        r == sub_kept(*st, *s),
{
    if s.container == Container::Mp4 && !st.text_based {
        return false;
    }
    match &s.subtitles.source_tracks {
        Some(ts) => contains_usize(ts, st.rel_index),
        None => true,
    }
}

/// The subtitle maps and codec arguments of the kept source subtitle streams.
fn source_sub_exec(info: &MediaInfo, s: &EncodeSettings, clip: Option<(u64, u64)>) -> (r: (
    Vec<String>,
    Vec<String>,
    usize,
    Option<usize>,
))
    ensures
        match s.subtitles.default_track {
            Some(d) => d >= 0 ==> opt_nat(r.3) == find_sub(kept_list(*info, *s, clip), d as int),
            None => true,
        },
        strs(r.0@) == sub_maps(kept_list(*info, *s, clip), kept_list(*info, *s, clip).len()),
        strs(r.1@) == sub_codec_args(
            if s.container == Container::Mp4 {
                "mov_text"@
            } else {
                "copy"@
            },
            kept_list(*info, *s, clip).len(),
        ),
        r.2 == kept_list(*info, *s, clip).len(),
{
    let mut maps: Vec<String> = Vec::new();
    let mut codecs: Vec<String> = Vec::new();
    let keep = s.subtitles.keep_source_subs && s.subtitles.mode != SubtitleMode::Off && clip.is_none();
    let codec: &str = if s.container == Container::Mp4 {
        "mov_text"
    } else {
        "copy"
    };
    let ghost cv = if s.container == Container::Mp4 {
        "mov_text"@
    } else {
        "copy"@
    };
    if !keep {
        assert(strs(maps@) =~= Seq::<Seq<char>>::empty());
        assert(strs(codecs@) =~= Seq::<Seq<char>>::empty());
        return (maps, codecs, 0, None);
    }
    let ghost subs = info.subtitles@;
    let target: i64 = match s.subtitles.default_track {
        Some(d) => d,
        None => -1,
    };
    let mut found: Option<usize> = None;
    let mut j: usize = 0;
    let mut i: usize = 0;
    assert(strs(maps@) =~= Seq::<Seq<char>>::empty());
    assert(strs(codecs@) =~= Seq::<Seq<char>>::empty());
    while i < info.subtitles.len()
        invariant
            i <= subs.len(),
            subs == info.subtitles@,
            codec@ == cv,
            j == kept_subs(subs, *s, i as nat).len(),
            j <= i,
            strs(maps@) == sub_maps(kept_subs(subs, *s, i as nat), j as nat),
            strs(codecs@) == sub_codec_args(cv, j as nat),
            opt_nat(found) == find_sub(kept_subs(subs, *s, i as nat), target as int),
            target == (match s.subtitles.default_track {
                Some(d) => d,
                None => -1i64,
            }),
        decreases subs.len() - i,
    {
        let st = &info.subtitles[i];
        let ghost before = kept_subs(subs, *s, i as nat);
        if sub_kept_exec(st, s) {
            let ghost after = kept_subs(subs, *s, (i + 1) as nat);
            proof {
                assert(after == before.push(*st));
                assert(before =~= after.take(j as int));
                assert(after.drop_last() =~= before);
            }
            if found.is_none() && target >= 0 && st.rel_index as u64 == target as u64 {
                found = Some(j);
            }
            push_lit(&mut maps, "-map");
            push_owned(&mut maps, with_number("0:s:", st.rel_index as u64));
            push_owned(&mut codecs, with_number("-c:s:", j as u64));
            push_lit(&mut codecs, codec);
            proof {
                assert(after[j as int] == *st);
                lemma_sub_maps_take(after, before, j as nat);
            }
            j = j + 1;
        }
        i = i + 1;
    }
    (maps, codecs, j, found)
}

pub open spec fn opt_nat(o: Option<usize>) -> Option<nat> {
    match o {
        Some(x) => Some(x as nat),
        None => None,
    }
}

proof fn lemma_kept_subs_from_source(subs: Seq<SubtitleStream>, s: EncodeSettings, k: nat)
    requires
        k <= subs.len(),
    ensures
        forall|j: int|
            0 <= j < kept_subs(subs, s, k).len() ==> sub_kept(#[trigger] kept_subs(subs, s, k)[j], s)
                && subs.contains(kept_subs(subs, s, k)[j]),
    decreases k,
{
    if k > 0 {
        lemma_kept_subs_from_source(subs, s, (k - 1) as nat);
        let r = kept_subs(subs, s, (k - 1) as nat);
        let x = subs[k - 1];
        assert(subs.contains(x));
        if sub_kept(x, s) {
            assert forall|j: int| 0 <= j < r.push(x).len() implies sub_kept(#[trigger] r.push(x)[j], s)
                && subs.contains(r.push(x)[j]) by {
                if j < r.len() {
                    assert(r.push(x)[j] == r[j]);
                }
            }
        }
    }
}

proof fn lemma_kept_subs_complete(subs: Seq<SubtitleStream>, s: EncodeSettings, k: nat)
    requires
        k <= subs.len(),
    ensures
        forall|j: int| 0 <= j < k && sub_kept(#[trigger] subs[j], s) ==> kept_subs(subs, s, k).contains(subs[j]),
    decreases k,
{
    if k > 0 {
        lemma_kept_subs_complete(subs, s, (k - 1) as nat);
        let r = kept_subs(subs, s, (k - 1) as nat);
        let x = subs[k - 1];
        if sub_kept(x, s) {
            assert(r.push(x)[r.len() as int] == x);
            assert forall|j: int| 0 <= j < k - 1 && sub_kept(#[trigger] subs[j], s) implies r.push(x).contains(subs[j]) by {
                let m = choose|m: int| 0 <= m < r.len() && r[m] == subs[j];
                assert(r.push(x)[m] == subs[j]);
            }
        }
    }
}

/// Law: when source subtitles are kept and no track list narrows them, every source
/// subtitle stream is mapped into an mkv, and every text-based one into an mp4.
pub proof fn law_source_subtitles_kept(info: MediaInfo, s: EncodeSettings, clip: Option<(u64, u64)>)
    requires
        keep_source_subs(s, clip),
        s.subtitles.source_tracks is None,
    ensures
        forall|j: int|
            0 <= j < info.subtitles@.len() && (s.container == Container::Mkv || info.subtitles@[j].text_based)
                ==> kept_list(info, s, clip).contains(#[trigger] info.subtitles@[j]),
{
    lemma_kept_subs_complete(info.subtitles@, s, info.subtitles@.len());
    assert forall|j: int|
        0 <= j < info.subtitles@.len() && (s.container == Container::Mkv || info.subtitles@[j].text_based) implies kept_list(
        info,
        s,
        clip,
    ).contains(#[trigger] info.subtitles@[j]) by {
        assert(sub_kept(info.subtitles@[j], s));
    }
}

/// Arguments `2k` and `2k + 1` of `v`.
pub open spec fn pair_at(v: Seq<Seq<char>>, k: int) -> (Seq<char>, Seq<char>) {
    (v[2 * k], v[2 * k + 1])
}

proof fn lemma_sub_maps_shape(kept: Seq<SubtitleStream>, n: nat)
    requires
        n <= kept.len(),
    ensures
        sub_maps(kept, n).len() == 2 * n,
        forall|k: int|
            0 <= k < n ==> #[trigger] pair_at(sub_maps(kept, n), k) == ("-map"@, "0:s:"@ + dec(
                kept[k].rel_index as nat,
            )),
    decreases n,
{
    if n > 0 {
        lemma_sub_maps_shape(kept, (n - 1) as nat);
        let p = sub_maps(kept, (n - 1) as nat);
        let q = seq!["-map"@, "0:s:"@ + dec(kept[n - 1].rel_index as nat)];
        assert(sub_maps(kept, n) == p + q);
        assert forall|k: int| 0 <= k < n implies #[trigger] pair_at(sub_maps(kept, n), k) == (
            "-map"@,
            "0:s:"@ + dec(kept[k].rel_index as nat),
        ) by {
            if k < n - 1 {
                assert(pair_at(p, k) == ("-map"@, "0:s:"@ + dec(kept[k].rel_index as nat)));
                assert((p + q)[2 * k] == p[2 * k]);
                assert((p + q)[2 * k + 1] == p[2 * k + 1]);
            } else {
                assert((p + q)[2 * k] == q[0]);
                assert((p + q)[2 * k + 1] == q[1]);
            }
        }
    }
}

/// Law: the source subtitle streams mapped into the output are the kept ones, in
/// order: the map arguments are "-map", "0:s:N" for each kept stream's N, and each
/// kept stream is one of the source's. Into an mp4 only text-based streams are kept,
/// so a bitmap stream is never mapped (to be converted to mov_text) into an mp4.
pub proof fn law_mp4_maps_text_subtitles_only(info: MediaInfo, s: EncodeSettings, clip: Option<(u64, u64)>)
    ensures
        sub_maps(kept_list(info, s, clip), kept_list(info, s, clip).len()).len() == 2 * kept_list(
            info,
            s,
            clip,
        ).len(),
        forall|k: int|
            0 <= k < kept_list(info, s, clip).len() ==> #[trigger] pair_at(
                sub_maps(kept_list(info, s, clip), kept_list(info, s, clip).len()),
                k,
            ) == ("-map"@, "0:s:"@ + dec(kept_list(info, s, clip)[k].rel_index as nat)),
        forall|k: int|
            0 <= k < kept_list(info, s, clip).len() ==> info.subtitles@.contains(
                #[trigger] kept_list(info, s, clip)[k],
            ),
        s.container == Container::Mp4 ==> forall|k: int|
            0 <= k < kept_list(info, s, clip).len() ==> (#[trigger] kept_list(info, s, clip)[k]).text_based,
{
    let kept = kept_list(info, s, clip);
    lemma_sub_maps_shape(kept, kept.len());
    if keep_source_subs(s, clip) {
        lemma_kept_subs_from_source(info.subtitles@, s, info.subtitles@.len());
        assert forall|k: int| 0 <= k < kept.len() implies info.subtitles@.contains(#[trigger] kept[k]) && sub_kept(
            kept[k],
            s,
        ) by {
            assert(kept[k] == kept_subs(info.subtitles@, s, info.subtitles@.len())[k]);
        }
    }
}

proof fn lemma_sub_maps_take(after: Seq<SubtitleStream>, before: Seq<SubtitleStream>, k: nat)
    requires
        after.len() == k + 1,
        before.len() == k,
        forall|i: int| 0 <= i < k ==> before[i] == after[i],
    ensures
        sub_maps(after, k) == sub_maps(before, k),
    decreases k,
{
    if k > 0 {
        lemma_sub_maps_eq(after, before, (k - 1) as nat);
    }
}

proof fn lemma_sub_maps_eq(a: Seq<SubtitleStream>, b: Seq<SubtitleStream>, k: nat)
    requires
        k <= a.len(),
        k <= b.len(),
        forall|i: int| 0 <= i < k ==> a[i] == b[i],
    ensures
        sub_maps(a, k) == sub_maps(b, k),
    decreases k,
{
    if k > 0 {
        lemma_sub_maps_eq(a, b, (k - 1) as nat);
    }
}


fn audio_maps_exec(info: &MediaInfo, sel: &Vec<usize>) -> (r: Vec<String>)
    requires
        forall|j: int| 0 <= j < sel@.len() ==> #[trigger] sel@[j] < info.audio@.len(),
    ensures
        strs(r@) == audio_maps(info.audio@, sel@, sel@.len()),
{
    let mut a: Vec<String> = Vec::new();
    let mut i: usize = 0;
    assert(strs(a@) =~= Seq::<Seq<char>>::empty());
    while i < sel.len()
        invariant
            i <= sel@.len(),
            forall|j: int| 0 <= j < sel@.len() ==> #[trigger] sel@[j] < info.audio@.len(),
            strs(a@) == audio_maps(info.audio@, sel@, i as nat),
        decreases sel@.len() - i,
    {
        let t = &info.audio[sel[i]];
        push_lit(&mut a, "-map");
        push_owned(&mut a, with_number("0:a:", t.rel_index as u64));
        assert(strs(a@) =~= audio_maps(info.audio@, sel@, (i + 1) as nat));
        i = i + 1;
    }
    a
}

fn maps_exec(
    info: &MediaInfo,
    s: &EncodeSettings,
    sub: Option<&str>,
    clip: Option<(u64, u64)>,
    sel: &Vec<usize>,
    sub_maps_v: Vec<String>,
) -> (r: Vec<String>)
    requires
        sel@ == select_audio_spec(*info, *s),
        forall|j: int| 0 <= j < sel@.len() ==> #[trigger] sel@[j] < info.audio@.len(),
        strs(sub_maps_v@) == sub_maps(kept_list(*info, *s, clip), kept_list(*info, *s, clip).len()),
    ensures
        strs(r@) == map_args(*info, *s, opt_view(sub), clip),
{
    let mut a: Vec<String> = Vec::new();
    push_lit(&mut a, "-map");
    push_lit(&mut a, "0:v:0");
    extend_args(&mut a, audio_maps_exec(info, sel));
    extend_args(&mut a, sub_maps_v);
    let mux = sub.is_some() && !s.subtitles.burn_in && clip.is_none();
    if mux {
        push_lit(&mut a, "-map");
        push_lit(&mut a, "1:0");
    }
    if clip.is_none() {
        push_lit(&mut a, "-map_metadata");
        push_lit(&mut a, "0");
        push_lit(&mut a, "-map_chapters");
        if s.container == Container::Mkv {
            push_lit(&mut a, "0");
        } else {
            push_lit(&mut a, "-1");
        }
    }
    assert(strs(a@) =~= map_args(*info, *s, opt_view(sub), clip));
    a
}

fn external_sub_exec(n: usize, sub: &str, s: &EncodeSettings) -> (r: Vec<String>)
    ensures
        strs(r@) == external_sub_args(n as nat, sub@, *s),
{
    let mut a: Vec<String> = Vec::new();
    let sv = chars_of(sub);
    let ext = ext_lower_of(&sv);
    push_owned(&mut a, with_number("-c:s:", n as u64));
    push_lit(&mut a, sub_codec_for_ext(&ext, s.container));
    push_owned(&mut a, with_number("-metadata:s:s:", n as u64));
    let mut lang = "language=".to_owned();
    lang.append(s.subtitles.language.as_str());
    push_owned(&mut a, lang);
    assert(strs(a@) =~= external_sub_args(n as nat, sub@, *s));
    a
}

fn first_text_sub_exec(subs: &Vec<SubtitleStream>) -> (r: Option<usize>)
    ensures
        match r {
            Some(i) => i < subs@.len() && first_text_sub(subs@, subs@.len()) == Some(subs@[i as int]),
            None => first_text_sub(subs@, subs@.len()) is None,
        },
{
    let mut i: usize = 0;
    while i < subs.len()
        invariant
            i <= subs@.len(),
            first_text_sub(subs@, i as nat) is None,
        decreases subs@.len() - i,
    {
        if subs[i].text_based {
            proof {
                assert(first_text_sub(subs@, (i + 1) as nat) == Some(subs@[i as int]));
                lemma_first_text_prefix(subs@, (i + 1) as nat, subs@.len());
            }
            return Some(i);
        }
        i = i + 1;
    }
    None
}

proof fn lemma_first_text_prefix(subs: Seq<SubtitleStream>, k: nat, n: nat)
    requires
        k <= n,
        first_text_sub(subs, k) is Some,
    ensures
        first_text_sub(subs, n) == first_text_sub(subs, k),
    decreases n - k,
{
    if n > k {
        lemma_first_text_prefix(subs, k, (n - 1) as nat);
    }
}

fn crop_filter_exec(c: Crop) -> (r: String)
    ensures
        r@ == crop_filter(c),
{
    let mut r = with_number("crop=", c.w as u64);
    let h = with_number(":", c.h as u64);
    let x = with_number(":", c.x as u64);
    let y = with_number(":", c.y as u64);
    r.append(h.as_str());
    r.append(x.as_str());
    r.append(y.as_str());
    proof {
        reveal_strlit(":");
    }
    assert(r@ =~= crop_filter(c));
    r
}

fn scale_filter_exec(w: u32, h: u32) -> (r: String)
    ensures
        r@ == scale_filter(w, h),
{
    let mut r = with_number("scale=", w as u64);
    let hh = with_number(":", h as u64);
    r.append(hh.as_str());
    r.append(":flags=lanczos");
    proof {
        reveal_strlit(":");
    }
    assert(r@ =~= scale_filter(w, h));
    r
}

fn sar_off_exec(v: &VideoStream) -> (r: bool)
    ensures
        r == sar_off(*v),
{
    let (n, d) = if v.sar.num > 0 && v.sar.den > 0 {
        (v.sar.num as u64, v.sar.den as u64)
    } else {
        (1u64, 1u64)
    };
    if n >= d {
        1000 * (n - d) > d
    } else {
        1000 * (d - n) > d
    }
}

fn video_filters_exec(
    info: &MediaInfo,
    s: &EncodeSettings,
    crop: Option<Crop>,
    sub: Option<&str>,
    clip: Option<(u64, u64)>,
) -> (r: Vec<String>)
    requires
        info.video is Some,
    ensures
        strs(r@) == video_filters(*info, *s, crop, opt_view(sub), clip),
{
    let v = info.video.as_ref().unwrap();
    let mut f: Vec<String> = Vec::new();
    let ec = effective_crop(info, s, crop);
    if let Some(c) = ec {
        push_owned(&mut f, crop_filter_exec(c));
    }
    let ghost part1 = strs(f@);
    let (ow, oh) = output_dims(info, s, crop);
    let needs_scale = ow != v.width || oh != v.height || sar_off_exec(v) || ec.is_some();
    let mut g: Vec<String> = Vec::new();
    if needs_scale {
        push_owned(&mut g, scale_filter_exec(ow, oh));
        push_lit(&mut g, "setsar=1");
    }
    let ghost part2 = strs(g@);
    let mut b: Vec<String> = Vec::new();
    if s.subtitles.burn_in && clip.is_none() {
        match sub {
            Some(p) => {
                let mut x = "subtitles=".to_owned();
                let e = escape_filter_path(p);
                x.append(e.as_str());
                push_owned(&mut b, x);
                assert(strs(b@) =~= seq!["subtitles="@ + filter_escape(p@)]);
            },
            None => {
                match first_text_sub_exec(&info.subtitles) {
                    Some(k) => {
                        let mut x = "subtitles=".to_owned();
                        let e = escape_filter_path(info.path.as_str());
                        x.append(e.as_str());
                        let si = with_number(":si=", info.subtitles[k].rel_index as u64);
                        x.append(si.as_str());
                        assert(x@ =~= "subtitles="@ + filter_escape(info.path@) + ":si="@ + dec(
                            info.subtitles@[k as int].rel_index as nat,
                        ));
                        push_owned(&mut b, x);
                        assert(strs(b@) =~= seq![
                            "subtitles="@ + filter_escape(info.path@) + ":si="@ + dec(
                                info.subtitles@[k as int].rel_index as nat,
                            ),
                        ]);
                    },
                    None => {},
                }
            },
        }
    }
    let ghost part3 = strs(b@);
    proof {
        assert(part3 =~= if s.subtitles.burn_in && clip is None {
            match opt_view(sub) {
                Some(p) => seq!["subtitles="@ + filter_escape(p)],
                None => match first_text_sub(info.subtitles@, info.subtitles@.len()) {
                    Some(st) => seq![
                        "subtitles="@ + filter_escape(info.path@) + ":si="@ + dec(st.rel_index as nat),
                    ],
                    None => Seq::<Seq<char>>::empty(),
                },
            }
        } else {
            Seq::<Seq<char>>::empty()
        });
    }
    let ghost vv = info.video->0;
    let ghost ecs = effective_crop_spec(*info, *s, crop);
    proof {
        assert(part1 =~= match ecs {
            Some(c) => seq![crop_filter(c)],
            None => Seq::<Seq<char>>::empty(),
        });
        assert(part2 =~= if ow != vv.width || oh != vv.height || sar_off(vv) || ecs is Some {
            seq![scale_filter(ow, oh), "setsar=1"@]
        } else {
            Seq::<Seq<char>>::empty()
        });
    }
    extend_args(&mut f, g);
    extend_args(&mut f, b);
    assert(strs(f@) =~= video_filters(*info, *s, crop, opt_view(sub), clip));
    f
}

fn join_comma_exec(v: &Vec<String>) -> (r: String)
    ensures
        r@ == join_comma(strs(v@)),
{
    let mut r = String::new();
    let mut i: usize = 0;
    while i < v.len()
        invariant
            i <= v@.len(),
            r@ == join_comma(strs(v@).take(i as int)),
        decreases v@.len() - i,
    {
        let ghost t = strs(v@).take(i + 1);
        proof {
            assert(t.drop_last() =~= strs(v@).take(i as int));
            assert(t.last() == v@[i as int]@);
        }
        if i > 0 {
            r.append(",");
            proof {
                reveal_strlit(",");
            }
        } else {
            assert(r@ =~= Seq::<char>::empty());
        }
        r.append(v[i].as_str());
        assert(r@ =~= join_comma(t));
        i = i + 1;
    }
    assert(strs(v@).take(v@.len() as int) =~= strs(v@));
    r
}

fn vf_exec(filters: Vec<String>) -> (r: Vec<String>)
    ensures
        strs(r@) == vf_args(strs(filters@)),
{
    let mut a: Vec<String> = Vec::new();
    if filters.len() > 0 {
        push_lit(&mut a, "-vf");
        push_owned(&mut a, join_comma_exec(&filters));
    }
    assert(strs(a@) =~= vf_args(strs(filters@)));
    a
}

fn str_ends_with(s: &str, suffix: &str) -> (r: bool)
    ensures
        r == ends_with(s@, suffix@),
{
    let sv = chars_of(s);
    let pv = chars_of(suffix);
    if pv.len() > sv.len() {
        return false;
    }
    let r = matches_at(&sv, sv.len() - pv.len(), &pv);
    assert(sv@.subrange(sv@.len() - pv@.len(), sv@.len() as int) =~= sv@.skip(sv@.len() - pv@.len()));
    r
}

fn hw_quality_exec(crf: u8) -> (r: u64)
    ensures
        r == hw_quality(crf),
{
    let c2 = 2 * (crf as u64);
    let q: u64 = if c2 >= 100 {
        0
    } else {
        100 - c2
    };
    if q < 30 {
        30
    } else if q > 90 {
        90
    } else {
        q
    }
}

fn hw_exec(enc: &str, s: &EncodeSettings) -> (r: Vec<String>)
    ensures
        strs(r@) == hw_args(enc@, *s),
{
    let crf = s.effective_crf();
    let mut a: Vec<String> = Vec::new();
    push_lit(&mut a, "-c:v");
    push_lit(&mut a, enc);
    if str_ends_with(enc, "videotoolbox") {
        push_lit(&mut a, "-q:v");
        push_owned(&mut a, u64_to_string(hw_quality_exec(crf)));
        push_lit(&mut a, "-allow_sw");
        push_lit(&mut a, "1");
    } else if str_ends_with(enc, "nvenc") {
        push_lit(&mut a, "-rc");
        push_lit(&mut a, "vbr");
        push_lit(&mut a, "-cq");
        push_owned(&mut a, u64_to_string(crf as u64));
        push_lit(&mut a, "-b:v");
        push_lit(&mut a, "0");
        push_lit(&mut a, "-preset");
        push_lit(&mut a, "p6");
    } else if str_ends_with(enc, "qsv") {
        push_lit(&mut a, "-global_quality");
        push_owned(&mut a, u64_to_string(crf as u64));
        push_lit(&mut a, "-preset");
        push_lit(&mut a, "slower");
    } else if str_ends_with(enc, "amf") {
        push_lit(&mut a, "-rc");
        push_lit(&mut a, "cqp");
        push_lit(&mut a, "-qp_i");
        push_owned(&mut a, u64_to_string(crf as u64));
        push_lit(&mut a, "-qp_p");
        push_owned(&mut a, u64_to_string(crf as u64));
    }
    push_lit(&mut a, "-pix_fmt");
    if s.codec == Codec::Hevc && s.ten_bit {
        push_lit(&mut a, "p010le");
    } else {
        push_lit(&mut a, "yuv420p");
    }
    if s.codec == Codec::Hevc {
        push_lit(&mut a, "-tag:v");
        push_lit(&mut a, "hvc1");
    }
    assert(strs(a@) =~= hw_args(enc@, *s));
    a
}

fn tune_exec(s: &EncodeSettings) -> (r: Vec<String>)
    ensures
        strs(r@) == tune_args(*s),
{
    let mut a: Vec<String> = Vec::new();
    let t: String = match &s.tune {
        Some(t) => t.clone(),
        None => if s.codec == Codec::X264 && s.content_type == ContentType::Drama {
            "film".to_owned()
        } else if s.codec != Codec::Av1 && s.content_type == ContentType::Animation {
            "animation".to_owned()
        } else {
            assert(strs(a@) =~= tune_args(*s));
            return a;
        },
    };
    let tv = chars_of(t.as_str());
    let none = chars_of("none");
    if tv.len() > 0 && !seq_eq(&tv, &none) {
        push_lit(&mut a, "-tune");
        push_owned(&mut a, t);
    }
    assert(strs(a@) =~= tune_args(*s));
    a
}

fn software_exec(s: &EncodeSettings, out_h: u32, fps: Ratio) -> (r: Vec<String>)
    ensures
        strs(r@) == software_args(*s, out_h, fps),
{
    let mut a: Vec<String> = Vec::new();
    let ten = s.ten_bit || s.codec == Codec::Av1;
    let pix: &str = if ten {
        "yuv420p10le"
    } else {
        "yuv420p"
    };
    let preset = s.effective_preset();
    let crf = u64_to_string(s.effective_crf() as u64);
    match s.codec {
        Codec::X264 => {
            push_lit(&mut a, "-c:v");
            push_lit(&mut a, "libx264");
            push_lit(&mut a, "-preset");
            push_owned(&mut a, preset);
            push_lit(&mut a, "-crf");
            push_owned(&mut a, crf);
            push_lit(&mut a, "-profile:v");
            push_lit(&mut a, if ten { "high10" } else { "main" });
            push_lit(&mut a, "-level");
            push_lit(&mut a, x264_level(out_h, fps));
            extend_args(&mut a, tune_exec(s));
            push_lit(&mut a, "-pix_fmt");
            push_lit(&mut a, pix);
        },
        Codec::Hevc => {
            push_lit(&mut a, "-c:v");
            push_lit(&mut a, "libx265");
            push_lit(&mut a, "-preset");
            push_owned(&mut a, preset);
            push_lit(&mut a, "-crf");
            push_owned(&mut a, crf);
            push_lit(&mut a, "-profile:v");
            push_lit(&mut a, if ten { "main10" } else { "main" });
            extend_args(&mut a, tune_exec(s));
            push_lit(&mut a, "-pix_fmt");
            push_lit(&mut a, pix);
            push_lit(&mut a, "-tag:v");
            push_lit(&mut a, "hvc1");
            push_lit(&mut a, "-x265-params");
            push_lit(&mut a, "log-level=error");
        },
        Codec::Av1 => {
            push_lit(&mut a, "-c:v");
            push_lit(&mut a, "libsvtav1");
            push_lit(&mut a, "-preset");
            push_owned(&mut a, preset);
            push_lit(&mut a, "-crf");
            push_owned(&mut a, crf);
            push_lit(&mut a, "-svtav1-params");
            push_lit(&mut a, "tune=0:film-grain=0");
            push_lit(&mut a, "-pix_fmt");
            push_lit(&mut a, "yuv420p10le");
        },
    }
    assert(strs(a@) =~= software_args(*s, out_h, fps));
    a
}

fn video_exec(info: &MediaInfo, s: &EncodeSettings, crop: Option<Crop>, caps: &Capabilities) -> (r: Vec<String>)
    requires
        info.video is Some,
    ensures
        strs(r@) == video_args(*info, *s, crop, *caps),
{
    let hw: Option<&String> = if s.hardware {
        match s.codec {
            Codec::X264 => caps.hw_h264.as_ref(),
            Codec::Hevc => caps.hw_hevc.as_ref(),
            Codec::Av1 => None,
        }
    } else {
        None
    };
    match hw {
        Some(enc) => hw_exec(enc.as_str(), s),
        None => {
            let (_, oh) = output_dims(info, s, crop);
            software_exec(s, oh, info.video.as_ref().unwrap().fps)
        },
    }
}

fn audio_exec(info: &MediaInfo, s: &EncodeSettings, caps: &Capabilities, sel: &Vec<usize>) -> (r: Vec<String>)
    requires
        sel@ == select_audio_spec(*info, *s),
        forall|j: int| 0 <= j < sel@.len() ==> #[trigger] sel@[j] < info.audio@.len(),
    ensures
        strs(r@) == audio_args(*info, *s, *caps),
{
    let mut a: Vec<String> = Vec::new();
    if sel.len() == 0 {
        push_lit(&mut a, "-an");
        assert(strs(a@) =~= audio_args(*info, *s, *caps));
        return a;
    }
    push_lit(&mut a, "-c:a");
    push_lit(&mut a, caps.audio_encoder());
    push_lit(&mut a, "-b:a");
    let mut br = u64_to_string(s.audio.bitrate_kbps as u64);
    br.append("k");
    proof {
        reveal_strlit("k");
    }
    assert(br@ =~= dec(s.audio.bitrate_kbps as nat) + seq!['k']);
    push_owned(&mut a, br);
    assert(strs(a@) =~= seq![
        "-c:a"@,
        caps.audio_encoder_spec(),
        "-b:a"@,
        dec(s.audio.bitrate_kbps as nat) + seq!['k'],
    ]);
    let mut tail: Vec<String> = Vec::new();
    match s.audio.channels {
        Channels::Mono => {
            push_lit(&mut tail, "-ac");
            push_lit(&mut tail, "1");
            assert(strs(tail@) =~= seq!["-ac"@, "1"@]);
        },
        Channels::Stereo => {
            let mut pans: Vec<String> = Vec::new();
            let mut generic = false;
            let mut n: usize = 0;
            assert(strs(pans@) =~= Seq::<Seq<char>>::empty());
            while n < sel.len()
                invariant
                    n <= sel@.len(),
                    forall|j: int| 0 <= j < sel@.len() ==> #[trigger] sel@[j] < info.audio@.len(),
                    strs(pans@) == pan_args(info.audio@, sel@, n as nat),
                    generic == needs_generic_downmix(info.audio@, sel@, n as nat),
                decreases sel@.len() - n,
            {
                let t = &info.audio[sel[n]];
                let ghost before = strs(pans@);
                if t.channels > 2 {
                    let layout: Option<&str> = match &t.channel_layout {
                        Some(l) => Some(l.as_str()),
                        None => None,
                    };
                    assert(opt_view(layout) == layout_of(*t));
                    match downmix_pan(layout, t.channels) {
                        Some(p) => {
                            push_owned(&mut pans, with_number("-filter:a:", n as u64));
                            push_owned(&mut pans, p);
                        },
                        None => {
                            generic = true;
                        },
                    }
                }
                assert(strs(pans@) =~= pan_args(info.audio@, sel@, (n + 1) as nat));
                n = n + 1;
            }
            extend_args(&mut tail, pans);
            if generic {
                push_lit(&mut tail, "-ac");
                push_lit(&mut tail, "2");
            }
            assert(strs(tail@) =~= pan_args(info.audio@, sel@, sel@.len()) + if needs_generic_downmix(
                info.audio@,
                sel@,
                sel@.len(),
            ) {
                seq!["-ac"@, "2"@]
            } else {
                Seq::<Seq<char>>::empty()
            });
        },
    }
    extend_args(&mut a, tail);
    let pos = audio_default_exec(info, sel, s.audio.default_track);
    extend_args(&mut a, disp_exec("-disposition:a:", pos, sel.len()));
    assert(strs(a@) =~= audio_args(*info, *s, *caps));
    a
}

fn disp_exec(prefix: &str, pos: usize, k: usize) -> (r: Vec<String>)
    ensures
        strs(r@) == disp_args(prefix@, pos as nat, k as nat),
{
    let mut a: Vec<String> = Vec::new();
    let mut j: usize = 0;
    assert(strs(a@) =~= Seq::<Seq<char>>::empty());
    while j < k
        invariant
            j <= k,
            strs(a@) == disp_args(prefix@, pos as nat, j as nat),
        decreases k - j,
    {
        let ghost before = strs(a@);
        push_owned(&mut a, with_number(prefix, j as u64));
        if j == pos {
            push_lit(&mut a, "default");
        } else {
            push_lit(&mut a, "0");
        }
        proof {
            reveal_strlit("default");
            reveal_strlit("0");
        }
        assert(strs(a@) =~= disp_args(prefix@, pos as nat, (j + 1) as nat));
        j = j + 1;
    }
    a
}

fn audio_default_exec(info: &MediaInfo, sel: &Vec<usize>, d: Option<usize>) -> (r: usize)
    requires
        forall|j: int| 0 <= j < sel@.len() ==> #[trigger] sel@[j] < info.audio@.len(),
    ensures
        r as nat == audio_default_pos(info.audio@, sel@, d),
{
    let n = match d {
        Some(n) => n,
        None => {
            return 0;
        },
    };
    let mut k: usize = 0;
    assert(sel@.take(0) =~= Seq::<usize>::empty());
    while k < sel.len()
        invariant
            k <= sel@.len(),
            forall|j: int| 0 <= j < sel@.len() ==> #[trigger] sel@[j] < info.audio@.len(),
            find_audio(info.audio@, sel@.take(k as int), n) is None,
            d == Some(n),
        decreases sel@.len() - k,
    {
        assert(sel@.take(k + 1).drop_last() =~= sel@.take(k as int));
        assert(sel@.take(k + 1).last() == sel@[k as int]);
        if info.audio[sel[k]].rel_index == n {
            proof {
                assert(find_audio(info.audio@, sel@.take(k + 1), n) == Some(k as nat));
                lemma_find_audio_prefix(info.audio@, sel@, n, (k + 1) as nat);
            }
            return k;
        }
        k = k + 1;
    }
    assert(sel@.take(k as int) =~= sel@);
    0
}

proof fn lemma_find_audio_prefix(audio: Seq<AudioStream>, sel: Seq<usize>, n: usize, k: nat)
    requires
        k <= sel.len(),
        find_audio(audio, sel.take(k as int), n) is Some,
    ensures
        find_audio(audio, sel, n) == find_audio(audio, sel.take(k as int), n),
    decreases sel.len() - k,
{
    if k < sel.len() {
        assert(sel.take((k + 1) as int).drop_last() =~= sel.take(k as int));
        lemma_find_audio_prefix(audio, sel, n, (k + 1) as nat);
    } else {
        assert(sel.take(k as int) =~= sel);
    }
}

fn extras_exec(extra: &Vec<String>) -> (r: Vec<String>)
    ensures
        strs(r@) == extra_args(extra@, extra@.len()),
{
    let mut a: Vec<String> = Vec::new();
    let mut i: usize = 0;
    assert(strs(a@) =~= Seq::<Seq<char>>::empty());
    while i < extra.len()
        invariant
            i <= extra@.len(),
            strs(a@) == extra_args(extra@, i as nat),
        decreases extra@.len() - i,
    {
        let cv = chars_of(extra[i].as_str());
        let t = crate::text::trim_vec(&cv);
        if t.len() > 0 {
            push_owned(&mut a, extra[i].clone());
        }
        assert(strs(a@) =~= extra_args(extra@, (i + 1) as nat));
        i = i + 1;
    }
    a
}

/// The complete ffmpeg argument list; an error when the source has no video stream.
pub fn build_args(input: BuildInput) -> (r: Result<Vec<String>, BuildError>)
    ensures
        match r {
            Ok(a) => input.info.video is Some && strs(a@) == args_spec(
                *input.info,
                *input.settings,
                input.crop,
                opt_view(input.external_sub),
                input.output@,
                *input.caps,
                input.clip,
            ),
            Err(e) => input.info.video is None && e == BuildError::NoVideo,
        },
{
    let BuildInput { info, settings, crop, external_sub, output, caps, clip } = input;
    if info.video.is_none() {
        return Err(BuildError::NoVideo);
    }
    let s = settings;
    let sel = select_audio(info, s);
    let (sub_maps_v, sub_codecs_v, kept, found) = source_sub_exec(info, s, clip);
    let ghost sv = opt_view(external_sub);
    let a = front_exec(info, s, crop, external_sub, clip, caps, &sel, sub_maps_v);
    let b = back_exec(info, s, external_sub, output, clip, sub_codecs_v, kept, found);
    let mut a = a;
    extend_args(&mut a, b);
    assert(strs(a@) =~= args_spec(*info, *s, crop, sv, output@, *caps, clip));
    Ok(a)
}

} // verus!
