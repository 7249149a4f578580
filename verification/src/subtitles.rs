//! Subtitle discovery rules, language tags, candidate ranking and SRT delay shifting.
use vstd::prelude::*;
use crate::command::strip_suffix_all;
use crate::models::SubCandidate;
use crate::path::{ext_lower, ext_lower_of, file_stem, file_stem_of};
use crate::text::{
    chars_of, contains_seq, dec_padded, lower, lower_vec, seq_eq, starts_with, string_of, trim, trim_vec,
    u64_to_padded,
};

verus! {

// ---------------------------------------------------------------- languages

/// ISO 639-2 code of a lower-case language token, where recognised.
pub open spec fn lang_code(t: Seq<char>) -> Option<Seq<char>> {
    if t == "en"@ || t == "eng"@ || t == "english"@ {
        Some("eng"@)
    } else if t == "es"@ || t == "spa"@ || t == "spanish"@ || t == "español"@ {
        Some("spa"@)
    } else if t == "fr"@ || t == "fre"@ || t == "fra"@ || t == "french"@ {
        Some("fre"@)
    } else if t == "de"@ || t == "ger"@ || t == "deu"@ || t == "german"@ {
        Some("ger"@)
    } else if t == "it"@ || t == "ita"@ || t == "italian"@ {
        Some("ita"@)
    } else if t == "pt"@ || t == "por"@ || t == "portuguese"@ || t == "pt-br"@ {
        Some("por"@)
    } else if t == "ru"@ || t == "rus"@ || t == "russian"@ {
        Some("rus"@)
    } else if t == "ja"@ || t == "jpn"@ || t == "japanese"@ {
        Some("jpn"@)
    } else if t == "ko"@ || t == "kor"@ || t == "korean"@ {
        Some("kor"@)
    } else if t == "zh"@ || t == "chi"@ || t == "zho"@ || t == "chinese"@ {
        Some("chi"@)
    } else if t == "ar"@ || t == "ara"@ || t == "arabic"@ {
        Some("ara"@)
    } else if t == "hi"@ || t == "hin"@ || t == "hindi"@ {
        Some("hin"@)
    } else if t == "bn"@ || t == "ben"@ || t == "bengali"@ || t == "bangla"@ {
        Some("ben"@)
    } else if t == "tr"@ || t == "tur"@ || t == "turkish"@ {
        Some("tur"@)
    } else if t == "nl"@ || t == "dut"@ || t == "nld"@ || t == "dutch"@ {
        Some("dut"@)
    } else if t == "sv"@ || t == "swe"@ || t == "swedish"@ {
        Some("swe"@)
    } else if t == "pl"@ || t == "pol"@ || t == "polish"@ {
        Some("pol"@)
    } else if t == "id"@ || t == "ind"@ || t == "indonesian"@ {
        Some("ind"@)
    } else if t == "th"@ || t == "tha"@ || t == "thai"@ {
        Some("tha"@)
    } else if t == "vi"@ || t == "vie"@ || t == "vietnamese"@ {
        Some("vie"@)
    } else {
        None
    }
}

/// A token normalised for lookup: trimmed, ASCII lower-cased, with trailing
/// ".hi", ".sdh" and ".forced" markers removed (in that order).
pub open spec fn lang_token(token: Seq<char>) -> Seq<char> {
    strip_suffix_all(
        strip_suffix_all(strip_suffix_all(lower(trim(token)), ".hi"@), ".sdh"@),
        ".forced"@,
    )
}

/// Normalise a language token to ISO 639-2 where recognised.
pub open spec fn parse_lang_spec(token: Seq<char>) -> Option<Seq<char>> {
    lang_code(lang_token(token))
}

/// Law: ASCII case and blanks around a token do not change its language.
pub proof fn law_parse_lang_ignores_case_and_blanks(t: Seq<char>)
    ensures
        parse_lang_spec(crate::text::upper(t)) == parse_lang_spec(t),
        parse_lang_spec(seq![' '] + t + seq![' ']) == parse_lang_spec(t),
        parse_lang_spec(seq![' '] + crate::text::upper(t) + seq![' ']) == parse_lang_spec(t),
{
    crate::text::lemma_lower_trim_upper(t);
    let u = crate::text::upper(t);
    crate::text::lemma_trim_blank_back(seq![' '] + t);
    crate::text::lemma_trim_blank_front(t);
    crate::text::lemma_trim_blank_back(seq![' '] + u);
    crate::text::lemma_trim_blank_front(u);
}

/// The codes that language tokens normalise to.
pub open spec fn lang_codes() -> Seq<Seq<char>> {
    seq![
        "eng"@, "spa"@, "fre"@, "ger"@, "ita"@, "por"@, "rus"@, "jpn"@, "kor"@, "chi"@,
        "ara"@, "hin"@, "ben"@, "tur"@, "dut"@, "swe"@, "pol"@, "ind"@, "tha"@, "vie"@,
    ]
}

/// A three-letter lower-case token is its own normal form.
proof fn lemma_plain_token(c: Seq<char>)
    requires
        c.len() == 3,
        forall|i: int| 0 <= i < 3 ==> 'a' <= #[trigger] c[i] && c[i] <= 'z',
    ensures
        lang_token(c) == c,
{
    assert(!crate::text::is_ws(c[0]));
    assert(!crate::text::is_ws(c.last()));
    assert(crate::text::trim(c) =~= c);
    assert(lower(c) =~= c);
    reveal_strlit(".hi");
    reveal_strlit(".sdh");
    reveal_strlit(".forced");
    assert(!crate::text::ends_with(c, ".hi"@)) by {
        if crate::text::ends_with(c, ".hi"@) {
            assert(c.skip(0)[0] == ".hi"@[0]);
        }
    }
    assert(!crate::text::ends_with(c, ".sdh"@));
    assert(!crate::text::ends_with(c, ".forced"@));
}

/// Law: a recognised token normalises to one of the codes, and a code normalises to
/// itself.
pub proof fn law_parse_lang_idempotent(t: Seq<char>)
    ensures
        parse_lang_spec(t) matches Some(c) ==> lang_codes().contains(c) && parse_lang_spec(c) == Some(c),
{
    reveal_strlit("en"); reveal_strlit("eng"); reveal_strlit("english");
    reveal_strlit("es"); reveal_strlit("spa"); reveal_strlit("spanish"); reveal_strlit("español");
    reveal_strlit("fr"); reveal_strlit("fre"); reveal_strlit("fra"); reveal_strlit("french");
    reveal_strlit("de"); reveal_strlit("ger"); reveal_strlit("deu"); reveal_strlit("german");
    reveal_strlit("it"); reveal_strlit("ita"); reveal_strlit("italian");
    reveal_strlit("pt"); reveal_strlit("por"); reveal_strlit("portuguese"); reveal_strlit("pt-br");
    reveal_strlit("ru"); reveal_strlit("rus"); reveal_strlit("russian");
    reveal_strlit("ja"); reveal_strlit("jpn"); reveal_strlit("japanese");
    reveal_strlit("ko"); reveal_strlit("kor"); reveal_strlit("korean");
    reveal_strlit("zh"); reveal_strlit("chi"); reveal_strlit("zho"); reveal_strlit("chinese");
    reveal_strlit("ar"); reveal_strlit("ara"); reveal_strlit("arabic");
    reveal_strlit("hi"); reveal_strlit("hin"); reveal_strlit("hindi");
    reveal_strlit("bn"); reveal_strlit("ben"); reveal_strlit("bengali"); reveal_strlit("bangla");
    reveal_strlit("tr"); reveal_strlit("tur"); reveal_strlit("turkish");
    reveal_strlit("nl"); reveal_strlit("dut"); reveal_strlit("nld"); reveal_strlit("dutch");
    reveal_strlit("sv"); reveal_strlit("swe"); reveal_strlit("swedish");
    reveal_strlit("pl"); reveal_strlit("pol"); reveal_strlit("polish");
    reveal_strlit("id"); reveal_strlit("ind"); reveal_strlit("indonesian");
    reveal_strlit("th"); reveal_strlit("tha"); reveal_strlit("thai");
    reveal_strlit("vi"); reveal_strlit("vie"); reveal_strlit("vietnamese");
    let codes = lang_codes();
    if let Some(c) = parse_lang_spec(t) {
        let k = choose|k: int| 0 <= k < 20 && codes[k] == c;
        assert(0 <= k < 20 && codes[k] == c) by {
            if c == "eng"@ { assert(codes[0] == c); }
            else if c == "spa"@ { assert(codes[1] == c); }
            else if c == "fre"@ { assert(codes[2] == c); }
            else if c == "ger"@ { assert(codes[3] == c); }
            else if c == "ita"@ { assert(codes[4] == c); }
            else if c == "por"@ { assert(codes[5] == c); }
            else if c == "rus"@ { assert(codes[6] == c); }
            else if c == "jpn"@ { assert(codes[7] == c); }
            else if c == "kor"@ { assert(codes[8] == c); }
            else if c == "chi"@ { assert(codes[9] == c); }
            else if c == "ara"@ { assert(codes[10] == c); }
            else if c == "hin"@ { assert(codes[11] == c); }
            else if c == "ben"@ { assert(codes[12] == c); }
            else if c == "tur"@ { assert(codes[13] == c); }
            else if c == "dut"@ { assert(codes[14] == c); }
            else if c == "swe"@ { assert(codes[15] == c); }
            else if c == "pol"@ { assert(codes[16] == c); }
            else if c == "ind"@ { assert(codes[17] == c); }
            else if c == "tha"@ { assert(codes[18] == c); }
            else { assert(codes[19] == c); }
        }
        lemma_plain_token(c);
        assert(lang_code(c) == Some(c));
    }
}

fn is_lit(t: &[char], lit: &str) -> (r: bool)
    ensures
        r == (t@ == lit@),
{
    let l = chars_of(lit);
    seq_eq(t, &l)
}

fn lang_code_exec(t: &[char]) -> (r: Option<&'static str>)
    ensures
        match r {
            Some(c) => lang_code(t@) == Some(c@),
            None => lang_code(t@) is None,
        },
{
    if is_lit(t, "en") || is_lit(t, "eng") || is_lit(t, "english") {
        Some("eng")
    } else if is_lit(t, "es") || is_lit(t, "spa") || is_lit(t, "spanish") || is_lit(t, "español") {
        Some("spa")
    } else if is_lit(t, "fr") || is_lit(t, "fre") || is_lit(t, "fra") || is_lit(t, "french") {
        Some("fre")
    } else if is_lit(t, "de") || is_lit(t, "ger") || is_lit(t, "deu") || is_lit(t, "german") {
        Some("ger")
    } else if is_lit(t, "it") || is_lit(t, "ita") || is_lit(t, "italian") {
        Some("ita")
    } else if is_lit(t, "pt") || is_lit(t, "por") || is_lit(t, "portuguese") || is_lit(t, "pt-br") {
        Some("por")
    } else if is_lit(t, "ru") || is_lit(t, "rus") || is_lit(t, "russian") {
        Some("rus")
    } else if is_lit(t, "ja") || is_lit(t, "jpn") || is_lit(t, "japanese") {
        Some("jpn")
    } else if is_lit(t, "ko") || is_lit(t, "kor") || is_lit(t, "korean") {
        Some("kor")
    } else if is_lit(t, "zh") || is_lit(t, "chi") || is_lit(t, "zho") || is_lit(t, "chinese") {
        Some("chi")
    } else if is_lit(t, "ar") || is_lit(t, "ara") || is_lit(t, "arabic") {
        Some("ara")
    } else if is_lit(t, "hi") || is_lit(t, "hin") || is_lit(t, "hindi") {
        Some("hin")
    } else if is_lit(t, "bn") || is_lit(t, "ben") || is_lit(t, "bengali") || is_lit(t, "bangla") {
        Some("ben")
    } else if is_lit(t, "tr") || is_lit(t, "tur") || is_lit(t, "turkish") {
        Some("tur")
    } else if is_lit(t, "nl") || is_lit(t, "dut") || is_lit(t, "nld") || is_lit(t, "dutch") {
        Some("dut")
    } else if is_lit(t, "sv") || is_lit(t, "swe") || is_lit(t, "swedish") {
        Some("swe")
    } else if is_lit(t, "pl") || is_lit(t, "pol") || is_lit(t, "polish") {
        Some("pol")
    } else if is_lit(t, "id") || is_lit(t, "ind") || is_lit(t, "indonesian") {
        Some("ind")
    } else if is_lit(t, "th") || is_lit(t, "tha") || is_lit(t, "thai") {
        Some("tha")
    } else if is_lit(t, "vi") || is_lit(t, "vie") || is_lit(t, "vietnamese") {
        Some("vie")
    } else {
        None
    }
}

fn lang_token_exec(token: &[char]) -> (r: Vec<char>)
    ensures
        r@ == lang_token(token@),
{
    let t = lower_vec(&trim_vec(token));
    let a = crate::command::strip_suffix_chars(&t, &chars_of(".hi"));
    let b = crate::command::strip_suffix_chars(&a, &chars_of(".sdh"));
    crate::command::strip_suffix_chars(&b, &chars_of(".forced"))
}

fn parse_lang_chars(token: &[char]) -> (r: Option<String>)
    ensures
        match r {
            Some(c) => parse_lang_spec(token@) == Some(c@),
            None => parse_lang_spec(token@) is None,
        },
{
    let t = lang_token_exec(token);
    match lang_code_exec(&t) {
        Some(c) => Some(c.to_owned()),
        None => None,
    }
}

/// Normalise a language token to ISO 639-2 where recognised.
pub fn parse_lang(token: &str) -> (r: Option<String>)
    ensures
        match r {
            Some(c) => parse_lang_spec(token@) == Some(c@),
            None => parse_lang_spec(token@) is None,
        },
{
    parse_lang_chars(&chars_of(token))
}

// ---------------------------------------------------------------- languages in file names

/// Separators between the parts of a subtitle file name.
pub open spec fn is_name_sep(c: char) -> bool {
    c == '.' || c == '_' || c == '-' || c == ' '
}

/// Split at every separator, keeping empty pieces.
pub open spec fn split_seps(p: Seq<char>) -> Seq<Seq<char>>
    decreases p.len(),
{
    if p.len() == 0 {
        seq![Seq::<char>::empty()]
    } else {
        let r = split_seps(p.drop_last());
        if is_name_sep(p.last()) {
            r.push(Seq::<char>::empty())
        } else {
            r.update(r.len() - 1, r.last().push(p.last()))
        }
    }
}

/// The first of the first `k` pieces that names a language.
pub open spec fn first_lang(pieces: Seq<Seq<char>>, k: nat) -> Option<Seq<char>>
    decreases k,
{
    if k == 0 {
        None
    } else {
        match first_lang(pieces, (k - 1) as nat) {
            Some(l) => Some(l),
            None => parse_lang_spec(pieces[k - 1]),
        }
    }
}

/// The first language named by a part of `s`.
pub open spec fn lang_in(s: Seq<char>) -> Option<Seq<char>> {
    first_lang(split_seps(s), split_seps(s).len())
}

/// Number of leading separators.
pub open spec fn seps_prefix_len(s: Seq<char>) -> nat
    decreases s.len(),
{
    if s.len() > 0 && is_name_sep(s[0]) {
        1 + seps_prefix_len(s.skip(1))
    } else {
        0
    }
}

/// The language of a subtitle stem given the video stem ("movie.en" → eng).
pub open spec fn lang_from_suffix_spec(video_stem: Seq<char>, sub_stem: Seq<char>) -> Option<Seq<char>> {
    if !starts_with(sub_stem, video_stem) {
        None
    } else {
        let rest0 = sub_stem.skip(video_stem.len() as int);
        let rest = rest0.skip(seps_prefix_len(rest0) as int);
        if rest.len() == 0 {
            None
        } else {
            lang_in(rest)
        }
    }
}

fn is_name_sep_exec(c: char) -> (r: bool)
    ensures
        r == is_name_sep(c),
{
    c == '.' || c == '_' || c == '-' || c == ' '
}

/// The first language named by a part of `s`.
fn lang_in_exec(s: &[char]) -> (r: Option<String>)
    ensures
        match r {
            Some(c) => lang_in(s@) == Some(c@),
            None => lang_in(s@) is None,
        },
{
    let mut pieces: Vec<Vec<char>> = Vec::new();
    pieces.push(Vec::new());
    let mut i: usize = 0;
    proof {
        assert(s@.take(0) =~= Seq::<char>::empty());
        assert(pieces@.map_values(|v: Vec<char>| v@) =~= split_seps(s@.take(0)));
    }
    while i < s.len()
        invariant
            i <= s@.len(),
            pieces@.len() >= 1,
            pieces@.map_values(|v: Vec<char>| v@) == split_seps(s@.take(i as int)),
        decreases s@.len() - i,
    {
        let c = s[i];
        let ghost before = pieces@.map_values(|v: Vec<char>| v@);
        proof {
            assert(s@.take(i + 1).drop_last() =~= s@.take(i as int));
            assert(s@.take(i + 1).last() == c);
        }
        if is_name_sep_exec(c) {
            pieces.push(Vec::new());
            assert(pieces@.map_values(|v: Vec<char>| v@) =~= before.push(Seq::<char>::empty()));
        } else {
            let mut piece = pieces.pop().unwrap();
            piece.push(c);
            pieces.push(piece);
            assert(pieces@.map_values(|v: Vec<char>| v@) =~= before.update(
                before.len() - 1,
                before.last().push(c),
            ));
        }
        i = i + 1;
    }
    assert(s@.take(s@.len() as int) =~= s@);
    let ghost pv = pieces@.map_values(|v: Vec<char>| v@);
    let mut k: usize = 0;
    while k < pieces.len()
        invariant
            k <= pieces@.len(),
            pv == pieces@.map_values(|v: Vec<char>| v@),
            pv == split_seps(s@),
            first_lang(pv, k as nat) is None,
        decreases pieces@.len() - k,
    {
        let r = parse_lang_chars(&pieces[k]);
        proof {
            assert(pv[k as int] == pieces@[k as int]@);
        }
        if r.is_some() {
            proof {
                lemma_first_lang_prefix(pv, (k + 1) as nat, pv.len());
            }
            return r;
        }
        k = k + 1;
    }
    None
}

proof fn lemma_first_lang_prefix(pieces: Seq<Seq<char>>, k: nat, n: nat)
    requires
        k <= n,
        first_lang(pieces, k) is Some,
    ensures
        first_lang(pieces, n) == first_lang(pieces, k),
    decreases n - k,
{
    if n > k {
        lemma_first_lang_prefix(pieces, k, (n - 1) as nat);
    }
}

/// Removes leading separators.
fn skip_seps(s: &[char]) -> (r: Vec<char>)
    ensures
        r@ == s@.skip(seps_prefix_len(s@) as int),
{
    let mut a: usize = 0;
    proof {
        assert(s@.skip(0) =~= s@);
    }
    while a < s.len() && is_name_sep_exec(s[a])
        invariant
            a <= s@.len(),
            seps_prefix_len(s@) == a + seps_prefix_len(s@.skip(a as int)),
        decreases s@.len() - a,
    {
        proof {
            assert(s@.skip(a as int).skip(1) =~= s@.skip(a + 1));
        }
        a = a + 1;
    }
    proof {
        assert(seps_prefix_len(s@.skip(a as int)) == 0);
    }
    crate::path::slice_from(s, a)
}

fn lang_from_suffix_chars(video_stem: &[char], sub_stem: &[char]) -> (r: Option<String>)
    ensures
        match r {
            Some(c) => lang_from_suffix_spec(video_stem@, sub_stem@) == Some(c@),
            None => lang_from_suffix_spec(video_stem@, sub_stem@) is None,
        },
{
    if !crate::text::seq_starts_with(sub_stem, video_stem) {
        return None;
    }
    let rest0 = crate::path::slice_from(sub_stem, video_stem.len());
    let rest = skip_seps(&rest0);
    if rest.len() == 0 {
        return None;
    }
    lang_in_exec(&rest)
}

/// The language of a subtitle stem given the video stem ("movie.en" → eng).
pub fn lang_from_suffix(video_stem: &str, sub_stem: &str) -> (r: Option<String>)
    ensures
        match r {
            Some(c) => lang_from_suffix_spec(video_stem@, sub_stem@) == Some(c@),
            None => lang_from_suffix_spec(video_stem@, sub_stem@) is None,
        },
{
    lang_from_suffix_chars(&chars_of(video_stem), &chars_of(sub_stem))
}

// ---------------------------------------------------------------- candidate files

/// Extensions of subtitle files.
pub open spec fn is_sub_ext(e: Seq<char>) -> bool {
    e == "srt"@ || e == "ass"@ || e == "ssa"@ || e == "vtt"@ || e == "sub"@
}

/// A subtitle file; a `.sub` next to a `.idx` is VobSub (bitmap) and does not count.
pub open spec fn is_sub_file_spec(path: Seq<char>, idx_exists: bool) -> bool {
    let e = ext_lower(path);
    is_sub_ext(e) && !(e == "sub"@ && idx_exists)
}

/// Whether `path` is a subtitle file; `idx_exists` says whether the same path with
/// the extension ".idx" exists.
pub fn is_sub_file(path: &str, idx_exists: bool) -> (r: bool)
    ensures
        r == is_sub_file_spec(path@, idx_exists),
{
    let e = ext_lower_of(&chars_of(path));
    let is_sub = is_lit(&e, "sub");
    let ok = is_lit(&e, "srt") || is_lit(&e, "ass") || is_lit(&e, "ssa") || is_lit(&e, "vtt") || is_sub;
    ok && !(is_sub && idx_exists)
}

/// The score and language of a subtitle file whose lower-case stem is `stem_lc`, for
/// a video whose lower-case stem is `video_stem_lc`: same stem scores `base`, the
/// stem followed by a separator scores `base - 10` with the language of the suffix,
/// any other file scores `base - 30` (only when `any_match`) with the first language
/// named in its stem.
pub open spec fn score_spec(stem_lc: Seq<char>, video_stem_lc: Seq<char>, base: u32, any_match: bool) -> Option<(u32, Option<Seq<char>>)> {
    if stem_lc == video_stem_lc {
        Some((base, None))
    } else if starts_with(stem_lc, video_stem_lc) && is_name_sep(stem_lc[video_stem_lc.len() as int]) {
        Some(((base - 10) as u32, lang_from_suffix_spec(video_stem_lc, stem_lc)))
    } else if any_match {
        Some(((base - 30) as u32, lang_in(stem_lc)))
    } else {
        None
    }
}

/// The candidate for the subtitle file at `path`, if it is one.
pub open spec fn candidate_spec(
    path: Seq<char>,
    video_stem_lc: Seq<char>,
    base: u32,
    any_match: bool,
    source: Seq<char>,
) -> Option<(Seq<char>, u32, Option<Seq<char>>, Seq<char>)> {
    let stem = match file_stem(path) {
        Some(s) => s,
        None => Seq::<char>::empty(),
    };
    match score_spec(lower(stem), video_stem_lc, base, any_match) {
        Some((score, lang)) => Some((path, score, lang, source)),
        None => None,
    }
}

/// The candidate entry for one subtitle file found in a folder.
pub fn candidate(path: &str, video_stem_lc: &str, base_score: u32, any_match: bool, source: &str) -> (r: Option<SubCandidate>)
    requires
        base_score >= 30,
    ensures
        match r {
            Some(c) => candidate_spec(path@, video_stem_lc@, base_score, any_match, source@) == Some(
                (c.path@, c.score, crate::probe::opt_str(c.language), c.source@),
            ),
            None => candidate_spec(path@, video_stem_lc@, base_score, any_match, source@) is None,
        },
{
    let p = chars_of(path);
    let stem: Vec<char> = match file_stem_of(&p) {
        Some(s) => s,
        None => Vec::new(),
    };
    let stem_lc = lower_vec(&stem);
    let v = chars_of(video_stem_lc);
    proof {
        if starts_with(stem_lc@, v@) && stem_lc@.len() == v@.len() {
            assert(stem_lc@ =~= v@);
        }
    }
    let (score, lang) = if seq_eq(&stem_lc, &v) {
        (base_score, None)
    } else if crate::text::seq_starts_with(&stem_lc, &v) && v.len() < stem_lc.len() && is_name_sep_exec(
        stem_lc[v.len()],
    ) {
        (base_score - 10, lang_from_suffix_chars(&v, &stem_lc))
    } else if any_match {
        (base_score - 30, lang_in_exec(&stem_lc))
    } else {
        return None;
    };
    Some(SubCandidate { path: path.to_owned(), language: lang, source: source.to_owned(), score })
}

// ---------------------------------------------------------------- choosing a candidate

/// Ranking key: the candidate's score, +15 when its language is the preferred one,
/// +5 when its language is unknown.
pub open spec fn rank(c: SubCandidate, preferred: Seq<char>) -> nat {
    (c.score as nat) + match c.language {
        Some(l) => if l@ == preferred {
            15nat
        } else {
            0nat
        },
        None => 5nat,
    }
}

/// The best-ranked candidate among the first `k`, the later one on ties.
pub open spec fn best_index(cands: Seq<SubCandidate>, preferred: Seq<char>, k: nat) -> nat
    recommends
        k >= 1,
    decreases k,
{
    if k <= 1 {
        0
    } else {
        let b = best_index(cands, preferred, (k - 1) as nat);
        if rank(cands[k - 1], preferred) >= rank(cands[b as int], preferred) {
            (k - 1) as nat
        } else {
            b
        }
    }
}

proof fn lemma_best_index(cands: Seq<SubCandidate>, preferred: Seq<char>, k: nat)
    requires
        1 <= k,
    ensures
        best_index(cands, preferred, k) < k,
        forall|i: int| 0 <= i < k ==> rank(#[trigger] cands[i], preferred) <= rank(
            cands[best_index(cands, preferred, k) as int],
            preferred,
        ),
    decreases k,
{
    if k > 1 {
        lemma_best_index(cands, preferred, (k - 1) as nat);
    }
}

fn rank_exec(c: &SubCandidate, preferred: &str) -> (r: u32)
    requires
        c.score <= u32::MAX - 15,
    ensures
        r == rank(*c, preferred@),
{
    let bonus: u32 = match &c.language {
        Some(l) => if crate::text::str_eq(l.as_str(), preferred) {
            15
        } else {
            0
        },
        None => 5,
    };
    c.score + bonus
}

/// The candidate with the highest ranking key (the last one among equals).
pub fn best_candidate<'a>(cands: &'a [SubCandidate], preferred_lang: &str) -> (r: Option<&'a SubCandidate>)
    requires
        forall|i: int| 0 <= i < cands@.len() ==> #[trigger] cands@[i].score <= u32::MAX - 15,
    ensures
        match r {
            Some(c) => cands@.len() > 0 && *c == cands@[best_index(
                cands@,
                preferred_lang@,
                cands@.len(),
            ) as int],
            None => cands@.len() == 0,
        },
{
    if cands.len() == 0 {
        return None;
    }
    let mut best: usize = 0;
    let mut best_rank = rank_exec(&cands[0], preferred_lang);
    let mut i: usize = 1;
    while i < cands.len()
        invariant
            1 <= i <= cands@.len(),
            forall|j: int| 0 <= j < cands@.len() ==> #[trigger] cands@[j].score <= u32::MAX - 15,
            best as nat == best_index(cands@, preferred_lang@, i as nat),
            best < i,
            best_rank == rank(cands@[best as int], preferred_lang@),
        decreases cands@.len() - i,
    {
        let r = rank_exec(&cands[i], preferred_lang);
        if r >= best_rank {
            best = i;
            best_rank = r;
        }
        i = i + 1;
    }
    Some(&cands[best])
}

/// Law: no candidate ranks above the chosen one.
pub proof fn law_best_candidate_ranks_highest(cands: Seq<SubCandidate>, preferred: Seq<char>)
    requires
        cands.len() >= 1,
    ensures
        forall|i: int| 0 <= i < cands.len() ==> rank(#[trigger] cands[i], preferred) <= rank(
            cands[best_index(cands, preferred, cands.len()) as int],
            preferred,
        ),
{
    lemma_best_index(cands, preferred, cands.len());
}

// ---------------------------------------------------------------- SRT delay shifting

/// Position `i` of `s` holds a decimal digit (what the timestamp pattern's `\d`
/// matches: any Unicode decimal digit).
pub open spec fn dg(s: Seq<char>, i: int) -> bool {
    0 <= i < s.len() && crate::cropdetect::is_dec_digit(s[i])
}

/// Position `i` of `s` holds an ASCII digit.
pub open spec fn adg(s: Seq<char>, i: int) -> bool {
    0 <= i < s.len() && crate::cropdetect::is_digit(s[i])
}

/// Position `i` of `s` holds the character `c`.
pub open spec fn ch(s: Seq<char>, i: int, c: char) -> bool {
    0 <= i < s.len() && s[i] == c
}

/// The value of the ASCII digit at position `i`.
pub open spec fn dval(s: Seq<char>, i: int) -> nat {
    ((s[i] as u32) - 48) as nat
}

/// The one-digit field at `a` as `str::parse` reads it, 0 when it does not parse.
pub open spec fn num1(s: Seq<char>, a: int) -> nat {
    if adg(s, a) {
        dval(s, a)
    } else {
        0
    }
}

/// The two-digit field at `a` as `str::parse` reads it, 0 when it does not parse.
pub open spec fn num2(s: Seq<char>, a: int) -> nat {
    if adg(s, a) && adg(s, a + 1) {
        dval(s, a) * 10 + dval(s, a + 1)
    } else {
        0
    }
}

/// After the hour digits, at `j`: `:MM:SS` then `,` or `.` then a digit.
pub open spec fn ts_rest(s: Seq<char>, j: int) -> bool {
    &&& ch(s, j, ':')
    &&& dg(s, j + 1)
    &&& dg(s, j + 2)
    &&& ch(s, j + 3, ':')
    &&& dg(s, j + 4)
    &&& dg(s, j + 5)
    &&& (ch(s, j + 6, ',') || ch(s, j + 6, '.'))
    &&& dg(s, j + 7)
}

/// A timestamp `H[H]:MM:SS[,.]F[F[F]]` starts at `i`: the number of its hour digits,
/// two when two digits lead to a match (the greedy choice), else one.
pub open spec fn ts_hour_len(s: Seq<char>, i: int) -> Option<nat> {
    if dg(s, i) && dg(s, i + 1) && ts_rest(s, i + 2) {
        Some(2)
    } else if dg(s, i) && ts_rest(s, i + 1) {
        Some(1)
    } else {
        None
    }
}

/// Number of fraction digits taken at `k` (at most three).
pub open spec fn frac_len(s: Seq<char>, k: int) -> nat {
    let r = crate::cropdetect::dec_run(s, k);
    if r > 3 {
        3
    } else {
        r
    }
}

/// The fraction read as milliseconds: its digits padded on the right with zeros to
/// three (0 when they are not all ASCII digits, which `str::parse` refuses).
pub open spec fn frac_ms(s: Seq<char>, k: int, n: nat) -> nat {
    if !(adg(s, k) && (n >= 2 ==> adg(s, k + 1)) && (n >= 3 ==> adg(s, k + 2))) {
        0
    } else if n == 1 {
        dval(s, k) * 100
    } else if n == 2 {
        dval(s, k) * 100 + dval(s, k + 1) * 10
    } else {
        dval(s, k) * 100 + dval(s, k + 1) * 10 + dval(s, k + 2)
    }
}

/// End of the timestamp whose hour has `hl` digits at `i`.
pub open spec fn ts_end(s: Seq<char>, i: int, hl: nat) -> int {
    i + hl + 7 + frac_len(s, i + hl + 7)
}

/// Milliseconds written by the timestamp whose hour has `hl` digits at `i`.
pub open spec fn ts_value(s: Seq<char>, i: int, hl: nat) -> nat {
    let j = i + hl;
    let h = if hl == 2 {
        num2(s, i)
    } else {
        num1(s, i)
    };
    let m = num2(s, j + 1);
    let sec = num2(s, j + 4);
    h * 3600000 + m * 60000 + sec * 1000 + frac_ms(s, j + 7, frac_len(s, j + 7))
}

/// `HH:MM:SS,mmm` (hours take more digits when they pass 99).
pub open spec fn fmt_ts(t: nat) -> Seq<char> {
    dec_padded(t / 3600000, 2) + seq![':'] + dec_padded((t / 60000) % 60, 2) + seq![':'] + dec_padded(
        (t / 1000) % 60,
        2,
    ) + seq![','] + dec_padded(t % 1000, 3)
}

/// A time moved by `delay` milliseconds, never below zero.
pub open spec fn shifted(t: nat, delay: int) -> nat {
    if t + delay < 0 {
        0
    } else {
        (t + delay) as nat
    }
}

/// Every timestamp of `line` from position `i` on, found left to right without
/// overlap, rewritten shifted by `delay`.
pub open spec fn shift_from(line: Seq<char>, i: int, delay: int) -> Seq<char>
    decreases line.len() - i,
{
    if i < 0 || i >= line.len() {
        Seq::empty()
    } else {
        match ts_hour_len(line, i) {
            Some(hl) => {
                if i < ts_end(line, i, hl) <= line.len() {
                    fmt_ts(shifted(ts_value(line, i, hl), delay)) + shift_from(line, ts_end(line, i, hl), delay)
                } else {
                    Seq::empty()
                }
            },
            None => seq![line[i]] + shift_from(line, i + 1, delay),
        }
    }
}

/// A cue timing line (one containing "-->") has its timestamps shifted; other lines
/// are kept.
pub open spec fn shift_line(line: Seq<char>, delay: int) -> Seq<char> {
    if contains_seq(line, "-->"@) {
        shift_from(line, 0, delay)
    } else {
        line
    }
}

/// Position of the first '\n' at or after `i`, or the length.
pub open spec fn next_nl(s: Seq<char>, i: int) -> int
    decreases s.len() - i,
{
    if i < 0 || i >= s.len() {
        s.len() as int
    } else if s[i] == '\n' {
        i
    } else {
        next_nl(s, i + 1)
    }
}

/// A line ended by "\r\n" loses its '\r'.
pub open spec fn strip_cr(l: Seq<char>) -> Seq<char> {
    if l.len() > 0 && l.last() == '\r' {
        l.drop_last()
    } else {
        l
    }
}

/// The lines of `s` from position `i` (as `str::lines` splits them), each shifted
/// and followed by '\n'.
pub open spec fn shift_srt_from(s: Seq<char>, i: int, delay: int) -> Seq<char>
    decreases s.len() - i,
{
    if i < 0 || i >= s.len() {
        Seq::empty()
    } else {
        let k = next_nl(s, i);
        if i <= k < s.len() {
            shift_line(strip_cr(s.subrange(i, k)), delay) + seq!['\n'] + shift_srt_from(s, k + 1, delay)
        } else {
            shift_line(s.subrange(i, s.len() as int), delay) + seq!['\n']
        }
    }
}

/// Law: moving a time by `delay` and back restores it, unless the first move was cut
/// off at zero.
pub proof fn law_shift_inverse(t: nat, delay: int)
    requires
        t + delay >= 0,
    ensures
        shifted(shifted(t, delay), -delay) == t,
{
}

proof fn lemma_digit_char(d: nat)
    requires
        d < 10,
    ensures
        crate::cropdetect::is_digit(crate::text::digit_char(d)),
        crate::cropdetect::is_dec_digit(crate::text::digit_char(d)),
        ((crate::text::digit_char(d) as u32) - 48) as nat == d,
{
}

proof fn lemma_padded2(n: nat)
    requires
        n < 100,
    ensures
        dec_padded(n, 2) == seq![crate::text::digit_char(n / 10), crate::text::digit_char(n % 10)],
{
    if n < 10 {
        assert(crate::text::dec(n) == seq![crate::text::digit_char(n)]);
        assert(dec_padded(n, 2) =~= seq![crate::text::digit_char(n / 10), crate::text::digit_char(n % 10)]);
    } else {
        assert(crate::text::dec(n / 10) == seq![crate::text::digit_char(n / 10)]);
        assert(crate::text::dec(n) =~= seq![crate::text::digit_char(n / 10), crate::text::digit_char(n % 10)]);
    }
}

proof fn lemma_padded3(n: nat)
    requires
        n < 1000,
    ensures
        dec_padded(n, 3) == seq![
            crate::text::digit_char(n / 100),
            crate::text::digit_char((n / 10) % 10),
            crate::text::digit_char(n % 10),
        ],
{
    let d = crate::text::dec(n);
    if n < 10 {
        assert(d == seq![crate::text::digit_char(n)]);
        assert(dec_padded(n, 3) =~= seq![
            crate::text::digit_char(n / 100),
            crate::text::digit_char((n / 10) % 10),
            crate::text::digit_char(n % 10),
        ]);
    } else if n < 100 {
        assert(crate::text::dec(n / 10) == seq![crate::text::digit_char(n / 10)]);
        assert(d =~= seq![crate::text::digit_char(n / 10), crate::text::digit_char(n % 10)]);
        assert(dec_padded(n, 3) =~= seq![
            crate::text::digit_char(n / 100),
            crate::text::digit_char((n / 10) % 10),
            crate::text::digit_char(n % 10),
        ]);
    } else {
        assert(crate::text::dec(n / 100) == seq![crate::text::digit_char(n / 100)]);
        assert(crate::text::dec(n / 10) =~= seq![crate::text::digit_char(n / 100), crate::text::digit_char((n / 10) % 10)]);
        assert(d =~= seq![
            crate::text::digit_char(n / 100),
            crate::text::digit_char((n / 10) % 10),
            crate::text::digit_char(n % 10),
        ]);
    }
}

proof fn lemma_time_parts(t: nat)
    ensures
        t == (t / 3600000) * 3600000 + ((t / 60000) % 60) * 60000 + ((t / 1000) % 60) * 1000 + t % 1000,
{
    let a = t / 1000;
    let b = a / 60;
    assert(t == a * 1000 + t % 1000);
    assert(a == b * 60 + a % 60);
    assert(t / 60000 == b) by {
        vstd::arithmetic::div_mod::lemma_div_denominator(t as int, 1000, 60);
    }
    assert(b / 60 == t / 3600000) by {
        vstd::arithmetic::div_mod::lemma_div_denominator(t as int, 60000, 60);
    }
    assert(b == (b / 60) * 60 + b % 60);
    assert(t == (b / 60) * 3600000 + (b % 60) * 60000 + (a % 60) * 1000 + t % 1000) by (nonlinear_arith)
        requires
            t == a * 1000 + t % 1000,
            a == b * 60 + a % 60,
            b == (b / 60) * 60 + b % 60,
    ;
}

/// A written timestamp sitting at `i` of `line`, not followed by another digit, is
/// found there and read back as the time it wrote.
proof fn lemma_ts_at(line: Seq<char>, i: int, t: nat)
    requires
        t < 360000000,
        0 <= i,
        i + 12 <= line.len(),
        line.subrange(i, i + 12) == fmt_ts(t),
        i + 12 == line.len() || !crate::cropdetect::is_dec_digit(line[i + 12]),
    ensures
        ts_hour_len(line, i) == Some(2nat),
        ts_end(line, i, 2) == i + 12,
        ts_value(line, i, 2) == t,
{
    let h = t / 3600000;
    let m = (t / 60000) % 60;
    let sec = (t / 1000) % 60;
    let ms = t % 1000;
    lemma_padded2(h);
    lemma_padded2(m);
    lemma_padded2(sec);
    lemma_padded3(ms);
    let s = fmt_ts(t);
    let dc = |d: nat| crate::text::digit_char(d);
    assert(s =~= seq![
        dc(h / 10), dc(h % 10), ':', dc(m / 10), dc(m % 10), ':', dc(sec / 10), dc(sec % 10), ',',
        dc(ms / 100), dc((ms / 10) % 10), dc(ms % 10),
    ]);
    assert forall|k: int| 0 <= k < 12 implies line[i + k] == #[trigger] s[k] by {
        assert(line.subrange(i, i + 12)[k] == line[i + k]);
    }
    lemma_digit_char(h / 10);
    lemma_digit_char(h % 10);
    lemma_digit_char(m / 10);
    lemma_digit_char(m % 10);
    lemma_digit_char(sec / 10);
    lemma_digit_char(sec % 10);
    lemma_digit_char(ms / 100);
    lemma_digit_char((ms / 10) % 10);
    lemma_digit_char(ms % 10);
    assert(line[i] == s[0] && line[i + 1] == s[1] && line[i + 2] == s[2] && line[i + 3] == s[3]);
    assert(line[i + 4] == s[4] && line[i + 5] == s[5] && line[i + 6] == s[6] && line[i + 7] == s[7]);
    assert(line[i + 8] == s[8] && line[i + 9] == s[9] && line[i + 10] == s[10] && line[i + 11] == s[11]);
    assert(ts_rest(line, i + 2));
    assert(ts_hour_len(line, i) == Some(2nat));
    assert(crate::cropdetect::dec_run(line, i + 12) == 0);
    assert(crate::cropdetect::dec_run(line, i + 11) == 1);
    assert(crate::cropdetect::dec_run(line, i + 10) == 2);
    assert(crate::cropdetect::dec_run(line, i + 9) == 3);
    assert(frac_len(line, i + 9) == 3);
    assert(num2(line, i) == h);
    assert(num2(line, i + 3) == m);
    assert(num2(line, i + 6) == sec);
    assert(frac_ms(line, i + 9, 3) == ms);
    lemma_time_parts(t);
}

#[verifier::rlimit(40)]
proof fn lemma_cue_shift(a: nat, b: nat, d: int)
    requires
        a < 360000000,
        b < 360000000,
    ensures
        shift_from(fmt_ts(a) + " --> "@ + fmt_ts(b), 0, d) == fmt_ts(shifted(a, d)) + " --> "@ + fmt_ts(
            shifted(b, d),
        ),
{
    reveal_strlit(" --> ");
    let sa = fmt_ts(a);
    let sb = fmt_ts(b);
    lemma_padded2(a / 3600000);
    lemma_padded2(b / 3600000);
    lemma_padded2((a / 60000) % 60);
    lemma_padded2((b / 60000) % 60);
    lemma_padded2((a / 1000) % 60);
    lemma_padded2((b / 1000) % 60);
    lemma_padded3(a % 1000);
    lemma_padded3(b % 1000);
    assert(sa.len() == 12 && sb.len() == 12);
    let line = sa + " --> "@ + sb;
    assert(line.subrange(0, 12) =~= sa);
    assert(line.subrange(17, 29) =~= sb);
    lemma_ts_at(line, 0, a);
    lemma_ts_at(line, 17, b);
    let fb = fmt_ts(shifted(b, d));
    assert(shift_from(line, 29, d) == Seq::<char>::empty());
    assert(shift_from(line, 17, d) =~= fb);
    assert(ts_hour_len(line, 16) is None);
    assert(ts_hour_len(line, 15) is None);
    assert(ts_hour_len(line, 14) is None);
    assert(ts_hour_len(line, 13) is None);
    assert(ts_hour_len(line, 12) is None);
    assert(shift_from(line, 16, d) =~= seq![' '] + fb);
    assert(shift_from(line, 15, d) =~= seq!['>', ' '] + fb);
    assert(shift_from(line, 14, d) =~= seq!['-', '>', ' '] + fb);
    assert(shift_from(line, 13, d) =~= seq!['-', '-', '>', ' '] + fb);
    assert(shift_from(line, 12, d) =~= " --> "@ + fb);
    assert(shift_from(line, 0, d) =~= fmt_ts(shifted(a, d)) + " --> "@ + fb);
}

/// Law: a timestamp `HH:MM:SS,mmm` is read as ((HH·60 + MM)·60 + SS)·1000 + mmm
/// milliseconds and written back the same way, so on a cue line each time moves by
/// exactly the delay (never below zero), and a delay of zero changes nothing.
pub proof fn law_cue_times_shift_by_delay(a: nat, b: nat, delay: int)
    requires
        a < 360000000,
        b < 360000000,
    ensures
        ts_value(fmt_ts(a), 0, 2) == a,
        shift_line(fmt_ts(a) + " --> "@ + fmt_ts(b), delay) == fmt_ts(shifted(a, delay)) + " --> "@ + fmt_ts(
            shifted(b, delay),
        ),
        shift_line(fmt_ts(a) + " --> "@ + fmt_ts(b), 0) == fmt_ts(a) + " --> "@ + fmt_ts(b),
{
    reveal_strlit(" --> ");
    reveal_strlit("-->");
    let sa = fmt_ts(a);
    lemma_padded2(a / 3600000);
    lemma_padded2((a / 60000) % 60);
    lemma_padded2((a / 1000) % 60);
    lemma_padded3(a % 1000);
    lemma_padded2(b / 3600000);
    lemma_padded2((b / 60000) % 60);
    lemma_padded2((b / 1000) % 60);
    lemma_padded3(b % 1000);
    assert(sa =~= sa.subrange(0, 12));
    lemma_ts_at(sa, 0, a);
    let line = sa + " --> "@ + fmt_ts(b);
    assert(line.subrange(13, 13 + "-->"@.len() as int) =~= "-->"@);
    assert(contains_seq(line, "-->"@));
    lemma_cue_shift(a, b, delay);
    lemma_cue_shift(a, b, 0);
    assert(shifted(a, 0) == a && shifted(b, 0) == b);
}

/// The largest time a timestamp can write: 99:99:99,999.
pub open spec fn max_ts() -> int {
    362439999
}

proof fn lemma_next_nl(s: Seq<char>, i: int)
    requires
        0 <= i <= s.len(),
    ensures
        i <= next_nl(s, i) <= s.len(),
        next_nl(s, i) < s.len() ==> s[next_nl(s, i)] == '\n',
    decreases s.len() - i,
{
    if i < s.len() && s[i] != '\n' {
        lemma_next_nl(s, i + 1);
    }
}

pub(crate) fn next_nl_exec(s: &[char], i: usize) -> (r: usize)
    requires
        i <= s@.len(),
    ensures
        r == next_nl(s@, i as int),
        i <= r <= s@.len(),
{
    proof {
        lemma_next_nl(s@, i as int);
    }
    let mut k: usize = i;
    while k < s.len() && s[k] != '\n'
        invariant
            i <= k <= s@.len(),
            next_nl(s@, i as int) == next_nl(s@, k as int),
        decreases s@.len() - k,
    {
        k = k + 1;
    }
    k
}

fn is_digit_at(s: &[char], i: usize) -> (r: bool)
    ensures
        r == dg(s@, i as int),
{
    i < s.len() && crate::cropdetect::is_dec_digit_exec(s[i])
}

fn is_ascii_digit_at(s: &[char], i: usize) -> (r: bool)
    ensures
        r == adg(s@, i as int),
{
    i < s.len() && '0' <= s[i] && s[i] <= '9'
}

fn num1_exec(s: &[char], a: usize) -> (r: u64)
    ensures
        r == num1(s@, a as int),
        r <= 9,
{
    if is_ascii_digit_at(s, a) {
        dval_exec(s, a)
    } else {
        0
    }
}

fn num2_exec(s: &[char], a: usize) -> (r: u64)
    requires
        a < s@.len(),
    ensures
        r == num2(s@, a as int),
        r <= 99,
{
    let l = s.len();
    assert(a < l);
    if is_ascii_digit_at(s, a) && is_ascii_digit_at(s, a + 1) {
        dval_exec(s, a) * 10 + dval_exec(s, a + 1)
    } else {
        0
    }
}

fn ch_at(s: &[char], i: usize, c: char) -> (r: bool)
    ensures
        r == ch(s@, i as int, c),
{
    i < s.len() && s[i] == c
}

fn dval_exec(s: &[char], i: usize) -> (r: u64)
    requires
        adg(s@, i as int),
    ensures
        r == dval(s@, i as int),
        r <= 9,
{
    (s[i] as u32 - 48) as u64
}

fn ts_rest_exec(s: &[char], j: usize) -> (r: bool)
    requires
        j <= s@.len(),
    ensures
        r == ts_rest(s@, j as int),
{
    if s.len() - j < 8 {
        return false;
    }
    ch_at(s, j, ':') && is_digit_at(s, j + 1) && is_digit_at(s, j + 2) && ch_at(s, j + 3, ':')
        && is_digit_at(s, j + 4) && is_digit_at(s, j + 5) && (ch_at(s, j + 6, ',') || ch_at(
        s,
        j + 6,
        '.',
    )) && is_digit_at(s, j + 7)
}

fn ts_hour_len_exec(s: &[char], i: usize) -> (r: Option<usize>)
    requires
        i < s@.len(),
    ensures
        match r {
            Some(n) => ts_hour_len(s@, i as int) == Some(n as nat),
            None => ts_hour_len(s@, i as int) is None,
        },
{
    if s.len() - i < 9 {
        return None;
    }
    if is_digit_at(s, i) && is_digit_at(s, i + 1) && ts_rest_exec(s, i + 2) {
        Some(2)
    } else if is_digit_at(s, i) && ts_rest_exec(s, i + 1) {
        Some(1)
    } else {
        None
    }
}

fn frac_len_exec(s: &[char], k: usize) -> (r: usize)
    requires
        k <= s@.len(),
    ensures
        r == frac_len(s@, k as int),
        k + r <= s@.len(),
        forall|j: int| k <= j < k + r ==> dg(s@, j),
{
    proof {
        crate::cropdetect::lemma_dec_run_bound(s@, k as int);
    }
    let mut n: usize = 0;
    while n < 3 && n < s.len() - k && crate::cropdetect::is_dec_digit_exec(s[k + n])
        invariant
            n <= 3,
            k + n <= s@.len(),
            n <= crate::cropdetect::dec_run(s@, k as int),
            forall|j: int| k <= j < k + n ==> dg(s@, j),
        decreases 3 - n,
    {
        proof {
            crate::cropdetect::lemma_dec_run_split(s@, k as int, n as nat);
        }
        n = n + 1;
    }
    proof {
        crate::cropdetect::lemma_dec_run_split(s@, k as int, n as nat);
    }
    n
}

/// The fraction field as milliseconds.
fn frac_ms_exec(s: &[char], k: usize, n: usize) -> (r: u64)
    requires
        1 <= n <= 3,
        k + n <= s@.len(),
    ensures
        r == frac_ms(s@, k as int, n as nat),
        r <= 999,
{
    let l = s.len();
    assert(k + n <= l);
    if !(is_ascii_digit_at(s, k) && (n < 2 || is_ascii_digit_at(s, k + 1)) && (n < 3 || is_ascii_digit_at(s, k + 2))) {
        return 0;
    }
    if n == 1 {
        dval_exec(s, k) * 100
    } else if n == 2 {
        dval_exec(s, k) * 100 + dval_exec(s, k + 1) * 10
    } else {
        dval_exec(s, k) * 100 + dval_exec(s, k + 1) * 10 + dval_exec(s, k + 2)
    }
}

/// `HH:MM:SS,mmm`.
fn fmt_ts_exec(t: u64) -> (r: Vec<char>)
    ensures
        r@ == fmt_ts(t as nat),
{
    let a = chars_of(u64_to_padded(t / 3600000, 2).as_str());
    let b = chars_of(u64_to_padded((t / 60000) % 60, 2).as_str());
    let c = chars_of(u64_to_padded((t / 1000) % 60, 2).as_str());
    let d = chars_of(u64_to_padded(t % 1000, 3).as_str());
    let mut r = a;
    r.push(':');
    let mut i: usize = 0;
    let ghost r0 = r@;
    while i < b.len()
        invariant
            i <= b@.len(),
            r@ == r0 + b@.take(i as int),
        decreases b@.len() - i,
    {
        r.push(b[i]);
        assert(b@.take(i + 1) =~= b@.take(i as int).push(b@[i as int]));
        i = i + 1;
    }
    r.push(':');
    let ghost r1 = r@;
    i = 0;
    while i < c.len()
        invariant
            i <= c@.len(),
            r@ == r1 + c@.take(i as int),
        decreases c@.len() - i,
    {
        r.push(c[i]);
        assert(c@.take(i + 1) =~= c@.take(i as int).push(c@[i as int]));
        i = i + 1;
    }
    r.push(',');
    let ghost r2 = r@;
    i = 0;
    while i < d.len()
        invariant
            i <= d@.len(),
            r@ == r2 + d@.take(i as int),
        decreases d@.len() - i,
    {
        r.push(d[i]);
        assert(d@.take(i + 1) =~= d@.take(i as int).push(d@[i as int]));
        i = i + 1;
    }
    assert(b@.take(b@.len() as int) =~= b@);
    assert(c@.take(c@.len() as int) =~= c@);
    assert(d@.take(d@.len() as int) =~= d@);
    assert(r@ =~= fmt_ts(t as nat));
    r
}

pub(crate) fn extend_chars(r: &mut Vec<char>, v: &[char])
    ensures
        final(r)@ == old(r)@ + v@,
{
    let mut i: usize = 0;
    while i < v.len()
        invariant
            i <= v@.len(),
            r@ == old(r)@ + v@.take(i as int),
        decreases v@.len() - i,
    {
        r.push(v[i]);
        assert(v@.take(i + 1) =~= v@.take(i as int).push(v@[i as int]));
        i = i + 1;
    }
    assert(v@.take(v@.len() as int) =~= v@);
}

proof fn lemma_ts_value_bound(s: Seq<char>, i: int, hl: nat)
    requires
        hl == 1 || hl == 2,
        ts_hour_len(s, i) == Some(hl),
    ensures
        ts_value(s, i, hl) <= max_ts(),
{
    let j = i + hl;
    let k = j + 7;
    crate::cropdetect::lemma_dec_run_bound(s, k);
    assert(num1(s, i) <= 9);
    assert(num2(s, i) <= 99 && num2(s, j + 1) <= 99 && num2(s, j + 4) <= 99);
    let n = frac_len(s, k);
    assert(n >= 1);
    assert(frac_ms(s, k, n) <= 999);
}

/// Shifts every timestamp of one line.
fn shift_timestamps(line: &[char], delay: i64) -> (r: Vec<char>)
    requires
        delay <= i64::MAX - max_ts(),
    ensures
        r@ == shift_from(line@, 0, delay as int),
{
    let mut out: Vec<char> = Vec::new();
    let mut i: usize = 0;
    while i < line.len()
        invariant
            i <= line@.len(),
            delay <= i64::MAX - max_ts(),
            shift_from(line@, 0, delay as int) == out@ + shift_from(line@, i as int, delay as int),
        decreases line@.len() - i,
    {
        match ts_hour_len_exec(line, i) {
            Some(hl) => {
                let j = i + hl;
                let h: u64 = if hl == 2 {
                    num2_exec(line, i)
                } else {
                    num1_exec(line, i)
                };
                let m = num2_exec(line, j + 1);
                let sec = num2_exec(line, j + 4);
                let k = j + 7;
                let n = frac_len_exec(line, k);
                let f: u64 = frac_ms_exec(line, k, n);
                proof {
                    lemma_ts_value_bound(line@, i as int, hl as nat);
                }
                let v: u64 = h * 3600000 + m * 60000 + sec * 1000 + f;
                assert(v == ts_value(line@, i as int, hl as nat));
                let vi = v as i64;
                let total: i64 = vi + delay;
                let t: u64 = if total < 0 {
                    0
                } else {
                    total as u64
                };
                assert(t == shifted(ts_value(line@, i as int, hl as nat), delay as int));
                let piece = fmt_ts_exec(t);
                extend_chars(&mut out, &piece);
                i = k + n;
            },
            None => {
                out.push(line[i]);
                i = i + 1;
            },
        }
    }
    out
}

/// Shifts one line when it is a cue timing line.
fn shift_line_exec(line: &[char], delay: i64) -> (r: Vec<char>)
    requires
        delay <= i64::MAX - max_ts(),
    ensures
        r@ == shift_line(line@, delay as int),
{
    let arrow = chars_of("-->");
    if crate::text::seq_contains(line, &arrow) {
        shift_timestamps(line, delay)
    } else {
        crate::path::copy_chars(line)
    }
}

/// Shift every SRT timestamp by `delay_ms` (negative moves earlier; never below zero).
/// Each line, as `str::lines` splits the input, comes out followed by '\n'.
pub fn shift_srt(input: &str, delay_ms: i64) -> (r: String)
    requires
        delay_ms <= i64::MAX - max_ts(),
    ensures
        r@ == shift_srt_from(input@, 0, delay_ms as int),
{
    let s = chars_of(input);
    let mut out: Vec<char> = Vec::new();
    let mut i: usize = 0;
    while i < s.len()
        invariant
            i <= s@.len(),
            s@ == input@,
            delay_ms <= i64::MAX - max_ts(),
            shift_srt_from(s@, 0, delay_ms as int) == out@ + shift_srt_from(s@, i as int, delay_ms as int),
        decreases s@.len() - i,
    {
        let k = next_nl_exec(&s, i);
        let ghost before = out@;
        if k < s.len() {
            let mut line = crate::path::slice_to(&crate::path::slice_from(&s, i), k - i);
            assert(line@ =~= s@.subrange(i as int, k as int));
            if line.len() > 0 && line[line.len() - 1] == '\r' {
                line.pop();
            }
            assert(line@ =~= strip_cr(s@.subrange(i as int, k as int)));
            let shifted_line = shift_line_exec(&line, delay_ms);
            extend_chars(&mut out, &shifted_line);
            out.push('\n');
            i = k + 1;
        } else {
            let line = crate::path::slice_from(&s, i);
            assert(line@ =~= s@.subrange(i as int, s@.len() as int));
            let shifted_line = shift_line_exec(&line, delay_ms);
            extend_chars(&mut out, &shifted_line);
            out.push('\n');
            i = s.len();
        }
    }
    string_of(&out)
}

// ---------------------------------------------------------------- OpenSubtitles movie hash

/// A byte string read as a little-endian number.
pub open spec fn le_value(b: Seq<u8>) -> nat
    decreases b.len(),
{
    if b.len() == 0 {
        0
    } else {
        b[0] as nat + 256 * le_value(b.skip(1))
    }
}

/// The sum of the first `n` little-endian 8-byte words of `b`.
pub open spec fn words_sum(b: Seq<u8>, n: nat) -> nat
    decreases n,
{
    if n == 0 {
        0
    } else {
        words_sum(b, (n - 1) as nat) + le_value(b.subrange(8 * (n - 1), 8 * n as int))
    }
}

/// OpenSubtitles "moviehash": file size plus the 8-byte little-endian words of the
/// first and of the last chunk (a trailing part shorter than a word is ignored),
/// modulo 2^64.
pub open spec fn movie_hash_value(size: u64, head: Seq<u8>, tail: Seq<u8>) -> nat {
    ((size + words_sum(head, head.len() / 8) + words_sum(tail, tail.len() / 8)) % 0x1_0000_0000_0000_0000) as nat
}

/// Lower-case hexadecimal digit.
pub open spec fn hex_char(d: nat) -> char {
    if d < 10 {
        ((d + 48) as u32) as char
    } else {
        ((d + 87) as u32) as char
    }
}

/// The last `w` hexadecimal digits of `n`, zero-padded.
pub open spec fn hex_fixed(n: nat, w: nat) -> Seq<char>
    decreases w,
{
    if w == 0 {
        Seq::empty()
    } else {
        hex_fixed(n / 16, (w - 1) as nat).push(hex_char(n % 16))
    }
}

/// The size of the chunks read at each end of the file: 64 KiB, or the whole file.
pub open spec fn hash_chunk_len(size: u64) -> u64 {
    if size < 65536 {
        size
    } else {
        65536
    }
}

/// How many bytes to read at each end of a file of `size` bytes.
pub fn hash_chunk(size: u64) -> (r: u64)
    ensures
        r == hash_chunk_len(size),
{
    if size < 65536 {
        size
    } else {
        65536
    }
}

proof fn lemma_le_value_step(b: Seq<u8>, i: int)
    requires
        0 <= i < b.len(),
    ensures
        le_value(b.subrange(i, b.len() as int)) == b[i] as nat + 256 * le_value(b.subrange(i + 1, b.len() as int)),
{
    assert(b.subrange(i, b.len() as int).skip(1) =~= b.subrange(i + 1, b.len() as int));
}

/// 256 to the power `n`.
pub open spec fn pow256(n: nat) -> nat
    decreases n,
{
    if n == 0 {
        1
    } else {
        256 * pow256((n - 1) as nat)
    }
}

proof fn lemma_le_value_bound(b: Seq<u8>)
    ensures
        le_value(b) < pow256(b.len()),
    decreases b.len(),
{
    if b.len() > 0 {
        lemma_le_value_bound(b.skip(1));
        let p = pow256((b.len() - 1) as nat);
        let r = le_value(b.skip(1));
        assert(b[0] as nat + 256 * r < 256 * p) by (nonlinear_arith)
            requires
                r < p,
                b[0] < 256,
        ;
    }
}

proof fn lemma_pow256_mono(a: nat, b: nat)
    requires
        a <= b,
    ensures
        pow256(a) <= pow256(b),
    decreases b,
{
    if a < b {
        lemma_pow256_mono(a, (b - 1) as nat);
    }
}

/// The little-endian word of `b` at bytes `8k .. 8k + 8`.
fn le_word(b: &[u8], k: usize) -> (r: u64)
    requires
        8 * k + 8 <= b@.len(),
    ensures
        r == le_value(b@.subrange(8 * k, 8 * k + 8)),
{
    let ghost w = b@.subrange(8 * k, 8 * k + 8);
    proof {
        lemma_le_value_bound(w);
        reveal_with_fuel(pow256, 9);
    }
    let len = b.len();
    assert(8 * k + 8 <= len);
    let base: usize = 8 * k;
    let mut v: u64 = 0;
    let mut i: usize = 8;
    proof {
        assert(w.subrange(8, 8) =~= Seq::<u8>::empty());
    }
    while i > 0
        invariant
            i <= 8,
            base == 8 * k,
            8 * k + 8 <= b@.len(),
            w == b@.subrange(8 * k, 8 * k + 8),
            v as nat == le_value(w.subrange(i as int, 8)),
            le_value(w) < 0x1_0000_0000_0000_0000,
        decreases i,
    {
        i = i - 1;
        proof {
            lemma_le_value_step(w, i as int);
            assert(w.subrange(i as int, 8) =~= w.subrange(i as int, w.len() as int));
            assert(w.subrange(i + 1, 8) =~= w.subrange(i + 1, w.len() as int));
            lemma_le_value_prefix_bound(w, i as nat);
        }
        v = (b[base + i] as u64) + 256 * v;
    }
    assert(w.subrange(0, 8) =~= w);
    v
}

proof fn lemma_le_value_prefix_bound(w: Seq<u8>, i: nat)
    requires
        w.len() == 8,
        i < 8,
        le_value(w) < 0x1_0000_0000_0000_0000,
    ensures
        (w[i as int] as nat) + 256 * le_value(w.subrange(i + 1 as int, 8)) < 0x1_0000_0000_0000_0000,
{
    lemma_le_value_step(w, i as int);
    assert(w.subrange(i as int, 8) =~= w.subrange(i as int, w.len() as int));
    assert(w.subrange(i + 1 as int, 8) =~= w.subrange(i + 1 as int, w.len() as int));
    lemma_le_value_bound(w.subrange(i as int, 8));
    lemma_pow256_mono((8 - i) as nat, 8);
    reveal_with_fuel(pow256, 9);
}

/// Adds the words of `b` to `acc`, modulo 2^64.
fn add_words(acc: u64, b: &[u8]) -> (r: u64)
    ensures
        r as nat == (acc + words_sum(b@, b@.len() / 8)) % 0x1_0000_0000_0000_0000,
{
    let n = b.len() / 8;
    let mut h: u64 = acc;
    let mut k: usize = 0;
    while k < n
        invariant
            k <= n,
            n == b@.len() / 8,
            h as nat == (acc + words_sum(b@, k as nat)) % 0x1_0000_0000_0000_0000,
        decreases n - k,
    {
        let w = le_word(b, k);
        let ghost prev = acc + words_sum(b@, k as nat);
        proof {
            assert(words_sum(b@, (k + 1) as nat) == words_sum(b@, k as nat) + w);
            vstd::arithmetic::div_mod::lemma_add_mod_noop(prev as int, w as int, 0x1_0000_0000_0000_0000);
            vstd::arithmetic::div_mod::lemma_mod_twice(w as int, 0x1_0000_0000_0000_0000);
        }
        h = ((h as u128 + w as u128) % 0x1_0000_0000_0000_0000u128) as u64;
        k = k + 1;
    }
    h
}

fn hex_char_exec(d: u64) -> (c: char)
    requires
        d < 16,
    ensures
        c == hex_char(d as nat),
{
    if d < 10 {
        crate::text::char_from_ascii((d + 48) as u32)
    } else {
        crate::text::char_from_ascii((d + 87) as u32)
    }
}

/// Sixteen lower-case hexadecimal digits (`format!("{n:016x}")`).
fn hex16(n: u64) -> (r: String)
    ensures
        r@ == hex_fixed(n as nat, 16),
{
    let mut digits: Vec<char> = Vec::new();
    let mut m: u64 = n;
    let mut k: usize = 0;
    while k < 16
        invariant
            k <= 16,
            hex_fixed(n as nat, 16) == hex_fixed(m as nat, (16 - k) as nat) + digits@,
        decreases 16 - k,
    {
        let d = m % 16;
        let c = hex_char_exec(d);
        let ghost old_digits = digits@;
        digits.insert(0, c);
        proof {
            assert(digits@ =~= seq![c] + old_digits);
            assert(hex_fixed(m as nat, (16 - k) as nat) == hex_fixed((m / 16) as nat, (16 - k - 1) as nat).push(
                c,
            ));
            assert(hex_fixed((m / 16) as nat, (16 - k - 1) as nat).push(c) + old_digits =~= hex_fixed(
                (m / 16) as nat,
                (16 - k - 1) as nat,
            ) + digits@);
        }
        m = m / 16;
        k = k + 1;
    }
    assert(hex_fixed(m as nat, 0) =~= Seq::<char>::empty());
    assert(digits@ =~= hex_fixed(n as nat, 16));
    string_of(&digits)
}

/// The OpenSubtitles movie hash of a file of `size` bytes whose first and last
/// chunks are `head` and `tail`, as sixteen lower-case hexadecimal digits.
pub fn movie_hash_of(size: u64, head: &[u8], tail: &[u8]) -> (r: String)
    ensures
        r@ == hex_fixed(movie_hash_value(size, head@, tail@), 16),
{
    let a = add_words(size, head);
    let b = add_words(a, tail);
    proof {
        let m: int = 0x1_0000_0000_0000_0000;
        let x = size + words_sum(head@, head@.len() / 8);
        let y = words_sum(tail@, tail@.len() / 8);
        vstd::arithmetic::div_mod::lemma_add_mod_noop(x as int, y as int, m);
        vstd::arithmetic::div_mod::lemma_mod_twice(y as int, m);
        vstd::arithmetic::div_mod::lemma_mod_twice(x as int, m);
        vstd::arithmetic::div_mod::lemma_add_mod_noop(x % m, y as int, m);
    }
    hex16(b)
}

// ---------------------------------------------------------------- ordering the candidates

/// `a` sorts strictly before `b` as strings do (by code point, a prefix first).
pub open spec fn str_lt(a: Seq<char>, b: Seq<char>) -> bool
    decreases a.len(),
{
    if a.len() == 0 {
        b.len() > 0
    } else if b.len() == 0 {
        false
    } else if (a[0] as u32) < (b[0] as u32) {
        true
    } else if a[0] == b[0] {
        str_lt(a.skip(1), b.skip(1))
    } else {
        false
    }
}

/// Candidates are listed by score, highest first, then by path.
pub open spec fn cand_before(a: SubCandidate, b: SubCandidate) -> bool {
    a.score > b.score || (a.score == b.score && str_lt(a.path@, b.path@))
}

/// Stable insertion of `x` into the ordered list `s`: after every element that `x`
/// does not sort before.
pub open spec fn insert_cand(s: Seq<SubCandidate>, x: SubCandidate) -> Seq<SubCandidate>
    decreases s.len(),
{
    if s.len() == 0 {
        seq![x]
    } else if cand_before(x, s.last()) {
        insert_cand(s.drop_last(), x).push(s.last())
    } else {
        s.push(x)
    }
}

/// The candidates in order (a stable sort: equal keys keep their order).
pub open spec fn sort_cands(s: Seq<SubCandidate>) -> Seq<SubCandidate>
    decreases s.len(),
{
    if s.len() == 0 {
        s
    } else {
        insert_cand(sort_cands(s.drop_last()), s.last())
    }
}

/// Runs of candidates with the same path keep only their first.
pub open spec fn dedup_paths(s: Seq<SubCandidate>) -> Seq<SubCandidate>
    decreases s.len(),
{
    if s.len() <= 1 {
        s
    } else if s.last().path@ == s[s.len() - 2].path@ {
        dedup_paths(s.drop_last())
    } else {
        dedup_paths(s.drop_last()).push(s.last())
    }
}

fn str_lt_exec(a: &str, b: &str) -> (r: bool)
    ensures
        r == str_lt(a@, b@),
{
    let x = chars_of(a);
    let y = chars_of(b);
    let mut i: usize = 0;
    assert(x@.skip(0) =~= x@);
    assert(y@.skip(0) =~= y@);
    while i < x.len() && i < y.len() && x[i] == y[i]
        invariant
            i <= x@.len(),
            i <= y@.len(),
            str_lt(x@, y@) == str_lt(x@.skip(i as int), y@.skip(i as int)),
        decreases x@.len() - i,
    {
        proof {
            assert(x@.skip(i as int).skip(1) =~= x@.skip(i + 1));
            assert(y@.skip(i as int).skip(1) =~= y@.skip(i + 1));
        }
        i = i + 1;
    }
    if i == x.len() {
        i < y.len()
    } else if i == y.len() {
        false
    } else {
        (x[i] as u32) < (y[i] as u32)
    }
}

fn cand_before_exec(a: &SubCandidate, b: &SubCandidate) -> (r: bool)
    ensures
        r == cand_before(*a, *b),
{
    a.score > b.score || (a.score == b.score && str_lt_exec(a.path.as_str(), b.path.as_str()))
}

proof fn lemma_insert_at(s: Seq<SubCandidate>, x: SubCandidate, j: int)
    requires
        0 <= j <= s.len(),
        forall|k: int| j <= k < s.len() ==> cand_before(x, #[trigger] s[k]),
        j == 0 || !cand_before(x, s[j - 1]),
    ensures
        insert_cand(s, x) == s.take(j).push(x) + s.skip(j),
    decreases s.len(),
{
    if s.len() == 0 {
        assert(s.take(j).push(x) + s.skip(j) =~= seq![x]);
    } else if j == s.len() {
        assert(s.take(j).push(x) + s.skip(j) =~= s.push(x));
    } else {
        let t = s.drop_last();
        assert forall|k: int| j <= k < t.len() implies cand_before(x, #[trigger] t[k]) by {
            assert(t[k] == s[k]);
        }
        if j > 0 {
            assert(t[j - 1] == s[j - 1]);
        }
        lemma_insert_at(t, x, j);
        assert(t.take(j).push(x) + t.skip(j) + seq![s.last()] =~= s.take(j).push(x) + s.skip(j));
    }
}

/// Orders the candidates found for a video: highest score first, then by path
/// (equal keys keep their order), and drops a candidate whose path repeats the one
/// before it.
pub fn order_candidates(cands: Vec<SubCandidate>) -> (r: Vec<SubCandidate>)
    ensures
        r@ == dedup_paths(sort_cands(cands@)),
{
    let ghost input = cands@;
    let n0 = cands.len();
    let mut rest = cands;
    let mut sorted: Vec<SubCandidate> = Vec::new();
    let mut taken: usize = 0;
    while rest.len() > 0
        invariant
            taken + rest@.len() == input.len(),
            input.len() == n0,
            rest@ == input.skip(taken as int),
            sorted@ == sort_cands(input.take(taken as int)),
        decreases rest@.len(),
    {
        let x = rest.remove(0);
        proof {
            assert(input.take(taken + 1).drop_last() =~= input.take(taken as int));
            assert(input.take(taken + 1).last() == x);
            assert(rest@ =~= input.skip(taken + 1));
        }
        let mut j: usize = sorted.len();
        while j > 0 && cand_before_exec(&x, &sorted[j - 1])
            invariant
                j <= sorted@.len(),
                forall|k: int| j <= k < sorted@.len() ==> cand_before(x, #[trigger] sorted@[k]),
            decreases j,
        {
            j = j - 1;
        }
        proof {
            lemma_insert_at(sorted@, x, j as int);
        }
        let ghost before = sorted@;
        sorted.insert(j, x);
        assert(sorted@ =~= before.take(j as int).push(x) + before.skip(j as int));
        taken = taken + 1;
    }
    assert(input.take(taken as int) =~= input);
    let mut out: Vec<SubCandidate> = Vec::new();
    let ghost srt = sorted@;
    let mut k: usize = 0;
    let n = sorted.len();
    while sorted.len() > 0
        invariant
            k + sorted@.len() == n,
            n == srt.len(),
            sorted@ == srt.skip(k as int),
            out@ == dedup_paths(srt.take(k as int)),
            k > 0 ==> out@.len() > 0 && out@.last().path@ == srt[k - 1].path@,
        decreases sorted@.len(),
    {
        let x = sorted.remove(0);
        proof {
            assert(srt.take(k + 1).drop_last() =~= srt.take(k as int));
            assert(srt.take(k + 1).last() == x);
            assert(sorted@ =~= srt.skip(k + 1));
            lemma_dedup_last(srt.take(k + 1));
        }
        if out.len() == 0 || !crate::text::str_eq(out[out.len() - 1].path.as_str(), x.path.as_str()) {
            out.push(x);
        }
        k = k + 1;
    }
    assert(srt.take(k as int) =~= srt);
    out
}

proof fn lemma_dedup_last(s: Seq<SubCandidate>)
    ensures
        s.len() > 0 ==> dedup_paths(s).len() > 0 && dedup_paths(s).last().path@ == s.last().path@,
    decreases s.len(),
{
    if s.len() > 1 {
        lemma_dedup_last(s.drop_last());
    }
}

/// Law: the ordered candidates are sorted — no candidate sorts before the one listed
/// ahead of it.
pub proof fn law_sorted_candidates(s: Seq<SubCandidate>, i: int)
    requires
        0 <= i < sort_cands(s).len() - 1,
    ensures
        !cand_before(sort_cands(s)[i + 1], sort_cands(s)[i]),
{
    lemma_sort_sorted(s);
}

proof fn lemma_sort_sorted(s: Seq<SubCandidate>)
    ensures
        forall|i: int| 0 <= i < sort_cands(s).len() - 1 ==> !cand_before(#[trigger] sort_cands(s)[i + 1], sort_cands(s)[i]),
        sort_cands(s).len() == s.len(),
    decreases s.len(),
{
    if s.len() > 0 {
        lemma_sort_sorted(s.drop_last());
        lemma_insert_sorted(sort_cands(s.drop_last()), s.last());
    }
}

proof fn lemma_insert_sorted(s: Seq<SubCandidate>, x: SubCandidate)
    requires
        forall|i: int| 0 <= i < s.len() - 1 ==> !cand_before(#[trigger] s[i + 1], s[i]),
    ensures
        forall|i: int| 0 <= i < insert_cand(s, x).len() - 1 ==> !cand_before(#[trigger] insert_cand(s, x)[i + 1], insert_cand(s, x)[i]),
        insert_cand(s, x).len() == s.len() + 1,
        insert_cand(s, x).last() == x || insert_cand(s, x).last() == s.last(),
    decreases s.len(),
{
    if s.len() > 0 && cand_before(x, s.last()) {
        let t = s.drop_last();
        assert forall|i: int| 0 <= i < t.len() - 1 implies !cand_before(#[trigger] t[i + 1], t[i]) by {
            assert(t[i + 1] == s[i + 1] && t[i] == s[i]);
        }
        lemma_insert_sorted(t, x);
        let r = insert_cand(t, x);
        assert(insert_cand(s, x) == r.push(s.last()));
        if t.len() > 0 {
            let q = s.len() - 2;
            assert(!cand_before(s[q + 1], s[q]));
            assert(t.last() == s[s.len() - 2]);
        }
        lemma_before_asym(x, s.last());
    }
}

pub(crate) proof fn lemma_str_lt_asym(a: Seq<char>, b: Seq<char>)
    ensures
        str_lt(a, b) ==> !str_lt(b, a),
    decreases a.len(),
{
    if a.len() > 0 && b.len() > 0 && a[0] == b[0] {
        lemma_str_lt_asym(a.skip(1), b.skip(1));
    }
}

proof fn lemma_before_asym(a: SubCandidate, b: SubCandidate)
    ensures
        cand_before(a, b) ==> !cand_before(b, a),
{
    lemma_str_lt_asym(a.path@, b.path@);
}

// ---------------------------------------------------------------- where to look

/// A folder to search for subtitle files, with the score and matching rule of the
/// files found there.
pub struct SearchDir {
    pub dir: String,
    pub base_score: u32,
    /// Files whose names do not start with the video's name count too.
    pub any_match: bool,
    pub source: String,
}

pub open spec fn search_view(d: SearchDir) -> (Seq<char>, u32, bool, Seq<char>) {
    (d.dir@, d.base_score, d.any_match, d.source@)
}

pub open spec fn search_views(v: Seq<SearchDir>) -> Seq<(Seq<char>, u32, bool, Seq<char>)> {
    v.map_values(|d: SearchDir| search_view(d))
}

/// The lower-cased file stem of a video path (empty when it has none).
pub open spec fn video_stem_lc_spec(video: Seq<char>) -> Seq<char> {
    match file_stem(video) {
        Some(s) => lower(s),
        None => Seq::<char>::empty(),
    }
}

/// The lower-cased file stem of a video path, which subtitle names are matched against.
pub fn video_stem_lc(video: &str) -> (r: String)
    ensures
        r@ == video_stem_lc_spec(video@),
{
    match file_stem_of(&chars_of(video)) {
        Some(st) => string_of(&lower_vec(&st)),
        None => String::new(),
    }
}

/// The video's own folder: files named like the video score 100.
pub fn same_name_search(dir: &str) -> (r: SearchDir)
    ensures
        search_view(r) == (dir@, 100u32, false, "same-name"@),
{
    proof {
        reveal_strlit("same-name");
    }
    SearchDir { dir: crate::text::owned(dir), base_score: 100, any_match: false, source: crate::text::owned("same-name") }
}

/// The names of the subtitle folders looked for next to a video, in order.
pub open spec fn subs_folder_names_spec() -> Seq<Seq<char>> {
    seq!["Subs"@, "subs"@, "Subtitles"@, "subtitles"@, "SUBS"@, "Sub"@]
}

pub fn subs_folder_names() -> (r: Vec<String>)
    ensures
        crate::queue::strs(r@) == subs_folder_names_spec(),
{
    let r = vec![
        crate::text::owned("Subs"),
        crate::text::owned("subs"),
        crate::text::owned("Subtitles"),
        crate::text::owned("subtitles"),
        crate::text::owned("SUBS"),
        crate::text::owned("Sub"),
    ];
    assert(crate::queue::strs(r@) =~= subs_folder_names_spec());
    r
}

/// The number of video files among the names.
pub open spec fn count_videos(names: Seq<Seq<char>>) -> nat
    decreases names.len(),
{
    if names.len() == 0 {
        0
    } else {
        count_videos(names.drop_last()) + if crate::probe::is_video_file_spec(names.last()) {
            1nat
        } else {
            0nat
        }
    }
}

/// The video is the only one in its folder (the folder's entries are given), so any
/// subtitle in a subtitle folder is probably for it.
pub fn only_video(entries: &Vec<String>) -> (r: bool)
    ensures
        r == (count_videos(crate::queue::strs(entries@)) <= 1),
{
    let mut n: usize = 0;
    let mut i: usize = 0;
    while i < entries.len()
        invariant
            i <= entries@.len(),
            n <= 2,
            n == (if count_videos(crate::queue::strs(entries@.take(i as int))) < 2 {
                count_videos(crate::queue::strs(entries@.take(i as int)))
            } else {
                2
            }),
        decreases entries@.len() - i,
    {
        assert(crate::queue::strs(entries@.take(i + 1)).drop_last() =~= crate::queue::strs(entries@.take(i as int)));
        if crate::probe::is_video_file(entries[i].as_str()) && n < 2 {
            n = n + 1;
        }
        i = i + 1;
    }
    assert(entries@.take(i as int) =~= entries@);
    n <= 1
}

/// The subfolders of the subtitle folder `sd` named like the video (ignoring ASCII
/// case), in the order given.
pub open spec fn stem_dirs(sd: Seq<char>, stem_lc: Seq<char>, subdirs: Seq<Seq<char>>) -> Seq<(Seq<char>, u32, bool, Seq<char>)>
    decreases subdirs.len(),
{
    if subdirs.len() == 0 {
        Seq::empty()
    } else {
        stem_dirs(sd, stem_lc, subdirs.drop_last()) + if lower(subdirs.last()) == stem_lc {
            seq![(crate::ffmpeg::join_spec(sd, subdirs.last()), 75u32, true, "subs-folder"@)]
        } else {
            Seq::empty()
        }
    }
}

/// The folders searched inside the subtitle folder `name` of `dir`: the folder itself
/// (score 80, any file counting when the video is alone in its folder), then each
/// subfolder named like the video (score 75, any file counting).
pub open spec fn folder_plan_spec(dir: Seq<char>, name: Seq<char>, stem_lc: Seq<char>, only_video: bool, subdirs: Seq<Seq<char>>) -> Seq<(Seq<char>, u32, bool, Seq<char>)> {
    let sd = crate::ffmpeg::join_spec(dir, name);
    seq![(sd, 80u32, only_video, "subs-folder"@)] + stem_dirs(sd, stem_lc, subdirs)
}

/// Where to look inside the subtitle folder `name` of `dir`, given the names of its
/// subfolders.
pub fn folder_plan(dir: &str, name: &str, stem_lc: &str, only_video: bool, subdirs: &Vec<String>) -> (r: Vec<SearchDir>)
    ensures
        search_views(r@) == folder_plan_spec(dir@, name@, stem_lc@, only_video, crate::queue::strs(subdirs@)),
{
    proof {
        reveal_strlit("subs-folder");
    }
    let sd = crate::ffmpeg::join(dir, name);
    let stem = chars_of(stem_lc);
    let mut r: Vec<SearchDir> = Vec::new();
    r.push(SearchDir {
        dir: crate::text::owned(sd.as_str()),
        base_score: 80,
        any_match: only_video,
        source: crate::text::owned("subs-folder"),
    });
    let ghost first = search_views(r@);
    assert(first =~= seq![(sd@, 80u32, only_video, "subs-folder"@)]);
    let mut i: usize = 0;
    assert(crate::queue::strs(subdirs@.take(0)) =~= Seq::<Seq<char>>::empty());
    while i < subdirs.len()
        invariant
            i <= subdirs@.len(),
            stem@ == stem_lc@,
            first == seq![(sd@, 80u32, only_video, "subs-folder"@)],
            search_views(r@) == first + stem_dirs(sd@, stem_lc@, crate::queue::strs(subdirs@.take(i as int))),
        decreases subdirs@.len() - i,
    {
        let ghost before = search_views(r@);
        let ghost names = crate::queue::strs(subdirs@.take(i + 1));
        assert(names.drop_last() =~= crate::queue::strs(subdirs@.take(i as int)));
        assert(names.last() == subdirs@[i as int]@);
        let low = lower_vec(&chars_of(subdirs[i].as_str()));
        if seq_eq(&low, &stem) {
            r.push(SearchDir {
                dir: crate::ffmpeg::join(sd.as_str(), subdirs[i].as_str()),
                base_score: 75,
                any_match: true,
                source: crate::text::owned("subs-folder"),
            });
            assert(search_views(r@) =~= before.push(search_view(r@.last())));
        } else {
            assert(search_views(r@) =~= before);
        }
        i = i + 1;
    }
    assert(subdirs@.take(i as int) =~= subdirs@);
    r
}

} // verus!
