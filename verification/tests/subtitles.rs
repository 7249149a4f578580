use microvid::models::SubCandidate;
use microvid::subtitles::{
    best_candidate, candidate, folder_plan, hash_chunk, is_sub_file, lang_from_suffix, movie_hash_of, only_video,
    order_candidates, parse_lang, same_name_search, shift_srt, subs_folder_names, video_stem_lc,
};

#[test]
fn language_parsing() {
    assert_eq!(parse_lang("en"), Some("eng".into()));
    assert_eq!(parse_lang("English"), Some("eng".into()));
    assert_eq!(parse_lang("pt-br"), Some("por".into()));
    assert_eq!(parse_lang("xx"), None);
    assert_eq!(lang_from_suffix("movie", "movie.en"), Some("eng".into()));
    assert_eq!(lang_from_suffix("movie", "movie.forced.eng"), Some("eng".into()));
    assert_eq!(lang_from_suffix("movie", "movie"), None);
}

#[test]
fn language_markers_and_spacing() {
    assert_eq!(parse_lang("  EN.forced "), Some("eng".into()));
    assert_eq!(parse_lang("spa.sdh"), Some("spa".into()));
    assert_eq!(parse_lang("español"), Some("spa".into()));
    assert_eq!(lang_from_suffix("movie", "other.en"), None);
    assert_eq!(lang_from_suffix("movie", "movie_-_de"), Some("ger".into()));
}

#[test]
fn shifts_srt() {
    let srt = "1\n00:00:01,000 --> 00:00:02,500\nHi\n\n2\n00:00:00,200 --> 00:00:00,900\nEarly\n";
    let out = shift_srt(srt, -500);
    assert!(out.contains("00:00:00,500 --> 00:00:02,000"));
    assert!(out.contains("00:00:00,000 --> 00:00:00,400"));
    let out2 = shift_srt(srt, 3600_000);
    assert!(out2.contains("01:00:01,000 --> 01:00:02,500"));
}

#[test]
fn shift_keeps_text_lines_and_normalises_timestamps() {
    let srt = "1\r\n0:00:01.5 --> 00:00:02,25\r\n12:34:56,789 is not a cue\n";
    let out = shift_srt(srt, 1000);
    assert_eq!(out, "1\n00:00:02,500 --> 00:00:03,250\n12:34:56,789 is not a cue\n");
    assert_eq!(shift_srt("", 5), "");
    assert_eq!(shift_srt("a --> 99:00:00,000", 3_600_000), "a --> 100:00:00,000\n");
}

#[test]
fn subtitle_files() {
    assert!(is_sub_file("/m/a.SRT", false));
    assert!(is_sub_file("/m/a.sub", false));
    assert!(!is_sub_file("/m/a.sub", true));
    assert!(!is_sub_file("/m/a.mkv", false));
    assert!(!is_sub_file("/m/srt", false));
}

#[test]
fn candidate_scores() {
    let same = candidate("/d/Show S01E01.srt", "show s01e01", 100, false, "same-name").unwrap();
    assert_eq!((same.score, same.language.clone()), (100, None));
    let es = candidate("/d/Show S01E01.es.srt", "show s01e01", 100, false, "same-name").unwrap();
    assert_eq!((es.score, es.language.as_deref()), (90, Some("spa")));
    assert!(candidate("/d/Show S01E02.srt", "show s01e01", 100, false, "same-name").is_none());
    let any = candidate("/d/Subs/2_English.srt", "show s01e01", 80, true, "subs-folder").unwrap();
    assert_eq!((any.score, any.language.as_deref(), any.source.as_str()), (50, Some("eng"), "subs-folder"));
}

fn cand(path: &str, lang: Option<&str>, score: u32) -> SubCandidate {
    SubCandidate { path: path.into(), language: lang.map(|l| l.to_string()), source: "same-name".into(), score }
}

#[test]
fn ordering_and_best_choice() {
    let cands = vec![
        cand("/d/b.srt", Some("spa"), 90),
        cand("/d/a.srt", None, 100),
        cand("/d/c.srt", Some("eng"), 90),
        cand("/d/a.srt", None, 100),
        cand("/d/Subs/a.srt", Some("eng"), 80),
    ];
    let ordered = order_candidates(cands);
    let paths: Vec<&str> = ordered.iter().map(|c| c.path.as_str()).collect();
    assert_eq!(paths, vec!["/d/a.srt", "/d/b.srt", "/d/c.srt", "/d/Subs/a.srt"]);
    // a (100 + 5 for an unknown language) ties with c (90 + 15): the later one wins
    let best = best_candidate(&ordered, "eng").unwrap();
    assert_eq!(best.path, "/d/c.srt");
    let two = vec![cand("/d/x.srt", Some("eng"), 80), cand("/d/y.srt", None, 100)];
    assert_eq!(best_candidate(&two, "eng").unwrap().path, "/d/y.srt");
    let three = vec![cand("/d/x.srt", Some("eng"), 95), cand("/d/y.srt", Some("fre"), 100)];
    assert_eq!(best_candidate(&three, "eng").unwrap().path, "/d/x.srt");
    assert!(best_candidate(&[], "eng").is_none());
}

#[test]
fn movie_hash_of_known_bytes() {
    assert_eq!(hash_chunk(10), 10);
    assert_eq!(hash_chunk(1 << 20), 65536);
    let head: Vec<u8> = vec![1, 0, 0, 0, 0, 0, 0, 0, 2, 0, 0, 0, 0, 0, 0, 0, 9];
    let tail: Vec<u8> = vec![0xff; 8];
    // 100 + 1 + 2 + (2^64 - 1) wraps to 102
    assert_eq!(movie_hash_of(100, &head, &tail), "0000000000000066");
    assert_eq!(movie_hash_of(0, &[], &[]), "0000000000000000");
    assert_eq!(movie_hash_of(u64::MAX, &[1, 0, 0, 0, 0, 0, 0, 0], &[]), "0000000000000000");
}

#[test]
fn language_tokens_ignore_case_and_blanks_and_codes_are_stable() {
    for t in ["en", "Español", "pt-BR", "zho", "x"] {
        assert_eq!(parse_lang(&format!(" {} ", t.to_ascii_uppercase())), parse_lang(t));
    }
    for c in ["eng", "spa", "fre", "ger", "ita", "por", "rus", "jpn", "kor", "chi", "ara", "hin", "ben", "tur", "dut", "swe", "pol", "ind", "tha", "vie"] {
        assert_eq!(parse_lang(c), Some(c.to_string()));
    }
}

#[test]
fn subtitle_search_folders() {
    assert_eq!(video_stem_lc("/m/Show.S01E01.MKV"), "show.s01e01");
    assert_eq!(video_stem_lc(""), "");
    let s = same_name_search("/m");
    assert_eq!((s.dir.as_str(), s.base_score, s.any_match, s.source.as_str()), ("/m", 100, false, "same-name"));
    assert_eq!(subs_folder_names(), vec!["Subs", "subs", "Subtitles", "subtitles", "SUBS", "Sub"]);
    assert!(only_video(&vec!["/m/a.mkv".to_string(), "/m/a.srt".to_string()]));
    assert!(!only_video(&vec!["/m/a.mkv".to_string(), "/m/b.mp4".to_string()]));
    let plan = folder_plan("/m", "Subs", "show", true, &vec!["SHOW".to_string(), "other".to_string()]);
    let v: Vec<(String, u32, bool, String)> = plan.into_iter().map(|d| (d.dir, d.base_score, d.any_match, d.source)).collect();
    assert_eq!(
        v,
        vec![
            ("/m/Subs".to_string(), 80, true, "subs-folder".to_string()),
            ("/m/Subs/SHOW".to_string(), 75, true, "subs-folder".to_string()),
        ]
    );
}

#[test]
fn timestamp_fields_in_other_script_digits_read_as_zero() {
    let srt = "1\n0\u{0661}:00:01,500 --> 00:00:02,000\nHi\n";
    assert_eq!(shift_srt(srt, 1000), "1\n00:00:02,500 --> 00:00:03,000\nHi\n");
}
