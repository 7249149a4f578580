use microvid::commands::{
    apply_download, check_download, check_search, download_dest, download_link, failure_text, lang_tag, login_token, os_lang_codes,
    search_langs, search_params, search_query, search_results, OsError, OsSearchArgs,
};
use microvid::probe::Json;
use microvid::models::{AppSettings, EncodeSettings, Job, JobStatus, OpenSubtitlesSettings, SubtitleMode};

#[test]
fn language_codes_for_search() {
    let mut s = AppSettings::default();
    assert_eq!(os_lang_codes(&s), "en");
    s.defaults.subtitles.language = "por".into();
    assert_eq!(os_lang_codes(&s), "pt-br,pt-pt");
    s.opensubtitles.languages = "  fr,de ".into();
    assert_eq!(os_lang_codes(&s), "fr,de");
    let args = OsSearchArgs { id: "j".into(), query: None, languages: Some("  ".into()) };
    assert_eq!(search_langs(&args, &s), "fr,de");
    assert_eq!(search_query(&args, "/m/The Wire S01E03.mkv"), "The Wire S01E03");
    let q = OsSearchArgs { id: "j".into(), query: Some("wire".into()), languages: Some("es".into()) };
    assert_eq!(search_query(&q, "/m/x.mkv"), "wire");
    assert_eq!(search_langs(&q, &s), "es");
}

#[test]
fn account_checks() {
    let mut os = OpenSubtitlesSettings::default();
    assert_eq!(check_search(&os), Err(OsError::NoApiKey));
    os.api_key = "k".into();
    assert_eq!(check_search(&os), Ok(()));
    assert_eq!(check_download(&os), Err(OsError::NoAccount));
    os.username = "me".into();
    assert_eq!(check_download(&os), Ok(()));
    assert_eq!(OsError::NoApiKey.message(), "Add your OpenSubtitles API key in Settings first");
}

#[test]
fn downloads_land_next_to_the_video() {
    assert_eq!(download_dest("/m/Show/e1.mkv", "en", true, "/cache"), "/m/Show/e1.en.srt");
    assert_eq!(download_dest("/m/Show/e1.mkv", "en", false, "/cache"), "/cache/subs/e1.en.srt");
    assert_eq!(lang_tag("en"), "eng");
    assert_eq!(lang_tag("xx"), "xx");
    let mut j = Job {
        id: "j".into(),
        source: "/m/Show/e1.mkv".into(),
        root: "/m".into(),
        output: String::new(),
        settings: EncodeSettings::default(),
        status: JobStatus::Pending,
        held: false,
        info: None,
        crop: None,
        sub_candidates: vec![],
        auto_subtitle: None,
        out_height: None,
        error: None,
        log_tail: String::new(),
        created_at: 0,
        started_at: None,
        finished_at: None,
        in_size: 0,
        out_size: None,
        pid: None,
        order: 0,
    };
    apply_download(&mut j, "/m/Show/e1.en.srt", "eng");
    assert_eq!(j.sub_candidates.len(), 1);
    assert_eq!(j.sub_candidates[0].score, 110);
    assert_eq!(j.sub_candidates[0].source, "downloaded");
    assert_eq!(j.settings.subtitles.mode, SubtitleMode::File);
    assert_eq!(j.settings.subtitles.file.as_deref(), Some("/m/Show/e1.en.srt"));
    assert_eq!(j.settings.subtitles.language, "eng");
}

fn jobj(kv: Vec<(&str, Json)>) -> Json {
    Json::Object(kv.into_iter().map(|(k, v)| (k.to_string(), v)).collect())
}

fn jstr(s: &str) -> Json {
    Json::Str(s.to_string())
}

fn jnum(s: &str) -> Json {
    Json::Number(s.to_string())
}

#[test]
fn search_reply_items() {
    let item = |id: Json, files: bool| {
        let file = jobj(vec![("file_id", id), ("file_name", jstr("a.srt"))]);
        jobj(vec![(
            "attributes",
            jobj(vec![
                ("language", jstr("en")),
                ("download_count", jnum("120")),
                ("fps", jnum("23.976")),
                ("hearing_impaired", Json::Bool(true)),
                ("feature_details", jobj(vec![("title", jstr("Show"))])),
                ("files", Json::Array(if files { vec![file] } else { vec![] })),
            ]),
        )])
    };
    let body = jobj(vec![(
        "data",
        Json::Array(vec![item(jnum("7"), true), item(jnum("8"), false), item(jstr("9"), true), item(jnum("10"), true)]),
    )]);
    let r = search_results(&body);
    assert_eq!(r.len(), 2);
    assert_eq!((r[0].file_id, r[1].file_id), (7, 10));
    assert_eq!(r[0].file_name, "a.srt");
    assert_eq!(r[0].language, "en");
    assert_eq!(r[0].release, "");
    assert_eq!(r[0].download_count, 120);
    assert_eq!(r[0].fps.as_deref(), Some("23.976"));
    assert!(r[0].hearing_impaired && !r[0].from_trusted && !r[0].moviehash_match);
    assert_eq!(r[0].title, "Show");
    assert!(search_results(&Json::Null).is_empty());
}

#[test]
fn login_download_and_failure_replies() {
    assert_eq!(login_token(&jobj(vec![("token", jstr("abc"))])), Some("abc".to_string()));
    assert_eq!(login_token(&jobj(vec![("token", jnum("1"))])), None);
    assert_eq!(download_link(&jobj(vec![("link", jstr("https://x/y.srt"))])), Some("https://x/y.srt".to_string()));
    assert_eq!(download_link(&Json::Null), None);
    assert_eq!(failure_text("search", "401 Unauthorized", &jobj(vec![("message", jstr("bad key"))])), "search failed (401 Unauthorized): bad key");
    assert_eq!(failure_text("login", "500", &Json::Null), "login failed (500): unknown error");
    let p = search_params("en,fr", "  Show  ", Some("abc123"));
    let expect: Vec<(String, String)> = vec![
        ("languages".into(), "en,fr".into()),
        ("order_by".into(), "download_count".into()),
        ("query".into(), "Show".into()),
        ("moviehash".into(), "abc123".into()),
    ];
    assert_eq!(p, expect);
    assert_eq!(search_params("en", "   ", None).len(), 2);
}
