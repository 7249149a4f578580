//! The rules behind the user's subtitle search and download requests: which
//! languages to ask for, what to search, where a download goes, and how it becomes
//! the job's subtitle.
use vstd::prelude::*;
use crate::ffmpeg::{join, join_spec, parent_spec};
use crate::models::{AppSettings, Job, OpenSubtitlesSettings, SubCandidate, SubtitleMode};
use crate::path::file_stem;
use crate::probe::{digits_u64, get, jget, opt_str, str_of, Json};
use crate::text::{chars_of, owned, string_of, trim, trim_vec};

verus! {

/// What the search request carries.
pub struct OsSearchArgs {
    pub id: String,
    pub query: Option<String>,
    pub languages: Option<String>,
}

/// OpenSubtitles language codes for an ISO 639-2 subtitle language (English when
/// unknown).
pub open spec fn os_codes_for(lang: Seq<char>) -> Seq<char> {
    if lang == "spa"@ {
        "es"@
    } else if lang == "fre"@ {
        "fr"@
    } else if lang == "ger"@ {
        "de"@
    } else if lang == "ita"@ {
        "it"@
    } else if lang == "por"@ {
        "pt-br,pt-pt"@
    } else if lang == "rus"@ {
        "ru"@
    } else if lang == "jpn"@ {
        "ja"@
    } else if lang == "kor"@ {
        "ko"@
    } else if lang == "chi"@ {
        "zh-cn,zh-tw"@
    } else if lang == "ara"@ {
        "ar"@
    } else if lang == "hin"@ {
        "hi"@
    } else if lang == "ben"@ {
        "bn"@
    } else if lang == "tur"@ {
        "tr"@
    } else if lang == "dut"@ {
        "nl"@
    } else {
        "en"@
    }
}

/// The languages to search: the configured list when not blank (trimmed), else the
/// codes for the default subtitle language.
pub open spec fn os_lang_codes_spec(settings: AppSettings) -> Seq<char> {
    let configured = trim(settings.opensubtitles.languages@);
    if configured.len() > 0 {
        configured
    } else {
        os_codes_for(settings.defaults.subtitles.language@)
    }
}

fn codes_for(lang: &str) -> (r: &'static str)
    ensures
        r@ == os_codes_for(lang@),
{
    let eq = |b: &str| -> (r: bool)
        ensures
            r == (lang@ == b@),
        { crate::text::str_eq(lang, b) };
    if eq("spa") {
        "es"
    } else if eq("fre") {
        "fr"
    } else if eq("ger") {
        "de"
    } else if eq("ita") {
        "it"
    } else if eq("por") {
        "pt-br,pt-pt"
    } else if eq("rus") {
        "ru"
    } else if eq("jpn") {
        "ja"
    } else if eq("kor") {
        "ko"
    } else if eq("chi") {
        "zh-cn,zh-tw"
    } else if eq("ara") {
        "ar"
    } else if eq("hin") {
        "hi"
    } else if eq("ben") {
        "bn"
    } else if eq("tur") {
        "tr"
    } else if eq("dut") {
        "nl"
    } else {
        "en"
    }
}

/// The OpenSubtitles languages to search.
pub fn os_lang_codes(settings: &AppSettings) -> (r: String)
    ensures
        r@ == os_lang_codes_spec(*settings),
{
    let configured = trim_vec(&chars_of(settings.opensubtitles.languages.as_str()));
    if configured.len() > 0 {
        string_of(&configured)
    } else {
        owned(codes_for(settings.defaults.subtitles.language.as_str()))
    }
}

/// What to search for: the query when given, else the video's file stem (or "").
pub open spec fn search_query_spec(args: OsSearchArgs, source: Seq<char>) -> Seq<char> {
    match args.query {
        Some(q) => q@,
        None => match file_stem(source) {
            Some(s) => s,
            None => Seq::empty(),
        },
    }
}

pub fn search_query(args: &OsSearchArgs, source: &str) -> (r: String)
    ensures
        r@ == search_query_spec(*args, source@),
{
    match &args.query {
        Some(q) => owned(q.as_str()),
        None => match crate::path::file_stem_of(&chars_of(source)) {
            Some(s) => string_of(&s),
            None => String::new(),
        },
    }
}

/// The languages to search: those of the request when not blank, else the
/// configured ones.
pub open spec fn search_langs_spec(args: OsSearchArgs, settings: AppSettings) -> Seq<char> {
    match args.languages {
        Some(l) => if trim(l@).len() > 0 {
            l@
        } else {
            os_lang_codes_spec(settings)
        },
        None => os_lang_codes_spec(settings),
    }
}

pub fn search_langs(args: &OsSearchArgs, settings: &AppSettings) -> (r: String)
    ensures
        r@ == search_langs_spec(*args, *settings),
{
    match &args.languages {
        Some(l) => if trim_vec(&chars_of(l.as_str())).len() > 0 {
            owned(l.as_str())
        } else {
            os_lang_codes(settings)
        },
        None => os_lang_codes(settings),
    }
}

/// Why a subtitle request cannot be made.
#[derive(Clone, Copy, Debug, PartialEq, Eq, Structural)]
pub enum OsError {
    /// Searching needs an API key.
    NoApiKey,
    /// Downloading needs an API key and an account.
    NoAccount,
}

impl OsError {
    /// The message shown to the user.
    pub fn message(self) -> (r: &'static str)
        ensures
            self == OsError::NoApiKey ==> r@ == "Add your OpenSubtitles API key in Settings first"@,
            self == OsError::NoAccount ==> r@ == "Add your OpenSubtitles API key, username and password in Settings"@,
    {
        match self {
            OsError::NoApiKey => "Add your OpenSubtitles API key in Settings first",
            OsError::NoAccount => "Add your OpenSubtitles API key, username and password in Settings",
        }
    }
}

/// A search needs a non-blank API key.
pub fn check_search(os: &OpenSubtitlesSettings) -> (r: Result<(), OsError>)
    ensures
        r is Err <==> trim(os.api_key@).len() == 0,
        r matches Err(e) ==> e == OsError::NoApiKey,
{
    if trim_vec(&chars_of(os.api_key.as_str())).len() == 0 {
        Err(OsError::NoApiKey)
    } else {
        Ok(())
    }
}

/// A download needs a non-blank API key and user name.
pub fn check_download(os: &OpenSubtitlesSettings) -> (r: Result<(), OsError>)
    ensures
        r is Err <==> (trim(os.api_key@).len() == 0 || trim(os.username@).len() == 0),
        r matches Err(e) ==> e == OsError::NoAccount,
{
    if trim_vec(&chars_of(os.api_key.as_str())).len() == 0 || trim_vec(&chars_of(os.username.as_str())).len()
        == 0 {
        Err(OsError::NoAccount)
    } else {
        Ok(())
    }
}

/// Where a downloaded subtitle goes: "<stem>.<language>.srt" next to the video (or in
/// the cache when the video has no folder), or in the cache's "subs" folder.
pub open spec fn download_dest_spec(source: Seq<char>, language: Seq<char>, next_to_video: bool, cache_dir: Seq<char>) -> Seq<char> {
    let stem = match file_stem(source) {
        Some(s) => s,
        None => "subtitle"@,
    };
    let dir = if next_to_video {
        match parent_spec(source) {
            Some(p) => p,
            None => cache_dir,
        }
    } else {
        join_spec(cache_dir, "subs"@)
    };
    join_spec(dir, stem + "."@ + language + ".srt"@)
}

pub fn download_dest(source: &str, language: &str, next_to_video: bool, cache_dir: &str) -> (r: String)
    ensures
        r@ == download_dest_spec(source@, language@, next_to_video, cache_dir@),
{
    let stem: String = match crate::path::file_stem_of(&chars_of(source)) {
        Some(s) => string_of(&s),
        None => owned("subtitle"),
    };
    let dir: String = if next_to_video {
        match crate::ffmpeg::parent(source) {
            Some(p) => p,
            None => owned(cache_dir),
        }
    } else {
        join(cache_dir, "subs")
    };
    let a = crate::text::concat3(stem.as_str(), ".", language);
    let name = crate::text::concat2(a.as_str(), ".srt");
    join(dir.as_str(), name.as_str())
}

/// The language tag of a downloaded subtitle: the ISO 639-2 code when the language
/// is recognised, else the language as given.
pub open spec fn lang_tag_spec(language: Seq<char>) -> Seq<char> {
    match crate::subtitles::parse_lang_spec(language) {
        Some(c) => c,
        None => language,
    }
}

pub fn lang_tag(language: &str) -> (r: String)
    ensures
        r@ == lang_tag_spec(language@),
{
    match crate::subtitles::parse_lang(language) {
        Some(c) => c,
        None => owned(language),
    }
}

/// A downloaded subtitle becomes the job's subtitle: listed first among the
/// candidates ("downloaded", score 110), chosen as the job's file, with its language.
pub open spec fn with_download(a: Job, path: Seq<char>, tag: Seq<char>, b: Job) -> bool {
    &&& b.sub_candidates@.len() == a.sub_candidates@.len() + 1
    &&& b.sub_candidates@[0].path@ == path
    &&& opt_str(b.sub_candidates@[0].language) == Some(tag)
    &&& b.sub_candidates@[0].source@ == "downloaded"@
    &&& b.sub_candidates@[0].score == 110
    &&& b.sub_candidates@.skip(1) == a.sub_candidates@
    &&& b.settings.subtitles.mode == SubtitleMode::File
    &&& opt_str(b.settings.subtitles.file) == Some(path)
    &&& b.settings.subtitles.language@ == tag
    &&& b.settings.subtitles == (crate::models::SubtitleSettings {
        mode: b.settings.subtitles.mode,
        file: b.settings.subtitles.file,
        language: b.settings.subtitles.language,
        ..a.settings.subtitles
    })
    &&& b.settings == (crate::models::EncodeSettings { subtitles: b.settings.subtitles, ..a.settings })
    &&& b == (Job { sub_candidates: b.sub_candidates, settings: b.settings, ..a })
}

pub fn apply_download(job: &mut Job, path: &str, tag: &str)
    ensures
        with_download(*old(job), path@, tag@, *final(job)),
{
    let c = SubCandidate {
        path: owned(path),
        language: Some(owned(tag)),
        source: owned("downloaded"),
        score: 110,
    };
    let ghost before = job.sub_candidates@;
    job.sub_candidates.insert(0, c);
    assert(job.sub_candidates@.skip(1) =~= before);
    job.settings.subtitles.mode = SubtitleMode::File;
    job.settings.subtitles.file = Some(owned(path));
    job.settings.subtitles.language = owned(tag);
}

// ---------------------------------------------------------------- service replies

/// The query parameters of a search: the languages, ordering by download count,
/// the query when it is not blank (trimmed), and the movie hash when known.
pub open spec fn search_params_spec(languages: Seq<char>, query: Seq<char>, moviehash: Option<Seq<char>>) -> Seq<(Seq<char>, Seq<char>)> {
    seq![("languages"@, languages), ("order_by"@, "download_count"@)] + (if trim(query).len() > 0 {
        seq![("query"@, trim(query))]
    } else {
        Seq::empty()
    }) + match moviehash {
        Some(h) => seq![("moviehash"@, h)],
        None => Seq::empty(),
    }
}

pub open spec fn pair_views(v: Seq<(String, String)>) -> Seq<(Seq<char>, Seq<char>)> {
    v.map_values(|p: (String, String)| (p.0@, p.1@))
}

pub fn search_params(languages: &str, query: &str, moviehash: Option<&str>) -> (r: Vec<(String, String)>)
    ensures
        pair_views(r@) == search_params_spec(languages@, query@, crate::command::opt_view(moviehash)),
{
    let mut r: Vec<(String, String)> = Vec::new();
    r.push((owned("languages"), owned(languages)));
    r.push((owned("order_by"), owned("download_count")));
    let q = trim_vec(&chars_of(query));
    if q.len() > 0 {
        r.push((owned("query"), string_of(&q)));
    }
    if let Some(h) = moviehash {
        r.push((owned("moviehash"), owned(h)));
    }
    assert(pair_views(r@) =~= search_params_spec(languages@, query@, crate::command::opt_view(moviehash)));
    r
}

/// One subtitle offered by a search. `fps` is the number as the service wrote it.
pub struct OsResult {
    pub file_id: u64,
    pub file_name: String,
    pub language: String,
    pub release: String,
    pub download_count: u64,
    pub fps: Option<String>,
    pub hearing_impaired: bool,
    pub from_trusted: bool,
    pub moviehash_match: bool,
    pub title: String,
}

/// The member `k` when it is a number written as an unsigned integer (`as_u64`).
pub open spec fn num_u64(v: Json, k: Seq<char>) -> Option<u64> {
    match jget(v, k) {
        Some(Json::Number(t)) => digits_u64(t@),
        _ => None,
    }
}

/// The member `k` when it is a boolean, else false.
pub open spec fn flag_of(v: Json, k: Seq<char>) -> bool {
    match jget(v, k) {
        Some(Json::Bool(b)) => b,
        _ => false,
    }
}

/// The member `k` when it is a string, else empty.
pub open spec fn text_of(v: Json, k: Seq<char>) -> Seq<char> {
    match str_of(v, k) {
        Some(t) => t,
        None => Seq::empty(),
    }
}

/// The `attributes` of a search item (null when missing).
pub open spec fn attrs_of(item: Json) -> Json {
    match jget(item, "attributes"@) {
        Some(a) => a,
        None => Json::Null,
    }
}

/// The first of the item's files.
pub open spec fn first_file(item: Json) -> Option<Json> {
    match jget(attrs_of(item), "files"@) {
        Some(Json::Array(fs)) => if fs@.len() > 0 {
            Some(fs@[0])
        } else {
            None
        },
        _ => None,
    }
}

/// A search item is offered when its first file has a numeric id.
pub open spec fn offered(item: Json) -> bool {
    match first_file(item) {
        Some(f) => num_u64(f, "file_id"@) is Some,
        None => false,
    }
}

/// The number member `k` as the service wrote it.
pub open spec fn num_text(v: Json, k: Seq<char>) -> Option<Seq<char>> {
    match jget(v, k) {
        Some(Json::Number(t)) => Some(t@),
        _ => None,
    }
}

/// `r` is what the offered `item` shows: missing texts empty, missing counts zero,
/// missing flags false.
pub open spec fn result_of(r: OsResult, item: Json) -> bool {
    let a = attrs_of(item);
    let f = first_file(item)->0;
    &&& Some(r.file_id) == num_u64(f, "file_id"@)
    &&& r.file_name@ == text_of(f, "file_name"@)
    &&& r.language@ == text_of(a, "language"@)
    &&& r.release@ == text_of(a, "release"@)
    &&& r.download_count == (match num_u64(a, "download_count"@) {
        Some(n) => n,
        None => 0,
    })
    &&& opt_str(r.fps) == num_text(a, "fps"@)
    &&& r.hearing_impaired == flag_of(a, "hearing_impaired"@)
    &&& r.from_trusted == flag_of(a, "from_trusted"@)
    &&& r.moviehash_match == flag_of(a, "moviehash_match"@)
    &&& r.title@ == (match jget(a, "feature_details"@) {
        Some(d) => text_of(d, "title"@),
        None => Seq::empty(),
    })
}

/// The items of the reply's `data` array.
pub open spec fn data_items(body: Json) -> Seq<Json> {
    match jget(body, "data"@) {
        Some(Json::Array(d)) => d@,
        _ => Seq::empty(),
    }
}

/// The offered items among `items`, in order.
pub open spec fn offered_items(items: Seq<Json>) -> Seq<Json>
    decreases items.len(),
{
    if items.len() == 0 {
        Seq::empty()
    } else if offered(items.last()) {
        offered_items(items.drop_last()).push(items.last())
    } else {
        offered_items(items.drop_last())
    }
}

fn u64_num_member(v: &Json, k: &str) -> (r: Option<u64>)
    ensures
        r == num_u64(*v, k@),
{
    match get(v, k) {
        Some(Json::Number(t)) => {
            let c = chars_of(t.as_str());
            assert(c@.skip(0) =~= c@);
            crate::probe::digits_u64_exec(&c, 0)
        },
        _ => None,
    }
}

fn flag_member(v: &Json, k: &str) -> (r: bool)
    ensures
        r == flag_of(*v, k@),
{
    match get(v, k) {
        Some(Json::Bool(b)) => *b,
        _ => false,
    }
}

fn text_member(v: &Json, k: &str) -> (r: String)
    ensures
        r@ == text_of(*v, k@),
{
    match get(v, k) {
        Some(Json::Str(t)) => owned(t.as_str()),
        _ => String::new(),
    }
}

fn item_result(item: &Json) -> (r: Option<OsResult>)
    ensures
        match r {
            Some(x) => offered(*item) && result_of(x, *item),
            None => !offered(*item),
        },
{
    let null = Json::Null;
    let a: &Json = match get(item, "attributes") {
        Some(a) => a,
        None => &null,
    };
    assert(*a == attrs_of(*item));
    let f: &Json = match get(a, "files") {
        Some(Json::Array(fs)) => {
            if fs.len() == 0 {
                return None;
            }
            &fs[0]
        },
        _ => {
            return None;
        },
    };
    assert(first_file(*item) == Some(*f));
    let file_id = match u64_num_member(f, "file_id") {
        Some(n) => n,
        None => {
            return None;
        },
    };
    let fps = match get(a, "fps") {
        Some(Json::Number(t)) => Some(owned(t.as_str())),
        _ => None,
    };
    let title = match get(a, "feature_details") {
        Some(d) => text_member(d, "title"),
        None => String::new(),
    };
    let count = match u64_num_member(a, "download_count") {
        Some(n) => n,
        None => 0,
    };
    Some(OsResult {
        file_id,
        file_name: text_member(f, "file_name"),
        language: text_member(a, "language"),
        release: text_member(a, "release"),
        download_count: count,
        fps,
        hearing_impaired: flag_member(a, "hearing_impaired"),
        from_trusted: flag_member(a, "from_trusted"),
        moviehash_match: flag_member(a, "moviehash_match"),
        title,
    })
}

/// The subtitles a search reply offers: for each item of `data` whose first file
/// has an id, in order, what it shows.
pub fn search_results(body: &Json) -> (r: Vec<OsResult>)
    ensures
        r@.len() == offered_items(data_items(*body)).len(),
        forall|k: int| 0 <= k < r@.len() ==> result_of(#[trigger] r@[k], offered_items(data_items(*body))[k]),
{
    let mut out: Vec<OsResult> = Vec::new();
    let items: &Vec<Json> = match get(body, "data") {
        Some(Json::Array(d)) => d,
        _ => {
            assert(offered_items(data_items(*body)) =~= Seq::<Json>::empty());
            return out;
        },
    };
    let ghost all = data_items(*body);
    assert(all == items@);
    let mut i: usize = 0;
    assert(items@.take(0) =~= Seq::<Json>::empty());
    while i < items.len()
        invariant
            i <= items@.len(),
            all == items@,
            out@.len() == offered_items(items@.take(i as int)).len(),
            forall|k: int| 0 <= k < out@.len() ==> result_of(#[trigger] out@[k], offered_items(items@.take(i as int))[k]),
        decreases items@.len() - i,
    {
        let ghost before = offered_items(items@.take(i as int));
        assert(items@.take(i + 1).drop_last() =~= items@.take(i as int));
        assert(items@.take(i + 1).last() == items@[i as int]);
        match item_result(&items[i]) {
            Some(x) => {
                out.push(x);
            },
            None => {},
        }
        i = i + 1;
    }
    assert(items@.take(i as int) =~= items@);
    out
}

/// The session token of a login reply.
pub fn login_token(body: &Json) -> (r: Option<String>)
    ensures
        opt_str(r) == str_of(*body, "token"@),
{
    match get(body, "token") {
        Some(Json::Str(t)) => Some(owned(t.as_str())),
        _ => None,
    }
}

/// The file link of a download reply.
pub fn download_link(body: &Json) -> (r: Option<String>)
    ensures
        opt_str(r) == str_of(*body, "link"@),
{
    match get(body, "link") {
        Some(Json::Str(t)) => Some(owned(t.as_str())),
        _ => None,
    }
}

/// What a refused request reports: `<what> failed (<status>): <message>`, the message
/// being the reply's own or "unknown error".
pub open spec fn failure_text_spec(what: Seq<char>, status: Seq<char>, body: Json) -> Seq<char> {
    what + " failed ("@ + status + "): "@ + match str_of(body, "message"@) {
        Some(m) => m,
        None => "unknown error"@,
    }
}

pub fn failure_text(what: &str, status: &str, body: &Json) -> (r: String)
    ensures
        r@ == failure_text_spec(what@, status@, *body),
{
    let mut r = owned(what);
    r.append(" failed (");
    r.append(status);
    r.append("): ");
    match get(body, "message") {
        Some(Json::Str(m)) => r.append(m.as_str()),
        _ => r.append("unknown error"),
    }
    r
}

} // verus!
