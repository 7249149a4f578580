//! The encode history as CSV: the header, the quoting of text fields and one line
//! per finished encode.
use vstd::prelude::*;
use crate::text::{chars_of, dec, dec_int, i64_to_string, replace_all, string_of, u64_to_string};

verus! {

/// One finished encode, as exported. The fractional figures come already written
/// (duration and elapsed time with one decimal, fps and speed with two).
pub struct CsvRow {
    pub finished_at: i64,
    pub source: String,
    pub output: String,
    pub codec: String,
    pub resolution: u32,
    pub crf: u8,
    pub content_type: String,
    pub in_size: u64,
    pub out_size: u64,
    pub duration: String,
    pub elapsed: String,
    pub fps: String,
    pub speed: String,
    pub parallel_jobs: u32,
}

/// The first line of the export.
pub open spec fn csv_header_spec() -> Seq<char> {
    "finished_at,source,output,codec,resolution,crf,content_type,in_size,out_size,duration_secs,elapsed_secs,avg_fps,avg_speed,parallel_jobs\n"@
}

pub fn csv_header() -> (r: String)
    ensures
        r@ == csv_header_spec(),
{
    crate::text::owned(
        "finished_at,source,output,codec,resolution,crf,content_type,in_size,out_size,duration_secs,elapsed_secs,avg_fps,avg_speed,parallel_jobs\n",
    )
}

/// A text field in double quotes, its own quotes doubled.
pub open spec fn csv_quote_spec(v: Seq<char>) -> Seq<char> {
    seq!['"'] + replace_all(v, seq!['"'], seq!['"', '"']) + seq!['"']
}

pub fn csv_quote(v: &str) -> (r: String)
    ensures
        r@ == csv_quote_spec(v@),
{
    let q: Vec<char> = vec!['"'];
    let qq: Vec<char> = vec!['"', '"'];
    assert(q@ =~= seq!['"']);
    assert(qq@ =~= seq!['"', '"']);
    let body = crate::naming::replace_vec(&chars_of(v), &q, &qq);
    let mut r: Vec<char> = Vec::new();
    r.push('"');
    crate::subtitles::extend_chars(&mut r, &body);
    r.push('"');
    assert(r@ =~= csv_quote_spec(v@));
    string_of(&r)
}

/// The fields of a row joined by commas.
pub open spec fn csv_fields(r: CsvRow) -> Seq<Seq<char>> {
    seq![
        dec_int(r.finished_at as int),
        csv_quote_spec(r.source@),
        csv_quote_spec(r.output@),
        r.codec@,
        dec(r.resolution as nat),
        dec(r.crf as nat),
        r.content_type@,
        dec(r.in_size as nat),
        dec(r.out_size as nat),
        r.duration@,
        r.elapsed@,
        r.fps@,
        r.speed@,
        dec(r.parallel_jobs as nat),
    ]
}

/// The fields joined by commas, from the `k`-th on.
pub open spec fn join_fields(f: Seq<Seq<char>>, k: nat) -> Seq<char>
    decreases f.len() - k,
{
    if k >= f.len() {
        Seq::empty()
    } else if k + 1 == f.len() {
        f[k as int]
    } else {
        f[k as int] + seq![','] + join_fields(f, k + 1)
    }
}

/// One line of the export, ended by a newline.
pub open spec fn csv_row_spec(r: CsvRow) -> Seq<char> {
    join_fields(csv_fields(r), 0) + seq!['\n']
}

pub fn csv_row(row: &CsvRow) -> (r: String)
    ensures
        r@ == csv_row_spec(*row),
{
    let fields: Vec<String> = vec![
        i64_to_string(row.finished_at),
        csv_quote(row.source.as_str()),
        csv_quote(row.output.as_str()),
        crate::text::owned(row.codec.as_str()),
        u64_to_string(row.resolution as u64),
        u64_to_string(row.crf as u64),
        crate::text::owned(row.content_type.as_str()),
        u64_to_string(row.in_size),
        u64_to_string(row.out_size),
        crate::text::owned(row.duration.as_str()),
        crate::text::owned(row.elapsed.as_str()),
        crate::text::owned(row.fps.as_str()),
        crate::text::owned(row.speed.as_str()),
        u64_to_string(row.parallel_jobs as u64),
    ];
    let ghost f = csv_fields(*row);
    assert(crate::queue::strs(fields@) =~= f);
    let mut out: Vec<char> = Vec::new();
    let mut k: usize = fields.len();
    // Built from the last field back, so that each step prepends one field.
    let mut tail: Vec<char> = Vec::new();
    assert(tail@ =~= join_fields(f, 14));
    while k > 0
        invariant
            k <= 14,
            fields@.len() == 14,
            crate::queue::strs(fields@) == f,
            f.len() == 14,
            tail@ == join_fields(f, k as nat),
        decreases k,
    {
        k = k - 1;
        let mut piece = chars_of(fields[k].as_str());
        assert(piece@ == f[k as int]);
        if k + 1 < 14 {
            piece.push(',');
        }
        crate::subtitles::extend_chars(&mut piece, &tail);
        assert(piece@ =~= join_fields(f, k as nat));
        tail = piece;
    }
    crate::subtitles::extend_chars(&mut out, &tail);
    out.push('\n');
    assert(out@ =~= csv_row_spec(*row));
    string_of(&out)
}

/// The whole export: the header, then one line per row.
pub open spec fn history_csv_spec(rows: Seq<CsvRow>) -> Seq<char>
    decreases rows.len(),
{
    if rows.len() == 0 {
        csv_header_spec()
    } else {
        history_csv_spec(rows.drop_last()) + csv_row_spec(rows.last())
    }
}

pub fn history_csv(rows: &Vec<CsvRow>) -> (r: String)
    ensures
        r@ == history_csv_spec(rows@),
{
    let mut out = chars_of(csv_header().as_str());
    let mut i: usize = 0;
    assert(rows@.take(0) =~= Seq::<CsvRow>::empty());
    while i < rows.len()
        invariant
            i <= rows@.len(),
            out@ == history_csv_spec(rows@.take(i as int)),
        decreases rows@.len() - i,
    {
        let line = chars_of(csv_row(&rows[i]).as_str());
        crate::subtitles::extend_chars(&mut out, &line);
        assert(rows@.take(i + 1).drop_last() =~= rows@.take(i as int));
        i = i + 1;
    }
    assert(rows@.take(i as int) =~= rows@);
    string_of(&out)
}

} // verus!
