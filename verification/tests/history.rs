use microvid::history::{csv_header, csv_quote, csv_row, history_csv, CsvRow};

fn row() -> CsvRow {
    CsvRow {
        finished_at: 1_700_000_000,
        source: "/m/The \"Best\" Show.mkv".to_string(),
        output: "/o/a,b.mkv".to_string(),
        codec: "hevc".to_string(),
        resolution: 480,
        crf: 26,
        content_type: "drama".to_string(),
        in_size: 1_400_000_000,
        out_size: 210_000_000,
        duration: "2600.0".to_string(),
        elapsed: "812.3".to_string(),
        fps: "76.85".to_string(),
        speed: "3.20".to_string(),
        parallel_jobs: 2,
    }
}

#[test]
fn csv_quoting_doubles_quotes() {
    assert_eq!(csv_quote("plain"), "\"plain\"");
    assert_eq!(csv_quote("say \"hi\""), "\"say \"\"hi\"\"\"");
    assert_eq!(csv_quote(""), "\"\"");
}

#[test]
fn csv_export_lines() {
    let line = csv_row(&row());
    assert_eq!(
        line,
        "1700000000,\"/m/The \"\"Best\"\" Show.mkv\",\"/o/a,b.mkv\",hevc,480,26,drama,1400000000,210000000,2600.0,812.3,76.85,3.20,2\n"
    );
    let mut neg = row();
    neg.finished_at = -5;
    assert!(csv_row(&neg).starts_with("-5,"));
    let all = history_csv(&vec![row(), row()]);
    assert!(all.starts_with(&csv_header()));
    assert_eq!(all, format!("{}{}{}", csv_header(), line, line));
    assert_eq!(history_csv(&vec![]), csv_header());
    assert!(csv_header().starts_with("finished_at,source,output,"));
}
