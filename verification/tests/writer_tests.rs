use datadriver::entry::Entry;
use datadriver::utils::human_age_at;
use datadriver::writer::{
    csv_header, csv_report_lines, csv_report_lines_at, csv_row_at, escape_csv, progress_due,
    spinner_frame,
};

fn entry(path: &str, name: &str, created: u64, accessed: u64, size: u64, empty: bool, status: &str) -> Entry {
    Entry {
        index: 1,
        path: path.to_string(),
        name: name.to_string(),
        created,
        modified: 0,
        accessed,
        size,
        is_dir: false,
        is_empty: empty,
        status: status.to_string(),
    }
}

fn human_or_unknown(ts: u64, now: u64) -> String {
    if ts == 0 {
        "unknown".into()
    } else {
        format!("{} ago", human_age_at(ts, now))
    }
}

fn expected_row(e: &Entry, now: u64) -> String {
    let created = human_or_unknown(e.created, now);
    let modified = human_or_unknown(e.modified, now);
    let accessed = human_or_unknown(e.accessed, now);
    let size_kb = format!("{:.1}", e.size as f64 / 1024.0);
    format!(
        "\"{}\",\"{}\",\"{}\",\"{}\",\"{}\",\"{}\",\"{}\",\"{}\",\"{}\"",
        e.path.replace('"', "\"\""),
        e.name.replace('"', "\"\""),
        created,
        modified,
        accessed,
        accessed,
        size_kb,
        e.status.replace('"', "\"\""),
        if e.is_empty { "Yes" } else { "No" }
    )
}

#[test]
fn escape_doubles_quotes() {
    assert_eq!(escape_csv("plain"), "plain");
    assert_eq!(escape_csv("a\"b"), "a\"\"b");
    assert_eq!(escape_csv("\"\""), "\"\"\"\"");
    assert_eq!(escape_csv(""), "");
}

#[test]
fn escape_roundtrip() {
    for s in ["", "\"", "x\"y\"\"z", "no quotes", "\"start", "end\""] {
        assert_eq!(escape_csv(s).replace("\"\"", "\""), s);
    }
}

#[test]
fn header_names_columns() {
    assert_eq!(csv_header(), "Path,Name,Created,Modified,LastAccess,Age,SizeKB,Status,Empty");
}

#[test]
fn row_quotes_every_field() {
    let now = 2_000_000;
    let e = entry("/a \"quoted\" dir/f.txt", "f\"x", now - 120, now - 86400 * 3, 4096, false, "OLD");
    let row = csv_row_at(&e, now);
    assert_eq!(row, expected_row(&e, now));
    assert_eq!(
        row,
        "\"/a \"\"quoted\"\" dir/f.txt\",\"f\"\"x\",\"2m ago\",\"unknown\",\"3d ago\",\"3d ago\",\"4.0\",\"OLD\",\"No\""
    );
}

#[test]
fn report_has_header_then_rows() {
    let now = 500_000;
    let es = vec![
        entry("/x", "x", 0, 0, 0, true, "OLD"),
        entry("/y", "y", 10, now - 5, 100, false, "RECENT"),
    ];
    let lines = csv_report_lines_at(&es, now);
    assert_eq!(lines.len(), 3);
    assert_eq!(lines[0], csv_header());
    assert_eq!(lines[1], expected_row(&es[0], now));
    assert_eq!(lines[2], expected_row(&es[1], now));
    let live = csv_report_lines(&es);
    assert_eq!(live.len(), 3);
    assert_eq!(live[1], expected_row(&es[0], 0));
}

#[test]
fn progress_every_two_hundred_for_large_reports() {
    assert!(!progress_due(100, 0));
    assert!(progress_due(101, 0));
    assert!(progress_due(1000, 400));
    assert!(!progress_due(1000, 401));
}

#[test]
fn spinner_cycles() {
    let frames: String = (0..6).map(spinner_frame).collect();
    assert_eq!(frames, "|/-\\|/");
}

#[test]
fn status_quotes_are_doubled_too() {
    let e = entry("/p", "n", 0, 0, 0, true, "A\"B");
    let row = csv_row_at(&e, 10);
    assert_eq!(row, expected_row(&e, 10));
    assert!(row.ends_with(",\"A\"\"B\",\"Yes\""));
}

/// A reader of quoted/plain CSV fields by RFC 4180 rules, for the test below.
fn read_csv(text: &str) -> Vec<Vec<String>> {
    let mut records = Vec::new();
    let mut fields = Vec::new();
    let mut field = String::new();
    let mut chars = text.chars().peekable();
    let mut in_quotes = false;
    while let Some(c) = chars.next() {
        if in_quotes {
            if c == '"' {
                if chars.peek() == Some(&'"') {
                    chars.next();
                    field.push('"');
                } else {
                    in_quotes = false;
                }
            } else {
                field.push(c);
            }
        } else if c == '"' {
            in_quotes = true;
        } else if c == ',' {
            fields.push(std::mem::take(&mut field));
        } else if c == '\n' {
            fields.push(std::mem::take(&mut field));
            records.push(std::mem::take(&mut fields));
        } else {
            field.push(c);
        }
    }
    records
}

#[test]
fn report_reads_back() {
    let es = vec![
        entry("/a,b\n\"c\"", "n\"\"", 3, 4, 5, false, "O\"LD"),
        entry("/plain", "p", 0, 0, 0, true, "RECENT"),
    ];
    let text: String = csv_report_lines_at(&es, 100).iter().map(|l| format!("{}\n", l)).collect();
    let recs = read_csv(&text);
    assert_eq!(recs.len(), 3);
    assert_eq!(recs[0].len(), 9);
    for (i, e) in es.iter().enumerate() {
        assert_eq!(recs[i + 1].len(), 9);
        assert_eq!(recs[i + 1][0], e.path);
        assert_eq!(recs[i + 1][1], e.name);
        assert_eq!(recs[i + 1][7], e.status);
    }
}
