use datadriver::entry::{
    format_row, format_row_at, header_line, header_lines, info_lines_at, separator_line,
    truncate_path_left, Entry,
};
use datadriver::utils::{human_age_at, CLR_BOLD, CLR_CYAN, CLR_GREEN, CLR_RESET, CLR_YELLOW};

fn entry(index: usize, path: &str, name: &str, size: u64, accessed: u64, is_dir: bool, is_empty: bool, status: &str) -> Entry {
    Entry {
        index,
        path: path.to_string(),
        name: name.to_string(),
        created: 1_000,
        modified: 2_000,
        accessed,
        size,
        is_dir,
        is_empty,
        status: status.to_string(),
    }
}

/// The row as the interactive table prints it, written with `format!`.
fn expected_row(e: &Entry, width: usize, now: u64) -> String {
    let path_disp = truncate_path_left(&e.path, width);
    let sizekb = format!("{:.1}", (e.size as f64) / 1024.0);
    let age = if e.accessed == 0 {
        "unknown".to_string()
    } else {
        human_age_at(e.accessed, now) + " ago"
    };
    let empty = if e.is_empty { " Empty" } else { "" };
    let status_colored = match e.status.as_str() {
        "RECENT" => format!("{}RECENT{}{}", CLR_GREEN, CLR_RESET, empty),
        "OLD" => format!("{}OLD{}{}", CLR_YELLOW, CLR_RESET, empty),
        _ => format!("{}{}{}", CLR_CYAN, e.status, CLR_RESET),
    };
    format!(
        "{:>3}  {:<pathw$} {:<20} {:>6} {:>8} {:>8} {:>7}",
        e.index,
        path_disp,
        e.name,
        if e.is_dir { "<DIR>" } else { "" },
        age,
        sizekb,
        status_colored,
        pathw = width
    )
}

#[test]
fn truncate_keeps_short_paths() {
    assert_eq!(truncate_path_left("abc", 3), "abc");
    assert_eq!(truncate_path_left("", 0), "");
    assert_eq!(truncate_path_left("/tmp/x", 40), "/tmp/x");
}

#[test]
fn truncate_cuts_from_the_left() {
    assert_eq!(truncate_path_left("/home/user/docs/file.txt", 10), "...ile.txt");
    assert_eq!(truncate_path_left("abcdef", 5), "...ef");
    assert_eq!(truncate_path_left("abcdef", 3), "...");
    assert_eq!(truncate_path_left("abcdef", 1), "...");
    assert_eq!(truncate_path_left("abcdef", 0), "...");
}

#[test]
fn truncate_counts_characters_not_bytes() {
    assert_eq!(truncate_path_left("ééééé", 5), "ééééé");
    assert_eq!(truncate_path_left("aéééé", 4), "...é");
    assert_eq!(truncate_path_left("日本語のパス", 5), "...パス");
}

#[test]
fn truncate_is_idempotent() {
    for w in 3..12 {
        let once = truncate_path_left("/var/lib/some/deep/path/name.log", w);
        assert_eq!(truncate_path_left(&once, w), once);
        assert_eq!(once.chars().count(), w);
    }
}

#[test]
fn row_of_recent_file() {
    let e = entry(7, "/data/report.txt", "report.txt", 2048, 1_000_000 - 90, false, false, "RECENT");
    let row = format_row_at(&e, 30, 1_000_000);
    assert_eq!(row, expected_row(&e, 30, 1_000_000));
    assert!(row.starts_with("  7  /data/report.txt"));
    assert!(row.contains("    1m ago"));
    assert!(row.contains("     2.0 "));
}

#[test]
fn row_of_old_empty_file_and_directory() {
    let f = entry(12, "/very/long/path/to/some/old/file/that/is/empty.dat", "empty.dat", 0, 0, false, true, "OLD");
    assert_eq!(format_row_at(&f, 30, 5_000_000), expected_row(&f, 30, 5_000_000));
    let d = entry(3, "/d", "d", 0, 4_000_000, true, false, "RECENT");
    assert_eq!(format_row_at(&d, 30, 5_000_000), expected_row(&d, 30, 5_000_000));
    let other = entry(1000, "/x", "x", 1536, 10, false, false, "UNKNOWN");
    assert_eq!(format_row_at(&other, 30, 100_000_000), expected_row(&other, 30, 100_000_000));
}

#[test]
fn row_with_clock_has_all_columns() {
    let e = entry(1, "/a", "a", 512, 0, false, false, "OLD");
    let row = format_row(&e, 30);
    assert_eq!(row, expected_row(&e, 30, 0));
}

#[test]
fn header_matches_format() {
    let w = 35;
    let expected = format!(
        "{}{}{:>3}  {:<pathw$} {:<20} {:<6} {:<8} {:<8} {:<7}{}",
        CLR_BOLD, CLR_CYAN, "Id", "Path", "Name", "Type", "Age", "SizeKB", "Status", CLR_RESET,
        pathw = w
    );
    assert_eq!(header_line(w), expected);
    assert_eq!(separator_line(w), "-".repeat(6 + w + 20 + 6 + 8 + 8 + 9));
    let lines = header_lines(w);
    assert_eq!(lines, vec![String::new(), expected, "-".repeat(92)]);
}

#[test]
fn info_lines_describe_entry() {
    let now = 10_000_000;
    let e = entry(4, "/srv/a.bin", "a.bin", 3000, now - 7200, false, false, "RECENT");
    let lines = info_lines_at(&e, now);
    let expected = vec![
        String::new(),
        format!("{}Entry {}{}", CLR_BOLD, 4, CLR_RESET),
        "  Path     : /srv/a.bin".to_string(),
        "  Name     : a.bin".to_string(),
        "  Type     : File".to_string(),
        format!("  Size     : {} bytes ({:.1} KB)", 3000, 3000f64 / 1024.0),
        format!("  Created  : {} ago", human_age_at(1_000, now)),
        format!("  Modified : {} ago", human_age_at(2_000, now)),
        "  Accessed : 2h ago".to_string(),
        "  Status   : RECENT".to_string(),
        "  Empty    : No".to_string(),
    ];
    assert_eq!(lines, expected);
}

#[test]
fn info_lines_unknown_times_and_directory() {
    let mut e = entry(9, "/d", "d", 0, 0, true, true, "OLD");
    e.created = 0;
    e.modified = 0;
    let lines = info_lines_at(&e, 50);
    assert_eq!(lines[4], "  Type     : Directory");
    assert_eq!(lines[6], "  Created  : unknown");
    assert_eq!(lines[7], "  Modified : unknown");
    assert_eq!(lines[8], "  Accessed : unknown");
    assert_eq!(lines[10], "  Empty    : Yes");
    assert_eq!(lines[5], "  Size     : 0 bytes (0.0 KB)");
}

#[test]
fn clone_keeps_fields() {
    let e = entry(2, "/p", "p", 5, 6, false, true, "OLD");
    let c = e.clone();
    assert_eq!(c.index, 2);
    assert_eq!(c.path, "/p");
    assert_eq!(c.status, "OLD");
    assert!(c.is_empty);
}
