use datadriver::commands::{
    arg_id, command_of_parts, csv_target, delete_action, explorer_arg, explorer_target,
    file_action, filter_report_at, find_entry, help_entry, help_lines, initial_path_width,
    lookup_entry, matching_entries, parse_command, parse_run_options, preview_done, preview_line,
    preview_line_count, reassign_indices, remove_entry, session_path_width, sort_entries,
    sort_key_arg, sorted_order, stats_report, Command, DeleteAction, FileAction, Lookup, SortKey,
};
use datadriver::entry::{format_row_at, Entry};
use datadriver::utils::{CLR_BOLD, CLR_CYAN, CLR_RESET};

fn entry(index: usize, path: &str, name: &str, size: u64, accessed: u64, is_dir: bool) -> Entry {
    Entry {
        index,
        path: path.to_string(),
        name: name.to_string(),
        created: 0,
        modified: 0,
        accessed,
        size,
        is_dir,
        is_empty: !is_dir && size == 0,
        status: "OLD".to_string(),
    }
}

fn sample() -> Vec<Entry> {
    vec![
        entry(1, "/r/Docs", "Docs", 0, 50, true),
        entry(2, "/r/Docs/Report.TXT", "Report.TXT", 3000, 70, false),
        entry(3, "/r/b.log", "b.log", 9000, 10, false),
        entry(4, "/r/a.log", "a.log", 9000, 70, false),
    ]
}

fn parts(words: &[&str]) -> Vec<String> {
    words.iter().map(|w| w.to_string()).collect()
}

#[test]
fn commands_by_first_word() {
    let cases = [
        ("q", Command::Quit), ("quit", Command::Quit), ("ls", Command::List), ("h", Command::Help),
        ("help", Command::Help), ("o", Command::Reveal), ("open 3", Command::Open),
        ("p 2 10", Command::Preview), ("d 1", Command::Delete), ("info 4", Command::Info),
        ("f x", Command::Filter), ("sort size", Command::Sort), ("stats", Command::Stats),
        ("w out.csv", Command::WriteCsv), ("r out.csv", Command::WriteCsv),
        ("clear", Command::Clear), ("bogus", Command::Unknown), ("   ", Command::Empty),
        ("rc", Command::Unknown),
    ];
    for (line, cmd) in cases {
        assert_eq!(parse_command(line).0, cmd, "{:?}", line);
    }
    let (c, ws) = parse_command("  p   5\t 12 ");
    assert_eq!(c, Command::Preview);
    assert_eq!(ws, parts(&["p", "5", "12"]));
    assert_eq!(command_of_parts(&parts(&["LS"])), Command::Unknown);
}

#[test]
fn ids_are_found_by_first_match() {
    let mut es = sample();
    assert_eq!(find_entry(&es, 3), Some(2));
    assert_eq!(find_entry(&es, 9), None);
    es[3].index = 3;
    assert_eq!(find_entry(&es, 3), Some(2));
    assert_eq!(arg_id(&parts(&["o", "+4"]), 1), Some(4));
    assert_eq!(arg_id(&parts(&["o", "-4"]), 1), None);
    assert_eq!(arg_id(&parts(&["o"]), 1), None);
}

#[test]
fn reveal_falls_back_to_root() {
    let es = sample();
    assert_eq!(explorer_target(&es, &parts(&["o", "3"]), "/r"), "/r/b.log");
    assert_eq!(explorer_target(&es, &parts(&["o"]), "/r"), "/r");
    assert_eq!(explorer_target(&es, &parts(&["o", "x"]), "/r"), "/r");
    assert_eq!(explorer_target(&es, &parts(&["o", "99"]), "/r"), "/r");
}

#[test]
fn lookups_and_file_actions() {
    let es = sample();
    assert!(matches!(lookup_entry(&es, &parts(&["info"])), Lookup::InvalidId));
    assert!(matches!(lookup_entry(&es, &parts(&["info", "7"])), Lookup::NoEntry(7)));
    assert!(matches!(lookup_entry(&es, &parts(&["info", "2"])), Lookup::Found(1)));
    assert!(matches!(file_action(&es, &parts(&["open", "1"])), FileAction::Directory));
    assert!(matches!(file_action(&es, &parts(&["open", "4"])), FileAction::File(3)));
    assert!(matches!(file_action(&es, &parts(&["open", "z"])), FileAction::InvalidId));
    assert!(matches!(file_action(&es, &parts(&["p", "8"])), FileAction::NoEntry(8)));
    assert_eq!(preview_line_count(&parts(&["p", "1"])), 30);
    assert_eq!(preview_line_count(&parts(&["p", "1", "12"])), 12);
    assert_eq!(preview_line_count(&parts(&["p", "1", "x"])), 30);
}

#[test]
fn delete_decisions() {
    let es = sample();
    assert!(matches!(delete_action(&es, &parts(&["d"])), DeleteAction::Nothing));
    assert!(matches!(delete_action(&es, &parts(&["d", "q"])), DeleteAction::InvalidId));
    assert!(matches!(delete_action(&es, &parts(&["d", "5"])), DeleteAction::NoEntry(5)));
    assert!(matches!(delete_action(&es, &parts(&["d", "2"])), DeleteAction::Confirm(1)));
}

#[test]
fn removing_renumbers() {
    let mut es = sample();
    let gone = remove_entry(&mut es, 1);
    assert_eq!(gone.name, "Report.TXT");
    let got: Vec<(usize, &str)> = es.iter().map(|e| (e.index, e.name.as_str())).collect();
    assert_eq!(got, vec![(1, "Docs"), (2, "b.log"), (3, "a.log")]);
}

#[test]
fn renumbering_is_one_based() {
    let mut es = sample();
    for e in es.iter_mut() {
        e.index = 42;
    }
    reassign_indices(&mut es);
    let idx: Vec<usize> = es.iter().map(|e| e.index).collect();
    assert_eq!(idx, vec![1, 2, 3, 4]);
}

#[test]
fn csv_target_needs_a_name() {
    assert_eq!(csv_target(&parts(&["w"])), None);
    assert_eq!(csv_target(&parts(&["w", "out.csv", "x"])), Some("out.csv".to_string()));
}

#[test]
fn filter_is_case_insensitive_on_path_or_name() {
    let es = sample();
    let q: Vec<char> = "report".chars().collect();
    let found = matching_entries(&es, &q);
    assert_eq!(found.len(), 1);
    assert_eq!(found[0].name, "Report.TXT");
    let q: Vec<char> = "docs".chars().collect();
    assert_eq!(matching_entries(&es, &q).len(), 2);
    let lines = filter_report_at(&es, &parts(&["f", "LOG"]), 100);
    assert_eq!(lines, vec!["Matches:".to_string(), format_row_at(&es[2], 80, 100), format_row_at(&es[3], 80, 100)]);
    let lines = filter_report_at(&es, &parts(&["f", "ZZZ"]), 100);
    assert_eq!(lines, vec!["No entries match 'zzz'".to_string()]);
}

#[test]
fn stats_summarise_the_scan() {
    let es = sample();
    let lines = stats_report(&es).unwrap();
    let expected = vec![
        String::new(),
        format!("{}Scan Summary{}", CLR_BOLD, CLR_RESET),
        "Total entries: 4".to_string(),
        "Files: 3, Directories: 1".to_string(),
        format!("Total file size: {:.1} KB", 21000f64 / 1024.0),
        "Largest file: /r/a.log".to_string(),
        "Oldest accessed: b.log".to_string(),
        "Newest accessed: a.log".to_string(),
    ];
    assert_eq!(lines, expected);
}

#[test]
fn stats_of_nothing_and_of_overflowing_sizes() {
    let lines = stats_report(&Vec::new()).unwrap();
    assert_eq!(lines[5], "Largest file: N/A");
    assert_eq!(lines[6], "Oldest accessed: N/A");
    assert_eq!(lines[7], "Newest accessed: N/A");
    let big = vec![entry(1, "/a", "a", u64::MAX, 1, false), entry(2, "/b", "b", 1, 1, false)];
    assert!(stats_report(&big).is_none());
}

#[test]
fn sorting_by_each_key() {
    let mut es = sample();
    let order = sort_entries(&mut es, SortKey::Name);
    let names: Vec<&str> = es.iter().map(|e| e.name.as_str()).collect();
    assert_eq!(names, vec!["Docs", "Report.TXT", "a.log", "b.log"]);
    assert_eq!(order, vec![0, 1, 3, 2]);
    assert_eq!(es.iter().map(|e| e.index).collect::<Vec<_>>(), vec![1, 2, 3, 4]);

    let mut by_size = sample();
    let order = sort_entries(&mut by_size, SortKey::Size);
    let names: Vec<&str> = by_size.iter().map(|e| e.name.as_str()).collect();
    assert_eq!(names, vec!["b.log", "a.log", "Report.TXT", "Docs"]);
    assert_eq!(order, vec![2, 3, 1, 0]);

    assert_eq!(sorted_order(&sample(), SortKey::Age), vec![1, 3, 0, 2]);
}

#[test]
fn sort_keys() {
    assert_eq!(sort_key_arg(&parts(&["sort", "name"])), Some(SortKey::Name));
    assert_eq!(sort_key_arg(&parts(&["sort", "size"])), Some(SortKey::Size));
    assert_eq!(sort_key_arg(&parts(&["sort", "age"])), Some(SortKey::Age));
    assert_eq!(sort_key_arg(&parts(&["sort", "Age"])), None);
    assert_eq!(sort_key_arg(&parts(&["sort"])), None);
}

#[test]
fn run_options() {
    let o = parse_run_options(&parts(&["prog"]));
    assert_eq!(o.path, None);
    assert_eq!(o.threshold_days, 365);
    assert!(!o.only_candidates && !o.interactive);
    let o = parse_run_options(&parts(&["prog", "--path", "/x", "--days", "30", "--only-candidates", "--interactive", "--other"]));
    assert_eq!(o.path, Some("/x".to_string()));
    assert_eq!(o.threshold_days, 30);
    assert!(o.only_candidates && o.interactive);
    let o = parse_run_options(&parts(&["prog", "--days", "soon", "--path"]));
    assert_eq!(o.threshold_days, 365);
    assert_eq!(o.path, None);
    let o = parse_run_options(&parts(&["prog", "--path", "--days"]));
    assert_eq!(o.path, Some("--days".to_string()));
    assert_eq!(o.threshold_days, 365);
}

#[test]
fn path_column_widths() {
    assert_eq!(initial_path_width(&Vec::new()), 40);
    assert_eq!(session_path_width(&Vec::new()), 30);
    let short = vec![entry(1, "/a", "a", 0, 0, false)];
    assert_eq!(initial_path_width(&short), 30);
    let long = vec![entry(1, &"x".repeat(90), "a", 0, 0, false), entry(2, &"é".repeat(20), "b", 0, 0, false)];
    assert_eq!(initial_path_width(&long), 80);
    assert_eq!(session_path_width(&long), 90);
    let wide = vec![entry(1, &"é".repeat(20), "b", 0, 0, false)];
    assert_eq!(session_path_width(&wide), 40);
}

#[test]
fn help_lists_commands() {
    let lines = help_lines();
    assert_eq!(lines.len(), 16);
    assert_eq!(lines[0], "");
    assert_eq!(lines[1], format!("{}Interactive help{}", CLR_BOLD, CLR_RESET));
    assert_eq!(lines[2], format!("  {CLR_CYAN}{:<22}{CLR_RESET} - {CLR_BOLD}{}{CLR_RESET}", "ls", "Reprint the current list"));
    assert_eq!(lines[14], help_entry("q", "Quit interactive mode"));
    assert_eq!(lines[15], "");
}

#[test]
fn preview_lines_are_numbered() {
    assert_eq!(preview_line(0, "first"), format!("{:4} {}", 1, "first"));
    assert_eq!(preview_line(12344, "x"), "12345 x");
    assert!(preview_done(30, 30));
    assert!(!preview_done(29, 30));
}

#[test]
fn file_manager_arguments() {
    assert_eq!(explorer_arg("C:\\a.txt", true), "/select,\"C:\\a.txt\"");
    assert_eq!(explorer_arg("C:\\dir", false), "\"C:\\dir\"");
}
