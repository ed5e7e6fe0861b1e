//! One scanned file or directory, and how it is shown: a table row, the
//! table header, and the detailed information view.
use vstd::prelude::*;

use crate::size::{kib_string, kib_text};
use crate::text::{
    chars_of, decimal, decimal_string, str_equal, pad_left, pad_right, push_chars, push_padded_left,
    push_padded_right, push_repeated, push_str, repeated,
};
use crate::utils::{
    age_text, current_unix_secs, human_age_at, CLR_BOLD, CLR_CYAN, CLR_GREEN, CLR_RESET,
    CLR_YELLOW,
};

verus! {

/// A scanned file or directory. `path` is the path as text; timestamps are
/// seconds since the Unix epoch, 0 where unknown.
pub struct Entry {
    pub index: usize,
    pub path: String,
    pub name: String,
    pub created: u64,
    pub modified: u64,
    pub accessed: u64,
    pub size: u64,
    pub is_dir: bool,
    pub is_empty: bool,
    pub status: String,
}

impl Clone for Entry {
    fn clone(&self) -> (c: Self)
        ensures
            c == *self,
    {
        Entry {
            index: self.index,
            path: self.path.clone(),
            name: self.name.clone(),
            created: self.created,
            modified: self.modified,
            accessed: self.accessed,
            size: self.size,
            is_dir: self.is_dir,
            is_empty: self.is_empty,
            status: self.status.clone(),
        }
    }
}

// ------------------------------------------------------------------
// Paths cut to a width
// ------------------------------------------------------------------

/// `path` when it has at most `width` characters; otherwise `"..."`
/// followed by its last `width - 3` characters (none when `width < 3`).
pub open spec fn truncated_left(path: Seq<char>, width: nat) -> Seq<char> {
    if path.len() <= width {
        path
    } else {
        let keep: nat = if width >= 3 {
            (width - 3) as nat
        } else {
            0
        };
        seq!['.', '.', '.'] + path.skip(path.len() - keep)
    }
}

/// Truncates a path string to `width` characters from the left, adding
/// `"..."` where it was cut; works on characters, not bytes.
pub fn truncate_path_left(path: &str, width: usize) -> (s: String)
    ensures
        s@ == truncated_left(path@, width as nat),
        s@.len() == if path@.len() <= width {
            path@.len()
        } else if width >= 3 {
            width as nat
        } else {
            3
        },
{
    let cs = chars_of(path);
    let n = cs.len();
    let mut s = String::new();
    if n <= width {
        push_chars(&mut s, &cs);
        return s;
    }
    let keep: usize = if width >= 3 {
        width - 3
    } else {
        0
    };
    push_str(&mut s, "...");
    proof {
        reveal_strlit("...");
    }
    let mut i = n - keep;
    while i < n
        invariant
            keep < n,
            n - keep <= i <= n,
            n == cs@.len(),
            s@ == seq!['.', '.', '.'] + cs@.subrange(n - keep, i as int),
        decreases n - i,
    {
        crate::text::push_char(&mut s, cs[i]);
        assert(cs@.subrange(n - keep, i + 1) =~= cs@.subrange(n - keep, i as int).push(
            cs@[i as int],
        ));
        i = i + 1;
    }
    assert(cs@.subrange(n - keep, n as int) =~= cs@.skip(n - keep));
    s
}

/// Cutting an already cut path to the same width changes nothing.
pub proof fn lemma_truncate_idempotent(path: Seq<char>, width: nat)
    ensures
        truncated_left(truncated_left(path, width), width) == truncated_left(path, width),
{
}

/// What is kept of a cut path is its end.
pub proof fn lemma_truncate_keeps_suffix(path: Seq<char>, width: nat)
    requires
        path.len() > width,
        width >= 3,
    ensures
        truncated_left(path, width).skip(3) == path.skip(path.len() - (width - 3)),
{
    assert(truncated_left(path, width).skip(3) =~= path.skip(path.len() - (width - 3)));
}

// ------------------------------------------------------------------
// Table rows
// ------------------------------------------------------------------

/// The age column: `"unknown"` for an unknown time, else the age and `" ago"`.
pub open spec fn age_or_unknown(ts: nat, now: nat) -> Seq<char> {
    if ts == 0 {
        "unknown"@
    } else {
        age_text(now, ts) + " ago"@
    }
}

/// The status column: the status in green (`RECENT`) or yellow (`OLD`),
/// followed by `" Empty"` for an empty file; any other status in cyan.
pub open spec fn status_text(status: Seq<char>, is_empty: bool) -> Seq<char> {
    let empty = if is_empty {
        " Empty"@
    } else {
        ""@
    };
    if status == "RECENT"@ {
        CLR_GREEN@ + "RECENT"@ + CLR_RESET@ + empty
    } else if status == "OLD"@ {
        CLR_YELLOW@ + "OLD"@ + CLR_RESET@ + empty
    } else {
        CLR_CYAN@ + status + CLR_RESET@
    }
}

/// The status column of `RECENT` and `OLD` is the status between its colour
/// and the reset, with `" Empty"` after it exactly for an empty file; any
/// other status is shown in cyan whether or not the file is empty.
pub proof fn lemma_status_text(status: Seq<char>)
    ensures
        status == "RECENT"@ ==> status_text(status, false) == CLR_GREEN@ + "RECENT"@ + CLR_RESET@,
        status == "OLD"@ ==> status_text(status, false) == CLR_YELLOW@ + "OLD"@ + CLR_RESET@,
        status == "RECENT"@ || status == "OLD"@ ==> status_text(status, true) == status_text(
            status,
            false,
        ) + " Empty"@,
        status != "RECENT"@ && status != "OLD"@ ==> status_text(status, true) == status_text(
            status,
            false,
        ) && status_text(status, false) == CLR_CYAN@ + status + CLR_RESET@,
{
    reveal_strlit("");
    reveal_strlit("RECENT");
    reveal_strlit("OLD");
    assert("RECENT"@ != "OLD"@) by {
        assert("RECENT"@.len() != "OLD"@.len());
    }
    assert(CLR_GREEN@ + "RECENT"@ + CLR_RESET@ + ""@ =~= CLR_GREEN@ + "RECENT"@ + CLR_RESET@);
    assert(CLR_YELLOW@ + "OLD"@ + CLR_RESET@ + ""@ =~= CLR_YELLOW@ + "OLD"@ + CLR_RESET@);
}

/// The table row of `e` with a path column of `width` characters, ages
/// taken at time `now`.
pub open spec fn row_text(e: Entry, width: nat, now: nat) -> Seq<char> {
    pad_left(decimal(e.index as nat), 3) + "  "@ + pad_right(
        truncated_left(e.path@, width),
        width,
    ) + " "@ + pad_right(e.name@, 20) + " "@ + pad_left(
        if e.is_dir {
            "<DIR>"@
        } else {
            ""@
        },
        6,
    ) + " "@ + pad_left(age_or_unknown(e.accessed as nat, now), 8) + " "@ + pad_left(
        kib_text(e.size as nat),
        8,
    ) + " "@ + pad_left(status_text(e.status@, e.is_empty), 7)
}

/// The age column's text at time `now`.
pub fn age_or_unknown_at(ts: u64, now: u64) -> (s: String)
    ensures
        s@ == age_or_unknown(ts as nat, now as nat),
{
    if ts == 0 {
        let mut s = String::new();
        push_str(&mut s, "unknown");
        s
    } else {
        let mut s = human_age_at(ts, now);
        push_str(&mut s, " ago");
        s
    }
}

/// The status column's text.
pub fn status_string(status: &str, is_empty: bool) -> (s: String)
    ensures
        s@ == status_text(status@, is_empty),
{
    let empty = if is_empty {
        " Empty"
    } else {
        ""
    };
    let mut s = String::new();
    if str_equal(status, "RECENT") {
        push_str(&mut s, CLR_GREEN);
        push_str(&mut s, "RECENT");
        push_str(&mut s, CLR_RESET);
        push_str(&mut s, empty);
    } else if str_equal(status, "OLD") {
        push_str(&mut s, CLR_YELLOW);
        push_str(&mut s, "OLD");
        push_str(&mut s, CLR_RESET);
        push_str(&mut s, empty);
    } else {
        push_str(&mut s, CLR_CYAN);
        push_str(&mut s, status);
        push_str(&mut s, CLR_RESET);
    }
    s
}

/// The table row of `e` at time `now`.
pub fn format_row_at(e: &Entry, width_path: usize, now: u64) -> (s: String)
    ensures
        s@ == row_text(*e, width_path as nat, now as nat),
{
    let idx = decimal_string(e.index as u64);
    let path = truncate_path_left(e.path.as_str(), width_path);
    let age = age_or_unknown_at(e.accessed, now);
    let size = kib_string(e.size);
    let status = status_string(e.status.as_str(), e.is_empty);
    let kind = if e.is_dir {
        "<DIR>"
    } else {
        ""
    };
    let mut s = String::new();
    push_padded_left(&mut s, idx.as_str(), 3);
    push_str(&mut s, "  ");
    push_padded_right(&mut s, path.as_str(), width_path);
    push_str(&mut s, " ");
    push_padded_right(&mut s, e.name.as_str(), 20);
    push_str(&mut s, " ");
    push_padded_left(&mut s, kind, 6);
    push_str(&mut s, " ");
    push_padded_left(&mut s, age.as_str(), 8);
    push_str(&mut s, " ");
    push_padded_left(&mut s, size.as_str(), 8);
    push_str(&mut s, " ");
    push_padded_left(&mut s, status.as_str(), 7);
    s
}

/// The table row of `e`, with ages taken from the system clock.
pub fn format_row(e: &Entry, width_path: usize) -> (s: String)
    ensures
        exists|now: u64| s@ == row_text(*e, width_path as nat, now as nat),
{
    let now = current_unix_secs();
    format_row_at(e, width_path, now)
}

// ------------------------------------------------------------------
// Table header
// ------------------------------------------------------------------

/// The header line of the table, in bold cyan.
pub open spec fn header_text(width: nat) -> Seq<char> {
    CLR_BOLD@ + CLR_CYAN@ + pad_left("Id"@, 3) + "  "@ + pad_right("Path"@, width) + " "@
        + pad_right("Name"@, 20) + " "@ + pad_right("Type"@, 6) + " "@ + pad_right("Age"@, 8)
        + " "@ + pad_right("SizeKB"@, 8) + " "@ + pad_right("Status"@, 7) + CLR_RESET@
}

/// The header line for a path column of `width_path` characters.
pub fn header_line(width_path: usize) -> (s: String)
    ensures
        s@ == header_text(width_path as nat),
{
    let mut s = String::new();
    push_str(&mut s, CLR_BOLD);
    push_str(&mut s, CLR_CYAN);
    push_padded_left(&mut s, "Id", 3);
    push_str(&mut s, "  ");
    push_padded_right(&mut s, "Path", width_path);
    push_str(&mut s, " ");
    push_padded_right(&mut s, "Name", 20);
    push_str(&mut s, " ");
    push_padded_right(&mut s, "Type", 6);
    push_str(&mut s, " ");
    push_padded_right(&mut s, "Age", 8);
    push_str(&mut s, " ");
    push_padded_right(&mut s, "SizeKB", 8);
    push_str(&mut s, " ");
    push_padded_right(&mut s, "Status", 7);
    push_str(&mut s, CLR_RESET);
    s
}

/// The rule under the header: one dash per column character and separator.
pub fn separator_line(width_path: usize) -> (s: String)
    requires
        width_path + 57 <= usize::MAX,
    ensures
        s@ == repeated('-', (width_path + 57) as nat),
{
    let mut s = String::new();
    push_repeated(&mut s, '-', 6 + width_path + 20 + 6 + 8 + 8 + 9);
    assert(s@ =~= repeated('-', (width_path + 57) as nat));
    s
}

/// The header as printed: an empty line, the header line and the rule.
pub fn header_lines(width_path: usize) -> (lines: Vec<String>)
    requires
        width_path + 57 <= usize::MAX,
    ensures
        lines@.len() == 3,
        lines@[0]@ == Seq::<char>::empty(),
        lines@[1]@ == header_text(width_path as nat),
        lines@[2]@ == repeated('-', (width_path + 57) as nat),
{
    let mut lines: Vec<String> = Vec::new();
    lines.push(String::new());
    lines.push(header_line(width_path));
    lines.push(separator_line(width_path));
    lines
}

// ------------------------------------------------------------------
// Detailed information
// ------------------------------------------------------------------

/// The lines that describe `e` in full, ages taken at time `now`.
pub open spec fn info_text(e: Entry, now: nat) -> Seq<Seq<char>> {
    seq![
        Seq::<char>::empty(),
        CLR_BOLD@ + "Entry "@ + decimal(e.index as nat) + CLR_RESET@,
        "  Path     : "@ + e.path@,
        "  Name     : "@ + e.name@,
        "  Type     : "@ + if e.is_dir {
            "Directory"@
        } else {
            "File"@
        },
        "  Size     : "@ + decimal(e.size as nat) + " bytes ("@ + kib_text(e.size as nat)
            + " KB)"@,
        "  Created  : "@ + age_or_unknown(e.created as nat, now),
        "  Modified : "@ + age_or_unknown(e.modified as nat, now),
        "  Accessed : "@ + age_or_unknown(e.accessed as nat, now),
        "  Status   : "@ + e.status@,
        "  Empty    : "@ + if e.is_empty {
            "Yes"@
        } else {
            "No"@
        },
    ]
}

fn labelled(label: &str, value: &str) -> (s: String)
    ensures
        s@ == label@ + value@,
{
    let mut s = String::new();
    push_str(&mut s, label);
    push_str(&mut s, value);
    s
}

/// The information lines of `e` at time `now`.
pub fn info_lines_at(e: &Entry, now: u64) -> (lines: Vec<String>)
    ensures
        crate::text::string_views(lines@) == info_text(*e, now as nat),
{
    let mut lines: Vec<String> = Vec::new();
    lines.push(String::new());
    let mut title = String::new();
    push_str(&mut title, CLR_BOLD);
    push_str(&mut title, "Entry ");
    push_str(&mut title, decimal_string(e.index as u64).as_str());
    push_str(&mut title, CLR_RESET);
    lines.push(title);
    lines.push(labelled("  Path     : ", e.path.as_str()));
    lines.push(labelled("  Name     : ", e.name.as_str()));
    lines.push(
        labelled(
            "  Type     : ",
            if e.is_dir {
                "Directory"
            } else {
                "File"
            },
        ),
    );
    let mut size = labelled("  Size     : ", decimal_string(e.size).as_str());
    push_str(&mut size, " bytes (");
    push_str(&mut size, kib_string(e.size).as_str());
    push_str(&mut size, " KB)");
    lines.push(size);
    lines.push(labelled("  Created  : ", age_or_unknown_at(e.created, now).as_str()));
    lines.push(labelled("  Modified : ", age_or_unknown_at(e.modified, now).as_str()));
    lines.push(labelled("  Accessed : ", age_or_unknown_at(e.accessed, now).as_str()));
    lines.push(labelled("  Status   : ", e.status.as_str()));
    lines.push(
        labelled(
            "  Empty    : ",
            if e.is_empty {
                "Yes"
            } else {
                "No"
            },
        ),
    );
    assert(crate::text::string_views(lines@) =~= info_text(*e, now as nat));
    lines
}

/// The information lines of `e`, with ages taken from the system clock.
pub fn info_lines(e: &Entry) -> (lines: Vec<String>)
    ensures
        exists|now: u64| crate::text::string_views(lines@) == info_text(*e, now as nat),
{
    let now = current_unix_secs();
    info_lines_at(e, now)
}

} // verus!
