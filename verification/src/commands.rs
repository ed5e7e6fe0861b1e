//! The interactive session's decisions: numbering entries, finding them by
//! `Id`, reading command arguments, and what each command does with them.
use vstd::prelude::*;

use crate::entry::{format_row_at, row_text, Entry};
use crate::size::{kib_string, kib_text};
use crate::utils::{current_unix_secs, CLR_BOLD, CLR_CYAN, CLR_RESET};
use crate::text::{
    chars_of, contains_chars, decimal, decimal_string, lowercase, occurs_in, pad_left, pad_right,
    parse_u64, push_char, push_padded_left, push_padded_right,
    parse_unsigned, parse_usize, push_str, split_words, str_equal, string_views, to_lowercase,
    words,
};

verus! {

/// `b` is `a` with only its index changed.
pub open spec fn same_but_index(a: Entry, b: Entry) -> bool {
    &&& a.path == b.path
    &&& a.name == b.name
    &&& a.created == b.created
    &&& a.modified == b.modified
    &&& a.accessed == b.accessed
    &&& a.size == b.size
    &&& a.is_dir == b.is_dir
    &&& a.is_empty == b.is_empty
    &&& a.status == b.status
}

/// `after` is `before` numbered 1, 2, 3, ... in order.
pub open spec fn renumbered(before: Seq<Entry>, after: Seq<Entry>) -> bool {
    &&& after.len() == before.len()
    &&& forall|i: int|
        0 <= i < after.len() ==> (#[trigger] after[i]).index == i + 1 && same_but_index(
            before[i],
            after[i],
        )
}

/// Gives the entries the 1-based `Id`s of their positions.
pub fn reassign_indices(entries: &mut Vec<Entry>)
    ensures
        renumbered(old(entries)@, final(entries)@),
{
    let n = entries.len();
    for i in 0..n
        invariant
            n == entries@.len(),
            n == old(entries)@.len(),
            forall|k: int|
                0 <= k < n ==> same_but_index(old(entries)@[k], #[trigger] entries@[k]),
            forall|k: int| 0 <= k < i ==> (#[trigger] entries@[k]).index == k + 1,
    {
        entries[i].index = i + 1;
    }
}


/// Takes the entry at `pos` out of the list and numbers the rest again.
pub fn remove_entry(entries: &mut Vec<Entry>, pos: usize) -> (removed: Entry)
    requires
        pos < old(entries)@.len(),
    ensures
        removed == old(entries)@[pos as int],
        renumbered(old(entries)@.remove(pos as int), final(entries)@),
{
    let removed = entries.remove(pos);
    reassign_indices(entries);
    removed
}

// ------------------------------------------------------------------
// Finding entries by Id
// ------------------------------------------------------------------

/// The position of the first entry whose `Id` is `id`, if any.
pub open spec fn position_of_id(entries: Seq<Entry>, id: nat) -> Option<int>
    decreases entries.len(),
{
    if entries.len() == 0 {
        None
    } else {
        match position_of_id(entries.drop_last(), id) {
            Some(p) => Some(p),
            None => if entries.last().index == id {
                Some(entries.len() - 1)
            } else {
                None
            },
        }
    }
}

/// The first entry whose `Id` is `id`, found as `iter().find` finds it.
pub proof fn lemma_position_of_id(entries: Seq<Entry>, id: nat)
    ensures
        match position_of_id(entries, id) {
            Some(p) => 0 <= p < entries.len() && entries[p].index == id && forall|q: int|
                0 <= q < p ==> (#[trigger] entries[q]).index != id,
            None => forall|q: int| 0 <= q < entries.len() ==> (#[trigger] entries[q]).index != id,
        },
    decreases entries.len(),
{
    if entries.len() > 0 {
        let d = entries.drop_last();
        lemma_position_of_id(d, id);
        match position_of_id(d, id) {
            Some(p) => {
                assert forall|q: int| 0 <= q < p implies (#[trigger] entries[q]).index != id by {
                    assert(d[q] == entries[q]);
                }
                assert(d[p] == entries[p]);
            },
            None => {
                assert forall|q: int| 0 <= q < d.len() implies (#[trigger] entries[q]).index
                    != id by {
                    assert(d[q] == entries[q]);
                }
            },
        }
    }
}

/// The position of the first entry with `Id` `id`.
pub fn find_entry(entries: &Vec<Entry>, id: usize) -> (r: Option<usize>)
    ensures
        match r {
            Some(p) => position_of_id(entries@, id as nat) == Some(p as int),
            None => position_of_id(entries@, id as nat) is None,
        },
{
    let n = entries.len();
    let mut i: usize = 0;
    while i < n
        invariant
            i <= n,
            n == entries@.len(),
            position_of_id(entries@.take(i as int), id as nat) is None,
        decreases n - i,
    {
        assert(entries@.take(i + 1).drop_last() =~= entries@.take(i as int));
        if entries[i].index == id {
            proof {
                lemma_position_of_id_prefix(entries@, i as int + 1, id as nat);
            }
            return Some(i);
        }
        i = i + 1;
    }
    assert(entries@.take(n as int) =~= entries@);
    None
}

proof fn lemma_position_of_id_prefix(entries: Seq<Entry>, k: int, id: nat)
    requires
        0 <= k <= entries.len(),
        position_of_id(entries.take(k), id) is Some,
    ensures
        position_of_id(entries, id) == position_of_id(entries.take(k), id),
    decreases entries.len() - k,
{
    if k < entries.len() {
        assert(entries.take(k + 1).drop_last() =~= entries.take(k));
        lemma_position_of_id_prefix(entries, k + 1, id);
    } else {
        assert(entries.take(k) =~= entries);
    }
}

// ------------------------------------------------------------------
// Command arguments
// ------------------------------------------------------------------

/// The number in argument `k`, as `parts.get(k).and_then(|s| s.parse().ok())`.
pub open spec fn arg_number(parts: Seq<Seq<char>>, k: int) -> Option<nat> {
    if 0 <= k < parts.len() {
        parse_unsigned(parts[k], usize::MAX as nat)
    } else {
        None
    }
}

/// The number in argument `k`, if it is there and reads as a `usize`.
pub fn arg_id(parts: &Vec<String>, k: usize) -> (r: Option<usize>)
    ensures
        match arg_number(string_views(parts@), k as int) {
            Some(v) => r == Some(v as usize),
            None => r is None,
        },
{
    if k < parts.len() {
        parse_usize(parts[k].as_str())
    } else {
        None
    }
}

/// The entry that argument 1 names, if it reads as an `Id` that exists.
pub open spec fn named_entry(entries: Seq<Entry>, parts: Seq<Seq<char>>) -> Option<int> {
    match arg_number(parts, 1) {
        Some(id) => position_of_id(entries, id),
        None => None,
    }
}

fn entry_named(entries: &Vec<Entry>, parts: &Vec<String>) -> (r: Option<usize>)
    ensures
        match r {
            Some(p) => named_entry(entries@, string_views(parts@)) == Some(p as int),
            None => named_entry(entries@, string_views(parts@)) is None,
        },
{
    match arg_id(parts, 1) {
        Some(id) => find_entry(entries, id),
        None => None,
    }
}

/// What `o [id]` reveals: the path of the entry that argument 1 names, or
/// else the scan root.
pub open spec fn explorer_target_text(
    entries: Seq<Entry>,
    parts: Seq<Seq<char>>,
    root: Seq<char>,
) -> Seq<char> {
    match named_entry(entries, parts) {
        Some(p) => entries[p].path@,
        None => root,
    }
}

/// The path that `o [id]` reveals.
pub fn explorer_target(entries: &Vec<Entry>, parts: &Vec<String>, root: &str) -> (t: String)
    ensures
        t@ == explorer_target_text(entries@, string_views(parts@), root@),
{
    let mut t = String::new();
    match entry_named(entries, parts) {
        Some(p) => {
            proof {
                lemma_position_of_id(entries@, arg_number(string_views(parts@), 1)->0);
            }
            push_str(&mut t, entries[p].path.as_str());
        },
        None => push_str(&mut t, root),
    }
    t
}

/// What a command that acts on one entry does with its `Id` argument.
pub enum Lookup {
    /// Argument 1 is missing or is not a number.
    InvalidId,
    /// No entry has this `Id`.
    NoEntry(usize),
    /// The entry at this position.
    Found(usize),
}

/// The lookup of argument 1 among the entries.
pub open spec fn lookup_spec(entries: Seq<Entry>, parts: Seq<Seq<char>>, r: Lookup) -> bool {
    match arg_number(parts, 1) {
        None => r is InvalidId,
        Some(id) => match position_of_id(entries, id) {
            None => r == Lookup::NoEntry(id as usize),
            Some(p) => r == Lookup::Found(p as usize),
        },
    }
}

/// Reads argument 1 as an `Id` and finds its entry.
pub fn lookup_entry(entries: &Vec<Entry>, parts: &Vec<String>) -> (r: Lookup)
    ensures
        lookup_spec(entries@, string_views(parts@), r),
{
    match arg_id(parts, 1) {
        None => Lookup::InvalidId,
        Some(id) => match find_entry(entries, id) {
            None => Lookup::NoEntry(id),
            Some(p) => Lookup::Found(p),
        },
    }
}

/// What `open <id>` and `p <id> [lines]` refuse or act on.
pub enum FileAction {
    InvalidId,
    NoEntry(usize),
    /// The entry is a directory, which these commands do not take.
    Directory,
    /// Act on the entry at this position.
    File(usize),
}

/// `open`/`p` on argument 1: only files are acted on.
pub open spec fn file_action_spec(entries: Seq<Entry>, parts: Seq<Seq<char>>, r: FileAction) -> bool {
    match arg_number(parts, 1) {
        None => r is InvalidId,
        Some(id) => match position_of_id(entries, id) {
            None => r == FileAction::NoEntry(id as usize),
            Some(p) => if entries[p].is_dir {
                r is Directory
            } else {
                r == FileAction::File(p as usize)
            },
        },
    }
}

/// Decides what `open <id>` or `p <id>` acts on.
pub fn file_action(entries: &Vec<Entry>, parts: &Vec<String>) -> (r: FileAction)
    ensures
        file_action_spec(entries@, string_views(parts@), r),
{
    match arg_id(parts, 1) {
        None => FileAction::InvalidId,
        Some(id) => match find_entry(entries, id) {
            None => FileAction::NoEntry(id),
            Some(p) => {
                proof {
                    lemma_position_of_id(entries@, id as nat);
                }
                if entries[p].is_dir {
                    FileAction::Directory
                } else {
                    FileAction::File(p)
                }
            },
        },
    }
}

/// Lines that `p <id> [lines]` previews: argument 2 when it reads as a
/// number, else 30.
pub fn preview_line_count(parts: &Vec<String>) -> (n: usize)
    ensures
        n as nat == match arg_number(string_views(parts@), 2) {
            Some(v) => v,
            None => 30,
        },
{
    match arg_id(parts, 2) {
        Some(v) => v,
        None => 30,
    }
}

/// What `d <id>` does before asking for confirmation.
pub enum DeleteAction {
    /// No argument: nothing is done.
    Nothing,
    InvalidId,
    NoEntry(usize),
    /// Ask to delete the entry at this position.
    Confirm(usize),
}

/// `d` without an argument does nothing; otherwise argument 1 is looked up.
pub open spec fn delete_action_spec(entries: Seq<Entry>, parts: Seq<Seq<char>>, r: DeleteAction) -> bool {
    if parts.len() < 2 {
        r is Nothing
    } else {
        match arg_number(parts, 1) {
            None => r is InvalidId,
            Some(id) => match position_of_id(entries, id) {
                None => r == DeleteAction::NoEntry(id as usize),
                Some(p) => r == DeleteAction::Confirm(p as usize),
            },
        }
    }
}

/// Decides what `d <id>` does.
pub fn delete_action(entries: &Vec<Entry>, parts: &Vec<String>) -> (r: DeleteAction)
    ensures
        delete_action_spec(entries@, string_views(parts@), r),
{
    if parts.len() < 2 {
        return DeleteAction::Nothing;
    }
    match lookup_entry(entries, parts) {
        Lookup::InvalidId => DeleteAction::InvalidId,
        Lookup::NoEntry(id) => DeleteAction::NoEntry(id),
        Lookup::Found(p) => DeleteAction::Confirm(p),
    }
}

/// The file that `w <file.csv>` writes: argument 1, if given.
pub fn csv_target(parts: &Vec<String>) -> (r: Option<String>)
    ensures
        parts@.len() < 2 ==> r is None,
        parts@.len() >= 2 ==> r is Some && r->0@ == parts@[1]@,
{
    if parts.len() >= 2 {
        let mut t = String::new();
        push_str(&mut t, parts[1].as_str());
        Some(t)
    } else {
        None
    }
}


// ------------------------------------------------------------------
// Commands of the interactive session
// ------------------------------------------------------------------

/// A command of the interactive session, by its first word.
#[derive(PartialEq, Eq, Structural, Clone, Copy, Debug)]
pub enum Command {
    /// An empty line: ask again.
    Empty,
    /// `q`, `quit`
    Quit,
    /// `ls`
    List,
    /// `help`, `h`
    Help,
    /// `o [id]`
    Reveal,
    /// `open <id>`
    Open,
    /// `p <id> [lines]`
    Preview,
    /// `d <id>`
    Delete,
    /// `info <id>`
    Info,
    /// `f <substr>`
    Filter,
    /// `sort <name|size|age>`
    Sort,
    /// `stats`
    Stats,
    /// `w <file.csv>`, `r <file.csv>`
    WriteCsv,
    /// `clear`
    Clear,
    /// Anything else.
    Unknown,
}

/// The command that a line's words spell.
pub open spec fn command_of(parts: Seq<Seq<char>>) -> Command {
    if parts.len() == 0 {
        Command::Empty
    } else {
        let w = parts[0];
        if w == "q"@ || w == "quit"@ {
            Command::Quit
        } else if w == "ls"@ {
            Command::List
        } else if w == "help"@ || w == "h"@ {
            Command::Help
        } else if w == "o"@ {
            Command::Reveal
        } else if w == "open"@ {
            Command::Open
        } else if w == "p"@ {
            Command::Preview
        } else if w == "d"@ {
            Command::Delete
        } else if w == "info"@ {
            Command::Info
        } else if w == "f"@ {
            Command::Filter
        } else if w == "sort"@ {
            Command::Sort
        } else if w == "stats"@ {
            Command::Stats
        } else if w == "w"@ || w == "r"@ {
            Command::WriteCsv
        } else if w == "clear"@ {
            Command::Clear
        } else {
            Command::Unknown
        }
    }
}

/// The command of a tokenised line.
pub fn command_of_parts(parts: &Vec<String>) -> (c: Command)
    ensures
        c == command_of(string_views(parts@)),
{
    if parts.len() == 0 {
        return Command::Empty;
    }
    let w = parts[0].as_str();
    if str_equal(w, "q") || str_equal(w, "quit") {
        Command::Quit
    } else if str_equal(w, "ls") {
        Command::List
    } else if str_equal(w, "help") || str_equal(w, "h") {
        Command::Help
    } else if str_equal(w, "o") {
        Command::Reveal
    } else if str_equal(w, "open") {
        Command::Open
    } else if str_equal(w, "p") {
        Command::Preview
    } else if str_equal(w, "d") {
        Command::Delete
    } else if str_equal(w, "info") {
        Command::Info
    } else if str_equal(w, "f") {
        Command::Filter
    } else if str_equal(w, "sort") {
        Command::Sort
    } else if str_equal(w, "stats") {
        Command::Stats
    } else if str_equal(w, "w") || str_equal(w, "r") {
        Command::WriteCsv
    } else if str_equal(w, "clear") {
        Command::Clear
    } else {
        Command::Unknown
    }
}

/// A typed line: its words, and the command they spell.
pub fn parse_command(line: &str) -> (r: (Command, Vec<String>))
    ensures
        string_views(r.1@) == words(line@),
        r.0 == command_of(words(line@)),
{
    let parts = split_words(line);
    let c = command_of_parts(&parts);
    (c, parts)
}

// ------------------------------------------------------------------
// Command-line options
// ------------------------------------------------------------------

/// Options of a run: the root to scan (when given), the age in days up to
/// which an entry counts as recent, whether only candidates are listed, and
/// whether the interactive session was asked for.
pub struct RunOptions {
    pub path: Option<String>,
    pub threshold_days: u64,
    pub only_candidates: bool,
    pub interactive: bool,
}

/// The options' values: root, threshold, only candidates, interactive.
pub open spec fn options_view(o: RunOptions) -> (Option<Seq<char>>, nat, bool, bool) {
    (
        match o.path {
            Some(p) => Some(p@),
            None => None,
        },
        o.threshold_days as nat,
        o.only_candidates,
        o.interactive,
    )
}

/// The options after reading the arguments from position `i` on, starting
/// from `o`: `--path <p>` and `--days <n>` take the next argument when there
/// is one (a `--days` value that is not a number leaves the threshold as it
/// was); `--only-candidates` and `--interactive` are flags; anything else is
/// passed over.
pub open spec fn options_from(
    args: Seq<Seq<char>>,
    i: int,
    o: (Option<Seq<char>>, nat, bool, bool),
) -> (Option<Seq<char>>, nat, bool, bool)
    decreases args.len() - i,
{
    if i < 0 || i >= args.len() {
        o
    } else {
        let a = args[i];
        if a == "--path"@ {
            if i + 1 < args.len() {
                options_from(args, i + 2, (Some(args[i + 1]), o.1, o.2, o.3))
            } else {
                options_from(args, i + 1, o)
            }
        } else if a == "--days"@ {
            if i + 1 < args.len() {
                let days = match parse_unsigned(args[i + 1], u64::MAX as nat) {
                    Some(v) => v,
                    None => o.1,
                };
                options_from(args, i + 2, (o.0, days, o.2, o.3))
            } else {
                options_from(args, i + 1, o)
            }
        } else if a == "--only-candidates"@ {
            options_from(args, i + 1, (o.0, o.1, true, o.3))
        } else if a == "--interactive"@ {
            options_from(args, i + 1, (o.0, o.1, o.2, true))
        } else {
            options_from(args, i + 1, o)
        }
    }
}

/// The options that the program's arguments give; `args[0]` is the
/// program's name. The threshold is 365 days unless `--days` says otherwise.
pub fn parse_run_options(args: &Vec<String>) -> (o: RunOptions)
    ensures
        options_view(o) == options_from(string_views(args@), 1, (None, 365, false, false)),
{
    let mut o = RunOptions { path: None, threshold_days: 365, only_candidates: false, interactive: false };
    let n = args.len();
    let mut i: usize = 1;
    let ghost views = string_views(args@);
    while i < n
        invariant
            1 <= i,
            n == args@.len(),
            views == string_views(args@),
            options_from(views, 1, (None, 365, false, false)) == options_from(
                views,
                i as int,
                options_view(o),
            ),
        decreases n - i,
    {
        let a = args[i].as_str();
        let ghost before = options_view(o);
        assert(views[i as int] == args@[i as int]@);
        if str_equal(a, "--path") {
            if i + 1 < n {
                let mut p = String::new();
                push_str(&mut p, args[i + 1].as_str());
                o.path = Some(p);
                i = i + 1;
            }
        } else if str_equal(a, "--days") {
            if i + 1 < n {
                match parse_u64(args[i + 1].as_str()) {
                    Some(v) => o.threshold_days = v,
                    None => {},
                }
                i = i + 1;
            }
        } else if str_equal(a, "--only-candidates") {
            o.only_candidates = true;
        } else if str_equal(a, "--interactive") {
            o.interactive = true;
        }
        i = i + 1;
    }
    o
}


// ------------------------------------------------------------------
// Width of the path column
// ------------------------------------------------------------------

/// The length in bytes of an entry's path (`str::len`, a `usize`).
pub open spec fn path_bytes(e: Entry) -> nat {
    (vstd::utf8::encode_utf8(e.path@).len() as usize) as nat
}

/// The longest path, in bytes, if there is an entry.
pub open spec fn longest_path(entries: Seq<Entry>) -> Option<nat>
    decreases entries.len(),
{
    if entries.len() == 0 {
        None
    } else {
        let last = path_bytes(entries.last());
        match longest_path(entries.drop_last()) {
            Some(m) => Some(if m >= last {
                m
            } else {
                last
            }),
            None => Some(last),
        }
    }
}

/// `min(max(30, longest path or otherwise), limit)`.
pub open spec fn column_width(entries: Seq<Entry>, otherwise: nat, limit: nat) -> nat {
    let m = match longest_path(entries) {
        Some(m) => m,
        None => otherwise,
    };
    let w = if m >= 30 {
        m
    } else {
        30
    };
    if w <= limit {
        w
    } else {
        limit
    }
}

/// The path column is at least 30 characters wide and never wider than its
/// limit, and it is exactly the longest path where that lies in between.
pub proof fn lemma_column_width_bounds(entries: Seq<Entry>, otherwise: nat, limit: nat)
    requires
        limit >= 30,
    ensures
        30 <= column_width(entries, otherwise, limit) <= limit,
        forall|m: nat|
            longest_path(entries) == Some(m) && 30 <= m <= limit ==> column_width(
                entries,
                otherwise,
                limit,
            ) == m,
{
}

fn longest_path_len(entries: &Vec<Entry>) -> (r: Option<usize>)
    ensures
        match r {
            Some(m) => longest_path(entries@) == Some(m as nat),
            None => longest_path(entries@) is None,
        },
{
    let n = entries.len();
    let mut best: Option<usize> = None;
    for i in 0..n
        invariant
            n == entries@.len(),
            match best {
                Some(m) => longest_path(entries@.take(i as int)) == Some(m as nat),
                None => longest_path(entries@.take(i as int)) is None,
            },
    {
        let l = entries[i].path.as_str().len();
        assert(l as nat == path_bytes(entries@.take(i + 1).last()));
        assert(entries@.take(i + 1).drop_last() =~= entries@.take(i as int));
        best = match best {
            Some(m) => Some(if m >= l { m } else { l }),
            None => Some(l),
        };
    }
    assert(entries@.take(n as int) =~= entries@);
    best
}

/// The path column's width for the first listing: the longest path, at
/// least 30 and at most 80; 40 when there are no entries before the bounds.
pub fn initial_path_width(entries: &Vec<Entry>) -> (w: usize)
    ensures
        w as nat == column_width(entries@, 40, 80),
{
    let m = match longest_path_len(entries) {
        Some(m) => m,
        None => 40,
    };
    let w = if m >= 30 { m } else { 30 };
    if w <= 80 { w } else { 80 }
}

/// The path column's width in the interactive session: the longest path,
/// at least 30 and at most 100.
pub fn session_path_width(entries: &Vec<Entry>) -> (w: usize)
    ensures
        w as nat == column_width(entries@, 30, 100),
{
    let m = match longest_path_len(entries) {
        Some(m) => m,
        None => 30,
    };
    let w = if m >= 30 { m } else { 30 };
    if w <= 100 { w } else { 100 }
}

// ------------------------------------------------------------------
// Filtering
// ------------------------------------------------------------------

/// `e`'s path or name holds `query` once both are lower-cased.
pub open spec fn entry_matches(e: Entry, query: Seq<char>) -> bool {
    occurs_in(lowercase(e.path@), query) || occurs_in(lowercase(e.name@), query)
}

/// Whether `e` matches the lower-cased `query`.
pub fn entry_matches_query(e: &Entry, query: &Vec<char>) -> (b: bool)
    ensures
        b == entry_matches(*e, query@),
{
    let p = chars_of(to_lowercase(e.path.as_str()).as_str());
    if contains_chars(&p, query) {
        return true;
    }
    let n = chars_of(to_lowercase(e.name.as_str()).as_str());
    contains_chars(&n, query)
}

/// The entries that match `query`, in their order.
pub fn matching_entries(entries: &Vec<Entry>, query: &Vec<char>) -> (out: Vec<Entry>)
    ensures
        out@ == entries@.filter(|e: Entry| entry_matches(e, query@)),
{
    let ghost pred = |e: Entry| entry_matches(e, query@);
    let n = entries.len();
    let mut out: Vec<Entry> = Vec::new();
    for i in 0..n
        invariant
            n == entries@.len(),
            pred == (|e: Entry| entry_matches(e, query@)),
            out@ == entries@.take(i as int).filter(pred),
    {
        reveal_with_fuel(Seq::<_>::filter, 1);
        assert(entries@.take(i + 1).drop_last() =~= entries@.take(i as int));
        if entry_matches_query(&entries[i], query) {
            out.push(entries[i].clone());
        }
    }
    assert(entries@.take(n as int) =~= entries@);
    out
}

/// The lines that `f <substr>` prints at time `now`: the matches as table
/// rows with an 80-character path column under `Matches:`, or a line saying
/// that nothing matches the lower-cased query.
pub open spec fn filter_report_text(entries: Seq<Entry>, query: Seq<char>, now: nat) -> Seq<Seq<char>> {
    let q = lowercase(query);
    let found = entries.filter(|e: Entry| entry_matches(e, q));
    if found.len() == 0 {
        seq!["No entries match '"@ + q + "'"@]
    } else {
        seq!["Matches:"@] + found.map_values(|e: Entry| row_text(e, 80, now))
    }
}

/// The lines of `f <substr>` at time `now`; the query is argument 1.
pub fn filter_report_at(entries: &Vec<Entry>, parts: &Vec<String>, now: u64) -> (lines: Vec<String>)
    requires
        parts@.len() >= 2,
    ensures
        string_views(lines@) == filter_report_text(entries@, parts@[1]@, now as nat),
{
    let q = to_lowercase(parts[1].as_str());
    let qv = chars_of(q.as_str());
    let found = matching_entries(entries, &qv);
    let mut lines: Vec<String> = Vec::new();
    if found.len() == 0 {
        let mut l = String::new();
        push_str(&mut l, "No entries match '");
        push_str(&mut l, q.as_str());
        push_str(&mut l, "'");
        lines.push(l);
        assert(string_views(lines@) =~= filter_report_text(entries@, parts@[1]@, now as nat));
        return lines;
    }
    let mut head = String::new();
    push_str(&mut head, "Matches:");
    lines.push(head);
    let k = found.len();
    for i in 0..k
        invariant
            k == found@.len(),
            string_views(lines@) =~= seq!["Matches:"@] + found@.take(i as int).map_values(
                |e: Entry| row_text(e, 80, now as nat),
            ),
    {
        let row = format_row_at(&found[i], 80, now);
        let ghost before = lines@;
        lines.push(row);
        assert(string_views(lines@) =~= string_views(before).push(row@));
        assert(found@.take(i + 1) =~= found@.take(i as int).push(found@[i as int]));
        assert(found@.take(i + 1).map_values(|e: Entry| row_text(e, 80, now as nat))
            =~= found@.take(i as int).map_values(|e: Entry| row_text(e, 80, now as nat)).push(
            row_text(found@[i as int], 80, now as nat),
        ));
    }
    assert(found@.take(k as int) =~= found@);
    lines
}

/// The lines of `f <substr>`, with ages taken from the system clock.
pub fn filter_report(entries: &Vec<Entry>, parts: &Vec<String>) -> (lines: Vec<String>)
    requires
        parts@.len() >= 2,
    ensures
        exists|now: u64|
            string_views(lines@) == filter_report_text(entries@, parts@[1]@, now as nat),
{
    let now = current_unix_secs();
    filter_report_at(entries, parts, now)
}


// ------------------------------------------------------------------
// Summary statistics
// ------------------------------------------------------------------

/// How many entries are directories.
pub open spec fn dir_count(entries: Seq<Entry>) -> nat
    decreases entries.len(),
{
    if entries.len() == 0 {
        0
    } else {
        dir_count(entries.drop_last()) + if entries.last().is_dir {
            1nat
        } else {
            0nat
        }
    }
}

/// The sum of the entries' sizes.
pub open spec fn size_total(entries: Seq<Entry>) -> nat
    decreases entries.len(),
{
    if entries.len() == 0 {
        0
    } else {
        size_total(entries.drop_last()) + entries.last().size as nat
    }
}

/// The largest file, as `max_by_key` on size over the non-directories
/// chooses it: the last of the largest.
pub open spec fn largest_file(entries: Seq<Entry>) -> Option<int>
    decreases entries.len(),
{
    if entries.len() == 0 {
        None
    } else {
        let r = largest_file(entries.drop_last());
        let e = entries.last();
        if e.is_dir {
            r
        } else {
            match r {
                None => Some(entries.len() - 1),
                Some(p) => if e.size >= entries[p].size {
                    Some(entries.len() - 1)
                } else {
                    Some(p)
                },
            }
        }
    }
}

/// The least recently accessed entry, as `min_by_key` chooses it: the
/// first of those with the smallest access time.
pub open spec fn oldest_accessed(entries: Seq<Entry>) -> Option<int>
    decreases entries.len(),
{
    if entries.len() == 0 {
        None
    } else {
        match oldest_accessed(entries.drop_last()) {
            None => Some(entries.len() - 1),
            Some(p) => if entries.last().accessed < entries[p].accessed {
                Some(entries.len() - 1)
            } else {
                Some(p)
            },
        }
    }
}

/// The most recently accessed entry, as `max_by_key` chooses it: the last
/// of those with the largest access time.
pub open spec fn newest_accessed(entries: Seq<Entry>) -> Option<int>
    decreases entries.len(),
{
    if entries.len() == 0 {
        None
    } else {
        match newest_accessed(entries.drop_last()) {
            None => Some(entries.len() - 1),
            Some(p) => if entries.last().accessed >= entries[p].accessed {
                Some(entries.len() - 1)
            } else {
                Some(p)
            },
        }
    }
}

/// The newest entry is the last of those with the greatest access time: it
/// exists when there are entries, no entry was accessed later, and every
/// entry after it was accessed earlier.
pub proof fn lemma_newest_accessed(entries: Seq<Entry>)
    ensures
        entries.len() > 0 <==> newest_accessed(entries) is Some,
        newest_accessed(entries) matches Some(p) ==> {
            &&& 0 <= p < entries.len()
            &&& forall|q: int|
                0 <= q < entries.len() ==> (#[trigger] entries[q]).accessed <= entries[p].accessed
            &&& forall|q: int|
                p < q < entries.len() ==> (#[trigger] entries[q]).accessed < entries[p].accessed
        },
    decreases entries.len(),
{
    if entries.len() > 0 {
        let d = entries.drop_last();
        lemma_newest_accessed(d);
        assert forall|q: int| 0 <= q < d.len() implies d[q] == entries[q] by {}
    }
}

/// The oldest entry is the first of those with the smallest access time: it
/// exists when there are entries, no entry was accessed earlier, and every
/// entry before it was accessed later.
pub proof fn lemma_oldest_accessed(entries: Seq<Entry>)
    ensures
        entries.len() > 0 <==> oldest_accessed(entries) is Some,
        oldest_accessed(entries) matches Some(p) ==> {
            &&& 0 <= p < entries.len()
            &&& forall|q: int|
                0 <= q < entries.len() ==> (#[trigger] entries[q]).accessed >= entries[p].accessed
            &&& forall|q: int|
                0 <= q < p ==> (#[trigger] entries[q]).accessed > entries[p].accessed
        },
    decreases entries.len(),
{
    if entries.len() > 0 {
        let d = entries.drop_last();
        lemma_oldest_accessed(d);
        assert forall|q: int| 0 <= q < d.len() implies d[q] == entries[q] by {}
    }
}

/// The largest file is the last of the largest non-directories: it exists
/// exactly when some entry is not a directory, it is not a directory, no
/// file is larger, and every file after it is smaller.
pub proof fn lemma_largest_file(entries: Seq<Entry>)
    ensures
        (exists|q: int| 0 <= q < entries.len() && !(#[trigger] entries[q]).is_dir)
            <==> largest_file(entries) is Some,
        largest_file(entries) matches Some(p) ==> {
            &&& 0 <= p < entries.len()
            &&& !entries[p].is_dir
            &&& forall|q: int|
                0 <= q < entries.len() && !(#[trigger] entries[q]).is_dir ==> entries[q].size
                    <= entries[p].size
            &&& forall|q: int|
                p < q < entries.len() && !(#[trigger] entries[q]).is_dir ==> entries[q].size
                    < entries[p].size
        },
    decreases entries.len(),
{
    if entries.len() > 0 {
        let d = entries.drop_last();
        lemma_largest_file(d);
        assert forall|q: int| 0 <= q < d.len() implies d[q] == entries[q] by {}
        if !entries.last().is_dir {
            assert(!entries[entries.len() - 1].is_dir);
        }
        if exists|q: int| 0 <= q < entries.len() && !(#[trigger] entries[q]).is_dir {
            let q = choose|q: int| 0 <= q < entries.len() && !(#[trigger] entries[q]).is_dir;
            if q < d.len() {
                assert(!d[q].is_dir);
            }
        }
    }
}

/// The directory count is the number of entries that are directories.
pub proof fn lemma_dir_count(entries: Seq<Entry>)
    ensures
        dir_count(entries) == entries.filter(|e: Entry| e.is_dir).len(),
    decreases entries.len(),
{
    reveal_with_fuel(Seq::<_>::filter, 1);
    if entries.len() > 0 {
        lemma_dir_count(entries.drop_last());
    }
}

/// Summary figures of a scan; positions refer to the scanned entries.
pub struct ScanStats {
    pub total: usize,
    pub files: usize,
    pub dirs: usize,
    pub total_size: u64,
    pub largest: Option<usize>,
    pub oldest: Option<usize>,
    pub newest: Option<usize>,
}

/// `o` as an optional position.
pub open spec fn opt_pos(o: Option<usize>) -> Option<int> {
    match o {
        Some(p) => Some(p as int),
        None => None,
    }
}

/// `st` holds the figures of `entries`.
pub open spec fn stats_of(entries: Seq<Entry>, st: ScanStats) -> bool {
    &&& st.total == entries.len()
    &&& st.dirs == dir_count(entries)
    &&& st.files + st.dirs == st.total
    &&& st.total_size == size_total(entries)
    &&& opt_pos(st.largest) == largest_file(entries)
    &&& opt_pos(st.oldest) == oldest_accessed(entries)
    &&& opt_pos(st.newest) == newest_accessed(entries)
}

proof fn lemma_dir_count_bound(entries: Seq<Entry>)
    ensures
        dir_count(entries) <= entries.len(),
    decreases entries.len(),
{
    if entries.len() > 0 {
        lemma_dir_count_bound(entries.drop_last());
    }
}

proof fn lemma_size_total_prefix(entries: Seq<Entry>, k: int)
    requires
        0 <= k <= entries.len(),
    ensures
        size_total(entries.take(k)) <= size_total(entries),
    decreases entries.len() - k,
{
    if k < entries.len() {
        lemma_size_total_prefix(entries, k + 1);
        assert(entries.take(k + 1).drop_last() =~= entries.take(k));
    } else {
        assert(entries.take(k) =~= entries);
    }
}

proof fn lemma_positions_in_range(entries: Seq<Entry>)
    ensures
        largest_file(entries) matches Some(p) ==> 0 <= p < entries.len(),
        oldest_accessed(entries) matches Some(p) ==> 0 <= p < entries.len(),
        newest_accessed(entries) matches Some(p) ==> 0 <= p < entries.len(),
        entries.len() > 0 ==> oldest_accessed(entries) is Some && newest_accessed(entries) is Some,
    decreases entries.len(),
{
    if entries.len() > 0 {
        lemma_positions_in_range(entries.drop_last());
    }
}

/// The summary figures of `entries`; `None` when the sizes add up to more
/// than a `u64` holds.
pub fn scan_stats(entries: &Vec<Entry>) -> (r: Option<ScanStats>)
    ensures
        r is None <==> size_total(entries@) > u64::MAX,
        r matches Some(st) ==> stats_of(entries@, st),
{
    let n = entries.len();
    let mut dirs: usize = 0;
    let mut total: u64 = 0;
    let mut largest: Option<usize> = None;
    let mut oldest: Option<usize> = None;
    let mut newest: Option<usize> = None;
    for i in 0..n
        invariant
            n == entries@.len(),
            dirs as nat == dir_count(entries@.take(i as int)),
            total as nat == size_total(entries@.take(i as int)),
            opt_pos(largest) == largest_file(entries@.take(i as int)),
            opt_pos(oldest) == oldest_accessed(entries@.take(i as int)),
            opt_pos(newest) == newest_accessed(entries@.take(i as int)),
            dirs <= i,
    {
        let ghost pre = entries@.take(i as int);
        let ghost cur = entries@.take(i + 1);
        assert(cur.drop_last() =~= pre);
        assert(cur.last() == entries@[i as int]);
        proof {
            lemma_positions_in_range(pre);
            lemma_dir_count_bound(pre);
        }
        let e = &entries[i];
        if e.size > u64::MAX - total {
            proof {
                lemma_size_total_prefix(entries@, i + 1);
            }
            return None;
        }
        total = total + e.size;
        if e.is_dir {
            dirs = dirs + 1;
        } else {
            largest = match largest {
                None => Some(i),
                Some(p) => {
                    assert(cur[p as int] == entries@[p as int]);
                    if e.size >= entries[p].size {
                        Some(i)
                    } else {
                        Some(p)
                    }
                },
            };
        }
        oldest = match oldest {
            None => Some(i),
            Some(p) => {
                assert(cur[p as int] == entries@[p as int]);
                if e.accessed < entries[p].accessed {
                    Some(i)
                } else {
                    Some(p)
                }
            },
        };
        newest = match newest {
            None => Some(i),
            Some(p) => {
                assert(cur[p as int] == entries@[p as int]);
                if e.accessed >= entries[p].accessed {
                    Some(i)
                } else {
                    Some(p)
                }
            },
        };
    }
    assert(entries@.take(n as int) =~= entries@);
    Some(ScanStats { total: n, files: n - dirs, dirs, total_size: total, largest, oldest, newest })
}

/// `N/A` where nothing was found.
pub open spec fn or_na(v: Option<Seq<char>>) -> Seq<char> {
    match v {
        Some(t) => t,
        None => "N/A"@,
    }
}

/// The summary lines that `stats` prints for `entries` with figures `st`.
pub open spec fn stats_text(entries: Seq<Entry>, st: ScanStats) -> Seq<Seq<char>> {
    seq![
        Seq::<char>::empty(),
        CLR_BOLD@ + "Scan Summary"@ + CLR_RESET@,
        "Total entries: "@ + decimal(st.total as nat),
        "Files: "@ + decimal(st.files as nat) + ", Directories: "@ + decimal(st.dirs as nat),
        "Total file size: "@ + kib_text(st.total_size as nat) + " KB"@,
        "Largest file: "@ + or_na(
            match st.largest {
                Some(p) => Some(entries[p as int].path@),
                None => None,
            },
        ),
        "Oldest accessed: "@ + or_na(
            match st.oldest {
                Some(p) => Some(entries[p as int].name@),
                None => None,
            },
        ),
        "Newest accessed: "@ + or_na(
            match st.newest {
                Some(p) => Some(entries[p as int].name@),
                None => None,
            },
        ),
    ]
}

fn labelled_or_na(label: &str, entries: &Vec<Entry>, pos: Option<usize>, path: bool) -> (s: String)
    requires
        pos matches Some(p) ==> p < entries@.len(),
    ensures
        s@ == label@ + or_na(
            match pos {
                Some(p) => Some(
                    if path {
                        entries@[p as int].path@
                    } else {
                        entries@[p as int].name@
                    },
                ),
                None => None,
            },
        ),
{
    let mut s = String::new();
    push_str(&mut s, label);
    match pos {
        Some(p) => {
            if path {
                push_str(&mut s, entries[p].path.as_str());
            } else {
                push_str(&mut s, entries[p].name.as_str());
            }
        },
        None => push_str(&mut s, "N/A"),
    }
    s
}

/// The lines that `stats` prints; `None` when the sizes add up to more than
/// a `u64` holds.
pub fn stats_report(entries: &Vec<Entry>) -> (r: Option<Vec<String>>)
    ensures
        r is None <==> size_total(entries@) > u64::MAX,
        r matches Some(lines) ==> exists|st: ScanStats|
            stats_of(entries@, st) && string_views(lines@) == stats_text(entries@, st),
{
    let st = match scan_stats(entries) {
        Some(st) => st,
        None => return None,
    };
    proof {
        lemma_positions_in_range(entries@);
    }
    let mut lines: Vec<String> = Vec::new();
    lines.push(String::new());
    let mut title = String::new();
    push_str(&mut title, CLR_BOLD);
    push_str(&mut title, "Scan Summary");
    push_str(&mut title, CLR_RESET);
    lines.push(title);
    let mut l = String::new();
    push_str(&mut l, "Total entries: ");
    push_str(&mut l, decimal_string(st.total as u64).as_str());
    lines.push(l);
    let mut l = String::new();
    push_str(&mut l, "Files: ");
    push_str(&mut l, decimal_string(st.files as u64).as_str());
    push_str(&mut l, ", Directories: ");
    push_str(&mut l, decimal_string(st.dirs as u64).as_str());
    lines.push(l);
    let mut l = String::new();
    push_str(&mut l, "Total file size: ");
    push_str(&mut l, kib_string(st.total_size).as_str());
    push_str(&mut l, " KB");
    lines.push(l);
    lines.push(labelled_or_na("Largest file: ", entries, st.largest, true));
    lines.push(labelled_or_na("Oldest accessed: ", entries, st.oldest, false));
    lines.push(labelled_or_na("Newest accessed: ", entries, st.newest, false));
    assert(string_views(lines@) =~= stats_text(entries@, st));
    Some(lines)
}


// ------------------------------------------------------------------
// Sorting
// ------------------------------------------------------------------

/// What `sort` orders by.
#[derive(PartialEq, Eq, Structural, Clone, Copy, Debug)]
pub enum SortKey {
    /// Names in alphabetical (character) order.
    Name,
    /// Largest first.
    Size,
    /// Most recently accessed first.
    Age,
}

/// The key that `sort`'s argument names.
pub open spec fn sort_key_of(word: Seq<char>) -> Option<SortKey> {
    if word == "name"@ {
        Some(SortKey::Name)
    } else if word == "size"@ {
        Some(SortKey::Size)
    } else if word == "age"@ {
        Some(SortKey::Age)
    } else {
        None
    }
}

/// The key that `sort <name|size|age>` names in argument 1, if any.
pub fn sort_key_arg(parts: &Vec<String>) -> (k: Option<SortKey>)
    ensures
        parts@.len() < 2 ==> k is None,
        parts@.len() >= 2 ==> k == sort_key_of(parts@[1]@),
{
    if parts.len() < 2 {
        return None;
    }
    let w = parts[1].as_str();
    if str_equal(w, "name") {
        Some(SortKey::Name)
    } else if str_equal(w, "size") {
        Some(SortKey::Size)
    } else if str_equal(w, "age") {
        Some(SortKey::Age)
    } else {
        None
    }
}

/// `a` comes strictly before `b` in character order (that of `str`'s `<`).
pub open spec fn chars_before(a: Seq<char>, b: Seq<char>) -> bool
    decreases a.len(),
{
    if a.len() == 0 {
        b.len() > 0
    } else if b.len() == 0 {
        false
    } else if a[0] != b[0] {
        (a[0] as u32) < (b[0] as u32)
    } else {
        chars_before(a.drop_first(), b.drop_first())
    }
}

/// Nothing comes before itself.
pub proof fn lemma_chars_before_irreflexive(a: Seq<char>)
    ensures
        !chars_before(a, a),
    decreases a.len(),
{
    if a.len() > 0 {
        lemma_chars_before_irreflexive(a.drop_first());
    }
}

/// Character order is transitive.
pub proof fn lemma_chars_before_transitive(a: Seq<char>, b: Seq<char>, c: Seq<char>)
    requires
        chars_before(a, b),
        chars_before(b, c),
    ensures
        chars_before(a, c),
    decreases a.len(),
{
    if a.len() > 0 && b.len() > 0 && c.len() > 0 && a[0] == b[0] && b[0] == c[0] {
        lemma_chars_before_transitive(a.drop_first(), b.drop_first(), c.drop_first());
    }
}

proof fn lemma_chars_before_skip(a: Seq<char>, b: Seq<char>, i: int)
    requires
        0 <= i < a.len(),
        i < b.len(),
        a[i] == b[i],
    ensures
        chars_before(a.skip(i), b.skip(i)) == chars_before(a.skip(i + 1), b.skip(i + 1)),
{
    assert(a.skip(i).drop_first() =~= a.skip(i + 1));
    assert(b.skip(i).drop_first() =~= b.skip(i + 1));
}

fn chars_less(a: &Vec<char>, b: &Vec<char>) -> (r: bool)
    ensures
        r == chars_before(a@, b@),
{
    let mut i: usize = 0;
    assert(a@.skip(0) =~= a@);
    assert(b@.skip(0) =~= b@);
    while i < a.len() && i < b.len()
        invariant
            i <= a@.len(),
            i <= b@.len(),
            chars_before(a@, b@) == chars_before(a@.skip(i as int), b@.skip(i as int)),
        decreases a@.len() - i,
    {
        if a[i] != b[i] {
            return (a[i] as u32) < (b[i] as u32);
        }
        proof {
            lemma_chars_before_skip(a@, b@, i as int);
        }
        i = i + 1;
    }
    i == a.len() && i < b.len()
}

/// `a` comes strictly before `b` when sorting by `key`.
pub open spec fn sorts_before(a: Entry, b: Entry, key: SortKey) -> bool {
    match key {
        SortKey::Name => chars_before(a.name@, b.name@),
        SortKey::Size => a.size > b.size,
        SortKey::Age => a.accessed > b.accessed,
    }
}

/// No entry comes before an entry that precedes it.
pub open spec fn sorted_by(s: Seq<Entry>, key: SortKey) -> bool {
    forall|i: int, j: int| 0 <= i < j < s.len() ==> !sorts_before(s[j], s[i], key)
}

proof fn lemma_sorts_before_order(a: Entry, b: Entry, c: Entry, key: SortKey)
    ensures
        !sorts_before(a, a, key),
        sorts_before(a, b, key) && sorts_before(b, c, key) ==> sorts_before(a, c, key),
{
    lemma_chars_before_irreflexive(a.name@);
    if sorts_before(a, b, key) && sorts_before(b, c, key) && key is Name {
        lemma_chars_before_transitive(a.name@, b.name@, c.name@);
    }
}

proof fn lemma_insert_sorted(s: Seq<Entry>, p: int, e: Entry, key: SortKey)
    requires
        sorted_by(s, key),
        0 <= p <= s.len(),
        forall|q: int| 0 <= q < p ==> !sorts_before(e, #[trigger] s[q], key),
        p < s.len() ==> sorts_before(e, s[p], key),
    ensures
        sorted_by(s.insert(p, e), key),
{
    let t = s.insert(p, e);
    assert forall|i: int, j: int| 0 <= i < j < t.len() implies !sorts_before(t[j], t[i], key) by {
        if i == p && j > p {
            lemma_sorts_before_order(t[j], e, s[p], key);
            if j - 1 > p {
                assert(!sorts_before(s[j - 1], s[p], key));
            }
        } else if i < p && j == p {
            assert(!sorts_before(e, s[i], key));
        } else if i < p && j > p {
            assert(!sorts_before(s[j - 1], s[i], key));
        } else if i > p {
            assert(!sorts_before(s[j - 1], s[i - 1], key));
        }
    }
}

fn entry_before(a: &Entry, b: &Entry, key: SortKey) -> (r: bool)
    ensures
        r == sorts_before(*a, *b, key),
{
    match key {
        SortKey::Name => chars_less(&chars_of(a.name.as_str()), &chars_of(b.name.as_str())),
        SortKey::Size => a.size > b.size,
        SortKey::Age => a.accessed > b.accessed,
    }
}

/// `a` and `b` agree on their first `k` characters, after which `a` ends
/// while `b` goes on, or `a` has the smaller character.
pub open spec fn differs_first_at(a: Seq<char>, b: Seq<char>, k: int) -> bool {
    &&& 0 <= k <= a.len()
    &&& k <= b.len()
    &&& a.take(k) == b.take(k)
    &&& ((k == a.len() && k < b.len()) || (k < a.len() && k < b.len() && (a[k] as u32) < (
    b[k] as u32)))
}

/// Character order is dictionary order: `a` comes before `b` exactly when,
/// after their longest common start, `a` ends first or has the smaller
/// character.
pub proof fn lemma_chars_before_dictionary(a: Seq<char>, b: Seq<char>)
    ensures
        chars_before(a, b) <==> exists|k: int| #[trigger] differs_first_at(a, b, k),
    decreases a.len(),
{
    if a.len() == 0 {
        if b.len() > 0 {
            assert(a.take(0) =~= b.take(0));
            assert(differs_first_at(a, b, 0));
        }
    } else if b.len() == 0 {
    } else if a[0] != b[0] {
        if (a[0] as u32) < (b[0] as u32) {
            assert(a.take(0) =~= b.take(0));
            assert(differs_first_at(a, b, 0));
        } else {
            assert forall|k: int| !#[trigger] differs_first_at(a, b, k) by {
                if differs_first_at(a, b, k) && k > 0 {
                    assert(a.take(k)[0] == b.take(k)[0]);
                }
            }
        }
    } else {
        let a1 = a.drop_first();
        let b1 = b.drop_first();
        lemma_chars_before_dictionary(a1, b1);
        if chars_before(a1, b1) {
            let k = choose|k: int| #[trigger] differs_first_at(a1, b1, k);
            assert(a.take(k + 1) =~= seq![a[0]] + a1.take(k));
            assert(b.take(k + 1) =~= seq![b[0]] + b1.take(k));
            assert(differs_first_at(a, b, k + 1));
        } else {
            assert forall|k: int| !#[trigger] differs_first_at(a, b, k) by {
                if differs_first_at(a, b, k) {
                    assert(k > 0);
                    assert(a1.take(k - 1) =~= a.take(k).drop_first());
                    assert(b1.take(k - 1) =~= b.take(k).drop_first());
                    assert(differs_first_at(a1, b1, k - 1));
                }
            }
        }
    }
}

/// What a sorted list is, key by key: names in dictionary order, sizes
/// from largest to smallest, access times from newest to oldest.
pub proof fn lemma_sorted_by_fields(s: Seq<Entry>, key: SortKey)
    requires
        sorted_by(s, key),
    ensures
        key == SortKey::Name ==> forall|i: int, j: int|
            0 <= i < j < s.len() ==> !chars_before(s[j].name@, s[i].name@),
        key == SortKey::Size ==> forall|i: int, j: int|
            0 <= i < j < s.len() ==> s[i].size >= s[j].size,
        key == SortKey::Age ==> forall|i: int, j: int|
            0 <= i < j < s.len() ==> s[i].accessed >= s[j].accessed,
{
    if key == SortKey::Name {
        assert forall|i: int, j: int| 0 <= i < j < s.len() implies !chars_before(
            s[j].name@,
            s[i].name@,
        ) by {
            assert(!sorts_before(s[j], s[i], key));
        }
    } else if key == SortKey::Size {
        assert forall|i: int, j: int| 0 <= i < j < s.len() implies s[i].size >= s[j].size by {
            assert(!sorts_before(s[j], s[i], key));
        }
    } else {
        assert forall|i: int, j: int| 0 <= i < j < s.len() implies s[i].accessed
            >= s[j].accessed by {
            assert(!sorts_before(s[j], s[i], key));
        }
    }
}

/// `order` lists each position below `n` exactly once.
pub open spec fn is_permutation(order: Seq<usize>, n: nat) -> bool {
    &&& order.len() == n
    &&& forall|i: int| 0 <= i < n ==> #[trigger] order[i] < n
    &&& forall|i: int, j: int| 0 <= i < j < n ==> order[i] != order[j]
}

/// The entries at the positions that `order` lists, in that order.
pub open spec fn picked(entries: Seq<Entry>, order: Seq<usize>) -> Seq<Entry> {
    order.map_values(|p: usize| entries[p as int])
}

/// The positions of the entries in the order of `key`.
pub fn sorted_order(entries: &Vec<Entry>, key: SortKey) -> (order: Vec<usize>)
    ensures
        is_permutation(order@, entries@.len()),
        sorted_by(picked(entries@, order@), key),
{
    let n = entries.len();
    let mut order: Vec<usize> = Vec::new();
    for i in 0..n
        invariant
            n == entries@.len(),
            order@.len() == i,
            forall|k: int| 0 <= k < i ==> #[trigger] order@[k] < i,
            forall|k: int, j: int| 0 <= k < j < i ==> order@[k] != order@[j],
            sorted_by(picked(entries@, order@), key),
    {
        let m = order.len();
        let mut p: usize = 0;
        while p < m && !entry_before(&entries[i], &entries[order[p]], key)
            invariant
                p <= m,
                m == order@.len(),
                m == i,
                i < n,
                n == entries@.len(),
                forall|k: int| 0 <= k < i ==> #[trigger] order@[k] < i,
                forall|q: int|
                    0 <= q < p ==> !sorts_before(
                        entries@[i as int],
                        #[trigger] picked(entries@, order@)[q],
                        key,
                    ),
            decreases m - p,
        {
            p = p + 1;
        }
        let ghost before = order@;
        proof {
            lemma_insert_sorted(picked(entries@, before), p as int, entries@[i as int], key);
        }
        order.insert(p, i);
        assert(picked(entries@, order@) =~= picked(entries@, before).insert(
            p as int,
            entries@[i as int],
        ));
        assert forall|k: int, j: int| 0 <= k < j < i + 1 implies order@[k] != order@[j] by {
            if k < p && j < p {
                assert(order@[k] == before[k] && order@[j] == before[j]);
            } else if k < p && j == p {
                assert(order@[k] == before[k]);
            } else if k < p && j > p {
                assert(order@[k] == before[k] && order@[j] == before[j - 1]);
            } else if k == p {
                assert(order@[j] == before[j - 1]);
            } else {
                assert(order@[k] == before[k - 1] && order@[j] == before[j - 1]);
            }
        }
        assert forall|k: int| 0 <= k < i + 1 implies #[trigger] order@[k] < i + 1 by {
            if k < p {
                assert(order@[k] == before[k]);
            } else if k > p {
                assert(order@[k] == before[k - 1]);
            }
        }
    }
    order
}

/// Sorts the entries by `key` and numbers them again from 1; returns the
/// old position of each entry in its new order.
pub fn sort_entries(entries: &mut Vec<Entry>, key: SortKey) -> (order: Vec<usize>)
    ensures
        is_permutation(order@, old(entries)@.len()),
        sorted_by(picked(old(entries)@, order@), key),
        renumbered(picked(old(entries)@, order@), final(entries)@),
        key == SortKey::Name ==> forall|i: int, j: int|
            0 <= i < j < final(entries)@.len() ==> !chars_before(
                final(entries)@[j].name@,
                final(entries)@[i].name@,
            ),
        key == SortKey::Size ==> forall|i: int, j: int|
            0 <= i < j < final(entries)@.len()
                ==> final(entries)@[i].size >= final(entries)@[j].size,
        key == SortKey::Age ==> forall|i: int, j: int|
            0 <= i < j < final(entries)@.len()
                ==> final(entries)@[i].accessed >= final(entries)@[j].accessed,
{
    let order = sorted_order(entries, key);
    let n = order.len();
    let mut out: Vec<Entry> = Vec::new();
    for i in 0..n
        invariant
            n == order@.len(),
            is_permutation(order@, entries@.len()),
            out@ == picked(entries@, order@).take(i as int),
    {
        let p = order[i];
        out.push(entries[p].clone());
        assert(out@ =~= picked(entries@, order@).take(i + 1));
    }
    assert(out@ =~= picked(entries@, order@));
    let ghost mid = out@;
    reassign_indices(&mut out);
    proof {
        lemma_sorted_by_fields(mid, key);
        assert forall|i: int| 0 <= i < out@.len() implies same_but_index(
            mid[i],
            #[trigger] out@[i],
        ) by {}
    }
    *entries = out;
    order
}

// ------------------------------------------------------------------
// Help, previews and the file manager
// ------------------------------------------------------------------

/// One line of the help: the command in cyan, padded to 22 characters, and
/// its description in bold.
pub open spec fn help_entry_text(cmd: Seq<char>, desc: Seq<char>) -> Seq<char> {
    "  "@ + CLR_CYAN@ + pad_right(cmd, 22) + CLR_RESET@ + " - "@ + CLR_BOLD@ + desc + CLR_RESET@
}

/// A help line for `cmd` described by `desc`.
pub fn help_entry(cmd: &str, desc: &str) -> (s: String)
    ensures
        s@ == help_entry_text(cmd@, desc@),
{
    let mut s = String::new();
    push_str(&mut s, "  ");
    push_str(&mut s, CLR_CYAN);
    push_padded_right(&mut s, cmd, 22);
    push_str(&mut s, CLR_RESET);
    push_str(&mut s, " - ");
    push_str(&mut s, CLR_BOLD);
    push_str(&mut s, desc);
    push_str(&mut s, CLR_RESET);
    s
}

/// The commands of the session and what they do, in the order the help
/// lists them.
pub open spec fn help_table() -> Seq<(Seq<char>, Seq<char>)> {
    seq![
        ("ls"@, "Reprint the current list"@),
        ("o <id> | o"@, "Reveal entry in Explorer or open scan root"@),
        ("open <id>"@, "Open file with default program (files only)"@),
        ("p <id> [lines]"@, "Preview first N lines (default 30)"@),
        ("d <id>"@, "Delete single entry (asks confirmation)"@),
        ("info <id>"@, "Show full metadata for entry"@),
        ("f <substr>"@, "Filter entries by substring (path or name)"@),
        ("sort <name|size|age>"@, "Sort entries (reassigns Ids)"@),
        ("clear"@, "Clear the terminal"@),
        ("w <file.csv>"@, "Write CSV report"@),
        ("stats"@, "Show summary statistics about the scan"@),
        ("help"@, "Show this help"@),
        ("q"@, "Quit interactive mode"@),
    ]
}

/// The help as printed: an empty line, the bold title, one line per
/// command, and an empty line.
pub open spec fn help_text() -> Seq<Seq<char>> {
    seq![Seq::<char>::empty(), CLR_BOLD@ + "Interactive help"@ + CLR_RESET@] + help_table().map_values(
        |c: (Seq<char>, Seq<char>)| help_entry_text(c.0, c.1),
    ) + seq![Seq::<char>::empty()]
}

/// The lines of the interactive help.
pub fn help_lines() -> (lines: Vec<String>)
    ensures
        string_views(lines@) == help_text(),
{
    let mut lines: Vec<String> = Vec::new();
    lines.push(String::new());
    let mut title = String::new();
    push_str(&mut title, CLR_BOLD);
    push_str(&mut title, "Interactive help");
    push_str(&mut title, CLR_RESET);
    lines.push(title);
    lines.push(help_entry("ls", "Reprint the current list"));
    lines.push(help_entry("o <id> | o", "Reveal entry in Explorer or open scan root"));
    lines.push(help_entry("open <id>", "Open file with default program (files only)"));
    lines.push(help_entry("p <id> [lines]", "Preview first N lines (default 30)"));
    lines.push(help_entry("d <id>", "Delete single entry (asks confirmation)"));
    lines.push(help_entry("info <id>", "Show full metadata for entry"));
    lines.push(help_entry("f <substr>", "Filter entries by substring (path or name)"));
    lines.push(help_entry("sort <name|size|age>", "Sort entries (reassigns Ids)"));
    lines.push(help_entry("clear", "Clear the terminal"));
    lines.push(help_entry("w <file.csv>", "Write CSV report"));
    lines.push(help_entry("stats", "Show summary statistics about the scan"));
    lines.push(help_entry("help", "Show this help"));
    lines.push(help_entry("q", "Quit interactive mode"));
    lines.push(String::new());
    assert(string_views(lines@) =~= help_text());
    lines
}

/// A previewed line: its 1-based number right-aligned in 4 characters, a
/// space, and the line.
pub open spec fn preview_line_text(number: nat, line: Seq<char>) -> Seq<char> {
    pad_left(decimal(number), 4) + " "@ + line
}

/// The preview of line `i` (counted from 0) whose text is `line`.
pub fn preview_line(i: usize, line: &str) -> (s: String)
    requires
        i < usize::MAX,
    ensures
        s@ == preview_line_text((i + 1) as nat, line@),
{
    let mut s = String::new();
    push_padded_left(&mut s, decimal_string((i + 1) as u64).as_str(), 4);
    push_str(&mut s, " ");
    push_str(&mut s, line);
    s
}

/// Whether the preview stops before line `i` (counted from 0).
pub fn preview_done(i: usize, lines: usize) -> (b: bool)
    ensures
        b == (i >= lines),
{
    i >= lines
}

/// The file manager's argument: `/select,"<path>"` to select a file in
/// its folder, `"<path>"` to open a folder.
pub open spec fn explorer_arg_text(path: Seq<char>, is_file: bool) -> Seq<char> {
    if is_file {
        "/select,"@ + seq!['"'] + path + seq!['"']
    } else {
        seq!['"'] + path + seq!['"']
    }
}

/// The file manager's argument for `path`.
pub fn explorer_arg(path: &str, is_file: bool) -> (s: String)
    ensures
        s@ == explorer_arg_text(path@, is_file),
{
    let mut s = String::new();
    if is_file {
        push_str(&mut s, "/select,");
    }
    push_char(&mut s, '"');
    push_str(&mut s, path);
    push_char(&mut s, '"');
    assert(s@ =~= explorer_arg_text(path@, is_file));
    s
}

} // verus!
