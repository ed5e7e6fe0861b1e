//! The CSV report: quoting of fields, the header, one line per entry, and
//! the progress and spinner shown while it is written.
use vstd::prelude::*;

use crate::entry::{age_or_unknown, age_or_unknown_at, Entry};
use crate::size::{kib_string, kib_text};
use crate::text::{chars_of, push_char, push_str, string_views};
use crate::utils::current_unix_secs;

verus! {

/// A character as it stands inside a quoted CSV field: `"` doubled.
pub open spec fn escaped_char(c: char) -> Seq<char> {
    if c == '"' {
        seq!['"', '"']
    } else {
        seq![c]
    }
}

/// `s` with every double quote doubled (`str::replace('"', "\"\"")`).
pub open spec fn csv_escaped(s: Seq<char>) -> Seq<char>
    decreases s.len(),
{
    if s.len() == 0 {
        Seq::empty()
    } else {
        escaped_char(s[0]) + csv_escaped(s.drop_first())
    }
}

/// Reads a quoted field's content back: a doubled quote stands for one.
pub open spec fn csv_unescaped(s: Seq<char>) -> Seq<char>
    decreases s.len(),
{
    if s.len() == 0 {
        Seq::empty()
    } else if s.len() >= 2 && s[0] == '"' && s[1] == '"' {
        seq!['"'] + csv_unescaped(s.skip(2))
    } else {
        seq![s[0]] + csv_unescaped(s.drop_first())
    }
}

/// Escaping distributes over concatenation.
pub proof fn lemma_csv_escaped_concat(a: Seq<char>, b: Seq<char>)
    ensures
        csv_escaped(a + b) == csv_escaped(a) + csv_escaped(b),
    decreases a.len(),
{
    if a.len() == 0 {
        assert(a + b =~= b);
    } else {
        assert((a + b).drop_first() =~= a.drop_first() + b);
        lemma_csv_escaped_concat(a.drop_first(), b);
        assert(csv_escaped(a + b) =~= csv_escaped(a) + csv_escaped(b));
    }
}

/// Reading an escaped field back gives the original text: quoting loses
/// nothing.
pub proof fn lemma_csv_escape_roundtrip(s: Seq<char>)
    ensures
        csv_unescaped(csv_escaped(s)) == s,
    decreases s.len(),
{
    if s.len() > 0 {
        lemma_csv_escape_roundtrip(s.drop_first());
        let rest = csv_escaped(s.drop_first());
        let e = csv_escaped(s);
        if s[0] == '"' {
            assert(e.skip(2) =~= rest);
        } else {
            assert(e.drop_first() =~= rest);
        }
        assert(csv_unescaped(e) =~= s);
    }
}

/// Every double quote of `s` doubled.
pub fn escape_csv(s: &str) -> (r: String)
    ensures
        r@ == csv_escaped(s@),
{
    let cs = chars_of(s);
    let n = cs.len();
    let mut r = String::new();
    for i in 0..n
        invariant
            n == cs@.len(),
            r@ == csv_escaped(cs@.take(i as int)),
    {
        let c = cs[i];
        proof {
            lemma_csv_escaped_concat(cs@.take(i as int), seq![c]);
            assert(cs@.take(i + 1) =~= cs@.take(i as int) + seq![c]);
            assert(csv_escaped(seq![c]) =~= escaped_char(c)) by {
                assert(seq![c].drop_first() =~= Seq::<char>::empty());
                assert(csv_escaped(Seq::<char>::empty()) =~= Seq::<char>::empty());
            }
        }
        if c == '"' {
            push_char(&mut r, '"');
            push_char(&mut r, '"');
        } else {
            push_char(&mut r, c);
        }
        assert(r@ =~= csv_escaped(cs@.take(i + 1)));
    }
    assert(cs@.take(n as int) =~= cs@);
    r
}

/// The first line of the report.
pub open spec fn csv_header_text() -> Seq<char> {
    "Path,Name,Created,Modified,LastAccess,Age,SizeKB,Status,Empty"@
}

/// The report's header line.
pub fn csv_header() -> (s: String)
    ensures
        s@ == csv_header_text(),
{
    let mut s = String::new();
    push_str(&mut s, "Path,Name,Created,Modified,LastAccess,Age,SizeKB,Status,Empty");
    s
}

/// `v` between double quotes.
pub open spec fn quoted(v: Seq<char>) -> Seq<char> {
    seq!['"'] + v + seq!['"']
}

/// The fields of the report line of `e`, ages taken at time `now`: path,
/// name, the three ages, the access age again in the `Age` column, the size
/// in KB, the status, and whether the file is empty.
pub open spec fn csv_row_fields(e: Entry, now: nat) -> Seq<Seq<char>> {
    seq![
        e.path@,
        e.name@,
        age_or_unknown(e.created as nat, now),
        age_or_unknown(e.modified as nat, now),
        age_or_unknown(e.accessed as nat, now),
        age_or_unknown(e.accessed as nat, now),
        kib_text(e.size as nat),
        e.status@,
        if e.is_empty {
            "Yes"@
        } else {
            "No"@
        },
    ]
}

/// The fields, each escaped and quoted, separated by commas.
pub open spec fn quoted_line(fields: Seq<Seq<char>>) -> Seq<char>
    decreases fields.len(),
{
    if fields.len() == 0 {
        Seq::empty()
    } else if fields.len() == 1 {
        quoted(csv_escaped(fields[0]))
    } else {
        quoted(csv_escaped(fields[0])) + seq![','] + quoted_line(fields.drop_first())
    }
}

/// The report line of `e`, ages taken at time `now`: every field escaped
/// and quoted.
pub open spec fn csv_row_text(e: Entry, now: nat) -> Seq<char> {
    quoted_line(csv_row_fields(e, now))
}

proof fn lemma_quoted_line_push(fs: Seq<Seq<char>>, f: Seq<char>)
    requires
        fs.len() >= 1,
    ensures
        quoted_line(fs.push(f)) == quoted_line(fs) + seq![','] + quoted(csv_escaped(f)),
    decreases fs.len(),
{
    assert(fs.push(f).drop_first() =~= fs.drop_first().push(f));
    if fs.len() == 1 {
        assert(fs.drop_first().push(f) =~= seq![f]);
        assert(quoted_line(seq![f]) == quoted(csv_escaped(f)));
    } else {
        lemma_quoted_line_push(fs.drop_first(), f);
    }
    assert(quoted_line(fs.push(f)) =~= quoted_line(fs) + seq![','] + quoted(csv_escaped(f)));
}

/// The fields, each escaped and quoted, separated by commas.
pub fn join_quoted(fields: &Vec<String>) -> (s: String)
    ensures
        s@ == quoted_line(string_views(fields@)),
{
    let n = fields.len();
    let mut s = String::new();
    let ghost views = string_views(fields@);
    for i in 0..n
        invariant
            n == fields@.len(),
            views == string_views(fields@),
            s@ == quoted_line(views.take(i as int)),
    {
        let q = escape_csv(fields[i].as_str());
        let ghost before = s@;
        if i > 0 {
            push_char(&mut s, ',');
        }
        push_char(&mut s, '"');
        push_str(&mut s, q.as_str());
        push_char(&mut s, '"');
        proof {
            assert(views.take(i + 1) =~= views.take(i as int).push(views[i as int]));
            if i > 0 {
                lemma_quoted_line_push(views.take(i as int), views[i as int]);
            } else {
                assert(views.take(1) =~= seq![views[0]]);
            }
        }
        assert(s@ =~= quoted_line(views.take(i + 1)));
    }
    assert(views.take(n as int) =~= views);
    s
}

/// The report line of `e` at time `now`.
pub fn csv_row_at(e: &Entry, now: u64) -> (s: String)
    ensures
        s@ == csv_row_text(*e, now as nat),
{
    let mut fields: Vec<String> = Vec::new();
    let mut path = String::new();
    push_str(&mut path, e.path.as_str());
    fields.push(path);
    let mut name = String::new();
    push_str(&mut name, e.name.as_str());
    fields.push(name);
    fields.push(age_or_unknown_at(e.created, now));
    fields.push(age_or_unknown_at(e.modified, now));
    fields.push(age_or_unknown_at(e.accessed, now));
    fields.push(age_or_unknown_at(e.accessed, now));
    fields.push(kib_string(e.size));
    let mut status = String::new();
    push_str(&mut status, e.status.as_str());
    fields.push(status);
    let mut empty = String::new();
    push_str(
        &mut empty,
        if e.is_empty {
            "Yes"
        } else {
            "No"
        },
    );
    fields.push(empty);
    assert(string_views(fields@) =~= csv_row_fields(*e, now as nat));
    join_quoted(&fields)
}

/// The lines of the report of `entries` at time `now`: the header, then one
/// line per entry in order.
pub open spec fn csv_report_text(entries: Seq<Entry>, now: nat) -> Seq<Seq<char>> {
    seq![csv_header_text()] + entries.map_values(|e: Entry| csv_row_text(e, now))
}

/// The report's lines at time `now`.
pub fn csv_report_lines_at(entries: &Vec<Entry>, now: u64) -> (lines: Vec<String>)
    ensures
        string_views(lines@) == csv_report_text(entries@, now as nat),
{
    let mut lines: Vec<String> = Vec::new();
    lines.push(csv_header());
    let n = entries.len();
    for i in 0..n
        invariant
            n == entries@.len(),
            string_views(lines@) =~= seq![csv_header_text()] + entries@.take(
                i as int,
            ).map_values(|e: Entry| csv_row_text(e, now as nat)),
    {
        let row = csv_row_at(&entries[i], now);
        let ghost before = lines@;
        lines.push(row);
        assert(string_views(lines@) =~= string_views(before).push(row@));
        assert(entries@.take(i + 1) =~= entries@.take(i as int).push(entries@[i as int]));
        assert(entries@.take(i + 1).map_values(|e: Entry| csv_row_text(e, now as nat))
            =~= entries@.take(i as int).map_values(|e: Entry| csv_row_text(e, now as nat)).push(
            csv_row_text(entries@[i as int], now as nat),
        ));
    }
    assert(entries@.take(n as int) =~= entries@);
    lines
}

/// The report's lines, ages taken from the system clock.
pub fn csv_report_lines(entries: &Vec<Entry>) -> (lines: Vec<String>)
    ensures
        exists|now: u64| string_views(lines@) == csv_report_text(entries@, now as nat),
{
    let now = current_unix_secs();
    csv_report_lines_at(entries, now)
}

// ------------------------------------------------------------------
// Reading the report back, by the rules of RFC 4180
// ------------------------------------------------------------------

/// Reads the rest of a quoted field, after its opening quote: the content
/// (a doubled quote standing for one) and what follows the closing quote;
/// nothing when the closing quote is missing.
pub open spec fn quoted_rest(s: Seq<char>) -> Option<(Seq<char>, Seq<char>)>
    decreases s.len(),
{
    if s.len() == 0 {
        None
    } else if s[0] == '"' {
        if s.len() >= 2 && s[1] == '"' {
            match quoted_rest(s.skip(2)) {
                Some(cr) => Some((seq!['"'] + cr.0, cr.1)),
                None => None,
            }
        } else {
            Some((Seq::empty(), s.drop_first()))
        }
    } else {
        match quoted_rest(s.drop_first()) {
            Some(cr) => Some((seq![s[0]] + cr.0, cr.1)),
            None => None,
        }
    }
}

/// Reads an unquoted field: everything up to a comma, a line break or the end.
pub open spec fn plain_rest(s: Seq<char>) -> (Seq<char>, Seq<char>)
    decreases s.len(),
{
    if s.len() == 0 || s[0] == ',' || s[0] == '\n' {
        (Seq::empty(), s)
    } else {
        let cr = plain_rest(s.drop_first());
        (seq![s[0]] + cr.0, cr.1)
    }
}

/// Reads one field, quoted or not, and what follows it.
pub open spec fn csv_field(s: Seq<char>) -> Option<(Seq<char>, Seq<char>)> {
    if s.len() > 0 && s[0] == '"' {
        quoted_rest(s.drop_first())
    } else {
        Some(plain_rest(s))
    }
}

/// Reads one record: fields separated by commas, up to and including its
/// line break (or the end of the text); gives its fields and what follows.
pub open spec fn csv_record(s: Seq<char>) -> Option<(Seq<Seq<char>>, Seq<char>)>
    decreases s.len(),
{
    match csv_field(s) {
        None => None,
        Some(cr) => {
            let r = cr.1;
            if r.len() == 0 {
                Some((seq![cr.0], r))
            } else if r[0] == '\n' {
                Some((seq![cr.0], r.drop_first()))
            } else if r[0] == ',' && r.len() <= s.len() {
                match csv_record(r.drop_first()) {
                    Some(fr) => Some((seq![cr.0] + fr.0, fr.1)),
                    None => None,
                }
            } else {
                None
            }
        },
    }
}

/// Reads a whole text as records; nothing when some record does not read.
pub open spec fn csv_records(s: Seq<char>) -> Option<Seq<Seq<Seq<char>>>>
    decreases s.len(),
{
    if s.len() == 0 {
        Some(Seq::empty())
    } else {
        match csv_record(s) {
            Some(fr) => if fr.1.len() < s.len() {
                match csv_records(fr.1) {
                    Some(rs) => Some(seq![fr.0] + rs),
                    None => None,
                }
            } else {
                None
            },
            None => None,
        }
    }
}

/// The text of a file whose lines are `lines`, each ended by a line break
/// (as `writeln!` writes them).
pub open spec fn lines_text(lines: Seq<Seq<char>>) -> Seq<char>
    decreases lines.len(),
{
    if lines.len() == 0 {
        Seq::empty()
    } else {
        lines[0] + seq!['\n'] + lines_text(lines.drop_first())
    }
}

/// The fields of the header line.
pub open spec fn csv_header_fields() -> Seq<Seq<char>> {
    seq![
        "Path"@,
        "Name"@,
        "Created"@,
        "Modified"@,
        "LastAccess"@,
        "Age"@,
        "SizeKB"@,
        "Status"@,
        "Empty"@,
    ]
}

/// A field that reads back unquoted: no comma, line break or quote in it.
pub open spec fn plain_safe(v: Seq<char>) -> bool {
    forall|k: int| 0 <= k < v.len() ==> #[trigger] v[k] != ',' && v[k] != '\n' && v[k] != '"'
}

/// The fields separated by commas, unquoted.
pub open spec fn plain_line(fields: Seq<Seq<char>>) -> Seq<char>
    decreases fields.len(),
{
    if fields.len() == 0 {
        Seq::empty()
    } else if fields.len() == 1 {
        fields[0]
    } else {
        fields[0] + seq![','] + plain_line(fields.drop_first())
    }
}

proof fn lemma_quoted_rest_escaped(v: Seq<char>, r: Seq<char>)
    requires
        r.len() == 0 || r[0] != '"',
    ensures
        quoted_rest(csv_escaped(v) + seq!['"'] + r) == Some((v, r)),
    decreases v.len(),
{
    let s = csv_escaped(v) + seq!['"'] + r;
    if v.len() == 0 {
        assert(s =~= seq!['"'] + r);
        assert(s.drop_first() =~= r);
    } else {
        lemma_quoted_rest_escaped(v.drop_first(), r);
        let t = csv_escaped(v.drop_first()) + seq!['"'] + r;
        if v[0] == '"' {
            assert(s =~= seq!['"', '"'] + t);
            assert(s.skip(2) =~= t);
        } else {
            assert(s =~= seq![v[0]] + t);
            assert(s.drop_first() =~= t);
        }
        assert(seq![v[0]] + v.drop_first() =~= v);
    }
}

proof fn lemma_plain_rest(v: Seq<char>, r: Seq<char>)
    requires
        plain_safe(v),
        r.len() == 0 || r[0] == ',' || r[0] == '\n',
    ensures
        plain_rest(v + r) == (v, r),
    decreases v.len(),
{
    let s = v + r;
    if v.len() == 0 {
        assert(s =~= r);
    } else {
        assert(v[0] != ',' && v[0] != '\n');
        assert(s.drop_first() =~= v.drop_first() + r);
        assert forall|k: int| 0 <= k < v.drop_first().len() implies #[trigger] v.drop_first()[k]
            != ',' && v.drop_first()[k] != '\n' && v.drop_first()[k] != '"' by {
            assert(v.drop_first()[k] == v[k + 1]);
        }
        lemma_plain_rest(v.drop_first(), r);
        assert(seq![v[0]] + v.drop_first() =~= v);
    }
}

proof fn lemma_record_quoted(fs: Seq<Seq<char>>, r: Seq<char>)
    requires
        fs.len() >= 1,
    ensures
        csv_record(quoted_line(fs) + seq!['\n'] + r) == Some((fs, r)),
    decreases fs.len(),
{
    let f0 = fs[0];
    let s = quoted_line(fs) + seq!['\n'] + r;
    if fs.len() == 1 {
        let t = seq!['\n'] + r;
        assert(s =~= seq!['"'] + (csv_escaped(f0) + seq!['"'] + t));
        assert(s.drop_first() =~= csv_escaped(f0) + seq!['"'] + t);
        lemma_quoted_rest_escaped(f0, t);
        assert(t.drop_first() =~= r);
        assert(seq![f0] =~= fs);
    } else {
        let rest = fs.drop_first();
        let t = seq![','] + (quoted_line(rest) + seq!['\n'] + r);
        assert(s =~= seq!['"'] + (csv_escaped(f0) + seq!['"'] + t));
        assert(s.drop_first() =~= csv_escaped(f0) + seq!['"'] + t);
        lemma_quoted_rest_escaped(f0, t);
        assert(t.drop_first() =~= quoted_line(rest) + seq!['\n'] + r);
        lemma_record_quoted(rest, r);
        assert(seq![f0] + rest =~= fs);
    }
}

proof fn lemma_record_plain(fs: Seq<Seq<char>>, r: Seq<char>)
    requires
        fs.len() >= 1,
        forall|i: int| 0 <= i < fs.len() ==> plain_safe(#[trigger] fs[i]),
    ensures
        csv_record(plain_line(fs) + seq!['\n'] + r) == Some((fs, r)),
    decreases fs.len(),
{
    let f0 = fs[0];
    let s = plain_line(fs) + seq!['\n'] + r;
    assert(plain_safe(fs[0]));
    if fs.len() == 1 {
        let t = seq!['\n'] + r;
        assert(s =~= f0 + t);
        lemma_plain_rest(f0, t);
        if f0.len() > 0 {
            assert(f0[0] != '"');
        }
        assert(t.drop_first() =~= r);
        assert(seq![f0] =~= fs);
    } else {
        let rest = fs.drop_first();
        let t = seq![','] + (plain_line(rest) + seq!['\n'] + r);
        assert(s =~= f0 + t);
        lemma_plain_rest(f0, t);
        if f0.len() > 0 {
            assert(f0[0] != '"');
        }
        assert(t.drop_first() =~= plain_line(rest) + seq!['\n'] + r);
        assert forall|i: int| 0 <= i < rest.len() implies plain_safe(#[trigger] rest[i]) by {
            assert(rest[i] == fs[i + 1]);
        }
        lemma_record_plain(rest, r);
        assert(seq![f0] + rest =~= fs);
    }
}

proof fn lemma_header_plain()
    ensures
        csv_header_text() == plain_line(csv_header_fields()),
        forall|i: int| 0 <= i < csv_header_fields().len() ==> plain_safe(
            #[trigger] csv_header_fields()[i],
        ),
{
    reveal_strlit("Path,Name,Created,Modified,LastAccess,Age,SizeKB,Status,Empty");
    reveal_strlit("Path");
    reveal_strlit("Name");
    reveal_strlit("Created");
    reveal_strlit("Modified");
    reveal_strlit("LastAccess");
    reveal_strlit("Age");
    reveal_strlit("SizeKB");
    reveal_strlit("Status");
    reveal_strlit("Empty");
    reveal_with_fuel(plain_line, 10);
    assert(csv_header_text() =~= plain_line(csv_header_fields()));
}

proof fn lemma_rows_read_back(es: Seq<Entry>, now: nat)
    ensures
        csv_records(lines_text(es.map_values(|e: Entry| csv_row_text(e, now)))) == Some(
            es.map_values(|e: Entry| csv_row_fields(e, now)),
        ),
    decreases es.len(),
{
    let lines = es.map_values(|e: Entry| csv_row_text(e, now));
    if es.len() == 0 {
        assert(lines_text(lines) =~= Seq::<char>::empty());
        assert(es.map_values(|e: Entry| csv_row_fields(e, now)) =~= Seq::<Seq<Seq<char>>>::empty());
    } else {
        let rest = es.drop_first();
        assert(lines.drop_first() =~= rest.map_values(|e: Entry| csv_row_text(e, now)));
        lemma_rows_read_back(rest, now);
        let t = lines_text(lines.drop_first());
        lemma_record_quoted(csv_row_fields(es[0], now), t);
        assert(lines_text(lines) == quoted_line(csv_row_fields(es[0], now)) + seq!['\n'] + t);
        assert(es.map_values(|e: Entry| csv_row_fields(e, now)) =~= seq![
            csv_row_fields(es[0], now),
        ] + rest.map_values(|e: Entry| csv_row_fields(e, now)));
    }
}

/// The report reads back: its text, each line ended by a line break, reads
/// as the header's nine fields and then, for every entry in order, its nine
/// fields, which give its path, name and status unchanged.
pub proof fn lemma_csv_report_reads_back(entries: Seq<Entry>, now: nat)
    ensures
        csv_records(lines_text(csv_report_text(entries, now))) == Some(
            seq![csv_header_fields()] + entries.map_values(|e: Entry| csv_row_fields(e, now)),
        ),
        forall|i: int|
            0 <= i < entries.len() ==> {
                let f = #[trigger] csv_row_fields(entries[i], now);
                &&& f.len() == 9
                &&& f[0] == entries[i].path@
                &&& f[1] == entries[i].name@
                &&& f[7] == entries[i].status@
                &&& (f[8] == "Yes"@ <==> entries[i].is_empty)
                &&& (f[8] == "No"@ <==> !entries[i].is_empty)
                &&& f[2] == age_or_unknown(entries[i].created as nat, now)
                &&& f[3] == age_or_unknown(entries[i].modified as nat, now)
                &&& f[4] == age_or_unknown(entries[i].accessed as nat, now)
                &&& f[5] == f[4]
                &&& f[6] == kib_text(entries[i].size as nat)
            },
{
    reveal_strlit("Yes");
    reveal_strlit("No");
    assert("Yes"@ != "No"@) by {
        assert("Yes"@.len() != "No"@.len());
    }
    let lines = csv_report_text(entries, now);
    let rows = entries.map_values(|e: Entry| csv_row_text(e, now));
    assert(lines.drop_first() =~= rows);
    lemma_rows_read_back(entries, now);
    lemma_header_plain();
    let t = lines_text(rows);
    lemma_record_plain(csv_header_fields(), t);
    assert(lines_text(lines) == csv_header_text() + seq!['\n'] + t);
}

/// Whether progress is shown after writing line `i` of `total`: for reports
/// of more than 100 entries, every 200 entries.
pub fn progress_due(total: usize, i: usize) -> (b: bool)
    ensures
        b == (total > 100 && i % 200 == 0),
{
    total > 100 && i % 200 == 0
}

/// The spinner's frame after `idx` ticks: `|`, `/`, `-`, `\` in turn.
pub fn spinner_frame(idx: usize) -> (c: char)
    ensures
        c == seq!['|', '/', '-', '\\'][(idx % 4) as int],
{
    let k = idx % 4;
    if k == 0 {
        '|'
    } else if k == 1 {
        '/'
    } else if k == 2 {
        '-'
    } else {
        '\\'
    }
}

} // verus!
