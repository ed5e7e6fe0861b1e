//! The decisions of the directory walk. The walk keeps a stack of
//! directories still to read and the entries collected so far; the caller
//! reads each directory and hands every item it finds to [`WalkState::visit`].
use vstd::prelude::*;

use crate::entry::Entry;
use crate::text::{chars_of, contains_chars, lowercase, occurs_in, push_str, to_lowercase};

verus! {

/// One item of a directory listing, as its metadata gives it. Timestamps
/// are seconds since the Unix epoch, 0 where unknown; `len` is the
/// metadata's length.
pub struct DirItem {
    pub path: String,
    pub name: String,
    pub created: u64,
    pub modified: u64,
    pub accessed: u64,
    pub is_file: bool,
    pub is_dir: bool,
    pub len: u64,
}

/// Seconds in a day.
pub const SECS_PER_DAY: u64 = 86400;

/// Whole days since last access at time `now`; `u64::MAX` when the access
/// time is unknown.
pub open spec fn age_days_spec(accessed: nat, now: nat) -> nat {
    if accessed == 0 {
        u64::MAX as nat
    } else {
        ((now - accessed) / 86400) as nat
    }
}

/// Whole days since last access (see [`age_days_spec`]).
pub fn age_days(accessed: u64, now: u64) -> (d: u64)
    requires
        accessed == 0 || accessed <= now,
    ensures
        d as nat == age_days_spec(accessed as nat, now as nat),
{
    if accessed == 0 {
        u64::MAX
    } else {
        (now - accessed) / SECS_PER_DAY
    }
}

/// The walk passes over every path that contains `node_modules`, in any case.
pub open spec fn skipped_path(path: Seq<char>) -> bool {
    occurs_in(lowercase(path), "node_modules"@)
}

/// Whether the walk passes over `path`.
pub fn is_skipped_path(path: &str) -> (b: bool)
    ensures
        b == skipped_path(path@),
{
    let lower = chars_of(to_lowercase(path).as_str());
    let mut pat = String::new();
    push_str(&mut pat, "node_modules");
    contains_chars(&lower, &chars_of(pat.as_str()))
}

/// The size recorded for an item: its length for a file, 0 otherwise.
pub open spec fn item_size(item: DirItem) -> nat {
    if item.is_file {
        item.len as nat
    } else {
        0
    }
}

/// An empty file.
pub open spec fn item_is_empty(item: DirItem) -> bool {
    item.is_file && item_size(item) == 0
}

/// Accessed within the threshold (`RECENT`) rather than before it (`OLD`).
pub open spec fn item_is_recent(item: DirItem, now: nat, threshold_days: nat) -> bool {
    age_days_spec(item.accessed as nat, now) <= threshold_days
}

/// A candidate for clean-up: an empty file, or not accessed within the
/// threshold.
pub open spec fn item_is_candidate(item: DirItem, now: nat, threshold_days: nat) -> bool {
    item_is_empty(item) || !item_is_recent(item, now, threshold_days)
}

/// `e` is the entry recorded for `item`, before indices are assigned.
pub open spec fn entry_for(e: Entry, item: DirItem, now: nat, threshold_days: nat) -> bool {
    &&& e.index == 0
    &&& e.path@ == item.path@
    &&& e.name@ == item.name@
    &&& e.created == item.created
    &&& e.modified == item.modified
    &&& e.accessed == item.accessed
    &&& e.size as nat == item_size(item)
    &&& e.is_dir == item.is_dir
    &&& e.is_empty == item_is_empty(item)
    &&& e.status@ == if item_is_recent(item, now, threshold_days) {
        "RECENT"@
    } else {
        "OLD"@
    }
}

/// Whether the walk records `item`: directories unless only candidates are
/// wanted; other items when they are candidates or everything is wanted.
pub open spec fn is_recorded(
    item: DirItem,
    now: nat,
    threshold_days: nat,
    only_candidates: bool,
) -> bool {
    &&& !skipped_path(item.path@)
    &&& if item.is_dir {
        !only_candidates
    } else {
        !only_candidates || item_is_candidate(item, now, threshold_days)
    }
}

/// Every recorded entry is a candidate file: what a walk that only wants
/// candidates collects.
pub open spec fn all_candidate_files(collected: Seq<Entry>, threshold_days: nat) -> bool {
    forall|i: int|
        0 <= i < collected.len() ==> {
            let e = #[trigger] collected[i];
            &&& !e.is_dir
            &&& (e.is_empty || e.status@ == "OLD"@)
        }
}

/// The state of a walk: directories still to read (the last one is read
/// next) and the entries collected so far.
pub struct WalkState {
    pub stack: Vec<String>,
    pub collected: Vec<Entry>,
}

/// The stack's paths.
pub open spec fn stack_view(w: WalkState) -> Seq<Seq<char>> {
    crate::text::string_views(w.stack@)
}

impl WalkState {
    /// A walk that starts at `root`.
    pub fn start(root: &str) -> (w: WalkState)
        ensures
            stack_view(w) == seq![root@],
            w.collected@.len() == 0,
    {
        let mut r = String::new();
        push_str(&mut r, root);
        let mut stack: Vec<String> = Vec::new();
        stack.push(r);
        let w = WalkState { stack, collected: Vec::new() };
        assert(stack_view(w) =~= seq![root@]);
        w
    }

    /// The next directory to read, taken off the stack; `None` when the walk
    /// is over.
    pub fn next_dir(&mut self) -> (d: Option<String>)
        ensures
            old(self).stack@.len() == 0 ==> d is None && final(self).stack@ == old(self).stack@,
            old(self).stack@.len() > 0 ==> d == Some(old(self).stack@.last()),
            old(self).stack@.len() > 0 ==> final(self).stack@ == old(self).stack@.drop_last(),
            final(self).collected == old(self).collected,
    {
        self.stack.pop()
    }

    /// Takes in one item of the directory being read: a directory is queued
    /// to be read, and the item is recorded as [`is_recorded`] says.
    pub fn visit(&mut self, item: DirItem, now: u64, threshold_days: u64, only_candidates: bool)
        requires
            item.accessed == 0 || item.accessed <= now,
        ensures
            skipped_path(item.path@) || !item.is_dir ==> final(self).stack@ == old(self).stack@,
            !skipped_path(item.path@) && item.is_dir ==> stack_view(*final(self))
                == stack_view(*old(self)).push(item.path@),
            !is_recorded(item, now as nat, threshold_days as nat, only_candidates)
                ==> final(self).collected@ == old(self).collected@,
            is_recorded(item, now as nat, threshold_days as nat, only_candidates)
                ==> final(self).collected@.len() == old(self).collected@.len() + 1,
            is_recorded(item, now as nat, threshold_days as nat, only_candidates)
                ==> final(self).collected@.drop_last() == old(self).collected@,
            is_recorded(item, now as nat, threshold_days as nat, only_candidates) ==> entry_for(
                final(self).collected@.last(), item, now as nat, threshold_days as nat),
    {
        if is_skipped_path(item.path.as_str()) {
            return ;
        }
        let size = if item.is_file {
            item.len
        } else {
            0
        };
        let days = age_days(item.accessed, now);
        let recent = days <= threshold_days;
        let mut status = String::new();
        if recent {
            push_str(&mut status, "RECENT");
        } else {
            push_str(&mut status, "OLD");
        }
        let is_empty = item.is_file && size == 0;
        let is_candidate = is_empty || days > threshold_days;
        if item.is_dir {
            let ghost before = self.stack@;
            self.stack.push(item.path.clone());
            assert(stack_view(*self) =~= crate::text::string_views(before).push(item.path@));
            if !only_candidates {
                let e = Entry {
                    index: 0,
                    path: item.path,
                    name: item.name,
                    created: item.created,
                    modified: item.modified,
                    accessed: item.accessed,
                    size,
                    is_dir: true,
                    is_empty,
                    status,
                };
                self.collected.push(e);
                assert(self.collected@.drop_last() =~= old(self).collected@);
            }
        } else {
            if only_candidates && !is_candidate {
                return ;
            }
            let e = Entry {
                index: 0,
                path: item.path,
                name: item.name,
                created: item.created,
                modified: item.modified,
                accessed: item.accessed,
                size,
                is_dir: false,
                is_empty,
                status,
            };
            self.collected.push(e);
            assert(self.collected@.drop_last() =~= old(self).collected@);
        }
    }

    /// The collected entries, numbered from 1 in the order found.
    pub fn finish(self) -> (entries: Vec<Entry>)
        ensures
            crate::commands::renumbered(self.collected@, entries@),
    {
        let mut entries = self.collected;
        crate::commands::reassign_indices(&mut entries);
        entries
    }
}

/// What the walk records of an item, in terms of the item alone: the status
/// is `RECENT` exactly when the access time is known and the whole days
/// since it do not exceed the threshold (or the threshold is the largest
/// `u64`, which even an unknown time does not exceed), and `OLD` otherwise,
/// for directories and files alike; a file's size is its length and a
/// directory's 0; an entry is empty exactly when it is a file of length 0.
pub proof fn lemma_recorded_entry(e: Entry, item: DirItem, now: nat, threshold_days: nat)
    requires
        entry_for(e, item, now, threshold_days),
        item.accessed == 0 || item.accessed <= now,
    ensures
        e.status@ == "RECENT"@ || e.status@ == "OLD"@,
        e.status@ == "RECENT"@ <==> ((item.accessed != 0 && (now - item.accessed) / 86400
            <= threshold_days) || (item.accessed == 0 && threshold_days >= u64::MAX)),
        e.status@ == "OLD"@ <==> !((item.accessed != 0 && (now - item.accessed) / 86400
            <= threshold_days) || (item.accessed == 0 && threshold_days >= u64::MAX)),
        e.is_empty <==> (item.is_file && item.len == 0),
        e.size == if item.is_file {
            item.len
        } else {
            0
        },
        e.is_dir == item.is_dir,
        e.path@ == item.path@,
        e.name@ == item.name@,
        e.accessed == item.accessed,
{
    reveal_strlit("RECENT");
    reveal_strlit("OLD");
    assert("RECENT"@ != "OLD"@) by {
        assert("RECENT"@.len() != "OLD"@.len());
    }
}

/// A walk that only wants candidates keeps collecting only candidate files:
/// whatever item it takes in, what it records is a file that is empty or
/// `OLD`.
pub proof fn lemma_only_candidates_recorded(
    collected: Seq<Entry>,
    e: Entry,
    item: DirItem,
    now: nat,
    threshold_days: nat,
)
    requires
        all_candidate_files(collected, threshold_days),
        is_recorded(item, now, threshold_days, true),
        entry_for(e, item, now, threshold_days),
    ensures
        all_candidate_files(collected.push(e), threshold_days),
{
    let c = collected.push(e);
    assert forall|i: int| 0 <= i < c.len() implies {
        let x = #[trigger] c[i];
        &&& !x.is_dir
        &&& (x.is_empty || x.status@ == "OLD"@)
    } by {
        if i < collected.len() {
            assert(c[i] == collected[i]);
        }
    }
}

} // verus!
