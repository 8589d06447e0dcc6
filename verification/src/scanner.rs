//! What an incremental scan does with the files it finds: which to read
//! again, which to leave alone, which left the library, and how the
//! report counts them.

use vstd::prelude::*;

use crate::records::FileStamp;

verus! {

#[derive(Clone, Copy, Debug, PartialEq, Eq, Structural)]
pub struct ScanReport {
    pub added: u64,
    pub updated: u64,
    pub removed: u64,
    pub failed: u64,
}

impl Default for ScanReport {
    fn default() -> (report: ScanReport)
        ensures
            report == (ScanReport { added: 0, updated: 0, removed: 0, failed: 0 }),
    {
        ScanReport { added: 0, updated: 0, removed: 0, failed: 0 }
    }
}

/// Where a scan is: reported after each file is examined.
#[derive(Clone, Debug, PartialEq, Eq)]
pub struct ScanProgress {
    pub scanned: u64,
    pub total: u64,
    pub path: String,
}

/// What the scan does with one file it found.
#[derive(Clone, Copy, Debug, PartialEq, Eq, Structural)]
pub enum FileAction {
    /// The file is as the last scan recorded it: nothing is read.
    Unchanged,
    /// The file is read again; `known` says whether the library had it.
    Read { known: bool },
}

/// What a scan does: one action per file found, in the order found, and
/// the paths the library holds that were not found.
#[derive(Clone, Debug, PartialEq, Eq)]
pub struct ScanPlan {
    pub actions: Vec<FileAction>,
    pub gone: Vec<String>,
}

/// The stamp recorded for a path: the last one listed with it, as a map
/// built from the list keeps it.
pub open spec fn last_stamp(known: Seq<FileStamp>, path: Seq<char>) -> Option<(i64, i64)>
    decreases known.len(),
{
    if known.len() == 0 {
        None
    } else if known.last().path@ == path {
        Some((known.last().mtime, known.last().size))
    } else {
        last_stamp(known.drop_last(), path)
    }
}

/// The stamps the library recorded, by path.
pub open spec fn stamp_table(known: Seq<FileStamp>) -> Map<Seq<char>, (i64, i64)> {
    Map::new(
        |path: Seq<char>| last_stamp(known, path) is Some,
        |path: Seq<char>| last_stamp(known, path).unwrap(),
    )
}

/// What to do with `file` given what is still recorded.
pub open spec fn action_for(table: Map<Seq<char>, (i64, i64)>, file: FileStamp) -> FileAction {
    if table.contains_key(file.path@) {
        if table[file.path@] == (file.mtime, file.size) {
            FileAction::Unchanged
        } else {
            FileAction::Read { known: true }
        }
    } else {
        FileAction::Read { known: false }
    }
}

/// The actions for the files in the order found. A file's record is
/// used up by the first file with its path; a second file with the same
/// path, under another library folder, is new.
pub open spec fn planned_actions(files: Seq<FileStamp>, table: Map<Seq<char>, (i64, i64)>) -> Seq<
    FileAction,
>
    decreases files.len(),
{
    if files.len() == 0 {
        Seq::empty()
    } else {
        seq![action_for(table, files[0])] + planned_actions(
            files.drop_first(),
            table.remove(files[0].path@),
        )
    }
}

/// What is still recorded once every file found has used up its record.
pub open spec fn left_over(files: Seq<FileStamp>, table: Map<Seq<char>, (i64, i64)>) -> Map<
    Seq<char>,
    (i64, i64),
>
    decreases files.len(),
{
    if files.len() == 0 {
        table
    } else {
        left_over(files.drop_first(), table.remove(files[0].path@))
    }
}

/// Whether one of the first `count` recorded stamps has `path`.
pub open spec fn listed_among(known: Seq<FileStamp>, count: int, path: Seq<char>) -> bool {
    exists|j: int| 0 <= j < count && #[trigger] known[j].path@ == path
}

pub open spec fn paths_of(stamps: Seq<String>) -> Seq<Seq<char>> {
    stamps.map_values(|path: String| path@)
}

/// The stamp recorded for `path`, unless it has been used up.
fn recorded(known: &Vec<FileStamp>, used: &Vec<String>, path: &String) -> (stamp: Option<(i64, i64)>)
    ensures
        stamp == (if paths_of(used@).contains(path@) {
            None
        } else {
            last_stamp(known@, path@)
        }),
{
    let mut j: usize = 0;
    while j < used.len()
        invariant
            j <= used@.len(),
            forall|k: int| 0 <= k < j ==> used@[k]@ != path@,
        decreases used@.len() - j,
    {
        if used[j] == *path {
            proof {
                assert(paths_of(used@)[j as int] == path@);
            }
            return None;
        }
        j = j + 1;
    }
    proof {
        if paths_of(used@).contains(path@) {
            let k = choose|k: int| 0 <= k < paths_of(used@).len() && paths_of(used@)[k] == path@;
            assert(used@[k]@ == path@);
        }
    }
    let mut i: usize = known.len();
    proof {
        assert(known@.take(known@.len() as int) =~= known@);
    }
    while i > 0
        invariant
            i <= known@.len(),
            !paths_of(used@).contains(path@),
            last_stamp(known@, path@) == last_stamp(known@.take(i as int), path@),
        decreases i,
    {
        proof {
            assert(known@.take(i as int).drop_last() =~= known@.take(i - 1));
            assert(known@.take(i as int).last() == known@[i - 1]);
        }
        if known[i - 1].path == *path {
            return Some((known[i - 1].mtime, known[i - 1].size));
        }
        i = i - 1;
    }
    proof {
        assert(known@.take(0) =~= Seq::<FileStamp>::empty());
    }
    None
}

proof fn lemma_last_stamp_present(known: Seq<FileStamp>, path: Seq<char>)
    ensures
        last_stamp(known, path) is Some <==> exists|j: int|
            0 <= j < known.len() && #[trigger] known[j].path@ == path,
    decreases known.len(),
{
    if known.len() > 0 {
        let rest = known.drop_last();
        lemma_last_stamp_present(rest, path);
        if exists|j: int| 0 <= j < rest.len() && #[trigger] rest[j].path@ == path {
            let j = choose|j: int| 0 <= j < rest.len() && #[trigger] rest[j].path@ == path;
            assert(known[j] == rest[j]);
        }
        if exists|j: int| 0 <= j < known.len() && #[trigger] known[j].path@ == path {
            let j = choose|j: int| 0 <= j < known.len() && #[trigger] known[j].path@ == path;
            if j < rest.len() {
                assert(known[j] == rest[j]);
            }
        }
    }
}

/// Decides what a scan does with the files it found (`files`, in the order
/// found) against the stamps the library recorded (`known`).
pub fn plan_scan(files: &Vec<FileStamp>, known: &Vec<FileStamp>) -> (plan: ScanPlan)
    ensures
        plan.actions@ == planned_actions(files@, stamp_table(known@)),
        paths_of(plan.gone@).no_duplicates(),
        paths_of(plan.gone@).to_set() == left_over(files@, stamp_table(known@)).dom(),
{
    let ghost start = stamp_table(known@);
    let mut used: Vec<String> = Vec::new();
    let mut actions: Vec<FileAction> = Vec::new();
    let n = files.len();
    let mut i: usize = 0;
    proof {
        assert(files@.subrange(0, n as int) =~= files@);
        assert(start.remove_keys(paths_of(used@).to_set()) =~= start);
        assert(actions@ + planned_actions(files@, start) =~= planned_actions(files@, start));
    }
    while i < n
        invariant
            i <= n,
            n == files@.len(),
            start == stamp_table(known@),
            actions@ + planned_actions(
                files@.subrange(i as int, n as int),
                start.remove_keys(paths_of(used@).to_set()),
            ) == planned_actions(files@, start),
            left_over(files@.subrange(i as int, n as int), start.remove_keys(paths_of(used@).to_set()))
                == left_over(files@, start),
        decreases n - i,
    {
        let ghost table = start.remove_keys(paths_of(used@).to_set());
        let ghost rest = files@.subrange(i as int, n as int);
        let file = &files[i];
        let action = match recorded(known, &used, &file.path) {
            Some((mtime, size)) => if mtime == file.mtime && size == file.size {
                FileAction::Unchanged
            } else {
                FileAction::Read { known: true }
            },
            None => FileAction::Read { known: false },
        };
        proof {
            assert(rest[0] == files@[i as int]);
            assert(rest.drop_first() =~= files@.subrange(i + 1, n as int));
            assert(action == action_for(table, *file));
        }
        let ghost before = actions@;
        let ghost used_before = used@;
        actions.push(action);
        used.push(file.path.clone());
        proof {
            assert(paths_of(used@) =~= paths_of(used_before).push(file.path@));
            paths_of(used_before).lemma_push_to_set_commute(file.path@);
            assert(start.remove_keys(paths_of(used@).to_set()) =~= table.remove(file.path@));
            assert(actions@ + planned_actions(rest.drop_first(), table.remove(file.path@))
                =~= before + planned_actions(rest, table));
        }
        i = i + 1;
    }
    proof {
        assert(files@.subrange(n as int, n as int) =~= Seq::<FileStamp>::empty());
        assert(actions@ + Seq::<FileAction>::empty() =~= actions@);
    }
    let ghost finish = start.remove_keys(paths_of(used@).to_set());
    let mut gone: Vec<String> = Vec::new();
    let mut k: usize = 0;
    while k < known.len()
        invariant
            k <= known@.len(),
            finish == stamp_table(known@).remove_keys(paths_of(used@).to_set()),
            paths_of(gone@).no_duplicates(),
            forall|p: Seq<char>|
                #[trigger] paths_of(gone@).contains(p) <==> (finish.contains_key(p) && listed_among(known@, k as int, p)),
        decreases known@.len() - k,
    {
        let path = &known[k].path;
        proof {
            lemma_last_stamp_present(known@, path@);
        }
        let is_used = recorded(known, &used, path).is_none();
        let mut already = false;
        let mut g: usize = 0;
        while g < gone.len()
            invariant
                g <= gone@.len(),
                already == exists|h: int| 0 <= h < g && gone@[h]@ == path@,
            decreases gone@.len() - g,
        {
            if gone[g] == *path {
                already = true;
            }
            g = g + 1;
        }
        let ghost before = gone@;
        if !is_used && !already {
            gone.push(path.clone());
            proof {
                assert(paths_of(gone@) =~= paths_of(before).push(path@));
                assert forall|h: int| 0 <= h < paths_of(before).len() implies paths_of(before)[h]
                    != path@ by {
                    assert(paths_of(before)[h] == before[h]@);
                }
            }
        }
        let ghost k_before = k;
        k = k + 1;
        proof {
            assert(known@[k - 1].path@ == path@);
            assert(finish.contains_key(path@) == !is_used);
            assert forall|p: Seq<char>|
                paths_of(gone@).contains(p) <==> (finish.contains_key(p) && listed_among(known@, k as int, p)) by {
                if p == path@ {
                    assert(listed_among(known@, k as int, p));
                    if already {
                        let h = choose|h: int| 0 <= h < g && gone@[h]@ == path@;
                        assert(paths_of(before)[h] == p);
                        assert(paths_of(gone@)[h] == p);
                    } else if !is_used {
                        assert(paths_of(gone@)[before.len() as int] == p);
                    } else if paths_of(gone@).contains(p) {
                        let h = choose|h: int| 0 <= h < paths_of(gone@).len() && paths_of(gone@)[h] == p;
                        assert(gone@[h]@ == p);
                    }
                    assert(paths_of(gone@).contains(p) == finish.contains_key(p));
                } else {
                    if listed_among(known@, k as int, p) {
                        let j = choose|j: int| 0 <= j < k && #[trigger] known@[j].path@ == p;
                        assert(j != k - 1);
                        assert(listed_among(known@, k - 1, p));
                    }
                    if listed_among(known@, k - 1, p) {
                        let j = choose|j: int| 0 <= j < k - 1 && #[trigger] known@[j].path@ == p;
                        assert(known@[j].path@ == p);
                    }
                    assert(paths_of(before).contains(p) == (finish.contains_key(p) && listed_among(known@, k_before as int, p)));
                    if paths_of(before).contains(p) {
                        let h = choose|h: int| 0 <= h < paths_of(before).len() && paths_of(before)[h] == p;
                        assert(paths_of(gone@)[h] == p);
                    }
                    if paths_of(gone@).contains(p) {
                        let h = choose|h: int| 0 <= h < paths_of(gone@).len() && paths_of(gone@)[h] == p;
                        assert(paths_of(before)[h] == p);
                    }
                }
            }
        }
    }
    proof {
        assert(paths_of(gone@).to_set() =~= finish.dom()) by {
            assert forall|p: Seq<char>| paths_of(gone@).to_set().contains(p) <==> finish.dom().contains(p) by {
                lemma_last_stamp_present(known@, p);
            }
        }
    }
    ScanPlan { actions, gone }
}

/// What the report counts a file that was read as.
#[derive(Clone, Copy, Debug, PartialEq, Eq, Structural)]
pub enum Counted {
    Added,
    Updated,
    Failed,
}

/// How many of the first `n` files a scan counts as `what`. A file that
/// was read counts as added or updated when the read worked and as failed
/// when it did not.
pub open spec fn counted(actions: Seq<FileAction>, read_ok: Seq<bool>, n: int, what: Counted) -> nat
    decreases n,
{
    if n <= 0 {
        0
    } else {
        counted(actions, read_ok, n - 1, what) + (if falls_under(actions[n - 1], read_ok[n - 1], what) {
            1nat
        } else {
            0nat
        })
    }
}

/// Whether one file with `action`, whose read worked as `read_ok` says,
/// counts as `what`.
pub open spec fn falls_under(action: FileAction, read_ok: bool, what: Counted) -> bool {
    match action {
        FileAction::Unchanged => false,
        FileAction::Read { known } => if !read_ok {
            what == Counted::Failed
        } else if known {
            what == Counted::Updated
        } else {
            what == Counted::Added
        },
    }
}

proof fn lemma_counted_bounded(actions: Seq<FileAction>, read_ok: Seq<bool>, n: int, what: Counted)
    requires
        0 <= n,
    ensures
        counted(actions, read_ok, n, what) <= n,
    decreases n,
{
    if n > 0 {
        lemma_counted_bounded(actions, read_ok, n - 1, what);
    }
}

/// The report of a scan: `actions` is what it did with each file found,
/// `read_ok[i]` whether reading file `i` worked (looked at only where the
/// file was read), and `removed` how many records it dropped.
pub fn tally(actions: &Vec<FileAction>, read_ok: &Vec<bool>, removed: u64) -> (report: ScanReport)
    requires
        actions@.len() == read_ok@.len(),
    ensures
        report.added == counted(actions@, read_ok@, actions@.len() as int, Counted::Added),
        report.updated == counted(actions@, read_ok@, actions@.len() as int, Counted::Updated),
        report.failed == counted(actions@, read_ok@, actions@.len() as int, Counted::Failed),
        report.removed == removed,
{
    let mut report = ScanReport { added: 0, updated: 0, removed, failed: 0 };
    let mut i: usize = 0;
    while i < actions.len()
        invariant
            i <= actions@.len(),
            actions@.len() == read_ok@.len(),
            report.added == counted(actions@, read_ok@, i as int, Counted::Added),
            report.updated == counted(actions@, read_ok@, i as int, Counted::Updated),
            report.failed == counted(actions@, read_ok@, i as int, Counted::Failed),
            report.removed == removed,
        decreases actions@.len() - i,
    {
        proof {
            lemma_counted_bounded(actions@, read_ok@, i as int, Counted::Added);
            lemma_counted_bounded(actions@, read_ok@, i as int, Counted::Updated);
            lemma_counted_bounded(actions@, read_ok@, i as int, Counted::Failed);
        }
        match actions[i] {
            FileAction::Unchanged => {},
            FileAction::Read { known } => {
                if !read_ok[i] {
                    report.failed = report.failed + 1;
                } else if known {
                    report.updated = report.updated + 1;
                } else {
                    report.added = report.added + 1;
                }
            },
        }
        i = i + 1;
    }
    report
}

/// Where the scan is once the file at `index` of `files` is examined.
pub fn progress_at(files: &Vec<FileStamp>, index: usize) -> (progress: ScanProgress)
    requires
        index < files@.len(),
    ensures
        progress.scanned == index + 1,
        progress.total == files@.len(),
        progress.path@ == files@[index as int].path@,
{
    let total = files.len();
    ScanProgress { scanned: (index + 1) as u64, total: total as u64, path: files[index].path.clone() }
}

/// A file's stamp from what the file system reports: seconds since the
/// epoch and length in bytes, each held at `i64::MAX` when larger.
pub fn file_stamp(path: String, mtime_secs: u64, size: u64) -> (stamp: FileStamp)
    ensures
        stamp.path@ == path@,
        stamp.mtime == (if mtime_secs <= i64::MAX { mtime_secs as int } else { i64::MAX as int }),
        stamp.size == (if size <= i64::MAX { size as int } else { i64::MAX as int }),
{
    let mtime: i64 = if mtime_secs <= 9_223_372_036_854_775_807u64 {
        mtime_secs as i64
    } else {
        i64::MAX
    };
    let size: i64 = if size <= 9_223_372_036_854_775_807u64 {
        size as i64
    } else {
        i64::MAX
    };
    FileStamp { path, mtime, size }
}

/// Whether one of `files` has `path`.
pub open spec fn found(files: Seq<FileStamp>, path: Seq<char>) -> bool {
    exists|i: int| 0 <= i < files.len() && #[trigger] files[i].path@ == path
}

/// No two of `files` share a path.
pub open spec fn distinct_paths(files: Seq<FileStamp>) -> bool {
    forall|i: int, j: int|
        0 <= i < files.len() && 0 <= j < files.len() && i != j ==> #[trigger] files[i].path@
            != #[trigger] files[j].path@
}

proof fn lemma_left_over(files: Seq<FileStamp>, table: Map<Seq<char>, (i64, i64)>)
    ensures
        forall|p: Seq<char>|
            #[trigger] left_over(files, table).contains_key(p) <==> (table.contains_key(p)
                && !found(files, p)),
        forall|p: Seq<char>|
            #[trigger] left_over(files, table).contains_key(p) ==> left_over(files, table)[p]
                == table[p],
    decreases files.len(),
{
    if files.len() > 0 {
        let rest = files.drop_first();
        lemma_left_over(rest, table.remove(files[0].path@));
        assert forall|p: Seq<char>| found(files, p) <==> (files[0].path@ == p || found(rest, p)) by {
            if found(files, p) {
                let i = choose|i: int| 0 <= i < files.len() && #[trigger] files[i].path@ == p;
                if i > 0 {
                    assert(rest[i - 1].path@ == p);
                }
            }
            if found(rest, p) {
                let i = choose|i: int| 0 <= i < rest.len() && #[trigger] rest[i].path@ == p;
                assert(files[i + 1].path@ == p);
            }
            assert(files[0].path@ == files[0].path@);
        }
        let smaller = table.remove(files[0].path@);
        assert(left_over(files, table) == left_over(rest, smaller));
        assert forall|p: Seq<char>|
            #[trigger] left_over(files, table).contains_key(p) <==> (table.contains_key(p)
                && !found(files, p)) by {
            assert(left_over(rest, smaller).contains_key(p) <==> (smaller.contains_key(p) && !found(rest, p)));
        }
        assert forall|p: Seq<char>|
            #[trigger] left_over(files, table).contains_key(p) implies left_over(files, table)[p]
                == table[p] by {
            assert(left_over(rest, smaller).contains_key(p));
            assert(left_over(rest, smaller)[p] == smaller[p]);
        }
    }
}

/// Every record that a scan drops is a recorded path that no file found
/// has, and every such path is dropped.
pub proof fn law_missing_files_leave_the_library(files: Seq<FileStamp>, known: Seq<FileStamp>, path: Seq<char>)
    ensures
        left_over(files, stamp_table(known)).contains_key(path) <==> (found(known, path) && !found(
            files,
            path,
        )),
{
    lemma_left_over(files, stamp_table(known));
    lemma_last_stamp_present(known, path);
}

proof fn lemma_rescan(files: Seq<FileStamp>, table: Map<Seq<char>, (i64, i64)>)
    requires
        distinct_paths(files),
        forall|i: int|
            0 <= i < files.len() ==> #[trigger] table.contains_key(files[i].path@) && table[files[i].path@]
                == (files[i].mtime, files[i].size),
    ensures
        planned_actions(files, table).len() == files.len(),
        forall|i: int| 0 <= i < files.len() ==> #[trigger] planned_actions(files, table)[i] == FileAction::Unchanged,
    decreases files.len(),
{
    if files.len() > 0 {
        let rest = files.drop_first();
        let smaller = table.remove(files[0].path@);
        assert forall|i: int| 0 <= i < rest.len() implies #[trigger] smaller.contains_key(rest[i].path@)
            && smaller[rest[i].path@] == (rest[i].mtime, rest[i].size) by {
            assert(files[i + 1] == rest[i]);
            assert(files[i + 1].path@ != files[0].path@);
        }
        assert forall|i: int, j: int|
            0 <= i < rest.len() && 0 <= j < rest.len() && i != j implies #[trigger] rest[i].path@
            != #[trigger] rest[j].path@ by {
            assert(files[i + 1].path@ != files[j + 1].path@);
        }
        lemma_rescan(rest, smaller);
        assert(table.contains_key(files[0].path@));
        assert forall|i: int| 0 <= i < files.len() implies #[trigger] planned_actions(files, table)[i]
            == FileAction::Unchanged by {
            if i > 0 {
                assert(planned_actions(files, table)[i] == planned_actions(rest, smaller)[i - 1]);
            }
        }
    }
}

proof fn lemma_nothing_counted(actions: Seq<FileAction>, read_ok: Seq<bool>, n: int, what: Counted)
    requires
        0 <= n <= actions.len(),
        forall|i: int| 0 <= i < n ==> #[trigger] actions[i] == FileAction::Unchanged,
    ensures
        counted(actions, read_ok, n, what) == 0,
    decreases n,
{
    if n > 0 {
        lemma_nothing_counted(actions, read_ok, n - 1, what);
    }
}

/// Scanning again files that have not changed since the last scan, whose
/// records hold exactly those stamps in whatever order the cache lists
/// them, reads none of them, drops no record, and reports nothing, whatever
/// a read would have done.
pub proof fn law_unchanged_files_are_not_read_again(
    files: Seq<FileStamp>,
    known: Seq<FileStamp>,
    read_ok: Seq<bool>,
)
    requires
        distinct_paths(files),
        stamp_table(known) == stamp_table(files),
        read_ok.len() == files.len(),
    ensures
        planned_actions(files, stamp_table(known)).len() == files.len(),
        forall|i: int|
            0 <= i < files.len() ==> #[trigger] planned_actions(files, stamp_table(known))[i]
                == FileAction::Unchanged,
        left_over(files, stamp_table(known)).dom() == Set::<Seq<char>>::empty(),
        counted(planned_actions(files, stamp_table(known)), read_ok, files.len() as int, Counted::Added) == 0,
        counted(planned_actions(files, stamp_table(known)), read_ok, files.len() as int, Counted::Updated) == 0,
        counted(planned_actions(files, stamp_table(known)), read_ok, files.len() as int, Counted::Failed) == 0,
{
    let table = stamp_table(files);
    assert forall|i: int| 0 <= i < files.len() implies #[trigger] table.contains_key(files[i].path@)
        && table[files[i].path@] == (files[i].mtime, files[i].size) by {
        lemma_last_stamp_of_distinct(files, i);
    }
    lemma_rescan(files, table);
    lemma_left_over(files, table);
    assert forall|p: Seq<char>| !#[trigger] left_over(files, table).contains_key(p) by {
        lemma_last_stamp_present(files, p);
        if table.contains_key(p) {
            let j = choose|j: int| 0 <= j < files.len() && #[trigger] files[j].path@ == p;
            assert(found(files, p));
        }
    }
    assert(left_over(files, table).dom() =~= Set::<Seq<char>>::empty());
    let actions = planned_actions(files, table);
    lemma_nothing_counted(actions, read_ok, files.len() as int, Counted::Added);
    lemma_nothing_counted(actions, read_ok, files.len() as int, Counted::Updated);
    lemma_nothing_counted(actions, read_ok, files.len() as int, Counted::Failed);
}

proof fn lemma_last_stamp_of_distinct(files: Seq<FileStamp>, i: int)
    requires
        distinct_paths(files),
        0 <= i < files.len(),
    ensures
        last_stamp(files, files[i].path@) == Some((files[i].mtime, files[i].size)),
    decreases files.len(),
{
    if i < files.len() - 1 {
        let rest = files.drop_last();
        assert forall|a: int, b: int|
            0 <= a < rest.len() && 0 <= b < rest.len() && a != b implies #[trigger] rest[a].path@
            != #[trigger] rest[b].path@ by {
            assert(files[a].path@ != files[b].path@);
        }
        assert(files.last().path@ != files[i].path@);
        lemma_last_stamp_of_distinct(rest, i);
        assert(rest[i] == files[i]);
    }
}

} // verus!
