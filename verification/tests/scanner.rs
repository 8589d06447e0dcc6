use satsuma::records::FileStamp;
use satsuma::scanner::{file_stamp, plan_scan, progress_at, tally, FileAction, ScanReport};

fn stamp(path: &str, mtime: i64, size: i64) -> FileStamp {
    FileStamp {
        path: path.to_owned(),
        mtime,
        size,
    }
}

#[test]
fn new_files_are_read_and_added() {
    let files = vec![stamp("/m/one.mp3", 1, 10), stamp("/m/sub/two.mp3", 2, 20)];
    let plan = plan_scan(&files, &Vec::new());
    assert_eq!(
        plan.actions,
        [FileAction::Read { known: false }, FileAction::Read { known: false }]
    );
    assert!(plan.gone.is_empty());
    let report = tally(&plan.actions, &vec![true, true], plan.gone.len() as u64);
    assert_eq!(
        report,
        ScanReport {
            added: 2,
            ..ScanReport::default()
        }
    );
}

#[test]
fn a_second_scan_of_unchanged_files_reads_nothing() {
    let files = vec![stamp("/m/one.mp3", 1, 10), stamp("/m/sub/two.mp3", 2, 20)];
    let plan = plan_scan(&files, &files);
    assert_eq!(plan.actions, [FileAction::Unchanged, FileAction::Unchanged]);
    assert!(plan.gone.is_empty());
    let report = tally(&plan.actions, &vec![false, false], 0);
    assert_eq!(report, ScanReport::default());
}

#[test]
fn a_changed_file_is_updated_and_a_missing_one_removed() {
    let known = vec![stamp("/m/one.mp3", 1, 10), stamp("/m/sub/two.mp3", 2, 20)];
    let files = vec![stamp("/m/one.mp3", 1, 42)];
    let plan = plan_scan(&files, &known);
    assert_eq!(plan.actions, [FileAction::Read { known: true }]);
    assert_eq!(plan.gone, ["/m/sub/two.mp3"]);
    let report = tally(&plan.actions, &vec![true], plan.gone.len() as u64);
    assert_eq!(
        report,
        ScanReport {
            updated: 1,
            removed: 1,
            ..ScanReport::default()
        }
    );
}

#[test]
fn an_unreadable_file_is_counted_not_fatal() {
    let files = vec![stamp("/m/broken.mp3", 1, 7), stamp("/m/fine.mp3", 1, 9)];
    let plan = plan_scan(&files, &Vec::new());
    let report = tally(&plan.actions, &vec![false, true], 0);
    assert_eq!(report.added, 1);
    assert_eq!(report.failed, 1);
}

#[test]
fn a_changed_time_alone_is_a_change() {
    let known = vec![stamp("/m/one.mp3", 1, 10)];
    let plan = plan_scan(&vec![stamp("/m/one.mp3", 2, 10)], &known);
    assert_eq!(plan.actions, [FileAction::Read { known: true }]);
}

#[test]
fn a_path_found_twice_is_known_only_the_first_time() {
    let known = vec![stamp("/m/one.mp3", 1, 10)];
    let files = vec![stamp("/m/one.mp3", 1, 10), stamp("/m/one.mp3", 1, 10)];
    let plan = plan_scan(&files, &known);
    assert_eq!(
        plan.actions,
        [FileAction::Unchanged, FileAction::Read { known: false }]
    );
}

#[test]
fn a_record_listed_twice_is_removed_once() {
    let known = vec![stamp("/m/a.mp3", 1, 1), stamp("/m/a.mp3", 2, 2)];
    let plan = plan_scan(&Vec::new(), &known);
    assert_eq!(plan.gone, ["/m/a.mp3"]);
}

#[test]
fn the_last_record_of_a_path_is_the_one_compared() {
    let known = vec![stamp("/m/a.mp3", 1, 1), stamp("/m/a.mp3", 2, 2)];
    let plan = plan_scan(&vec![stamp("/m/a.mp3", 2, 2)], &known);
    assert_eq!(plan.actions, [FileAction::Unchanged]);
}

#[test]
fn no_folder_means_no_files_and_nothing_reported() {
    let plan = plan_scan(&Vec::new(), &Vec::new());
    assert!(plan.actions.is_empty());
    assert!(plan.gone.is_empty());
    assert_eq!(tally(&plan.actions, &Vec::new(), 0), ScanReport::default());
}

#[test]
fn progress_counts_from_one() {
    let files = vec![stamp("/m/one.mp3", 1, 10), stamp("/m/two.mp3", 2, 20)];
    let last = progress_at(&files, 1);
    assert_eq!(last.scanned, 2);
    assert_eq!(last.total, 2);
    assert_eq!(last.path, "/m/two.mp3");
}

#[test]
fn a_stamp_beyond_what_the_database_holds_is_held_at_the_top() {
    let huge = file_stamp("/m/a.mp3".to_owned(), u64::MAX, 5);
    assert_eq!(huge.mtime, i64::MAX);
    assert_eq!(huge.size, 5);
    let plain = file_stamp("/m/a.mp3".to_owned(), 1_700_000_000, 1 << 40);
    assert_eq!(plain.mtime, 1_700_000_000);
    assert_eq!(plain.size, 1 << 40);
}
