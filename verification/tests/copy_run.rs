use import_pics::classify::{group_files, Grouping, ProcessedFile};
use import_pics::copy::{copy_files, summarize_results, CopyAction, CopyEvent, CopyError};
use import_pics::files::FileWithMetadata;
use import_pics::source::SourceFile;

const JAN5_2024: i64 = 1704412800;
const DEC31_2023: i64 = 1704412800 - 5 * 86400;

fn meta(path: &str, name: &str, created: Option<i64>) -> FileWithMetadata {
    FileWithMetadata::from_direntry(SourceFile {
        path: path.to_string(),
        name: name.to_string(),
        created,
    })
}

fn grouping(files: Vec<ProcessedFile>) -> Grouping {
    group_files(files)
}

/// Drives a run against a simulated filesystem: `existing_dirs` answer the
/// directory probes, `failing` paths make their step fail, and every
/// successful copy reports `bytes` bytes.
fn drive(
    g: &Grouping,
    target: &str,
    existing_dirs: &[&str],
    failing: &[&str],
    bytes: u64,
) -> (Vec<String>, Vec<Result<u64, CopyError>>) {
    let mut run = copy_files(g, target);
    let mut log: Vec<String> = Vec::new();
    loop {
        match run.next_action() {
            CopyAction::Done => break,
            CopyAction::CheckDir { path } => {
                log.push(format!("check {}", path));
                let is_dir = existing_dirs.iter().any(|d| *d == path);
                run.step(CopyEvent::DirChecked { is_dir });
            }
            CopyAction::MakeDir { path } => {
                log.push(format!("mkdir {}", path));
                if failing.iter().any(|d| *d == path) {
                    run.step(CopyEvent::DirCreateFailed { cause: "permission denied".to_string() });
                } else {
                    run.step(CopyEvent::DirCreated);
                }
            }
            CopyAction::CopyFile { from, to } => {
                log.push(format!("copy {} -> {}", from, to));
                if failing.iter().any(|d| *d == from) {
                    run.step(CopyEvent::FileCopyFailed { cause: "io error".to_string() });
                } else {
                    run.step(CopyEvent::FileCopied { bytes });
                }
            }
        }
    }
    assert!(run.done());
    (log, run.into_results())
}

#[test]
fn empty_destination_copies_both_files() {
    let g = grouping(vec![
        ProcessedFile::from_file(meta("/src/a.jpg", "a.jpg", Some(JAN5_2024)), false),
        ProcessedFile::from_file(meta("/src/b.JPG", "b.JPG", Some(JAN5_2024)), false),
    ]);
    let (log, results) = drive(&g, "/dst", &[], &[], 100);
    assert_eq!(
        log,
        vec![
            "check /dst/2024-01-05",
            "mkdir /dst/2024-01-05",
            "copy /src/a.jpg -> /dst/2024-01-05/a.jpg",
            "copy /src/b.JPG -> /dst/2024-01-05/b.JPG",
        ]
    );
    let summary = summarize_results(&results);
    assert_eq!(summary.successes, vec![100, 100]);
    assert_eq!(summary.failures.len(), 0);
}

#[test]
fn existing_file_is_not_copied_again() {
    let g = grouping(vec![
        ProcessedFile::from_file(meta("/src/a.jpg", "a.jpg", Some(JAN5_2024)), true),
        ProcessedFile::from_file(meta("/src/b.JPG", "b.JPG", Some(JAN5_2024)), false),
    ]);
    let (log, results) = drive(&g, "/dst", &["/dst/2024-01-05"], &[], 42);
    assert_eq!(
        log,
        vec!["check /dst/2024-01-05", "copy /src/b.JPG -> /dst/2024-01-05/b.JPG"]
    );
    let summary = summarize_results(&results);
    assert_eq!(summary.successes, vec![42]);
    assert_eq!(summary.failures.len(), 0);
}

#[test]
fn all_existing_files_copy_nothing() {
    let g = grouping(vec![
        ProcessedFile::from_file(meta("/src/a.jpg", "a.jpg", Some(JAN5_2024)), true),
        ProcessedFile::from_file(meta("/src/c.jpg", "c.jpg", None), true),
    ]);
    let (log, results) = drive(&g, "/dst", &["/dst/2024-01-05", "/dst/undated"], &[], 7);
    assert_eq!(log, vec!["check /dst/2024-01-05", "check /dst/undated"]);
    assert_eq!(results.len(), 0);
}

#[test]
fn a_failed_copy_does_not_prevent_the_next_one() {
    let g = grouping(vec![
        ProcessedFile::from_file(meta("/src/a.jpg", "a.jpg", Some(JAN5_2024)), false),
        ProcessedFile::from_file(meta("/src/b.jpg", "b.jpg", Some(JAN5_2024)), false),
    ]);
    let (log, results) = drive(&g, "/dst", &["/dst/2024-01-05"], &["/src/a.jpg"], 200);
    assert_eq!(
        log,
        vec![
            "check /dst/2024-01-05",
            "copy /src/a.jpg -> /dst/2024-01-05/a.jpg",
            "copy /src/b.jpg -> /dst/2024-01-05/b.jpg",
        ]
    );
    assert_eq!(results.len(), 2);
    assert!(results[0].is_err());
    assert_eq!(results[1], Ok(200));
    let summary = summarize_results(&results);
    assert_eq!(summary.successes, vec![200]);
    assert_eq!(summary.failures.len(), 1);
    assert_eq!(summary.failures[0].path, "/dst/2024-01-05");
    assert_eq!(summary.failures[0].cause, "io error");
}

#[test]
fn a_failed_copy_in_one_bucket_leaves_other_buckets_alone() {
    let g = grouping(vec![
        ProcessedFile::from_file(meta("/src/a.jpg", "a.jpg", Some(JAN5_2024)), false),
        ProcessedFile::from_file(meta("/src/c.jpg", "c.jpg", Some(DEC31_2023)), false),
    ]);
    let (log, results) = drive(
        &g,
        "/dst",
        &["/dst/2024-01-05", "/dst/2023-12-31"],
        &["/src/a.jpg"],
        9,
    );
    assert_eq!(
        log,
        vec![
            "check /dst/2024-01-05",
            "copy /src/a.jpg -> /dst/2024-01-05/a.jpg",
            "check /dst/2023-12-31",
            "copy /src/c.jpg -> /dst/2023-12-31/c.jpg",
        ]
    );
    let summary = summarize_results(&results);
    assert_eq!(summary.successes, vec![9]);
    assert_eq!(summary.failures.len(), 1);
}

#[test]
fn unreachable_bucket_directory_absorbs_its_copies() {
    let g = grouping(vec![
        ProcessedFile::from_file(meta("/src/a.jpg", "a.jpg", Some(JAN5_2024)), false),
        ProcessedFile::from_file(meta("/src/b.jpg", "b.jpg", Some(JAN5_2024)), false),
        ProcessedFile::from_file(meta("/src/c.jpg", "c.jpg", Some(DEC31_2023)), false),
    ]);
    let (log, results) = drive(&g, "/dst", &[], &["/dst/2024-01-05"], 11);
    assert_eq!(
        log,
        vec![
            "check /dst/2024-01-05",
            "mkdir /dst/2024-01-05",
            "check /dst/2023-12-31",
            "mkdir /dst/2023-12-31",
            "copy /src/c.jpg -> /dst/2023-12-31/c.jpg",
        ]
    );
    // One failure for the directory itself; the absorbed copies of that
    // bucket are not separately reported; the other bucket is unaffected.
    assert_eq!(results.len(), 2);
    assert!(results[0].is_err());
    assert_eq!(results[1], Ok(11));
    let summary = summarize_results(&results);
    assert_eq!(summary.successes, vec![11]);
    assert_eq!(summary.failures.len(), 1);
    assert_eq!(summary.failures[0].path, "/dst/2024-01-05");
    assert_eq!(summary.failures[0].cause, "permission denied");
}

#[test]
fn undated_files_are_copied_into_the_undated_bucket() {
    let g = grouping(vec![ProcessedFile::from_file(meta("/src/x.jpg", "x.jpg", None), false)]);
    let (log, results) = drive(&g, "/archive", &[], &[], 3);
    assert_eq!(
        log,
        vec![
            "check /archive/undated",
            "mkdir /archive/undated",
            "copy /src/x.jpg -> /archive/undated/x.jpg",
        ]
    );
    assert_eq!(summarize_results(&results).successes, vec![3]);
}
