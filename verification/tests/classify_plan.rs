use import_pics::classify::{group_files, ProcessedFile};
use import_pics::files::FileWithMetadata;
use import_pics::plan::{count_new_existing, summarize_copy_plan};
use import_pics::source::SourceFile;

const JAN5_2024: i64 = 1704412800;
const END_OF_JAN5_2024: i64 = 1704412800 + 86399;
const DEC31_2023: i64 = 1704412800 - 5 * 86400;

fn meta(path: &str, name: &str, created: Option<i64>) -> FileWithMetadata {
    FileWithMetadata::from_direntry(SourceFile {
        path: path.to_string(),
        name: name.to_string(),
        created,
    })
}

#[test]
fn bucket_name_is_the_creation_date() {
    let f = meta("/src/a.jpg", "a.jpg", Some(JAN5_2024));
    assert_eq!(f.dest_subdir_name(), "2024-01-05");
}

#[test]
fn bucket_name_ignores_the_time_of_day() {
    let morning = meta("/src/a.jpg", "a.jpg", Some(JAN5_2024));
    let night = meta("/src/b.jpg", "b.jpg", Some(END_OF_JAN5_2024));
    assert_eq!(morning.dest_subdir_name(), night.dest_subdir_name());
    assert_eq!(night.dest_subdir_name(), "2024-01-05");
}

#[test]
fn bucket_name_is_undated_exactly_when_no_timestamp() {
    let dated = meta("/src/a.jpg", "a.jpg", Some(DEC31_2023));
    let undated = meta("/src/b.jpg", "b.jpg", None);
    assert_eq!(dated.dest_subdir_name(), "2023-12-31");
    assert_eq!(undated.dest_subdir_name(), "undated");
    assert!(undated.raw_creation_time.is_none());
    assert!(undated.creation_time.is_none());
}

#[test]
fn bucket_name_handles_times_before_the_epoch() {
    let f = meta("/src/old.jpg", "old.jpg", Some(-86400));
    assert_eq!(f.dest_subdir_name(), "1969-12-31");
}

#[test]
fn bucket_name_pads_single_digit_fields() {
    let f = meta("/src/a.jpg", "a.jpg", Some(DEC31_2023 + 2 * 86400));
    assert_eq!(f.dest_subdir_name(), "2024-01-02");
}

#[test]
fn classification_assigns_exactly_one_tag() {
    let a = ProcessedFile::from_file(meta("/s/a.jpg", "a.jpg", None), false);
    let b = ProcessedFile::from_file(meta("/s/b.jpg", "b.jpg", None), true);
    assert!(matches!(a, ProcessedFile::New(_)));
    assert!(matches!(b, ProcessedFile::Existing(_)));
}

#[test]
fn classification_is_idempotent_against_an_unchanged_destination() {
    for exists in [false, true] {
        let first = ProcessedFile::from_file(meta("/s/a.jpg", "a.jpg", None), exists);
        let second = ProcessedFile::from_file(meta("/s/a.jpg", "a.jpg", None), exists);
        assert_eq!(
            matches!(first, ProcessedFile::New(_)),
            matches!(second, ProcessedFile::New(_))
        );
    }
}

#[test]
fn grouping_puts_same_day_files_in_one_bucket() {
    let files = vec![
        ProcessedFile::from_file(meta("/s/a.jpg", "a.jpg", Some(JAN5_2024)), false),
        ProcessedFile::from_file(meta("/s/b.JPG", "b.JPG", Some(JAN5_2024)), false),
    ];
    let grouping = group_files(files);
    assert_eq!(grouping.groups.len(), 1);
    assert_eq!(grouping.groups[0].subdir, "2024-01-05");
    assert_eq!(grouping.groups[0].files.len(), 2);
    assert_eq!(grouping.groups[0].files[0].file().name, "a.jpg");
    assert_eq!(grouping.groups[0].files[1].file().name, "b.JPG");
}

#[test]
fn grouping_separates_undated_files() {
    let files = vec![
        ProcessedFile::from_file(meta("/s/a.jpg", "a.jpg", Some(JAN5_2024)), false),
        ProcessedFile::from_file(meta("/s/no_time.jpg", "no_time.jpg", None), false),
        ProcessedFile::from_file(meta("/s/b.jpg", "b.jpg", Some(JAN5_2024)), false),
    ];
    let grouping = group_files(files);
    assert_eq!(grouping.groups.len(), 2);
    let undated = grouping
        .groups
        .iter()
        .find(|g| g.subdir == "undated")
        .expect("an undated bucket");
    assert_eq!(undated.files.len(), 1);
    assert_eq!(undated.files[0].file().name, "no_time.jpg");
}

#[test]
fn count_new_existing_partitions_a_bucket() {
    let files = vec![
        ProcessedFile::from_file(meta("/s/a.jpg", "a.jpg", None), false),
        ProcessedFile::from_file(meta("/s/b.jpg", "b.jpg", None), true),
        ProcessedFile::from_file(meta("/s/c.jpg", "c.jpg", None), false),
    ];
    let (num_new, num_existing) = count_new_existing(&files);
    assert_eq!(num_new, 2);
    assert_eq!(num_existing, 1);
}

#[test]
fn plan_shows_two_new_for_an_empty_destination() {
    let files = vec![
        ProcessedFile::from_file(meta("/s/a.jpg", "a.jpg", Some(JAN5_2024)), false),
        ProcessedFile::from_file(meta("/s/b.JPG", "b.JPG", Some(JAN5_2024)), false),
    ];
    let grouping = group_files(files);
    let plan = summarize_copy_plan(&grouping);
    assert_eq!(plan.rows.len(), 1);
    assert_eq!(plan.rows[0].subdir, "2024-01-05");
    assert_eq!(plan.rows[0].num_new, 2);
    assert_eq!(plan.rows[0].num_existing, 0);
    assert_eq!(plan.num_new_files, 2);
}

#[test]
fn plan_shows_one_new_one_existing_when_a_copy_is_present() {
    let files = vec![
        ProcessedFile::from_file(meta("/s/a.jpg", "a.jpg", Some(JAN5_2024)), true),
        ProcessedFile::from_file(meta("/s/b.JPG", "b.JPG", Some(JAN5_2024)), false),
    ];
    let grouping = group_files(files);
    let plan = summarize_copy_plan(&grouping);
    assert_eq!(plan.rows.len(), 1);
    assert_eq!(plan.rows[0].num_new, 1);
    assert_eq!(plan.rows[0].num_existing, 1);
    assert_eq!(plan.num_new_files, 1);
}

#[test]
fn plan_rows_are_sorted_by_new_then_existing_counts() {
    let files = vec![
        ProcessedFile::from_file(meta("/s/a.jpg", "a.jpg", Some(JAN5_2024)), false),
        ProcessedFile::from_file(meta("/s/b.jpg", "b.jpg", Some(JAN5_2024)), false),
        ProcessedFile::from_file(meta("/s/c.jpg", "c.jpg", Some(DEC31_2023)), false),
        ProcessedFile::from_file(meta("/s/d.jpg", "d.jpg", None), true),
        ProcessedFile::from_file(meta("/s/e.jpg", "e.jpg", None), false),
    ];
    let grouping = group_files(files);
    let plan = summarize_copy_plan(&grouping);
    let keys: Vec<(u64, u64)> = plan.rows.iter().map(|r| (r.num_new, r.num_existing)).collect();
    assert_eq!(keys, vec![(1, 0), (1, 1), (2, 0)]);
    assert_eq!(plan.num_new_files, 4);
}

#[test]
fn second_run_plans_zero_copies() {
    let first = vec![
        ProcessedFile::from_file(meta("/s/a.jpg", "a.jpg", Some(JAN5_2024)), false),
        ProcessedFile::from_file(meta("/s/b.JPG", "b.JPG", Some(JAN5_2024)), false),
    ];
    let plan_one = summarize_copy_plan(&group_files(first));
    assert_eq!(plan_one.num_new_files, 2);
    // After a successful run the destination holds both files, so a second
    // classification against the unchanged destination sees them existing.
    let second = vec![
        ProcessedFile::from_file(meta("/s/a.jpg", "a.jpg", Some(JAN5_2024)), true),
        ProcessedFile::from_file(meta("/s/b.JPG", "b.JPG", Some(JAN5_2024)), true),
    ];
    let plan_two = summarize_copy_plan(&group_files(second));
    assert_eq!(plan_two.num_new_files, 0);
    assert_eq!(plan_two.rows[0].num_existing, 2);
}
