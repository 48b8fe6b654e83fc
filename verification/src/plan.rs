//! The copy plan: per-bucket counts of new and existing files, sorted for
//! display, and the grand total of files to copy, used to gate the
//! confirmation prompt and to size a progress indicator.

use vstd::prelude::*;
use crate::classify::{FileGroup, Grouping, ProcessedFile, total_group_len};

verus! {

/// The count of `New` files in a sequence of classified files.
pub open spec fn count_new(files: Seq<ProcessedFile>) -> int
    decreases files.len(),
{
    if files.len() == 0 {
        0
    } else {
        count_new(files.drop_last()) + if files.last() is New {
            1int
        } else {
            0int
        }
    }
}

/// The count of `Existing` files in a sequence of classified files: every
/// file carries exactly one of the two tags.
pub open spec fn count_existing(files: Seq<ProcessedFile>) -> int {
    files.len() - count_new(files)
}

pub proof fn lemma_count_new_bounds(files: Seq<ProcessedFile>)
    ensures
        0 <= count_new(files) <= files.len(),
    decreases files.len(),
{
    if files.len() > 0 {
        lemma_count_new_bounds(files.drop_last());
    }
}

/// The total count of `New` files over a sequence of groups.
pub open spec fn total_new(groups: Seq<FileGroup>) -> int
    decreases groups.len(),
{
    if groups.len() == 0 {
        0
    } else {
        total_new(groups.drop_last()) + count_new(groups.last().files@)
    }
}

pub proof fn lemma_total_new_bounds(groups: Seq<FileGroup>)
    ensures
        0 <= total_new(groups) <= total_group_len(groups),
    decreases groups.len(),
{
    if groups.len() > 0 {
        lemma_total_new_bounds(groups.drop_last());
        lemma_count_new_bounds(groups.last().files@);
    }
}

proof fn lemma_total_len_prefix(groups: Seq<FileGroup>, m: int)
    requires
        0 <= m <= groups.len(),
    ensures
        total_group_len(groups.subrange(0, m)) <= total_group_len(groups),
    decreases groups.len() - m,
{
    if m == groups.len() {
        assert(groups.subrange(0, m) =~= groups);
    } else {
        lemma_total_len_prefix(groups.drop_last(), m);
        assert(groups.drop_last().subrange(0, m) =~= groups.subrange(0, m));
    }
}

/// One display row of the plan.
pub struct PlanRow {
    pub subdir: String,
    pub num_new: u64,
    pub num_existing: u64,
}

impl Clone for PlanRow {
    fn clone(&self) -> (r: Self)
        ensures
            r == *self,
    {
        PlanRow {
            subdir: self.subdir.clone(),
            num_new: self.num_new,
            num_existing: self.num_existing,
        }
    }
}

/// The row that summarizes one group.
pub open spec fn row_of(g: FileGroup) -> PlanRow {
    PlanRow {
        subdir: g.subdir,
        num_new: count_new(g.files@) as u64,
        num_existing: count_existing(g.files@) as u64,
    }
}

/// The rows of a sequence of groups, in group order.
pub open spec fn rows_of(groups: Seq<FileGroup>) -> Seq<PlanRow>
    decreases groups.len(),
{
    if groups.len() == 0 {
        Seq::empty()
    } else {
        rows_of(groups.drop_last()).push(row_of(groups.last()))
    }
}

/// Display order of two rows: ascending by the pair of the new count and
/// the existing count.
pub open spec fn row_le(a: PlanRow, b: PlanRow) -> bool {
    a.num_new < b.num_new || (a.num_new == b.num_new && a.num_existing <= b.num_existing)
}

/// Whether rows stand in display order.
pub open spec fn rows_sorted(rows: Seq<PlanRow>) -> bool {
    forall|i: int, j: int| 0 <= i < j < rows.len() ==> row_le(#[trigger] rows[i], #[trigger] rows[j])
}

/// The displayable copy plan: one row per bucket, sorted for display, and
/// the number of files the copy phase would attempt.
pub struct CopyPlanSummary {
    pub rows: Vec<PlanRow>,
    pub num_new_files: u64,
}

/// Counts the `New` and the `Existing` files of one bucket.
pub fn count_new_existing(files: &Vec<ProcessedFile>) -> (r: (u64, u64))
    ensures
        r.0 == count_new(files@),
        r.1 == count_existing(files@),
{
    proof {
        lemma_count_new_bounds(files@);
    }
    let mut num_new: u64 = 0;
    let mut i: usize = 0;
    while i < files.len()
        invariant
            i <= files@.len(),
            num_new == count_new(files@.subrange(0, i as int)),
            num_new <= i,
        decreases files@.len() - i,
    {
        proof {
            let cur = files@.subrange(0, i + 1 as int);
            assert(cur.drop_last() =~= files@.subrange(0, i as int));
            assert(cur.last() == files@[i as int]);
        }
        if matches!(&files[i], ProcessedFile::New(_)) {
            num_new = num_new + 1;
        }
        i = i + 1;
    }
    proof {
        assert(files@.subrange(0, files@.len() as int) =~= files@);
    }
    let num_old: u64 = (files.len() as u64) - num_new;
    (num_new, num_old)
}

fn row_le_exec(a: &PlanRow, b: &PlanRow) -> (r: bool)
    ensures
        r == row_le(*a, *b),
{
    a.num_new < b.num_new || (a.num_new == b.num_new && a.num_existing <= b.num_existing)
}

fn sorted_rows(rows: &Vec<PlanRow>) -> (r: Vec<PlanRow>)
    ensures
        rows_sorted(r@),
        r@.to_multiset() == rows@.to_multiset(),
{
    let mut out: Vec<PlanRow> = Vec::new();
    proof {
        assert(rows@.subrange(0, 0) =~= Seq::<PlanRow>::empty());
    }
    let mut i: usize = 0;
    while i < rows.len()
        invariant
            i <= rows@.len(),
            rows_sorted(out@),
            out@.to_multiset() == rows@.subrange(0, i as int).to_multiset(),
        decreases rows@.len() - i,
    {
        let x = rows[i].clone();
        let mut p: usize = 0;
        while p < out.len() && row_le_exec(&out[p], &x)
            invariant
                p <= out@.len(),
                forall|q: int| 0 <= q < p ==> row_le(#[trigger] out@[q], x),
            decreases out@.len() - p,
        {
            p = p + 1;
        }
        let ghost pre_out = out@;
        out.insert(p, x);
        proof {
            vstd::seq_lib::to_multiset_insert(pre_out, p as int, x);
            let cur = rows@.subrange(0, i + 1 as int);
            assert(cur.drop_last() =~= rows@.subrange(0, i as int));
            assert(cur.last() == rows@[i as int]);
            assert(cur =~= cur.drop_last().push(rows@[i as int]));
            vstd::seq_lib::to_multiset_build(cur.drop_last(), rows@[i as int]);
            assert forall|a: int, b: int|
                0 <= a < b < out@.len() implies row_le(#[trigger] out@[a], #[trigger] out@[b]) by {
                if b < p as int {
                    assert(out@[a] == pre_out[a] && out@[b] == pre_out[b]);
                } else if a < p as int && b == p as int {
                    assert(out@[a] == pre_out[a]);
                } else if a < p as int {
                    assert(out@[a] == pre_out[a] && out@[b] == pre_out[b - 1]);
                } else if a == p as int {
                    assert(out@[b] == pre_out[b - 1]);
                    if (p as int) < pre_out.len() {
                        assert(!row_le(pre_out[p as int], x));
                        assert(row_le(pre_out[p as int], pre_out[b - 1]) || b - 1 == p as int);
                    }
                } else {
                    assert(out@[a] == pre_out[a - 1] && out@[b] == pre_out[b - 1]);
                }
            }
        }
        i = i + 1;
    }
    proof {
        assert(rows@.subrange(0, rows@.len() as int) =~= rows@);
    }
    out
}

/// Summarizes the plan: one row per bucket with its new and existing
/// counts, the rows arranged in display order, and the total number of
/// files a copy phase would attempt.
pub fn summarize_copy_plan(file_map: &Grouping) -> (r: CopyPlanSummary)
    requires
        file_map.wf(),
    ensures
        rows_sorted(r.rows@),
        r.rows@.to_multiset() == rows_of(file_map.groups@).to_multiset(),
        r.num_new_files == total_new(file_map.groups@),
{
    let mut rows: Vec<PlanRow> = Vec::new();
    let mut total: u64 = 0;
    let mut j: usize = 0;
    while j < file_map.groups.len()
        invariant
            j <= file_map.groups@.len(),
            file_map.wf(),
            rows@ == rows_of(file_map.groups@.subrange(0, j as int)),
            total == total_new(file_map.groups@.subrange(0, j as int)),
            total <= total_group_len(file_map.groups@.subrange(0, j as int)),
        decreases file_map.groups@.len() - j,
    {
        proof {
            let cur = file_map.groups@.subrange(0, j + 1 as int);
            assert(cur.drop_last() =~= file_map.groups@.subrange(0, j as int));
            assert(cur.last() == file_map.groups@[j as int]);
            lemma_count_new_bounds(file_map.groups@[j as int].files@);
            lemma_total_len_prefix(file_map.groups@, j + 1 as int);
        }
        let counts = count_new_existing(&file_map.groups[j].files);
        rows.push(PlanRow {
            subdir: file_map.groups[j].subdir.clone(),
            num_new: counts.0,
            num_existing: counts.1,
        });
        total = total + counts.0;
        j = j + 1;
    }
    proof {
        assert(file_map.groups@.subrange(0, file_map.groups@.len() as int) =~= file_map.groups@);
    }
    let sorted = sorted_rows(&rows);
    CopyPlanSummary { rows: sorted, num_new_files: total }
}

} // verus!
