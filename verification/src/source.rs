//! The source side of an import: a listing of the source directory tree,
//! and the walk that collects its files in discovery order.
//!
//! The caller lists the real directories and hands the result over as a
//! `DirListing`; an entry whose type could not be determined, or a
//! subdirectory that could not be opened, is simply left out of the
//! listing, so one bad entry never aborts the walk of its siblings.

use vstd::prelude::*;
use crate::dates::{EARLIEST_DATED_SECS, LATEST_DATED_SECS};

verus! {

/// One file found on the source side: its full path, its final path
/// component, and its creation time in seconds since the Unix epoch, absent
/// when the filesystem did not report one.
pub struct SourceFile {
    pub path: String,
    pub name: String,
    pub created: Option<i64>,
}

impl SourceFile {
    /// A reported creation time lies in the range of timestamps whose
    /// civil date the library renders (years 0 through 9999).
    pub open spec fn wf(self) -> bool {
        match self.created {
            Some(ts) => EARLIEST_DATED_SECS <= ts <= LATEST_DATED_SECS,
            None => true,
        }
    }
}

impl Clone for SourceFile {
    fn clone(&self) -> (r: Self)
        ensures
            r == *self,
    {
        SourceFile { path: self.path.clone(), name: self.name.clone(), created: self.created }
    }
}

/// A listing of one directory: the files it holds and the listings of its
/// subdirectories, each in the order the directory reported them.
pub struct DirListing {
    pub files: Vec<SourceFile>,
    pub subdirs: Vec<DirListing>,
}

impl DirListing {
    /// Every file of the tree is well formed.
    pub open spec fn wf(self) -> bool
        decreases self,
    {
        (forall|i: int| 0 <= i < self.files@.len() ==> (#[trigger] self.files@[i]).wf())
            && (forall|j: int|
            0 <= j < self.subdirs@.len() ==> (#[trigger] self.subdirs@[j]).wf())
    }
}

/// The files a walk of the tree finds, in discovery order: the files of the
/// root first, then, when the walk is recursive, the files of each subtree
/// in turn.
pub open spec fn files_of(d: DirListing, recursive: bool) -> Seq<SourceFile>
    decreases d,
{
    if recursive {
        d.files@ + files_of_subdirs(d.subdirs@)
    } else {
        d.files@
    }
}

/// The concatenation of the recursive walks of a sequence of subtrees.
pub open spec fn files_of_subdirs(ds: Seq<DirListing>) -> Seq<SourceFile>
    decreases ds,
{
    if ds.len() == 0 {
        Seq::empty()
    } else {
        files_of_subdirs(ds.drop_last()) + files_of(ds.last(), true)
    }
}

/// The sum of the recursive found-file counts of a sequence of subtrees.
pub open spec fn subdir_file_count(ds: Seq<DirListing>) -> int
    decreases ds,
{
    if ds.len() == 0 {
        0
    } else {
        subdir_file_count(ds.drop_last()) + files_of(ds.last(), true).len()
    }
}

proof fn lemma_files_of_subdirs_len(ds: Seq<DirListing>)
    ensures
        files_of_subdirs(ds).len() == subdir_file_count(ds),
    decreases ds,
{
    if ds.len() > 0 {
        lemma_files_of_subdirs_len(ds.drop_last());
    }
}

/// A walk that is not recursive returns exactly the files whose parent is
/// the root; a recursive walk finds as many files as the root holds plus
/// the sum of the found-file counts of the walks of its subtrees.
pub proof fn lemma_walk_counts(d: DirListing)
    ensures
        files_of(d, false) == d.files@,
        files_of(d, true).len() == d.files@.len() + subdir_file_count(d.subdirs@),
{
    lemma_files_of_subdirs_len(d.subdirs@);
}

/// Every well-formed tree walks to well-formed files.
pub proof fn lemma_walk_wf(d: DirListing, recursive: bool)
    ensures
        d.wf() ==> forall|i: int|
            0 <= i < files_of(d, recursive).len() ==> (#[trigger] files_of(d, recursive)[i]).wf(),
    decreases d,
{
    if recursive && d.wf() {
        lemma_walk_subdirs_wf(d.subdirs@);
        let sub = files_of_subdirs(d.subdirs@);
        assert forall|i: int|
            0 <= i < files_of(d, true).len() implies (#[trigger] files_of(d, true)[i]).wf() by {
            if i < d.files@.len() {
                assert(files_of(d, true)[i] == d.files@[i]);
            } else {
                assert(files_of(d, true)[i] == sub[i - d.files@.len()]);
            }
        }
    }
}

proof fn lemma_walk_subdirs_wf(ds: Seq<DirListing>)
    ensures
        (forall|j: int| 0 <= j < ds.len() ==> (#[trigger] ds[j]).wf()) ==> forall|i: int|
            0 <= i < files_of_subdirs(ds).len() ==> (#[trigger] files_of_subdirs(ds)[i]).wf(),
    decreases ds,
{
    if ds.len() > 0 {
        lemma_walk_subdirs_wf(ds.drop_last());
        lemma_walk_wf(ds.last(), true);
        if forall|j: int| 0 <= j < ds.len() ==> (#[trigger] ds[j]).wf() {
            assert(forall|j: int|
                0 <= j < ds.drop_last().len() ==> (#[trigger] ds.drop_last()[j]) == ds[j]);
            let pre = files_of_subdirs(ds.drop_last());
            let tail = files_of(ds.last(), true);
            assert(ds.last().wf());
            assert forall|i: int|
                0 <= i < files_of_subdirs(ds).len() implies (#[trigger] files_of_subdirs(ds)[i]).wf() by {
                if i < pre.len() {
                    assert(files_of_subdirs(ds)[i] == pre[i]);
                } else {
                    assert(files_of_subdirs(ds)[i] == tail[i - pre.len()]);
                }
            }
        }
    }
}

/// Collects the files of the listing, in discovery order: the files of
/// `dir` itself and, when `recursive` is set, those of each subtree after
/// them. A walk of a listing cannot fail; the one fatal case of a walk,
/// the root itself being unreadable, shows up as the caller's failure to
/// produce a listing at all.
pub fn list_dir(dir: &DirListing, recursive: bool) -> (files: Vec<SourceFile>)
    ensures
        files@ == files_of(*dir, recursive),
    decreases *dir,
{
    let mut files: Vec<SourceFile> = Vec::new();
    let mut i: usize = 0;
    while i < dir.files.len()
        invariant
            0 <= i <= dir.files@.len(),
            files@ == dir.files@.subrange(0, i as int),
        decreases dir.files@.len() - i,
    {
        files.push(dir.files[i].clone());
        i = i + 1;
    }
    assert(files@ =~= dir.files@);
    if recursive {
        let mut j: usize = 0;
        while j < dir.subdirs.len()
            invariant
                0 <= j <= dir.subdirs@.len(),
                files@ == dir.files@ + files_of_subdirs(dir.subdirs@.subrange(0, j as int)),
            decreases dir.subdirs@.len() - j,
        {
            let mut sub = list_dir(&dir.subdirs[j], true);
            files.append(&mut sub);
            proof {
                let pre = dir.subdirs@.subrange(0, j as int);
                let cur = dir.subdirs@.subrange(0, j + 1 as int);
                assert(cur.drop_last() =~= pre);
                assert(cur.last() == dir.subdirs@[j as int]);
            }
            j = j + 1;
        }
        proof {
            assert(dir.subdirs@.subrange(0, dir.subdirs@.len() as int) =~= dir.subdirs@);
        }
    }
    files
}

} // verus!
