//! Classification and grouping: each discovered file is tagged once as
//! `New` or `Existing` against the destination tree, then the tagged files
//! are partitioned by destination bucket.

use vstd::prelude::*;
use crate::files::{FileWithMetadata, bucket_key_seq};

verus! {

/// A discovered file tagged with the classification decided once at
/// classification time: `New` when no file of the same name stood at
/// `destination/bucket/name`, `Existing` when one did. The tag is not
/// re-checked at copy time; a race between classification and copy is a
/// documented limitation.
pub enum ProcessedFile {
    New(FileWithMetadata),
    Existing(FileWithMetadata),
}

/// The classification a file receives, given whether a file of the same
/// name already exists at its destination bucket path.
pub open spec fn classified(file: FileWithMetadata, exists_at_destination: bool) -> ProcessedFile {
    if exists_at_destination {
        ProcessedFile::Existing(file)
    } else {
        ProcessedFile::New(file)
    }
}

impl Clone for ProcessedFile {
    fn clone(&self) -> (r: Self)
        ensures
            r == *self,
    {
        match self {
            ProcessedFile::New(f) => ProcessedFile::New(f.clone()),
            ProcessedFile::Existing(f) => ProcessedFile::Existing(f.clone()),
        }
    }
}

impl ProcessedFile {
    /// The file inside, whichever tag it carries.
    pub open spec fn file_spec(self) -> FileWithMetadata {
        match self {
            ProcessedFile::New(f) => f,
            ProcessedFile::Existing(f) => f,
        }
    }

    /// The key of the destination bucket the file falls in.
    pub open spec fn bucket(self) -> Seq<char> {
        bucket_key_seq(self.file_spec().creation_time)
    }

    /// The file inside, whichever tag it carries.
    pub fn file(&self) -> (r: &FileWithMetadata)
        ensures
            *r == self.file_spec(),
    {
        match self {
            ProcessedFile::New(f) => f,
            ProcessedFile::Existing(f) => f,
        }
    }

    /// Classifies one file against the destination: `New` exactly when no
    /// file of the same name already exists at its destination bucket
    /// path. The decision is a function of the probe alone, so running it
    /// again against an unchanged destination assigns the same tag.
    pub fn from_file(file: FileWithMetadata, exists_at_destination: bool) -> (r: Self)
        ensures
            r == classified(file, exists_at_destination),
    {
        if exists_at_destination {
            ProcessedFile::Existing(file)
        } else {
            ProcessedFile::New(file)
        }
    }
}

/// Classification is total and exclusive: every file receives exactly one
/// of the two tags, the tagged file is the classified file itself, and the
/// tag is determined by the existence probe.
pub proof fn lemma_classification_exactly_one(file: FileWithMetadata, exists_at_destination: bool)
    ensures
        (classified(file, exists_at_destination) is New) <==> !exists_at_destination,
        (classified(file, exists_at_destination) is Existing) <==> exists_at_destination,
        classified(file, exists_at_destination).file_spec() == file,
{
}

/// One destination bucket and the classified files that fall in it, in
/// discovery order.
pub struct FileGroup {
    pub subdir: String,
    pub files: Vec<ProcessedFile>,
}

/// The files among `files` whose bucket key is `key`, in order.
pub open spec fn files_with_bucket(files: Seq<ProcessedFile>, key: Seq<char>) -> Seq<ProcessedFile>
    decreases files.len(),
{
    if files.len() == 0 {
        Seq::empty()
    } else {
        let pre = files_with_bucket(files.drop_last(), key);
        if files.last().bucket() == key {
            pre.push(files.last())
        } else {
            pre
        }
    }
}

/// The number of files a sequence of groups holds in all.
pub open spec fn total_group_len(groups: Seq<FileGroup>) -> int
    decreases groups.len(),
{
    if groups.len() == 0 {
        0
    } else {
        total_group_len(groups.drop_last()) + groups.last().files@.len()
    }
}

/// Whether some group carries the bucket key `key`.
pub open spec fn has_group(groups: Seq<FileGroup>, key: Seq<char>) -> bool {
    exists|j: int| 0 <= j < groups.len() && (#[trigger] groups[j]).subdir@ == key
}

/// A partition of classified files by destination bucket.
pub struct Grouping {
    pub groups: Vec<FileGroup>,
}

impl Grouping {
    /// Bucket keys are distinct, every file sits in the group of its own
    /// bucket, no group is empty, and the total count of files fits the
    /// machine.
    pub open spec fn wf(self) -> bool {
        &&& forall|j: int, k: int|
            0 <= j < k < self.groups@.len() ==> (#[trigger] self.groups@[j]).subdir@ != (
            #[trigger] self.groups@[k]).subdir@
        &&& forall|j: int, i: int|
            0 <= j < self.groups@.len() && 0 <= i < (#[trigger] self.groups@[j]).files@.len()
                ==> (#[trigger] self.groups@[j].files@[i]).bucket() == self.groups@[j].subdir@
        &&& forall|j: int| 0 <= j < self.groups@.len() ==> (#[trigger] self.groups@[j]).files@.len() > 0
        &&& total_group_len(self.groups@) <= usize::MAX as int
    }
}

proof fn lemma_files_with_bucket_empty(files: Seq<ProcessedFile>, key: Seq<char>)
    requires
        forall|i: int| 0 <= i < files.len() ==> (#[trigger] files[i]).bucket() != key,
    ensures
        files_with_bucket(files, key) =~= Seq::<ProcessedFile>::empty(),
    decreases files.len(),
{
    if files.len() > 0 {
        lemma_files_with_bucket_empty(files.drop_last(), key);
    }
}

proof fn lemma_total_len_update(groups: Seq<FileGroup>, g: int, grp: FileGroup)
    requires
        0 <= g < groups.len(),
    ensures
        total_group_len(groups.update(g, grp)) == total_group_len(groups)
            - groups[g].files@.len() + grp.files@.len(),
    decreases groups.len(),
{
    let upd = groups.update(g, grp);
    if g == groups.len() - 1 {
        assert(upd.drop_last() =~= groups.drop_last());
        assert(upd.last() == grp);
    } else {
        assert(upd.drop_last() =~= groups.drop_last().update(g, grp));
        assert(upd.last() == groups.last());
        lemma_total_len_update(groups.drop_last(), g, grp);
    }
}

/// Partitions classified files by destination bucket: one group per
/// distinct bucket key, each holding exactly the input files of that
/// bucket in input order. Callers may not rely on the order of the
/// buckets themselves, only on the order within each.
pub fn group_files(files: Vec<ProcessedFile>) -> (r: Grouping)
    ensures
        r.wf(),
        forall|j: int|
            0 <= j < r.groups@.len() ==> (#[trigger] r.groups@[j]).files@ == files_with_bucket(
                files@,
                r.groups@[j].subdir@,
            ),
        forall|i: int|
            0 <= i < files@.len() ==> has_group(r.groups@, (#[trigger] files@[i]).bucket()),
        total_group_len(r.groups@) == files@.len(),
{
    let mut groups: Vec<FileGroup> = Vec::new();
    let mut i: usize = 0;
    while i < files.len()
        invariant
            i <= files@.len(),
            forall|j: int, k: int|
                0 <= j < k < groups@.len() ==> (#[trigger] groups@[j]).subdir@ != (
                #[trigger] groups@[k]).subdir@,
            forall|j: int, n: int|
                0 <= j < groups@.len() && 0 <= n < (#[trigger] groups@[j]).files@.len()
                    ==> (#[trigger] groups@[j].files@[n]).bucket() == groups@[j].subdir@,
            forall|j: int| 0 <= j < groups@.len() ==> (#[trigger] groups@[j]).files@.len() > 0,
            forall|j: int|
                0 <= j < groups@.len() ==> (#[trigger] groups@[j]).files@ == files_with_bucket(
                    files@.subrange(0, i as int),
                    groups@[j].subdir@,
                ),
            forall|n: int|
                0 <= n < i ==> has_group(groups@, (#[trigger] files@[n]).bucket()),
            total_group_len(groups@) == i as int,
        decreases files@.len() - i,
    {
        let pf = files[i].clone();
        let key = pf.file().dest_subdir_name();
        let mut found: Option<usize> = None;
        let mut j: usize = 0;
        while j < groups.len()
            invariant
                j <= groups@.len(),
                match found {
                    Some(g) => g < j && groups@[g as int].subdir@ == key@,
                    None => forall|n: int| 0 <= n < j ==> (#[trigger] groups@[n]).subdir@ != key@,
                },
            decreases groups@.len() - j,
        {
            if groups[j].subdir.eq(&key) {
                found = Some(j);
            }
            j = j + 1;
        }
        proof {
            let cur = files@.subrange(0, i + 1 as int);
            assert(cur.drop_last() =~= files@.subrange(0, i as int));
            assert(cur.last() == files@[i as int]);
            assert(pf.bucket() == key@);
        }
        let ghost prefix = files@.subrange(0, i as int);
        let ghost extended = files@.subrange(0, i + 1 as int);
        let ghost pre_groups = groups@;
        match found {
            Some(g) => {
                let ghost old_groups = groups@;
                let mut grp = groups.remove(g);
                grp.files.push(pf);
                groups.insert(g, grp);
                proof {
                    assert(groups@ =~= old_groups.update(g as int, grp));
                    lemma_total_len_update(old_groups, g as int, grp);
                    assert forall|j2: int|
                        0 <= j2 < groups@.len() implies (#[trigger] groups@[j2]).files@
                        == files_with_bucket(extended, groups@[j2].subdir@) by {
                        if j2 == g as int {
                            assert(groups@[j2].files@ == old_groups[j2].files@.push(pf));
                        } else {
                            assert(groups@[j2] == old_groups[j2]);
                            assert(groups@[j2].subdir@ != key@);
                        }
                    }
                    assert(forall|j2: int|
                        0 <= j2 < groups@.len() ==> (#[trigger] groups@[j2]).subdir@
                            == pre_groups[j2].subdir@);
                    assert(groups@[g as int].subdir@ == key@);
                    assert(has_group(groups@, key@));
                }
            },
            None => {
                proof {
                    assert forall|n: int|
                        0 <= n < prefix.len() implies (#[trigger] prefix[n]).bucket() != key@ by {
                        assert(has_group(groups@, prefix[n].bucket()));
                    }
                    lemma_files_with_bucket_empty(prefix, key@);
                }
                let mut only = Vec::new();
                only.push(pf);
                let ghost old_groups = groups@;
                groups.push(FileGroup { subdir: key, files: only });
                proof {
                    assert forall|j2: int|
                        0 <= j2 < groups@.len() implies (#[trigger] groups@[j2]).files@
                        == files_with_bucket(extended, groups@[j2].subdir@) by {
                        if j2 < old_groups.len() {
                            assert(groups@[j2] == old_groups[j2]);
                            assert(groups@[j2].subdir@ != key@);
                        } else {
                            assert(groups@[j2].files@ =~= files_with_bucket(
                                prefix,
                                key@,
                            ).push(files@[i as int]));
                        }
                    }
                    assert(groups@.drop_last() =~= old_groups);
                    assert(groups@[groups@.len() - 1].subdir@ == key@);
                    assert(has_group(groups@, key@));
                    assert(forall|j2: int|
                        0 <= j2 < pre_groups.len() ==> groups@[j2] == (
                        #[trigger] pre_groups[j2]));
                }
            },
        }
        proof {
            assert forall|n: int|
                0 <= n < i + 1 implies has_group(groups@, (#[trigger] files@[n]).bucket()) by {
                if n < i as int {
                    let b = files@[n].bucket();
                    assert(has_group(pre_groups, b));
                    let w = choose|j2: int|
                        0 <= j2 < pre_groups.len() && (#[trigger] pre_groups[j2]).subdir@ == b;
                    assert(groups@[w].subdir@ == b);
                } else {
                    assert(files@[n].bucket() == key@);
                }
            }
        }
        i = i + 1;
    }
    proof {
        assert(files@.subrange(0, files@.len() as int) =~= files@);
    }
    Grouping { groups }
}

} // verus!
