//! Discovery: the walk of the source tree combined with metadata
//! extraction and filtering. A file survives discovery exactly when its
//! lowercase extension stands in the allow-list, its name matches the
//! filter pattern when one is given, and its name does not match the
//! skip pattern when one is given.

use vstd::prelude::*;
use crate::files::{FileWithMetadata, extracted_from, extension_seq, lower_of};
use crate::patterns::{NamePattern, regex_match};
use crate::source::{DirListing, SourceFile, files_of, list_dir, lemma_walk_wf};

verus! {

/// Whether an extension stands in the allow-list.
pub open spec fn ext_allowed(exts: Seq<String>, ext: Seq<char>) -> bool {
    exists|i: int| 0 <= i < exts.len() && (#[trigger] exts[i])@ == ext
}

/// Whether one source file survives discovery filtering.
pub open spec fn keep_entry(
    e: SourceFile,
    exts: Seq<String>,
    filter: Option<NamePattern>,
    skip: Option<NamePattern>,
) -> bool {
    &&& ext_allowed(exts, lower_of(extension_seq(e.name@)))
    &&& match filter {
        Some(p) => regex_match(p.pattern(), e.name@),
        None => true,
    }
    &&& match skip {
        Some(p) => !regex_match(p.pattern(), e.name@),
        None => true,
    }
}

/// The source files that survive discovery filtering, in walk order.
pub open spec fn kept_entries(
    files: Seq<SourceFile>,
    exts: Seq<String>,
    filter: Option<NamePattern>,
    skip: Option<NamePattern>,
) -> Seq<SourceFile>
    decreases files.len(),
{
    if files.len() == 0 {
        Seq::empty()
    } else {
        let pre = kept_entries(files.drop_last(), exts, filter, skip);
        if keep_entry(files.last(), exts, filter, skip) {
            pre.push(files.last())
        } else {
            pre
        }
    }
}

/// Every file that survives discovery passed the filter: in particular its
/// lowercase extension stands in the allow-list. (That no directory is ever
/// among the results the walk already guarantees: it collects file entries
/// only.)
pub proof fn lemma_discovery_respects_filters(
    files: Seq<SourceFile>,
    exts: Seq<String>,
    filter: Option<NamePattern>,
    skip: Option<NamePattern>,
)
    ensures
        forall|i: int|
            0 <= i < kept_entries(files, exts, filter, skip).len() ==> keep_entry(
                #[trigger] kept_entries(files, exts, filter, skip)[i],
                exts,
                filter,
                skip,
            ),
    decreases files.len(),
{
    if files.len() > 0 {
        lemma_discovery_respects_filters(files.drop_last(), exts, filter, skip);
        let pre = kept_entries(files.drop_last(), exts, filter, skip);
        let all = kept_entries(files, exts, filter, skip);
        assert forall|i: int| 0 <= i < all.len() implies keep_entry(
            #[trigger] all[i],
            exts,
            filter,
            skip,
        ) by {
            if i < pre.len() {
                assert(all[i] == pre[i]);
            } else {
                assert(all[i] == files.last());
            }
        }
    }
}

fn contains_string(v: &Vec<String>, s: &String) -> (r: bool)
    ensures
        r == ext_allowed(v@, s@),
{
    let mut found = false;
    let mut i: usize = 0;
    while i < v.len()
        invariant
            i <= v@.len(),
            found <==> exists|j: int| 0 <= j < i && (#[trigger] v@[j])@ == s@,
        decreases v@.len() - i,
    {
        if v[i].eq(s) {
            found = true;
        }
        i = i + 1;
    }
    found
}

/// Walks the source tree and derives metadata for each file found, keeping
/// exactly the files that pass the extension allow-list and the optional
/// filter and skip name patterns, in walk order.
pub fn analyze_source_dir(
    dir: &DirListing,
    recursive: bool,
    extensions: &Vec<String>,
    filter_re: &Option<NamePattern>,
    skip_re: &Option<NamePattern>,
) -> (r: Vec<FileWithMetadata>)
    requires
        dir.wf(),
    ensures
        ({
            let kept = kept_entries(
                files_of(*dir, recursive),
                extensions@,
                *filter_re,
                *skip_re,
            );
            &&& r@.len() == kept.len()
            &&& forall|i: int| 0 <= i < r@.len() ==> extracted_from(#[trigger] r@[i], kept[i])
            &&& forall|i: int| 0 <= i < r@.len() ==> (#[trigger] r@[i]).wf()
        }),
{
    let entries = list_dir(dir, recursive);
    proof {
        lemma_walk_wf(*dir, recursive);
    }
    let mut out: Vec<FileWithMetadata> = Vec::new();
    let mut i: usize = 0;
    while i < entries.len()
        invariant
            i <= entries@.len(),
            entries@ == files_of(*dir, recursive),
            dir.wf(),
            forall|k: int| 0 <= k < entries@.len() ==> (#[trigger] entries@[k]).wf(),
            ({
                let kept = kept_entries(
                    entries@.subrange(0, i as int),
                    extensions@,
                    *filter_re,
                    *skip_re,
                );
                &&& out@.len() == kept.len()
                &&& forall|k: int|
                    0 <= k < out@.len() ==> extracted_from(#[trigger] out@[k], kept[k])
                &&& forall|k: int| 0 <= k < out@.len() ==> (#[trigger] out@[k]).wf()
            }),
        decreases entries@.len() - i,
    {
        let e = entries[i].clone();
        let f = FileWithMetadata::from_direntry(e);
        let mut keep = contains_string(extensions, &f.ext);
        if keep {
            if let Some(p) = filter_re {
                keep = p.is_match(f.name.as_str());
            }
        }
        if keep {
            if let Some(p) = skip_re {
                if p.is_match(f.name.as_str()) {
                    keep = false;
                }
            }
        }
        proof {
            let cur = entries@.subrange(0, i + 1 as int);
            assert(cur.drop_last() =~= entries@.subrange(0, i as int));
            assert(cur.last() == entries@[i as int]);
            assert(keep == keep_entry(entries@[i as int], extensions@, *filter_re, *skip_re));
        }
        if keep {
            out.push(f);
        }
        i = i + 1;
    }
    proof {
        assert(entries@.subrange(0, entries@.len() as int) =~= entries@);
    }
    out
}

} // verus!
