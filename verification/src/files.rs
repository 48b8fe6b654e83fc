//! Metadata extraction: from a discovered source file to its base name,
//! lowercase extension and creation date, and from the date to the name of
//! the destination bucket the file belongs in.

use vstd::prelude::*;
use vstd::string::StrSliceExecFns;
use crate::dates::{Date, civil_of, civil_date_of_timestamp, ymd_seq};
use crate::source::SourceFile;

verus! {

/// The lowercase equivalent of a string, as `str::to_lowercase` defines
/// it: a function of the characters alone.
pub uninterp spec fn lower_of(s: Seq<char>) -> Seq<char>;

/// Relies on `str::to_lowercase`: the returned string is the lowercase
/// equivalent of the input, depending on nothing but its characters.
#[verifier::external_body]
fn to_lower(s: &str) -> (r: String)
    ensures
        r@ == lower_of(s@),
{
    s.to_lowercase()
}

/// The position of the last `.` in a name, or `-1` when it has none.
pub open spec fn last_dot(name: Seq<char>) -> int
    decreases name.len(),
{
    if name.len() == 0 {
        -1
    } else if name.last() == '.' {
        name.len() - 1
    } else {
        last_dot(name.drop_last())
    }
}

/// The extension of a file name: the portion after the final `.`, and
/// empty when the name has no `.`, or when its only `.` leads the name.
pub open spec fn extension_seq(name: Seq<char>) -> Seq<char> {
    if last_dot(name) > 0 {
        name.subrange(last_dot(name) + 1, name.len() as int)
    } else {
        Seq::empty()
    }
}

/// The extension of `name`, not yet lowercased.
fn extension_of(name: &str) -> (r: String)
    ensures
        r@ == extension_seq(name@),
{
    let n = name.unicode_len();
    let mut dot: Option<usize> = None;
    let mut i: usize = 0;
    while i < n
        invariant
            i <= n,
            n == name@.len(),
            match dot {
                None => last_dot(name@.subrange(0, i as int)) == -1,
                Some(j) => j < i && last_dot(name@.subrange(0, i as int)) == j as int,
            },
        decreases n - i,
    {
        let c = name.get_char(i);
        proof {
            let pre = name@.subrange(0, i + 1 as int);
            assert(pre.drop_last() =~= name@.subrange(0, i as int));
            assert(pre.last() == name@[i as int]);
        }
        if c == '.' {
            dot = Some(i);
        }
        i = i + 1;
    }
    proof {
        assert(name@.subrange(0, n as int) =~= name@);
    }
    match dot {
        Some(j) => {
            if j > 0 {
                name.substring_char(j + 1, n).to_owned()
            } else {
                String::new()
            }
        },
        None => String::new(),
    }
}

/// The civil date a creation timestamp falls on.
pub open spec fn date_of_timestamp(ts: int) -> Date {
    Date {
        year: civil_of(ts).0 as u16,
        month: civil_of(ts).1 as u8,
        day: civil_of(ts).2 as u8,
    }
}

/// The normalized creation date of a file, absent when no timestamp was
/// reported.
pub open spec fn date_of_created(created: Option<i64>) -> Option<Date> {
    match created {
        Some(ts) => Some(date_of_timestamp(ts as int)),
        None => None,
    }
}

/// One candidate file with its derived metadata: base name, lowercase
/// extension, and creation timestamp both raw and as a civil date. The
/// name and the extension are always present, the empty string standing
/// for an undeterminable one; the timestamps are absent when the
/// filesystem reported none.
pub struct FileWithMetadata {
    pub path: String,
    pub name: String,
    pub ext: String,
    pub raw_creation_time: Option<i64>,
    pub creation_time: Option<Date>,
}

/// How a `FileWithMetadata` is derived from the source file it came from.
pub open spec fn extracted_from(f: FileWithMetadata, e: SourceFile) -> bool {
    &&& f.path == e.path
    &&& f.name == e.name
    &&& f.ext@ == lower_of(extension_seq(e.name@))
    &&& f.raw_creation_time == e.created
    &&& f.creation_time == date_of_created(e.created)
}

impl Clone for FileWithMetadata {
    fn clone(&self) -> (r: Self)
        ensures
            r == *self,
    {
        FileWithMetadata {
            path: self.path.clone(),
            name: self.name.clone(),
            ext: self.ext.clone(),
            raw_creation_time: self.raw_creation_time,
            creation_time: self.creation_time,
        }
    }
}

impl FileWithMetadata {
    /// A creation date, when present, that four digits can render.
    pub open spec fn wf(self) -> bool {
        match self.creation_time {
            Some(d) => d.wf(),
            None => true,
        }
    }

    /// Derives the metadata of one discovered file: the name is kept
    /// verbatim, the extension is the lowercased portion of the name after
    /// its final `.`, and the creation date is the civil date of the
    /// reported timestamp, absent when none was reported.
    pub fn from_direntry(entry: SourceFile) -> (r: Self)
        requires
            entry.wf(),
        ensures
            extracted_from(r, entry),
            r.wf(),
    {
        let ext_raw = extension_of(entry.name.as_str());
        let ext = to_lower(ext_raw.as_str());
        let creation_time = match entry.created {
            Some(ts) => Some(civil_date_of_timestamp(ts)),
            None => None,
        };
        FileWithMetadata {
            path: entry.path,
            name: entry.name,
            ext,
            raw_creation_time: entry.created,
            creation_time,
        }
    }

    /// The name of the destination bucket this file belongs in.
    pub fn dest_subdir_name(&self) -> (r: String)
        ensures
            r@ == bucket_key_seq(self.creation_time),
    {
        match &self.creation_time {
            Some(d) => crate::dates::format_ymd(d),
            None => "undated".to_owned(),
        }
    }
}

/// The bucket key for a creation date: the date rendered `YYYY-MM-DD`, or
/// `undated` when there is none.
pub open spec fn bucket_key_seq(ct: Option<Date>) -> Seq<char> {
    match ct {
        Some(d) => ymd_seq(d.year as int, d.month as int, d.day as int),
        None => "undated"@,
    }
}

/// The bucket key is `undated` exactly when no creation date is present;
/// a present date is rendered as its ten `YYYY-MM-DD` characters, which
/// the seven characters of `undated` can never equal.
pub proof fn lemma_bucket_key_undated_iff(ct: Option<Date>)
    ensures
        (bucket_key_seq(ct) == "undated"@) <==> ct is None,
{
    reveal_strlit("undated");
    match ct {
        Some(d) => {
            assert(bucket_key_seq(ct).len() == 10);
        },
        None => {},
    }
}

} // verus!
