//! Directory-listing rules: which directory entries count as markdown
//! notes, and what a listing returns for each outcome of the enumeration.

use vstd::prelude::*;
use vstd::string::StrSliceExecFns;
use vstd::string::StringExecFns;

verus! {

/// A file name names a markdown note when its extension is exactly `md`:
/// the name ends in `.md` and at least one character stands before the
/// dot, so that `.md` itself (a hidden file with no extension) does not
/// count. The comparison is case-sensitive: `.MD` does not count.
pub open spec fn is_md_name(name: Seq<char>) -> bool {
    &&& name.len() >= 4
    &&& name[name.len() - 3] == '.'
    &&& name[name.len() - 2] == 'm'
    &&& name[name.len() - 1] == 'd'
}

/// Decides whether a file name names a markdown note.
pub fn name_is_md(name: &str) -> (r: bool)
    ensures
        r == is_md_name(name@),
{
    let n = name.unicode_len();
    if n < 4 {
        return false;
    }
    name.get_char(n - 3) == '.' && name.get_char(n - 2) == 'm' && name.get_char(n - 1) == 'd'
}

/// The extension rule in words: a name has the `md` extension exactly
/// when it is at least one character followed by the suffix `.md`.
pub proof fn lemma_is_md_name_suffix(name: Seq<char>)
    ensures
        is_md_name(name) <==> (name.len() >= 4 && name.subrange(
            name.len() - 3,
            name.len() as int,
        ) == ".md"@),
{
    reveal_strlit(".md");
    if name.len() >= 4 {
        let suffix = name.subrange(name.len() - 3, name.len() as int);
        if is_md_name(name) {
            assert(suffix =~= ".md"@);
        }
        if suffix == ".md"@ {
            assert(name[name.len() - 3] == suffix[0]);
            assert(name[name.len() - 2] == suffix[1]);
            assert(name[name.len() - 1] == suffix[2]);
        }
    }
}

/// One entry of a directory enumeration: the entry's full path and its
/// bare file name (the final path component, on which the extension rule
/// is decided).
pub struct DirEntry {
    pub path: String,
    pub name: String,
}

/// The paths of the markdown notes among the entries, in enumeration
/// order: the full path of each entry whose file name has the `md`
/// extension.
pub open spec fn md_paths(entries: Seq<DirEntry>) -> Seq<String>
    decreases entries.len(),
{
    if entries.len() == 0 {
        Seq::empty()
    } else {
        let rest = md_paths(entries.drop_last());
        if is_md_name(entries.last().name@) {
            rest.push(entries.last().path)
        } else {
            rest
        }
    }
}

/// Keeps, in order, the full paths of the entries whose file name has the
/// `md` extension.
pub fn filter_md_entries(entries: &Vec<DirEntry>) -> (notes: Vec<String>)
    ensures
        notes@ == md_paths(entries@),
{
    let mut notes: Vec<String> = Vec::new();
    let mut i: usize = 0;
    while i < entries.len()
        invariant
            i <= entries@.len(),
            notes@ == md_paths(entries@.take(i as int)),
        decreases entries@.len() - i,
    {
        if name_is_md(entries[i].name.as_str()) {
            notes.push(entries[i].path.clone());
        }
        proof {
            let taken = entries@.take(i + 1);
            assert(taken.drop_last() =~= entries@.take(i as int));
            assert(taken.last() == entries@[i as int]);
        }
        i = i + 1;
    }
    proof {
        assert(entries@.take(entries@.len() as int) =~= entries@);
    }
    notes
}

/// Lists the markdown notes of a directory, given what the filesystem
/// answered: whether the directory exists, and the outcome of enumerating
/// its entries (asked only when it exists). A missing directory is
/// reported before any enumeration; an enumeration failure is passed on
/// as the error it produced; otherwise the listing holds exactly the
/// paths of the entries with the `md` extension, in enumeration order.
pub fn list_notes(dir_exists: bool, enumeration: Result<Vec<DirEntry>, String>) -> (r: Result<
    Vec<String>,
    String,
>)
    ensures
        !dir_exists ==> (r matches Err(m) && m@ == "Directory does not exist"@),
        dir_exists ==> (match enumeration {
            Ok(entries) => r matches Ok(notes) && notes@ == md_paths(entries@),
            Err(e) => r == Err::<Vec<String>, String>(e),
        }),
{
    if !dir_exists {
        return Err(String::from_str("Directory does not exist"));
    }
    match enumeration {
        Ok(entries) => Ok(filter_md_entries(&entries)),
        Err(e) => Err(e),
    }
}

/// Soundness of the listing: each listed path is the full path of some
/// enumerated entry whose file name has the `md` extension.
pub proof fn lemma_md_paths_sound(entries: Seq<DirEntry>, i: int)
    requires
        0 <= i < md_paths(entries).len(),
    ensures
        exists|j: int|
            0 <= j < entries.len() && is_md_name(#[trigger] entries[j].name@) && entries[j].path
                == md_paths(entries)[i],
    decreases entries.len(),
{
    let rest = md_paths(entries.drop_last());
    let last = entries.len() - 1;
    if is_md_name(entries.last().name@) && i == rest.len() {
        assert(0 <= last < entries.len() && is_md_name(entries[last].name@) && entries[last].path
            == md_paths(entries)[i]);
    } else {
        lemma_md_paths_sound(entries.drop_last(), i);
        let j = choose|j: int|
            0 <= j < entries.drop_last().len() && is_md_name(#[trigger] entries.drop_last()[j].name@)
                && entries.drop_last()[j].path == md_paths(entries.drop_last())[i];
        assert(0 <= j < entries.len() && is_md_name(entries[j].name@) && entries[j].path
            == md_paths(entries)[i]);
    }
}

/// Completeness of the listing: each enumerated entry whose file name has
/// the `md` extension has its full path in the listing.
pub proof fn lemma_md_paths_complete(entries: Seq<DirEntry>, j: int)
    requires
        0 <= j < entries.len(),
        is_md_name(entries[j].name@),
    ensures
        md_paths(entries).contains(entries[j].path),
    decreases entries.len(),
{
    let rest = md_paths(entries.drop_last());
    if j == entries.len() - 1 {
        assert(md_paths(entries)[rest.len() as int] == entries[j].path);
    } else {
        lemma_md_paths_complete(entries.drop_last(), j);
        let k = choose|k: int| 0 <= k < rest.len() && rest[k] == entries.drop_last()[j].path;
        assert(md_paths(entries)[k] == entries[j].path);
    }
}

} // verus!
