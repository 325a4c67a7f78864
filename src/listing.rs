//! The content of a directory, partitioned into subdirectories and files.
use vstd::prelude::*;

verus! {

/// The direct children of a directory, in the order they were enumerated.
#[derive(Debug, Clone)]
pub struct DirContent {
    pub dirs: Vec<String>,
    pub files: Vec<String>,
}

/// The paths of the entries whose flag is `is_dir`, in order.
pub open spec fn entries_of_kind(entries: Seq<(String, bool)>, is_dir: bool) -> Seq<String>
    decreases entries.len(),
{
    if entries.len() == 0 {
        Seq::empty()
    } else {
        let rest = entries_of_kind(entries.drop_last(), is_dir);
        if entries.last().1 == is_dir {
            rest.push(entries.last().0)
        } else {
            rest
        }
    }
}

impl DirContent {
    /// Sorts enumerated entries, each a path and whether it is a directory,
    /// into the directories and the files, keeping their order.
    pub fn from_entries(entries: &Vec<(String, bool)>) -> (r: DirContent)
        ensures
            r.dirs@ == entries_of_kind(entries@, true),
            r.files@ == entries_of_kind(entries@, false),
    {
        let mut dirs: Vec<String> = Vec::new();
        let mut files: Vec<String> = Vec::new();
        let mut i: usize = 0;
        while i < entries.len()
            invariant
                i <= entries@.len(),
                dirs@ == entries_of_kind(entries@.subrange(0, i as int), true),
                files@ == entries_of_kind(entries@.subrange(0, i as int), false),
            decreases entries@.len() - i,
        {
            assert(entries@.subrange(0, i + 1).drop_last() =~= entries@.subrange(0, i as int));
            let path = entries[i].0.clone();
            if entries[i].1 {
                dirs.push(path);
            } else {
                files.push(path);
            }
            i = i + 1;
        }
        assert(entries@.subrange(0, entries@.len() as int) =~= entries@);
        DirContent { dirs, files }
    }
}

} // verus!
