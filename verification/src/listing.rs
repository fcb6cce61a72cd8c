//! The listing of a directory tree: every file with its name relative to
//! the top and with its path.

use vstd::prelude::*;

use crate::strings::string_of;
use crate::text::chars_of;

verus! {

broadcast use {vstd::seq::group_seq_axioms, vstd::std_specs::vec::group_vec_axioms};

/// An entry of a directory, as the file system gave it.
#[derive(Debug)]
pub enum DirEntry {
    /// A file: its name and its path.
    File { name: String, path: String },
    /// A directory: its name and its own entries.
    Dir { name: String, entries: Vec<DirEntry> },
}

/// The name of an entry relative to the top: its own name at the top, else
/// the relative name of its directory, `/`, and its own name.
pub open spec fn relative_name(relative: Seq<char>, name: Seq<char>) -> Seq<char> {
    if relative.len() == 0 {
        name
    } else {
        relative + seq!['/'] + name
    }
}

/// The files among `entries` and below them, each with its relative name
/// and its path, directory by directory in the order of the entries.
pub open spec fn listed(entries: Seq<DirEntry>, relative: Seq<char>) -> Seq<
    (Seq<char>, Seq<char>),
>
    decreases entries, 0nat,
{
    if entries.len() == 0 {
        Seq::empty()
    } else {
        listed(entries.drop_last(), relative) + listed_entry(entries.last(), relative)
    }
}

/// The files that one entry stands for.
pub open spec fn listed_entry(entry: DirEntry, relative: Seq<char>) -> Seq<(Seq<char>, Seq<char>)>
    decreases entry, 1nat,
{
    match entry {
        DirEntry::File { name, path } => seq![(relative_name(relative, name@), path@)],
        DirEntry::Dir { name, entries } => listed(entries@, relative_name(relative, name@)),
    }
}

/// The names and paths of listed files.
pub open spec fn listing_of(files: Seq<(String, String)>) -> Seq<(Seq<char>, Seq<char>)> {
    files.map_values(|f: (String, String)| (f.0@, f.1@))
}

/// Lists the files of a directory tree.
pub struct FileManager;

impl FileManager {
    /// Lists the files among `entries` and below them, each with its name
    /// relative to the top and with its path.
    pub fn list_files_with_paths(entries: &Vec<DirEntry>) -> (files: Vec<(String, String)>)
        ensures
            listing_of(files@) == listed(entries@, Seq::empty()),
    {
        let mut files: Vec<(String, String)> = Vec::new();
        assert(listing_of(files@) =~= Seq::<(Seq<char>, Seq<char>)>::empty());
        FileManager::traverse_dir(entries, &mut files, String::new());
        assert(listing_of(files@) =~= listed(entries@, Seq::empty()));
        files
    }

    /// Adds the files among `entries` and below them to `files`;
    /// `relative_path` is the relative name of the directory that holds
    /// the entries, empty at the top.
    pub fn traverse_dir(
        entries: &Vec<DirEntry>,
        files: &mut Vec<(String, String)>,
        relative_path: String,
    )
        ensures
            listing_of(final(files)@) == listing_of(old(files)@) + listed(
                entries@,
                relative_path@,
            ),
        decreases entries,
    {
        let mut i: usize = 0;
        assert(entries@.take(0) =~= Seq::<DirEntry>::empty());
        assert(listing_of(files@) =~= listing_of(old(files)@) + listed(
            entries@.take(0),
            relative_path@,
        ));
        while i < entries.len()
            invariant
                i <= entries.len(),
                listing_of(files@) == listing_of(old(files)@) + listed(
                    entries@.take(i as int),
                    relative_path@,
                ),
            decreases entries.len() - i,
        {
            let ghost before = listing_of(files@);
            proof {
                let upto = entries@.take(i + 1);
                assert(upto.drop_last() =~= entries@.take(i as int));
                assert(upto.last() == entries@[i as int]);
            }
            match &entries[i] {
                DirEntry::File { name, path } => {
                    let relative = FileManager::relative(&relative_path, name);
                    files.push((relative, path.clone()));
                    proof {
                        assert(listing_of(files@) =~= before + seq![
                            (relative_name(relative_path@, name@), path@),
                        ]);
                    }
                },
                DirEntry::Dir { name, entries: inner } => {
                    let relative = FileManager::relative(&relative_path, name);
                    FileManager::traverse_dir(inner, files, relative);
                },
            }
            proof {
                let upto = entries@.take(i + 1);
                let one = listed_entry(entries@[i as int], relative_path@);
                assert(listing_of(files@) == before + one);
                assert(listed(upto, relative_path@) == listed(upto.drop_last(), relative_path@)
                    + one);
                assert(listing_of(files@) =~= listing_of(old(files)@) + listed(
                    upto,
                    relative_path@,
                ));
            }
            i += 1;
        }
        assert(entries@.take(i as int) =~= entries@);
    }

    /// The relative name of an entry called `name` in the directory whose
    /// relative name is `relative_path`.
    fn relative(relative_path: &String, name: &String) -> (r: String)
        ensures
            r@ == relative_name(relative_path@, name@),
    {
        let dir = chars_of(relative_path.as_str());
        let own = chars_of(name.as_str());
        if dir.len() == 0 {
            name.clone()
        } else {
            let mut out: Vec<char> = Vec::new();
            out.extend_from_slice(dir.as_slice());
            out.push('/');
            out.extend_from_slice(own.as_slice());
            assert(out@ =~= dir@ + seq!['/'] + own@);
            string_of(out.as_slice())
        }
    }
}

} // verus!
