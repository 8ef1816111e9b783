//! One directory of the search path and the files found in it. The files are
//! listed once, by the caller, and kept.

use vstd::prelude::*;

verus! {

/// What kind of thing a directory holds under a name.
#[derive(Clone, Copy, Debug, PartialEq, Eq, Structural)]
pub enum FileKind {
    /// A file.
    File,
    /// A directory.
    Directory,
    /// A symbolic link to a file, where the file system tells such a link
    /// from others.
    SymlinkFile,
    /// Anything else.
    Other,
}

/// An entry of a directory as it was listed.
#[derive(Debug)]
pub struct Listed {
    /// The path of the entry.
    pub path: String,
    /// The last component of the path, if it has one that is text.
    pub name: Option<String>,
    /// The kind of the entry, links not followed.
    pub kind: FileKind,
    /// Whether the entry may be executed.
    pub executable: bool,
}

/// A file of a directory of the search path.
#[derive(Debug)]
pub struct File {
    /// The path of the file.
    pub path: String,
    /// The name of the file: the last component of its path.
    pub name: String,
    /// Whether the file may be executed.
    pub executable: bool,
}

/// A listed entry as plain values.
pub struct ListedView {
    pub path: Seq<char>,
    pub name: Option<Seq<char>>,
    pub kind: FileKind,
    pub executable: bool,
}

/// A file as plain values.
pub struct FileView {
    pub path: Seq<char>,
    pub name: Seq<char>,
    pub executable: bool,
}

impl View for Listed {
    type V = ListedView;

    open spec fn view(&self) -> ListedView {
        ListedView {
            path: self.path@,
            name: match self.name {
                Some(n) => Some(n@),
                None => None,
            },
            kind: self.kind,
            executable: self.executable,
        }
    }
}

impl View for File {
    type V = FileView;

    open spec fn view(&self) -> FileView {
        FileView { path: self.path@, name: self.name@, executable: self.executable }
    }
}

/// The views of a sequence of files, in order.
pub open spec fn files_of(files: Seq<File>) -> Seq<FileView> {
    Seq::new(files.len(), |i: int| files[i]@)
}

/// The views of a sequence of listed entries, in order.
pub open spec fn listing_of(listing: Seq<Listed>) -> Seq<ListedView> {
    Seq::new(listing.len(), |i: int| listing[i]@)
}

impl ListedView {
    /// Whether the entry is kept as a candidate. It needs a name that is not
    /// empty. Where the file system is typed (`typed`: it has no executable
    /// bit, and tells a file from a link to a file) only files and links to
    /// files are kept; elsewhere the kind is left to the test for the
    /// executable bit.
    pub open spec fn is_kept(self, typed: bool) -> bool {
        &&& self.name matches Some(n)
        &&& n.len() > 0
        &&& typed ==> self.kind == FileKind::File || self.kind == FileKind::SymlinkFile
    }

    /// The file that is kept for the entry.
    pub open spec fn file(self) -> FileView {
        FileView { path: self.path, name: self.name->0, executable: self.executable }
    }
}

/// The files that are kept of a listing, in its order.
pub open spec fn retained(listing: Seq<ListedView>, typed: bool) -> Seq<FileView>
    decreases listing.len(),
{
    if listing.len() == 0 {
        Seq::empty()
    } else {
        let before = retained(listing.drop_last(), typed);
        if listing.last().is_kept(typed) {
            before.push(listing.last().file())
        } else {
            before
        }
    }
}

/// Whether a file may be executed, from what its metadata says: it is a
/// regular file and one of the three executable bits of its mode is set.
pub open spec fn executable_bits(is_file: bool, mode: u32) -> bool {
    is_file && (mode & 0o111) != 0
}

/// Tells whether a file may be executed, from what its metadata says.
pub fn is_executable(is_file: bool, mode: u32) -> (b: bool)
    ensures
        b == executable_bits(is_file, mode),
{
    is_file && (mode & 0o111) != 0
}

/// A directory of the search path with the files found in it.
#[derive(Debug)]
pub struct PathEntry {
    path: String,
    files: Option<Vec<File>>,
}

/// A directory of the search path as plain values: its path, and its files
/// once they were listed.
pub struct PathEntryView {
    pub path: Seq<char>,
    pub files: Option<Seq<FileView>>,
}

impl View for PathEntry {
    type V = PathEntryView;

    closed spec fn view(&self) -> PathEntryView {
        PathEntryView {
            path: self.path@,
            files: match self.files {
                Some(files) => Some(files_of(files@)),
                None => None,
            },
        }
    }
}

impl PathEntryView {
    /// The files of the directory: none before it was listed.
    pub open spec fn candidates(self) -> Seq<FileView> {
        match self.files {
            Some(files) => files,
            None => Seq::empty(),
        }
    }
}

impl PathEntry {
    /// A directory that was not listed yet.
    pub fn new(path: String) -> (e: PathEntry)
        ensures
            e@ == (PathEntryView { path: path@, files: None }),
    {
        PathEntry { path, files: None }
    }

    /// The path of the directory.
    pub fn path(&self) -> (p: &str)
        ensures
            p@ == self@.path,
    {
        self.path.as_str()
    }

    /// Whether the directory was listed.
    pub fn is_listed(&self) -> (b: bool)
        ensures
            b == self@.files is Some,
    {
        self.files.is_some()
    }

    /// Takes the listing of the directory, unless one was taken before: the
    /// first listing stays. `None` stands for a directory that could not be
    /// read, which then holds no files. Of the listing those entries are kept
    /// that have a name, and, where the file system is typed, that are files
    /// or links to files.
    pub fn fill(&mut self, listing: Option<&Vec<Listed>>, typed: bool)
        ensures
            final(self)@.path == old(self)@.path,
            final(self)@.files == if old(self)@.files is Some {
                old(self)@.files
            } else {
                match listing {
                    Some(l) => Some(retained(listing_of(l@), typed)),
                    None => Some(Seq::empty()),
                }
            },
    {
        if self.files.is_some() {
            return ;
        }
        let mut files: Vec<File> = Vec::new();
        match listing {
            None => {
                assert(files_of(files@) =~= Seq::<FileView>::empty());
            },
            Some(l) => {
                let mut i: usize = 0;
                assert(listing_of(l@).take(0) =~= Seq::<ListedView>::empty());
                assert(files_of(files@) =~= Seq::<FileView>::empty());
                while i < l.len()
                    invariant
                        i <= l.len(),
                        files_of(files@) == retained(listing_of(l@).take(i as int), typed),
                    decreases l.len() - i,
                {
                    let entry = &l[i];
                    let ghost before = files_of(files@);
                    assert(listing_of(l@).take(i + 1).drop_last() =~= listing_of(l@).take(
                        i as int,
                    ));
                    assert(listing_of(l@).take(i + 1).last() == entry@);
                    let keep_kind = !typed || entry.kind == FileKind::File || entry.kind
                        == FileKind::SymlinkFile;
                    match &entry.name {
                        Some(name) => {
                            if !name.as_str().is_empty() && keep_kind {
                                files.push(
                                    File {
                                        path: entry.path.clone(),
                                        name: name.clone(),
                                        executable: entry.executable,
                                    },
                                );
                                assert(files_of(files@) =~= before.push(entry@.file()));
                            }
                        },
                        None => {},
                    }
                    i = i + 1;
                }
                assert(listing_of(l@).take(l.len() as int) =~= listing_of(l@));
            },
        }
        self.files = Some(files);
    }

    /// The files of the directory: none before it was listed.
    pub fn get(&self) -> (files: &[File])
        ensures
            files_of(files@) == self@.candidates(),
    {
        match &self.files {
            Some(files) => files.as_slice(),
            None => {
                assert(files_of(Seq::<File>::empty()) =~= Seq::<FileView>::empty());
                &[]
            },
        }
    }
}

} // verus!
