//! The files that are known, each with its text and its tree.

use crate::parse::{parse, tree_of};
use crate::text::same_text;
use crate::tree::{well_formed, NodeView, Tree};
use vstd::prelude::*;

verus! {

/// One known file: what identifies it, its text, and the tree of that
/// text.
pub struct FileEntry {
    uri: String,
    text: String,
    tree: Tree,
}

/// The mathematical content of a known file.
pub ghost struct FileView {
    pub uri: Seq<char>,
    pub text: Seq<char>,
    pub tree: Seq<NodeView>,
}

impl View for FileEntry {
    type V = FileView;

    closed spec fn view(&self) -> FileView {
        FileView { uri: self.uri@, text: self.text@, tree: self.tree@ }
    }
}

/// A file with the text `text`.
pub open spec fn file_of(uri: Seq<char>, text: Seq<char>) -> FileView {
    FileView { uri, text, tree: tree_of(text) }
}

/// The place of the first file at or after `k` that `uri` identifies.
pub open spec fn find_file(files: Seq<FileView>, uri: Seq<char>, k: int) -> Option<int>
    decreases files.len() - k,
{
    if k < 0 || k >= files.len() {
        None
    } else if files[k].uri == uri {
        Some(k)
    } else {
        find_file(files, uri, k + 1)
    }
}

/// The files after `uri` was opened with `text`: a known file has its
/// text and tree replaced, an unknown one is added at the end.
pub open spec fn opened(files: Seq<FileView>, uri: Seq<char>, text: Seq<char>) -> Seq<FileView> {
    match find_file(files, uri, 0) {
        Some(at) => files.update(at, file_of(uri, text)),
        None => files.push(file_of(uri, text)),
    }
}

/// The files after `uri` was loaded with `text`: a known file stays as it
/// is, an unknown one is added at the end.
pub open spec fn loaded(files: Seq<FileView>, uri: Seq<char>, text: Seq<char>) -> Seq<FileView> {
    match find_file(files, uri, 0) {
        Some(_) => files,
        None => files.push(file_of(uri, text)),
    }
}

/// What `find_file` returns is the first file that `uri` identifies.
pub proof fn lemma_find_file(files: Seq<FileView>, uri: Seq<char>, k: int)
    requires
        0 <= k,
    ensures
        match find_file(files, uri, k) {
            Some(at) => k <= at < files.len() && files[at].uri == uri && forall|j: int|
                k <= j < at ==> (#[trigger] files[j]).uri != uri,
            None => forall|j: int| k <= j < files.len() ==> (#[trigger] files[j]).uri != uri,
        },
    decreases files.len() - k,
{
    if k < files.len() && files[k].uri != uri {
        lemma_find_file(files, uri, k + 1);
    }
}

/// Loading a file changes nothing of the files that are known, and
/// opening one changes nothing of any other: every file keeps its place,
/// and but for the one opened its text and tree.
pub proof fn lemma_known_files_stay(files: Seq<FileView>, uri: Seq<char>, text: Seq<char>, i: int)
    requires
        0 <= i < files.len(),
    ensures
        loaded(files, uri, text).len() >= files.len(),
        loaded(files, uri, text)[i] == files[i],
        opened(files, uri, text).len() >= files.len(),
        opened(files, uri, text)[i].uri == files[i].uri,
        files[i].uri != uri ==> opened(files, uri, text)[i] == files[i],
{
    lemma_find_file(files, uri, 0);
}

/// No two files are identified by the same text.
pub open spec fn distinct_uris(files: Seq<FileView>) -> bool {
    forall|i: int, j: int|
        0 <= i < j < files.len() ==> (#[trigger] files[i]).uri != (#[trigger] files[j]).uri
}

/// Opening and loading keep the files apart: what identifies one file
/// never comes to identify two.
pub proof fn lemma_files_stay_distinct(files: Seq<FileView>, uri: Seq<char>, text: Seq<char>)
    requires
        distinct_uris(files),
    ensures
        distinct_uris(opened(files, uri, text)),
        distinct_uris(loaded(files, uri, text)),
{
    lemma_find_file(files, uri, 0);
    let after = opened(files, uri, text);
    assert forall|i: int, j: int| 0 <= i < j < after.len() implies (#[trigger] after[i]).uri != (
    #[trigger] after[j]).uri by {
        if j < files.len() {
            assert(after[i].uri == files[i].uri);
            assert(after[j].uri == files[j].uri);
        } else {
            assert(after[i].uri == files[i].uri);
        }
    }
    let kept = loaded(files, uri, text);
    assert forall|i: int, j: int| 0 <= i < j < kept.len() implies (#[trigger] kept[i]).uri != (
    #[trigger] kept[j]).uri by {
        if j < files.len() {
            assert(kept[i] == files[i]);
            assert(kept[j] == files[j]);
        } else {
            assert(kept[i] == files[i]);
        }
    }
}

/// The known files, each identified by its own text. A file keeps its
/// place for good, so a place identifies it as well.
pub struct Files {
    entries: Vec<FileEntry>,
}

impl View for Files {
    type V = Seq<FileView>;

    closed spec fn view(&self) -> Seq<FileView> {
        Seq::new(self.entries@.len(), |i: int| self.entries@[i]@)
    }
}

impl Files {
    /// What holds of every list of known files.
    #[verifier::type_invariant]
    pub open spec fn inv(self) -> bool {
        distinct_uris(self@)
    }

    /// No file known.
    pub fn new() -> (files: Files)
        ensures
            files@ == Seq::<FileView>::empty(),
    {
        let files = Files { entries: Vec::new() };
        proof {
            assert(files@ =~= Seq::<FileView>::empty());
        }
        files
    }

    /// The number of known files.
    pub fn len(&self) -> (n: usize)
        ensures
            n == self@.len(),
    {
        self.entries.len()
    }

    /// The place of the file that `uri` identifies.
    pub fn position(&self, uri: &str) -> (at: Option<usize>)
        ensures
            match at {
                Some(k) => find_file(self@, uri@, 0) == Some(k as int) && k < self@.len(),
                None => find_file(self@, uri@, 0) is None,
            },
    {
        let mut at: usize = 0;
        while at < self.entries.len()
            invariant
                at <= self@.len(),
                self@.len() == self.entries@.len(),
                find_file(self@, uri@, at as int) == find_file(self@, uri@, 0),
            decreases self.entries.len() - at,
        {
            assert(self@[at as int] == self.entries@[at as int]@);
            if same_text(self.entries[at].uri.as_str(), uri) {
                return Some(at);
            }
            at = at + 1;
        }
        None
    }

    /// What identifies the file at the place `file`.
    pub fn uri(&self, file: usize) -> (uri: &String)
        requires
            file < self@.len(),
        ensures
            uri@ == self@[file as int].uri,
    {
        &self.entries[file].uri
    }

    /// The text of the file at the place `file`.
    pub fn text(&self, file: usize) -> (text: &String)
        requires
            file < self@.len(),
        ensures
            text@ == self@[file as int].text,
    {
        &self.entries[file].text
    }

    /// The tree of the file at the place `file`.
    pub fn tree(&self, file: usize) -> (tree: &Tree)
        requires
            file < self@.len(),
        ensures
            tree@ == self@[file as int].tree,
            well_formed(tree@),
    {
        let tree = &self.entries[file].tree;
        proof {
            use_type_invariant(tree);
        }
        tree
    }

    /// Opens `uri` with `text`, as an editor does that shows or changes a
    /// file. Returns the file's place.
    pub fn open(&mut self, uri: String, text: String) -> (at: usize)
        ensures
            final(self)@ == opened(old(self)@, uri@, text@),
            find_file(final(self)@, uri@, 0) == Some(at as int),
            at < final(self)@.len(),
            distinct_uris(final(self)@),
    {
        let tree = parse(text.as_str());
        let ghost before = self@;
        proof {
            use_type_invariant(&*self);
            lemma_find_file(before, uri@, 0);
            lemma_files_stay_distinct(before, uri@, text@);
        }
        let found = self.position(uri.as_str());
        let mut entries: Vec<FileEntry> = Vec::new();
        std::mem::swap(&mut entries, &mut self.entries);
        let at = match found {
            Some(at) => {
                entries.set(at, FileEntry { uri, text, tree });
                at
            },
            None => {
                let at = entries.len();
                entries.push(FileEntry { uri, text, tree });
                at
            },
        };
        proof {
            let after = Seq::new(entries@.len(), |i: int| entries@[i]@);
            assert(after =~= opened(before, uri@, text@));
            lemma_find_file(after, uri@, 0);
            if found is Some {
                lemma_first_stays(before, after, uri@, at as int);
            } else {
                assert(after[at as int].uri == uri@);
            }
        }
        self.entries = entries;
        at
    }

    /// Loads `uri` with `text`, as is done for a file that another one
    /// imports: a file that is known already stays as it is. Returns the
    /// file's place.
    pub fn load(&mut self, uri: String, text: String) -> (at: usize)
        ensures
            final(self)@ == loaded(old(self)@, uri@, text@),
            find_file(final(self)@, uri@, 0) == Some(at as int),
            at < final(self)@.len(),
            distinct_uris(final(self)@),
    {
        let ghost before = self@;
        proof {
            use_type_invariant(&*self);
            lemma_find_file(before, uri@, 0);
            lemma_files_stay_distinct(before, uri@, text@);
        }
        match self.position(uri.as_str()) {
            Some(at) => at,
            None => {
                let tree = parse(text.as_str());
                let mut entries: Vec<FileEntry> = Vec::new();
                std::mem::swap(&mut entries, &mut self.entries);
                let at = entries.len();
                entries.push(FileEntry { uri, text, tree });
                proof {
                    let after = Seq::new(entries@.len(), |i: int| entries@[i]@);
                    assert(after =~= before.push(file_of(uri@, text@)));
                    lemma_find_file(after, uri@, 0);
                    assert(after[at as int].uri == uri@);
                }
                self.entries = entries;
                at
            },
        }
    }
}

/// Where two lists of files name the same files in the same places, the
/// first file that `uri` identifies is the same in both.
proof fn lemma_first_stays(a: Seq<FileView>, b: Seq<FileView>, uri: Seq<char>, at: int)
    requires
        a.len() == b.len(),
        forall|j: int| 0 <= j < a.len() ==> (#[trigger] a[j]).uri == (#[trigger] b[j]).uri,
        find_file(a, uri, 0) == Some(at),
    ensures
        find_file(b, uri, 0) == Some(at),
{
    lemma_find_file(a, uri, 0);
    lemma_find_file(b, uri, 0);
    assert(b[at].uri == a[at].uri);
    let other = find_file(b, uri, 0).unwrap();
    assert(a[other].uri == b[other].uri);
}

} // verus!
