use vstd::prelude::*;

verus! {

/// One regular file of the tree: its name split into stem and optional
/// extension, and its whole content, all carried as raw bytes.
pub struct FileEntry {
    pub stem: Vec<u8>,
    pub ext: Option<Vec<u8>>,
    pub content: Vec<u8>,
}

/// One directory entry: a regular file, or a named subdirectory with a tree
/// of its own.
pub enum Entry {
    File(FileEntry),
    Subdir(Vec<u8>, DirTree),
}

/// A directory: the entries it holds directly, in enumeration order.
pub struct DirTree {
    pub entries: Vec<Entry>,
}

/// Mathematical image of a file.
pub struct FileView {
    pub stem: Seq<u8>,
    pub ext: Option<Seq<u8>>,
    pub content: Seq<u8>,
}

/// Mathematical image of a directory entry.
pub enum EntryView {
    File(FileView),
    Subdir(Seq<u8>, DirView),
}

/// Mathematical image of a directory.
pub struct DirView {
    pub entries: Seq<EntryView>,
}

impl View for FileEntry {
    type V = FileView;

    open spec fn view(&self) -> FileView {
        FileView {
            stem: self.stem@,
            ext: match self.ext {
                Some(e) => Some(e@),
                None => None,
            },
            content: self.content@,
        }
    }
}

/// The image of one entry.
pub open spec fn view_entry(e: Entry) -> EntryView
    decreases e, 0int,
{
    match e {
        Entry::File(f) => EntryView::File(f@),
        Entry::Subdir(name, tree) => EntryView::Subdir(
            name@,
            DirView { entries: view_entries(tree.entries@, 0) },
        ),
    }
}

/// The images of the entries of `es` from position `i` on.
pub open spec fn view_entries(es: Seq<Entry>, i: int) -> Seq<EntryView>
    decreases es, es.len() - i,
{
    if i < 0 || i >= es.len() {
        Seq::empty()
    } else {
        seq![view_entry(es[i])] + view_entries(es, i + 1)
    }
}

impl View for Entry {
    type V = EntryView;

    open spec fn view(&self) -> EntryView {
        view_entry(*self)
    }
}

impl View for DirTree {
    type V = DirView;

    open spec fn view(&self) -> DirView {
        DirView { entries: view_entries(self.entries@, 0) }
    }
}

/// `view_entries(es, i)` is exactly the suffix of element images from `i` on.
pub proof fn lemma_view_entries_index(es: Seq<Entry>, i: int)
    requires
        0 <= i <= es.len(),
    ensures
        view_entries(es, i).len() == es.len() - i,
        forall|j: int|
            0 <= j < es.len() - i ==> view_entries(es, i)[j] == view_entry(es[i + j]),
    decreases es.len() - i,
{
    if i < es.len() {
        lemma_view_entries_index(es, i + 1);
    }
}

/// Appending one entry appends its image.
pub proof fn lemma_view_entries_push(es: Seq<Entry>, e: Entry)
    ensures
        view_entries(es.push(e), 0) == view_entries(es, 0).push(view_entry(e)),
{
    lemma_view_entries_index(es, 0);
    lemma_view_entries_index(es.push(e), 0);
    assert(view_entries(es.push(e), 0) =~= view_entries(es, 0).push(view_entry(e)));
}

/// The number of nodes of one entry: a file is one node, a subdirectory is
/// one node plus its contents. Serves as the termination measure of the walk.
pub open spec fn entry_size(e: EntryView) -> nat
    decreases e, 0int,
{
    match e {
        EntryView::File(_) => 1,
        EntryView::Subdir(_, tree) => 1 + entries_size(tree.entries, 0),
    }
}

/// The number of nodes of the entries of `es` from position `i` on.
pub open spec fn entries_size(es: Seq<EntryView>, i: int) -> nat
    decreases es, es.len() - i,
{
    if i < 0 || i >= es.len() {
        0
    } else {
        entry_size(es[i]) + entries_size(es, i + 1)
    }
}

/// Every element's size is bounded by the size of its suffix.
pub proof fn lemma_entries_size_element(es: Seq<EntryView>, i: int, j: int)
    requires
        0 <= i <= j < es.len(),
    ensures
        entry_size(es[j]) <= entries_size(es, i),
    decreases j - i,
{
    if i < j {
        lemma_entries_size_element(es, i + 1, j);
    }
}

/// Byte-for-byte equality of two byte vectors.
pub fn bytes_eq(a: &Vec<u8>, b: &Vec<u8>) -> (r: bool)
    ensures
        r == (a@ == b@),
{
    if a.len() != b.len() {
        return false;
    }
    let mut i: usize = 0;
    while i < a.len()
        invariant
            i <= a@.len(),
            a@.len() == b@.len(),
            forall|j: int| 0 <= j < i ==> a@[j] == b@[j],
        decreases a@.len() - i,
    {
        if a[i] != b[i] {
            return false;
        }
        i += 1;
    }
    proof {
        assert(a@ =~= b@);
    }
    true
}

/// A fresh copy of a byte vector.
pub fn copy_bytes(v: &Vec<u8>) -> (r: Vec<u8>)
    ensures
        r@ == v@,
{
    let mut r: Vec<u8> = Vec::new();
    let mut i: usize = 0;
    while i < v.len()
        invariant
            i <= v@.len(),
            r@ == v@.take(i as int),
        decreases v@.len() - i,
    {
        r.push(v[i]);
        proof {
            assert(r@ =~= v@.take(i + 1));
        }
        i += 1;
    }
    proof {
        assert(v@.take(v@.len() as int) =~= v@);
    }
    r
}

} // verus!
