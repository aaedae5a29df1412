use crate::codec::{transcode_content, Mode};
use crate::tree::{
    bytes_eq, copy_bytes, entries_size, lemma_entries_size_element, lemma_view_entries_index,
    lemma_view_entries_push, view_entries, view_entry, DirTree, DirView, Entry, EntryView,
    FileEntry, FileView,
};
use vstd::prelude::*;

verus! {

/// The extension of plain files, the bytes of "txt".
pub open spec fn txt_ext() -> Seq<u8> {
    seq![116u8, 120u8, 116u8]
}

/// The extension of transcoded files, the bytes of "tsc".
pub open spec fn tsc_ext() -> Seq<u8> {
    seq![116u8, 115u8, 99u8]
}

/// The extension a file must carry to qualify in the given mode.
pub open spec fn source_ext(mode: Mode) -> Seq<u8> {
    match mode {
        Mode::Encode => txt_ext(),
        Mode::Decode => tsc_ext(),
    }
}

/// The extension written on the transcoded copy in the given mode.
pub open spec fn target_ext(mode: Mode) -> Seq<u8> {
    match mode {
        Mode::Encode => tsc_ext(),
        Mode::Decode => txt_ext(),
    }
}

/// Whether a file qualifies for transcoding: its extension equals the mode's
/// source extension, case-sensitively. A file without an extension never
/// qualifies.
pub open spec fn file_matches(mode: Mode, f: FileView) -> bool {
    f.ext == Some(source_ext(mode))
}

/// The transcoded copy of one file: same stem, the mode's target extension,
/// transformed content.
pub open spec fn transcoded_file(mode: Mode, f: FileView) -> FileView {
    FileView { stem: f.stem, ext: Some(target_ext(mode)), content: transcode_content(mode, f.content) }
}

/// The per-file operation: a file shorter than 3 bytes is skipped outright
/// and produces no output file; any other file becomes its transcoded copy.
pub open spec fn transcode_file(mode: Mode, f: FileView) -> Option<FileView> {
    if f.content.len() < 3 {
        None
    } else {
        Some(transcoded_file(mode, f))
    }
}

/// The output entries one input entry contributes: a subdirectory is always
/// mirrored, a qualifying file of length at least 3 becomes its transcoded
/// copy, and everything else contributes nothing.
pub open spec fn transcode_entry(mode: Mode, e: EntryView) -> Seq<EntryView>
    decreases e, 0int,
{
    match e {
        EntryView::File(f) => {
            if file_matches(mode, f) && f.content.len() >= 3 {
                seq![EntryView::File(transcoded_file(mode, f))]
            } else {
                Seq::empty()
            }
        },
        EntryView::Subdir(name, tree) => seq![
            EntryView::Subdir(name, DirView { entries: transcode_entries(mode, tree.entries, 0) }),
        ],
    }
}

/// The output entries contributed by the entries of `es` from position `i`
/// on, in input order.
pub open spec fn transcode_entries(mode: Mode, es: Seq<EntryView>, i: int) -> Seq<EntryView>
    decreases es, es.len() - i,
{
    if i < 0 || i >= es.len() {
        Seq::empty()
    } else {
        transcode_entry(mode, es[i]) + transcode_entries(mode, es, i + 1)
    }
}

/// The whole transcoded tree of a directory.
pub open spec fn transcode_dir(mode: Mode, d: DirView) -> DirView {
    DirView { entries: transcode_entries(mode, d.entries, 0) }
}

/// How many files the given entry has transcoded under it: a qualifying file
/// of length at least 3 counts one, a subdirectory counts its contents.
pub open spec fn entry_count(mode: Mode, e: EntryView) -> nat
    decreases e, 0int,
{
    match e {
        EntryView::File(f) => if file_matches(mode, f) && f.content.len() >= 3 {
            1nat
        } else {
            0nat
        },
        EntryView::Subdir(_, tree) => entries_count(mode, tree.entries, 0),
    }
}

/// The count contributed by the entries of `es` from position `i` on.
pub open spec fn entries_count(mode: Mode, es: Seq<EntryView>, i: int) -> nat
    decreases es, es.len() - i,
{
    if i < 0 || i >= es.len() {
        0
    } else {
        entry_count(mode, es[i]) + entries_count(mode, es, i + 1)
    }
}

/// How many files a run over the whole directory transcodes.
pub open spec fn dir_count(mode: Mode, d: DirView) -> nat {
    entries_count(mode, d.entries, 0)
}

/// What a filesystem probe reports of a requested path.
#[derive(Copy, Clone, Debug, PartialEq, Eq, Structural)]
pub enum PathStatus {
    /// The path exists and is a directory.
    Directory,
    /// The path exists but is not a directory.
    NonDirectory,
    /// Nothing exists at the path.
    Missing,
}

/// The error taxonomy of a run: the output path exists but is not a
/// directory, or the input path is not a directory.
#[derive(Copy, Clone, Debug, PartialEq, Eq, Structural)]
pub enum TscError {
    InvalidOutputDir,
    InvalidInputDir,
}

impl TscError {
    /// The diagnostic text of the error.
    pub fn message(&self) -> (m: &'static str)
        ensures
            *self == TscError::InvalidOutputDir ==> m@ == "Invalid output dir provided"@,
            *self == TscError::InvalidInputDir ==> m@ == "Invalid input dir provided"@,
    {
        match self {
            TscError::InvalidOutputDir => "Invalid output dir provided",
            TscError::InvalidInputDir => "Invalid input dir provided",
        }
    }
}

/// What a successful run reports: the transcoded output tree, the number of
/// files transcoded, and whether the caller still has to create the missing
/// output root before writing the tree out.
pub struct Outcome {
    pub tree: DirTree,
    pub count: usize,
    pub create_output_root: bool,
}

/// Everything a run promises. The output path is checked first: one that
/// exists as a non-directory is refused. Then an input path that is not a
/// directory is refused. Otherwise the run succeeds with the mirrored,
/// transcoded tree, the exact count of files transcoded, and the flag that
/// tells the caller to create the missing output root.
pub open spec fn run_post(
    mode: Mode,
    input_status: PathStatus,
    output_status: PathStatus,
    d: DirView,
    r: Result<Outcome, TscError>,
) -> bool {
    if output_status == PathStatus::NonDirectory {
        r matches Err(e) && e == TscError::InvalidOutputDir
    } else if input_status != PathStatus::Directory {
        r matches Err(e) && e == TscError::InvalidInputDir
    } else {
        r matches Ok(o) && o.tree@ == transcode_dir(mode, d) && o.count == dir_count(mode, d)
            && (o.create_output_root <==> output_status == PathStatus::Missing)
    }
}

/// The mode's source extension as bytes.
pub fn source_ext_vec(mode: Mode) -> (v: Vec<u8>)
    ensures
        v@ == source_ext(mode),
{
    match mode {
        Mode::Encode => txt_ext_vec(),
        Mode::Decode => tsc_ext_vec(),
    }
}

/// The mode's target extension as bytes.
pub fn target_ext_vec(mode: Mode) -> (v: Vec<u8>)
    ensures
        v@ == target_ext(mode),
{
    match mode {
        Mode::Encode => tsc_ext_vec(),
        Mode::Decode => txt_ext_vec(),
    }
}

/// The bytes of "txt".
fn txt_ext_vec() -> (v: Vec<u8>)
    ensures
        v@ == txt_ext(),
{
    let mut v: Vec<u8> = Vec::new();
    v.push(116);
    v.push(120);
    v.push(116);
    proof {
        assert(v@ =~= txt_ext());
    }
    v
}

/// The bytes of "tsc".
fn tsc_ext_vec() -> (v: Vec<u8>)
    ensures
        v@ == tsc_ext(),
{
    let mut v: Vec<u8> = Vec::new();
    v.push(116);
    v.push(115);
    v.push(99);
    proof {
        assert(v@ =~= tsc_ext());
    }
    v
}

/// Whether a file's extension equals the mode's source extension.
pub fn file_qualifies(mode: Mode, f: &FileEntry) -> (r: bool)
    ensures
        r == file_matches(mode, f@),
{
    match &f.ext {
        None => false,
        Some(e) => {
            let src = source_ext_vec(mode);
            bytes_eq(e, &src)
        },
    }
}

/// The tree transcoder. Holds the one piece of configuration, the verbosity
/// flag; stateless otherwise, so one value can serve any number of runs.
pub struct TSC {
    verbose: bool,
}

impl TSC {
    /// Whether per-file reporting was requested at construction.
    pub closed spec fn is_verbose(&self) -> bool {
        self.verbose
    }

    /// Pure construction: stores the verbosity flag, does nothing else and
    /// cannot fail.
    pub fn new(verbose: bool) -> (r: Self)
        ensures
            r.is_verbose() == verbose,
    {
        Self { verbose }
    }

    /// Reports the verbosity flag, so a caller that wants to log per file
    /// can ask the transcoder it was given.
    pub fn verbose(&self) -> (v: bool)
        ensures
            v == self.is_verbose(),
    {
        self.verbose
    }

    /// The per-file transcode operation: a file shorter than 3 bytes is
    /// skipped and yields no output file; any other file yields a copy with
    /// the same stem, the mode's target extension, and the transformed bytes.
    pub fn process_file(&self, mode: Mode, f: &FileEntry) -> (r: Option<FileEntry>)
        ensures
            r is Some <==> transcode_file(mode, f@) is Some,
            r matches Some(g) ==> transcode_file(mode, f@) == Some(g@),
    {
        if f.content.len() < 3 {
            return None;
        }
        let out = FileEntry {
            stem: copy_bytes(&f.stem),
            ext: Some(target_ext_vec(mode)),
            content: crate::codec::transcode_bytes(mode, &f.content),
        };
        Some(out)
    }

    /// The recursive walk over an already validated tree: mirrors every
    /// subdirectory, transcodes every qualifying file of length at least 3,
    /// and returns the transcoded tree with the exact count of files done.
    fn process(&self, mode: Mode, input: &DirTree) -> (r: (DirTree, usize))
        requires
            dir_count(mode, input@) <= usize::MAX,
        ensures
            r.0@ == transcode_dir(mode, input@),
            r.1 == dir_count(mode, input@),
        decreases entries_size(input@.entries, 0),
    {
        let ghost es = input@.entries;
        proof {
            lemma_view_entries_index(input.entries@, 0);
        }
        let mut out: Vec<Entry> = Vec::new();
        let mut num: usize = 0;
        let n = input.entries.len();
        let mut i: usize = 0;
        while i < n
            invariant
                i <= n,
                n == input.entries@.len(),
                es == input@.entries,
                es.len() == n,
                forall|j: int| 0 <= j < n ==> es[j] == view_entry(input.entries@[j]),
                entries_count(mode, es, 0) <= usize::MAX,
                num + entries_count(mode, es, i as int) == entries_count(mode, es, 0),
                view_entries(out@, 0) + transcode_entries(mode, es, i as int) == transcode_entries(
                    mode,
                    es,
                    0,
                ),
            decreases n - i,
        {
            let ghost prev = view_entries(out@, 0);
            let ghost old_out = out@;
            proof {
                assert(entries_count(mode, es, i as int) == entry_count(mode, es[i as int])
                    + entries_count(mode, es, i as int + 1));
            }
            match &input.entries[i] {
                Entry::File(f) => {
                    if file_qualifies(mode, f) {
                        match self.process_file(mode, f) {
                            Some(g) => {
                                let ghost gv = g@;
                                out.push(Entry::File(g));
                                num += 1;
                                proof {
                                    lemma_view_entries_push(old_out, out@.last());
                                    assert(transcode_entry(mode, es[i as int]) =~= seq![
                                        EntryView::File(gv),
                                    ]);
                                    assert(prev.push(EntryView::File(gv)) + transcode_entries(
                                        mode,
                                        es,
                                        i as int + 1,
                                    ) =~= prev + transcode_entries(mode, es, i as int));
                                }
                            },
                            None => {
                                proof {
                                    assert(transcode_entry(mode, es[i as int]) =~= Seq::<
                                        EntryView,
                                    >::empty());
                                    assert(prev + transcode_entries(mode, es, i as int + 1) =~= prev
                                        + transcode_entries(mode, es, i as int));
                                }
                            },
                        }
                    } else {
                        proof {
                            assert(transcode_entry(mode, es[i as int]) =~= Seq::<
                                EntryView,
                            >::empty());
                            assert(prev + transcode_entries(mode, es, i as int + 1) =~= prev
                                + transcode_entries(mode, es, i as int));
                        }
                    }
                },
                Entry::Subdir(name, tree) => {
                    proof {
                        lemma_entries_size_element(es, 0, i as int);
                    }
                    let (sub_tree, sub_num) = self.process(mode, tree);
                    let ghost sv = sub_tree@;
                    let ghost nv = name@;
                    out.push(Entry::Subdir(copy_bytes(name), sub_tree));
                    num += sub_num;
                    proof {
                        lemma_view_entries_push(old_out, out@.last());
                        assert(view_entry(out@.last()) == EntryView::Subdir(nv, sv));
                        assert(transcode_entry(mode, es[i as int]) =~= seq![
                            EntryView::Subdir(nv, sv),
                        ]);
                        assert(prev.push(EntryView::Subdir(nv, sv)) + transcode_entries(
                            mode,
                            es,
                            i as int + 1,
                        ) =~= prev + transcode_entries(mode, es, i as int));
                    }
                },
            }
            i += 1;
        }
        proof {
            assert(view_entries(out@, 0) + transcode_entries(mode, es, n as int) =~= view_entries(
                out@,
                0,
            ));
        }
        (DirTree { entries: out }, num)
    }

    /// One run: the output path is validated first, then the input path, and
    /// only then is the tree walked. The caller probes the two paths and
    /// reads the input tree; it gets back the transcoded tree to write out,
    /// the count, and whether the missing output root still has to be
    /// created.
    fn run(&self, mode: Mode, input_status: PathStatus, output_status: PathStatus, input: &DirTree) -> (r:
        Result<Outcome, TscError>)
        requires
            dir_count(mode, input@) <= usize::MAX,
        ensures
            run_post(mode, input_status, output_status, input@, r),
    {
        if matches!(output_status, PathStatus::NonDirectory) {
            return Err(TscError::InvalidOutputDir);
        }
        if !matches!(input_status, PathStatus::Directory) {
            return Err(TscError::InvalidInputDir);
        }
        let (tree, count) = self.process(mode, input);
        Ok(
            Outcome {
                tree,
                count,
                create_output_root: matches!(output_status, PathStatus::Missing),
            },
        )
    }

    /// Recursively transcodes every `txt` file under the input tree into a
    /// `tsc` file, mirroring the subdirectory structure, and returns the
    /// transcoded tree with the count of files transcoded. Fails exactly when
    /// the output path exists as a non-directory or the input path is not a
    /// directory.
    pub fn encode(&self, input_status: PathStatus, output_status: PathStatus, input: &DirTree) -> (r:
        Result<Outcome, TscError>)
        requires
            dir_count(Mode::Encode, input@) <= usize::MAX,
        ensures
            run_post(Mode::Encode, input_status, output_status, input@, r),
    {
        self.run(Mode::Encode, input_status, output_status, input)
    }

    /// The symmetric operation: recursively transcodes every `tsc` file
    /// under the input tree back into a `txt` file.
    pub fn decode(&self, input_status: PathStatus, output_status: PathStatus, input: &DirTree) -> (r:
        Result<Outcome, TscError>)
        requires
            dir_count(Mode::Decode, input@) <= usize::MAX,
        ensures
            run_post(Mode::Decode, input_status, output_status, input@, r),
    {
        self.run(Mode::Decode, input_status, output_status, input)
    }
}

/// Round-trip law at the file level: encoding a qualifying `txt` file of
/// length at least 3 gives a `tsc` file that qualifies for decoding, and
/// decoding it gives the original file back, byte for byte.
pub proof fn lemma_file_roundtrip(f: FileView)
    requires
        f.content.len() >= 3,
        file_matches(Mode::Encode, f),
    ensures
        file_matches(Mode::Decode, transcoded_file(Mode::Encode, f)),
        transcode_file(Mode::Decode, transcoded_file(Mode::Encode, f)) == Some(f),
{
    crate::codec::lemma_content_roundtrip(f.content);
}

/// Tiny-file law: a file shorter than 3 bytes produces no output file and is
/// not counted, in either mode.
pub proof fn lemma_tiny_file_skipped(mode: Mode, f: FileView)
    requires
        f.content.len() < 3,
    ensures
        transcode_file(mode, f) is None,
        entry_count(mode, EntryView::File(f)) == 0,
        transcode_entry(mode, EntryView::File(f)) == Seq::<EntryView>::empty(),
{
    assert(transcode_entry(mode, EntryView::File(f)) =~= Seq::<EntryView>::empty());
}

/// Extension-filtering law: a file qualifies exactly in the mode whose
/// source extension it carries, so no file qualifies in both modes, and a
/// file with any other extension, or none, qualifies in neither.
pub proof fn lemma_extension_filter(f: FileView)
    ensures
        file_matches(Mode::Encode, f) <==> f.ext == Some(txt_ext()),
        file_matches(Mode::Decode, f) <==> f.ext == Some(tsc_ext()),
        !(file_matches(Mode::Encode, f) && file_matches(Mode::Decode, f)),
{
    assert(txt_ext()[1] == 120);
    assert(tsc_ext()[1] == 115);
}

/// The names of the immediate subdirectories of the entries of `es` from
/// position `i` on, in order.
pub open spec fn subdir_names(es: Seq<EntryView>, i: int) -> Seq<Seq<u8>>
    decreases es.len() - i,
{
    if i < 0 || i >= es.len() {
        Seq::empty()
    } else {
        (match es[i] {
            EntryView::Subdir(n, _) => seq![n],
            EntryView::File(_) => Seq::empty(),
        }) + subdir_names(es, i + 1)
    }
}

/// Reading the suffix of a concatenation past the first part reads the
/// second part.
proof fn lemma_subdir_names_shift(c: Seq<EntryView>, es: Seq<EntryView>, j: int)
    requires
        0 <= j <= es.len(),
    ensures
        subdir_names(c + es, c.len() + j) == subdir_names(es, j),
    decreases es.len() - j,
{
    if j < es.len() {
        lemma_subdir_names_shift(c, es, j + 1);
        assert((c + es)[c.len() + j] == es[j]);
    }
}

/// Transcoding the entries from position `i` on keeps every immediate
/// subdirectory, by name and in input order.
proof fn lemma_mirrors_entries(mode: Mode, es: Seq<EntryView>, i: int)
    requires
        0 <= i <= es.len(),
    ensures
        subdir_names(transcode_entries(mode, es, i), 0) == subdir_names(es, i),
    decreases es.len() - i,
{
    if i < es.len() {
        lemma_mirrors_entries(mode, es, i + 1);
        let c = transcode_entry(mode, es[i]);
        let rest = transcode_entries(mode, es, i + 1);
        lemma_subdir_names_shift(c, rest, 0);
        match es[i] {
            EntryView::File(f) => {
                if file_matches(mode, f) && f.content.len() >= 3 {
                    assert((c + rest)[0] == c[0]);
                    assert(Seq::<Seq<u8>>::empty() + subdir_names(c + rest, 1) =~= subdir_names(
                        c + rest,
                        1,
                    ));
                    assert(Seq::<Seq<u8>>::empty() + subdir_names(es, i + 1) =~= subdir_names(
                        es,
                        i + 1,
                    ));
                } else {
                    assert(c + rest =~= rest);
                }
            },
            EntryView::Subdir(n, _) => {
                assert((c + rest)[0] == c[0]);
            },
        }
    }
}

/// Tree-mirroring law: the transcoded tree holds exactly the immediate
/// subdirectories of the input tree, by name and in order, whether or not a
/// subdirectory holds any qualifying file.
pub proof fn lemma_tree_mirroring(mode: Mode, d: DirView)
    ensures
        subdir_names(transcode_dir(mode, d).entries, 0) == subdir_names(d.entries, 0),
{
    lemma_mirrors_entries(mode, d.entries, 0);
}

/// The bytes of the fallback name "output".
pub open spec fn fallback_output_name() -> Seq<u8> {
    seq![111u8, 117u8, 116u8, 112u8, 117u8, 116u8]
}

/// The name under which a missing output root is created: the last component
/// of the requested output path, or the literal fallback name when the path
/// has no such component.
pub open spec fn output_root_name(last_component: Option<Seq<u8>>) -> Seq<u8> {
    match last_component {
        Some(n) => n,
        None => fallback_output_name(),
    }
}

/// Picks the name of the output root to create when the requested output
/// path is missing, from the last component of that path if it has one.
pub fn output_dir_component(last_component: &Option<Vec<u8>>) -> (r: Vec<u8>)
    ensures
        r@ == output_root_name(
            match *last_component {
                Some(n) => Some(n@),
                None => None,
            },
        ),
{
    match last_component {
        Some(n) => copy_bytes(n),
        None => {
            let mut v: Vec<u8> = Vec::new();
            v.push(111);
            v.push(117);
            v.push(116);
            v.push(112);
            v.push(117);
            v.push(116);
            proof {
                assert(v@ =~= fallback_output_name());
            }
            v
        },
    }
}

} // verus!
