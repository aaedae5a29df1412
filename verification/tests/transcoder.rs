use tsc::codec::Mode;
use tsc::tree::{DirTree, Entry, FileEntry};
use tsc::tsc::{output_dir_component, PathStatus, TscError, Outcome, TSC};

fn file(name: &str, ext: Option<&str>, content: &[u8]) -> Entry {
    Entry::File(FileEntry {
        stem: name.as_bytes().to_vec(),
        ext: ext.map(|e| e.as_bytes().to_vec()),
        content: content.to_vec(),
    })
}

fn subdir(name: &str, entries: Vec<Entry>) -> Entry {
    Entry::Subdir(name.as_bytes().to_vec(), DirTree { entries })
}

fn run(mode: Mode, entries: Vec<Entry>) -> Outcome {
    let t = TSC::new(false);
    let input = DirTree { entries };
    let r = match mode {
        Mode::Encode => t.encode(PathStatus::Directory, PathStatus::Directory, &input),
        Mode::Decode => t.decode(PathStatus::Directory, PathStatus::Directory, &input),
    };
    r.expect("valid directories must succeed")
}

fn single_file_output(o: &Outcome) -> &FileEntry {
    assert_eq!(o.tree.entries.len(), 1);
    match &o.tree.entries[0] {
        Entry::File(f) => f,
        Entry::Subdir(_, _) => panic!("expected a file"),
    }
}

#[test]
fn encode_exact_bytes() {
    // Seven bytes: pivot index 3 holds 4, so the key is 4.
    let o = run(Mode::Encode, vec![file("a", Some("txt"), &[1, 2, 3, 4, 5, 6, 7])]);
    assert_eq!(o.count, 1);
    let f = single_file_output(&o);
    assert_eq!(f.stem, b"a".to_vec());
    assert_eq!(f.ext, Some(b"tsc".to_vec()));
    assert_eq!(f.content, vec![5, 6, 7, 4, 9, 10, 11]);
}

#[test]
fn encode_wraps_around() {
    // Pivot index 1 holds 10, so the key is 10; 250 + 10 wraps to 4.
    let o = run(Mode::Encode, vec![file("w", Some("txt"), &[250, 10, 250])]);
    let f = single_file_output(&o);
    assert_eq!(f.content, vec![4, 10, 4]);
}

#[test]
fn round_trip_restores_bytes() {
    let original: Vec<u8> = vec![0, 255, 17, 3, 99, 200, 31, 8];
    let enc = run(Mode::Encode, vec![file("a", Some("txt"), &original)]);
    let ef = single_file_output(&enc);
    let enc_file = FileEntry {
        stem: ef.stem.clone(),
        ext: ef.ext.clone(),
        content: ef.content.clone(),
    };
    let dec = run(Mode::Decode, vec![Entry::File(enc_file)]);
    assert_eq!(dec.count, 1);
    let f = single_file_output(&dec);
    assert_eq!(f.ext, Some(b"txt".to_vec()));
    assert_eq!(f.content, original);
}

#[test]
fn tiny_files_are_skipped_and_not_counted() {
    for len in 0..3usize {
        let content = vec![7u8; len];
        let o = run(Mode::Encode, vec![file("tiny", Some("txt"), &content)]);
        assert_eq!(o.count, 0, "length {} must not be counted", len);
        assert_eq!(o.tree.entries.len(), 0, "length {} must produce no output file", len);
    }
}

#[test]
fn extension_filtering() {
    let content = [1u8, 2, 3, 4, 5];
    for mode in [Mode::Encode, Mode::Decode] {
        let o = run(mode, vec![file("a", Some("md"), &content)]);
        assert_eq!(o.count, 0, "a.md is never transcoded");
        assert_eq!(o.tree.entries.len(), 0);
    }
    let o = run(Mode::Encode, vec![file("a", Some("txt"), &content)]);
    assert_eq!(o.count, 1, "a.txt is transcoded in encode mode");
    let o = run(Mode::Decode, vec![file("a", Some("txt"), &content)]);
    assert_eq!(o.count, 0, "a.txt is not transcoded in decode mode");
    let o = run(Mode::Decode, vec![file("a", Some("tsc"), &content)]);
    assert_eq!(o.count, 1, "a.tsc is transcoded in decode mode");
    let o = run(Mode::Encode, vec![file("a", Some("tsc"), &content)]);
    assert_eq!(o.count, 0, "a.tsc is not transcoded in encode mode");
    let o = run(Mode::Encode, vec![file("noext", None, &content)]);
    assert_eq!(o.count, 0, "a file without an extension is skipped");
}

#[test]
fn tree_mirroring() {
    let o = run(
        Mode::Encode,
        vec![
            file("x", Some("txt"), &[1, 2, 3, 4]),
            subdir("sub", vec![file("y", Some("txt"), &[5, 6, 7])]),
        ],
    );
    assert_eq!(o.count, 2);
    assert_eq!(o.tree.entries.len(), 2);
    match &o.tree.entries[0] {
        Entry::File(f) => {
            assert_eq!(f.stem, b"x".to_vec());
            assert_eq!(f.ext, Some(b"tsc".to_vec()));
        }
        Entry::Subdir(_, _) => panic!("expected x.tsc first"),
    }
    match &o.tree.entries[1] {
        Entry::Subdir(name, t) => {
            assert_eq!(name, &b"sub".to_vec());
            assert_eq!(t.entries.len(), 1);
            match &t.entries[0] {
                Entry::File(f) => {
                    assert_eq!(f.stem, b"y".to_vec());
                    assert_eq!(f.ext, Some(b"tsc".to_vec()));
                }
                Entry::Subdir(_, _) => panic!("expected y.tsc inside sub"),
            }
        }
        Entry::File(_) => panic!("expected the subdirectory sub"),
    }
}

#[test]
fn empty_subdir_is_still_mirrored() {
    let o = run(Mode::Encode, vec![subdir("empty", vec![])]);
    assert_eq!(o.count, 0);
    assert_eq!(o.tree.entries.len(), 1);
    match &o.tree.entries[0] {
        Entry::Subdir(name, t) => {
            assert_eq!(name, &b"empty".to_vec());
            assert_eq!(t.entries.len(), 0);
        }
        Entry::File(_) => panic!("expected the empty subdirectory"),
    }
}

#[test]
fn pivot_byte_is_invariant() {
    let original = [9u8, 8, 7, 42, 5, 4, 3];
    let o = run(Mode::Encode, vec![file("p", Some("txt"), &original)]);
    let f = single_file_output(&o);
    assert_eq!(f.content.len(), 7);
    assert_eq!(f.content[3], original[3], "the pivot byte at floor(7/2) is unchanged");
}

#[test]
fn zero_pivot_byte_derives_key_seven() {
    let original = [10u8, 20, 0, 30, 40];
    let o = run(Mode::Encode, vec![file("z", Some("txt"), &original)]);
    let f = single_file_output(&o);
    for (i, b) in f.content.iter().enumerate() {
        if i == 2 {
            assert_eq!(*b, 0, "the pivot byte stays zero");
        } else {
            assert_eq!(*b, original[i].wrapping_add(7), "every non-pivot byte is shifted by 7");
        }
    }
}

#[test]
fn invalid_input_path_is_refused() {
    let t = TSC::new(false);
    let input = DirTree { entries: vec![] };
    for status in [PathStatus::NonDirectory, PathStatus::Missing] {
        let r = t.encode(status, PathStatus::Directory, &input);
        assert_eq!(r.err().expect("must fail"), TscError::InvalidInputDir);
        let r = t.decode(status, PathStatus::Directory, &input);
        assert_eq!(r.err().expect("must fail"), TscError::InvalidInputDir);
    }
}

#[test]
fn invalid_output_path_is_refused_first() {
    let t = TSC::new(false);
    let input = DirTree { entries: vec![] };
    let r = t.encode(PathStatus::Directory, PathStatus::NonDirectory, &input);
    assert_eq!(r.err().expect("must fail"), TscError::InvalidOutputDir);
    // The output check comes first even when the input is invalid too.
    let r = t.decode(PathStatus::NonDirectory, PathStatus::NonDirectory, &input);
    assert_eq!(r.err().expect("must fail"), TscError::InvalidOutputDir);
}

#[test]
fn error_messages() {
    assert_eq!(TscError::InvalidOutputDir.message(), "Invalid output dir provided");
    assert_eq!(TscError::InvalidInputDir.message(), "Invalid input dir provided");
}

#[test]
fn missing_output_root_is_flagged_for_creation() {
    let t = TSC::new(false);
    let input = DirTree { entries: vec![] };
    let o = t.encode(PathStatus::Directory, PathStatus::Missing, &input).expect("must succeed");
    assert!(o.create_output_root);
    let o = t.encode(PathStatus::Directory, PathStatus::Directory, &input).expect("must succeed");
    assert!(!o.create_output_root);
}

#[test]
fn count_accuracy_across_subdirectories() {
    // 3 matching and 2 non-matching files spread over 2 subdirectories.
    let o = run(
        Mode::Encode,
        vec![
            file("d", Some("txt"), &[1, 2, 3]),
            subdir(
                "one",
                vec![file("a", Some("txt"), &[4, 5, 6]), file("b", Some("md"), &[7, 8, 9])],
            ),
            subdir(
                "two",
                vec![file("c", Some("txt"), &[10, 11, 12]), file("e", Some("tsc"), &[13, 14, 15])],
            ),
        ],
    );
    assert_eq!(o.count, 3);
}

#[test]
fn output_dir_component_takes_last_component_or_fallback() {
    assert_eq!(output_dir_component(&Some(b"results".to_vec())), b"results".to_vec());
    assert_eq!(output_dir_component(&None), b"output".to_vec());
}

#[test]
fn construction_stores_verbosity() {
    assert!(TSC::new(true).verbose());
    assert!(!TSC::new(false).verbose());
}
