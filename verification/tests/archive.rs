use arkaive::builder::{make_tar_from_dir, write_entries};
use arkaive::compressor::{compress_data, compress_dir_to_vec, Compression};
use arkaive::error::ErrorKind;
use arkaive::tree::{Attributes, EntryBody, TreeEntry};

fn attributes(mode: u32) -> Attributes {
    Attributes { mode, uid: 1000, gid: 100, mtime: 1_700_000_000 }
}

fn file(path: &str, content: &[u8]) -> TreeEntry {
    TreeEntry {
        path: path.to_string(),
        attributes: attributes(0o644),
        body: EntryBody::File(content.to_vec()),
    }
}

fn directory(path: &str) -> TreeEntry {
    TreeEntry { path: path.to_string(), attributes: attributes(0o755), body: EntryBody::Directory }
}

fn symlink(path: &str, target: &str) -> TreeEntry {
    TreeEntry {
        path: path.to_string(),
        attributes: attributes(0o777),
        body: EntryBody::Symlink(target.to_string()),
    }
}

fn gunzip(stream: &[u8]) -> Vec<u8> {
    let mut decoder = flate2::read::GzDecoder::new(stream);
    let mut data = Vec::new();
    std::io::Read::read_to_end(&mut decoder, &mut data).unwrap();
    data
}

/// Path, type flag, content and link target of every entry of a tar archive.
fn unpack(tar: &[u8]) -> Vec<(String, u8, Vec<u8>, Option<String>)> {
    let mut archive = tar::Archive::new(tar);
    let mut found = Vec::new();
    for entry in archive.entries().unwrap() {
        let mut entry = entry.unwrap();
        let path = entry.path().unwrap().to_str().unwrap().to_string();
        let flag = entry.header().entry_type().as_byte();
        let target = entry.link_name().unwrap().map(|t| t.to_str().unwrap().to_string());
        let mut content = Vec::new();
        std::io::Read::read_to_end(&mut entry, &mut content).unwrap();
        found.push((path, flag, content, target));
    }
    found
}

fn tree() -> Vec<TreeEntry> {
    vec![
        file("notes.txt", b"remember the milk\n"),
        directory("src"),
        file("src/main.rs", b"fn main() {}\n"),
        file(".gitignore", b"target\n"),
        directory(".cache"),
        file(".cache/index", &[0u8, 1, 2, 3, 255]),
        file("empty", b""),
        symlink("latest", "src/main.rs"),
        file("big.bin", &vec![7u8; 5000]),
    ]
}

#[test]
fn round_trip_reproduces_paths_and_contents() {
    let stream = compress_dir_to_vec(tree(), Compression::default()).unwrap();
    let entries = unpack(&gunzip(&stream));
    assert_eq!(entries.len(), 9);
    for expected in tree() {
        let found = entries.iter().find(|e| e.0 == expected.path).unwrap();
        match expected.body {
            EntryBody::File(content) => {
                assert_eq!(found.1, b'0');
                assert_eq!(found.2, content);
            }
            EntryBody::Directory => {
                assert_eq!(found.1, b'5');
                assert!(found.2.is_empty());
            }
            EntryBody::Symlink(target) => {
                assert_eq!(found.1, b'2');
                assert_eq!(found.3.as_deref(), Some(target.as_str()));
            }
        }
    }
}

#[test]
fn round_trip_at_every_level() {
    for level in 0..=9u32 {
        let level = Compression::new(level).unwrap();
        let stream = compress_dir_to_vec(tree(), level).unwrap();
        let entries = unpack(&gunzip(&stream));
        let big = entries.iter().find(|e| e.0 == "big.bin").unwrap();
        assert_eq!(big.2, vec![7u8; 5000]);
    }
}

#[test]
fn attributes_are_recorded() {
    let tar = make_tar_from_dir(vec![file("a", b"x")]).unwrap();
    let mut archive = tar::Archive::new(tar.as_slice());
    let entry = archive.entries().unwrap().next().unwrap().unwrap();
    let header = entry.header();
    assert_eq!(header.mode().unwrap(), 0o644);
    assert_eq!(header.uid().unwrap(), 1000);
    assert_eq!(header.gid().unwrap(), 100);
    assert_eq!(header.mtime().unwrap(), 1_700_000_000);
    assert_eq!(header.size().unwrap(), 1);
}

#[test]
fn empty_tree_is_an_archive_without_entries() {
    let tar = make_tar_from_dir(Vec::new()).unwrap();
    assert_eq!(tar, vec![0u8; 1024]);
    assert!(unpack(&tar).is_empty());
}

#[test]
fn empty_tree_is_still_wrapped_in_gzip() {
    let stream = compress_dir_to_vec(Vec::new(), Compression::default()).unwrap();
    assert_eq!(&stream[..2], &[0x1f, 0x8b]);
    let tar = gunzip(&stream);
    assert_eq!(tar, vec![0u8; 1024]);
    assert!(unpack(&tar).is_empty());
}

#[test]
fn archive_holds_one_record_per_entry_and_its_end() {
    let tar = make_tar_from_dir(vec![file("a", b"x"), directory("d")]).unwrap();
    // a header and one block of data, a header, and the two blocks of the end
    assert_eq!(tar.len(), 512 + 512 + 512 + 1024);
    assert_eq!(&tar[tar.len() - 1024..], &[0u8; 1024][..]);
    assert_eq!(&tar[..1], b"a");
    assert_eq!(tar[512], b'x');
}

#[test]
fn entries_are_written_in_the_order_of_their_paths() {
    let tar = make_tar_from_dir(tree()).unwrap();
    let paths: Vec<String> = unpack(&tar).into_iter().map(|e| e.0).collect();
    assert_eq!(
        paths,
        vec![
            ".cache",
            ".cache/index",
            ".gitignore",
            "big.bin",
            "empty",
            "latest",
            "notes.txt",
            "src",
            "src/main.rs"
        ]
    );
}

#[test]
fn archive_does_not_depend_on_the_order_of_reading() {
    let mut reversed = tree();
    reversed.reverse();
    let mut rotated = tree();
    rotated.rotate_left(4);
    let expected = make_tar_from_dir(tree()).unwrap();
    assert_eq!(make_tar_from_dir(reversed).unwrap(), expected);
    assert_eq!(make_tar_from_dir(rotated).unwrap(), expected);
}

#[test]
fn same_tree_gives_the_same_stream() {
    let first = compress_dir_to_vec(tree(), Compression::default()).unwrap();
    let second = compress_dir_to_vec(tree(), Compression::default()).unwrap();
    assert_eq!(first, second);
}

#[test]
fn hidden_entries_are_archived() {
    let tar = make_tar_from_dir(tree()).unwrap();
    let paths: Vec<String> = unpack(&tar).into_iter().map(|e| e.0).collect();
    assert!(paths.contains(&".gitignore".to_string()));
    assert!(paths.contains(&".cache/index".to_string()));
    assert!(paths.contains(&"notes.txt".to_string()));
}

#[test]
fn write_entries_keeps_the_order_given() {
    let tar = write_entries(&vec![file("z", b"1"), file("a", b"2")]).unwrap();
    let paths: Vec<String> = unpack(&tar).into_iter().map(|e| e.0).collect();
    assert_eq!(paths, vec!["z", "a"]);
}

#[test]
fn long_paths_are_kept() {
    let long = format!("{}/{}", "d".repeat(120), "f".repeat(150));
    let tar = make_tar_from_dir(vec![file(&long, b"deep")]).unwrap();
    let entries = unpack(&tar);
    assert_eq!(entries.len(), 1);
    assert_eq!(entries[0].0, long);
    assert_eq!(entries[0].2, b"deep");
}

#[test]
fn entry_that_leaves_the_tree_is_refused() {
    let error = make_tar_from_dir(vec![file("ok", b"1"), file("../escape", b"2")]).unwrap_err();
    assert_eq!(error.kind, ErrorKind::EntryRead);
    assert_eq!(error.path, "../escape");
    assert_eq!(error.job, "");
    assert!(!error.detail.is_empty());
}

#[test]
fn entry_with_an_absolute_path_is_refused() {
    let error = compress_dir_to_vec(vec![file("/etc/passwd", b"2")], Compression::default())
        .unwrap_err();
    assert_eq!(error.kind, ErrorKind::EntryRead);
    assert_eq!(error.path, "/etc/passwd");
}

#[test]
fn refused_path_is_not_handed_to_the_encoder() {
    let error = make_tar_from_dir(vec![file("a/../../b", b"2")]).unwrap_err();
    assert_eq!(error.kind, ErrorKind::EntryRead);
    assert_eq!(error.path, "a/../../b");
    assert_eq!(error.detail, "the path does not stay below the root of the tree");
}

#[test]
fn first_entry_that_cannot_be_archived_is_named() {
    let entries = vec![file("ok", b"1"), file("/second", b"2"), file("../first", b"3")];
    // in the order of the paths "../first" comes before "/second"
    let error = make_tar_from_dir(entries).unwrap_err();
    assert_eq!(error.path, "../first");
    let entries = vec![file("ok", b"1"), file("/second", b"2"), file("../first", b"3")];
    let error = write_entries(&entries).unwrap_err();
    assert_eq!(error.path, "/second");
}

#[test]
fn path_with_a_zero_byte_is_refused_by_the_encoder() {
    let error = make_tar_from_dir(vec![file("a\0b", b"2")]).unwrap_err();
    assert_eq!(error.kind, ErrorKind::EntryRead);
    assert_eq!(error.path, "a\0b");
    assert_eq!(error.job, "");
    assert_ne!(error.detail, "the path does not stay below the root of the tree");
    assert!(!error.detail.is_empty());
}

#[test]
fn link_without_a_target_is_refused_by_the_encoder() {
    let error = make_tar_from_dir(vec![file("a", b"1"), symlink("link", "")]).unwrap_err();
    assert_eq!(error.kind, ErrorKind::EntryRead);
    assert_eq!(error.path, "link");
}

#[test]
fn link_may_point_outside_the_tree() {
    let tar = make_tar_from_dir(vec![symlink("up", "../elsewhere"), symlink("abs", "/etc")])
        .unwrap();
    let entries = unpack(&tar);
    assert_eq!(entries[0].0, "abs");
    assert_eq!(entries[0].3.as_deref(), Some("/etc"));
    assert_eq!(entries[1].3.as_deref(), Some("../elsewhere"));
}

#[test]
fn every_path_of_an_archive_stays_below_the_root() {
    let tar = make_tar_from_dir(tree()).unwrap();
    for entry in unpack(&tar) {
        assert!(arkaive::tree::is_relative_path(&entry.0));
    }
}

#[test]
fn entry_without_a_path_is_refused() {
    let error = write_entries(&vec![directory("")]).unwrap_err();
    assert_eq!(error.kind, ErrorKind::EntryRead);
    assert_eq!(error.path, "");
}

#[test]
fn compressed_data_is_a_gzip_stream_of_the_data() {
    let data = b"hello hello hello hello hello".to_vec();
    let stream = compress_data(&data, Compression::default()).unwrap();
    assert_ne!(stream, data);
    assert_eq!(&stream[..3], &[0x1f, 0x8b, 8]);
    assert_eq!(gunzip(&stream), data);
}

#[test]
fn compressed_empty_data_decodes_to_nothing() {
    let stream = compress_data(&[], Compression::new(9).unwrap()).unwrap();
    assert!(stream.len() >= 18);
    assert!(gunzip(&stream).is_empty());
}

#[test]
fn stream_has_no_time_stamp() {
    let stream = compress_data(b"abc", Compression::default()).unwrap();
    assert_eq!(&stream[4..8], &[0, 0, 0, 0]);
}

#[test]
fn higher_level_is_not_larger_on_repetitive_data() {
    let data = vec![42u8; 100_000];
    let stored = compress_data(&data, Compression::new(0).unwrap()).unwrap();
    let best = compress_data(&data, Compression::new(9).unwrap()).unwrap();
    assert!(stored.len() > data.len());
    assert!(best.len() < 1000);
}

#[test]
fn levels_on_the_scale() {
    assert_eq!(Compression::new(0).unwrap().level(), 0);
    assert_eq!(Compression::new(9).unwrap().level(), 9);
    assert!(Compression::new(10).is_none());
    assert!(Compression::new(u32::MAX).is_none());
}

#[test]
fn default_level_is_that_of_the_encoder() {
    assert_eq!(Compression::default().level(), 6);
    assert_eq!(Compression::default().level(), flate2::Compression::default().level());
    assert_eq!(arkaive::compressor::DEFAULT_LEVEL, 6);
    assert_eq!(arkaive::compressor::BEST_LEVEL, flate2::Compression::best().level());
}
