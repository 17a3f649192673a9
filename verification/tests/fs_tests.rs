//! The filesystem over directly ingested records: lazy category
//! directories, memoized resolution, strict byte-range reads, attributes
//! and resumable listing.

use wadfs::fs::{create_inode, FsError, WadFS};
use wadfs::names::{mip_level_name, pic_name};
use wadfs::record::{ContentTag, IngestError, Record};
use wadfs::table::FileKind;

fn other_record(name: &str, data: &[u8]) -> Record {
    Record { name: name.to_string(), tag: ContentTag::Other(0x10), raw: data.to_vec() }
}

#[test]
fn names_are_synthesized_with_the_image_extension() {
    assert_eq!(pic_name("WALL"), "WALL.tga");
    assert_eq!(mip_level_name(0), "mip_0.tga");
    assert_eq!(mip_level_name(3), "mip_3.tga");
}

#[test]
fn category_directories_appear_only_for_present_kinds() {
    let mut fs = WadFS::new();
    assert_eq!(fs.lookup(1, "pics"), Err(FsError::NotFound));
    assert_eq!(fs.lookup(1, "miptexs"), Err(FsError::NotFound));
    assert_eq!(fs.lookup(1, "fonts"), Err(FsError::NotFound));
    assert_eq!(fs.lookup(1, "other"), Err(FsError::NotFound));
    fs.ingest_record(other_record("README", b"hi"));
    assert!(fs.lookup(1, "other").is_ok());
    assert_eq!(fs.lookup(1, "pics"), Err(FsError::NotFound));
    fs.ingest_record(Record {
        name: "GLYPHS".to_string(),
        tag: ContentTag::Font,
        raw: Vec::new(),
    });
    assert!(fs.lookup(1, "fonts").is_ok());
    assert_eq!(fs.lookup(1, "pics"), Err(FsError::NotFound));
    assert_eq!(fs.lookup(1, "miptexs"), Err(FsError::NotFound));
}

#[test]
fn category_directory_is_created_once() {
    let mut fs = WadFS::new();
    fs.ingest_record(other_record("A", b"a"));
    fs.ingest_record(other_record("B", b"b"));
    let (dir, _) = fs.lookup(1, "other").expect("other exists");
    let (kids, continues) = fs.readdir(dir, 0, 16);
    assert!(!continues);
    let names: Vec<String> = kids.iter().map(|e| e.name.clone()).collect();
    assert_eq!(names, vec!["A".to_string(), "B".to_string()]);
    let (root_kids, _) = fs.readdir(1, 0, 16);
    assert_eq!(root_kids.len(), 1);
}

#[test]
fn unsupported_content_type_is_refused_loudly() {
    let mut fs = WadFS::new();
    let r = create_inode(&mut fs, "PAL".to_string(), 0x40, vec![0, 1, 2]);
    assert_eq!(r, Err(IngestError::UnsupportedContentType(0x40)));
    let (root_kids, _) = fs.readdir(1, 0, 16);
    assert!(root_kids.is_empty());
}

#[test]
fn create_inode_classifies_known_tags() {
    let mut fs = WadFS::new();
    assert!(create_inode(&mut fs, "R".to_string(), 0x10, b"raw".to_vec()).is_ok());
    assert!(fs.lookup(1, "other").is_ok());
    assert_eq!(fs.lookup(1, "pics"), Err(FsError::NotFound));
}

#[test]
fn resolve_is_memoized_and_idempotent() {
    let mut fs = WadFS::new();
    fs.ingest_record(other_record("DATA", b"payload"));
    let (dir, _) = fs.lookup(1, "other").expect("other exists");
    let (kids, _) = fs.readdir(dir, 0, 8);
    let ino = kids[0].ino;
    let first = fs.resolve(ino).expect("resolves");
    let second = fs.resolve(ino).expect("resolves again");
    assert_eq!(first, second);
    assert_eq!(first, b"payload".to_vec());
}

#[test]
fn read_returns_exactly_the_requested_range() {
    let mut fs = WadFS::new();
    fs.ingest_record(other_record("DATA", b"0123456789"));
    let (dir, _) = fs.lookup(1, "other").expect("other exists");
    let (kids, _) = fs.readdir(dir, 0, 8);
    let ino = kids[0].ino;
    assert_eq!(fs.read(ino, 0, 10), Ok(b"0123456789".to_vec()));
    assert_eq!(fs.read(ino, 3, 4), Ok(b"3456".to_vec()));
    assert_eq!(fs.read(ino, 10, 0), Ok(Vec::new()));
    assert_eq!(fs.read(ino, 3, 8), Err(FsError::IOError));
    assert_eq!(fs.read(ino, 11, 0), Err(FsError::IOError));
    assert_eq!(fs.read(dir, 0, 1), Err(FsError::IOError));
    assert_eq!(fs.read(0, 0, 1), Err(FsError::NotFound));
    assert_eq!(fs.read(999, 0, 1), Err(FsError::NotFound));
}

#[test]
fn attributes_report_kind_size_and_placeholders() {
    let mut fs = WadFS::new();
    fs.ingest_record(other_record("DATA", b"abcde"));
    let (dir, dir_attr) = fs.lookup(1, "other").expect("other exists");
    assert_eq!(dir_attr.kind, FileKind::Directory);
    assert_eq!(dir_attr.size, 0);
    assert_eq!(dir_attr.perm, 0o755);
    assert_eq!(dir_attr.nlink, 1);
    assert_eq!(dir_attr.uid, 1000);
    assert_eq!(dir_attr.gid, 1000);
    let (ino, attr) = fs.lookup(dir, "DATA").expect("file exists");
    assert_eq!(attr.kind, FileKind::RegularFile);
    assert_eq!(attr.size, 5);
    let again = fs.getattr(ino).expect("getattr works");
    assert_eq!(again.size, 5);
    assert_eq!(again.ino, ino);
    assert_eq!(fs.getattr(0), Err(FsError::NotFound));
    assert_eq!(fs.getattr(999), Err(FsError::NotFound));
}

#[test]
fn lookup_returns_first_match_in_creation_order() {
    let mut fs = WadFS::new();
    fs.ingest_record(other_record("X", b"first"));
    fs.ingest_record(other_record("X", b"second"));
    let (dir, _) = fs.lookup(1, "other").expect("other exists");
    let (ino, _) = fs.lookup(dir, "X").expect("found");
    assert_eq!(fs.read(ino, 0, 5), Ok(b"first".to_vec()));
    assert_eq!(fs.lookup(dir, "Y"), Err(FsError::NotFound));
}

#[test]
fn pagination_enumerates_every_child_exactly_once() {
    let mut fs = WadFS::new();
    let names = ["A", "B", "C", "D", "E"];
    for n in names.iter() {
        fs.ingest_record(other_record(n, b"x"));
    }
    let (dir, _) = fs.lookup(1, "other").expect("other exists");
    let mut seen: Vec<String> = Vec::new();
    let mut offset: usize = 0;
    loop {
        let (page, continues) = fs.readdir(dir, offset, 2);
        if !continues {
            assert!(page.len() <= 2);
        } else {
            assert_eq!(page.len(), 2);
        }
        for e in page.iter() {
            seen.push(e.name.clone());
            offset = e.position as usize;
        }
        if !continues {
            break;
        }
    }
    let expected: Vec<String> = names.iter().map(|s| s.to_string()).collect();
    assert_eq!(seen, expected);
    let (empty, continues) = fs.readdir(dir, offset, 2);
    assert!(empty.is_empty());
    assert!(!continues);
}

#[test]
fn listing_an_unknown_directory_is_empty() {
    let fs = WadFS::new();
    let (page, continues) = fs.readdir(42, 0, 4);
    assert!(page.is_empty());
    assert!(!continues);
}

#[test]
fn malformed_image_record_degrades_to_empty_content() {
    let mut fs = WadFS::new();
    fs.ingest_record(Record {
        name: "BROKEN".to_string(),
        tag: ContentTag::Picture,
        raw: vec![1, 2, 3],
    });
    let (dir, _) = fs.lookup(1, "pics").expect("pics exists");
    let (ino, attr) = fs.lookup(dir, "BROKEN.tga").expect("file visible");
    assert_eq!(attr.size, 0);
    assert_eq!(fs.read(ino, 0, 0), Ok(Vec::new()));
    assert_eq!(fs.read(ino, 0, 1), Err(FsError::IOError));
}
