//! The inode table on its own: handle allocation, bounds-checked lookup
//! and relational lookup in creation order.

use wadfs::record::classify_tag;
use wadfs::record::ContentTag;
use wadfs::record::IngestError;
use wadfs::table::{ContentDescriptor, INode, InodeTable};

fn dir(name: &str, parent: u64) -> INode {
    INode { name: name.to_string(), parent: Some(parent), content: None }
}

fn file(name: &str, parent: u64, record: usize) -> INode {
    INode {
        name: name.to_string(),
        parent: Some(parent),
        content: Some(ContentDescriptor { record, selector: 0, cache: None }),
    }
}

#[test]
fn handles_are_assigned_in_creation_order_from_one() {
    let mut t = InodeTable::new();
    let root = t.insert(INode { name: ".".to_string(), parent: None, content: None });
    assert_eq!(root, 1);
    assert_eq!(t.insert(dir("a", root)), 2);
    assert_eq!(t.insert(dir("b", root)), 3);
    assert_eq!(t.insert(file("f", 2, 0)), 4);
}

#[test]
fn get_is_bounds_checked_and_refuses_the_sentinel() {
    let mut t = InodeTable::new();
    let root = t.insert(INode { name: ".".to_string(), parent: None, content: None });
    t.insert(dir("a", root));
    assert!(t.get(0).is_none());
    assert!(t.get(3).is_none());
    let a = t.get(2).expect("present");
    assert_eq!(a.name, "a");
    assert_eq!(a.parent, Some(1));
}

#[test]
fn children_are_listed_in_creation_order() {
    let mut t = InodeTable::new();
    let root = t.insert(INode { name: ".".to_string(), parent: None, content: None });
    t.insert(dir("a", root));
    t.insert(dir("x", 2));
    t.insert(dir("b", root));
    t.insert(dir("c", root));
    assert_eq!(t.children_of(root), vec![2, 4, 5]);
    assert_eq!(t.children_of(2), vec![3]);
    assert_eq!(t.children_of(3), Vec::<u64>::new());
}

#[test]
fn type_tags_classify_to_the_four_known_kinds() {
    assert_eq!(classify_tag(0x42), Ok(ContentTag::Picture));
    assert_eq!(classify_tag(0x43), Ok(ContentTag::MipTexture));
    assert_eq!(classify_tag(0x46), Ok(ContentTag::Font));
    assert_eq!(classify_tag(0x10), Ok(ContentTag::Other(0x10)));
    assert_eq!(classify_tag(0xff), Ok(ContentTag::Other(0xff)));
    assert_eq!(classify_tag(0x40), Err(IngestError::UnsupportedContentType(0x40)));
    assert_eq!(classify_tag(0x44), Err(IngestError::UnsupportedContentType(0x44)));
}
