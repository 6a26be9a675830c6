use s3_namespace::reference::{RefNode, Reference};

fn keys(list: &[&str]) -> Vec<String> {
    list.iter().map(|k| k.to_string()).collect()
}

fn bucket() -> Reference {
    Reference::new(keys(&["key1", "key2/a", "key2/b", "key3", "key4/a/b", "key4/a/c"]))
}

#[test]
fn reference_tree_of_keys() {
    let r = bucket();
    assert_eq!(r.lookup("/"), Some(RefNode::Directory { is_local: false }));
    assert_eq!(r.lookup("/key1"), Some(RefNode::File { is_local: false }));
    assert_eq!(r.lookup("/key2"), Some(RefNode::Directory { is_local: false }));
    assert_eq!(r.lookup("/key2/a"), Some(RefNode::File { is_local: false }));
    assert_eq!(r.lookup("/key4/a"), Some(RefNode::Directory { is_local: false }));
    assert_eq!(r.lookup("/key4/a/c"), Some(RefNode::File { is_local: false }));
    assert_eq!(r.lookup("/key5"), None);
    assert_eq!(r.directories(), vec!["/", "/key2", "/key4", "/key4/a"]);
}

#[test]
fn local_file_added_and_removed_restores_the_tree() {
    let mut r = bucket();
    let before = format!("{r:?}");
    r.add_local_file("/key5".to_string());
    assert_eq!(r.lookup("/key5"), Some(RefNode::File { is_local: true }));
    r.remove_local_file("/key5");
    assert_eq!(r.lookup("/key5"), None);
    assert_eq!(format!("{r:?}"), before);
}

#[test]
fn local_directory_over_remote_directory_keeps_its_children() {
    let mut r = bucket();
    r.add_local_directory("/key2".to_string());
    assert_eq!(r.lookup("/key2"), Some(RefNode::Directory { is_local: true }));
    assert_eq!(r.lookup("/key2/a"), Some(RefNode::File { is_local: false }));
    r.add_local_file("/new/deep/file".to_string());
    assert_eq!(r.lookup("/new"), Some(RefNode::Directory { is_local: true }));
    assert_eq!(r.lookup("/new/deep"), Some(RefNode::Directory { is_local: true }));
    assert_eq!(r.lookup("/new/deep/file"), Some(RefNode::File { is_local: true }));
    r.add_local_file("/key1/inner".to_string());
    assert_eq!(r.lookup("/key1"), Some(RefNode::Directory { is_local: true }));
    r.add_local_file("/key2".to_string());
    assert_eq!(r.lookup("/key2"), Some(RefNode::Directory { is_local: true }));
    r.remove_local_directory("/key2");
    assert_eq!(r.lookup("/key2"), Some(RefNode::Directory { is_local: false }));
}

#[test]
fn remote_keys_come_and_go() {
    let mut r = Reference::new(vec![]);
    assert_eq!(r.directories(), vec!["/"]);
    r.add_remote_key("dir/x".to_string());
    assert_eq!(r.lookup("/dir/x"), Some(RefNode::File { is_local: false }));
    r.add_remote_key("dir".to_string());
    assert_eq!(r.lookup("/dir"), Some(RefNode::Directory { is_local: false }));
    r.remove_remote_key("dir/x");
    assert_eq!(r.lookup("/dir"), Some(RefNode::File { is_local: false }));
    r.add_remote_key("a/./b".to_string());
    assert_eq!(r.lookup("/a"), Some(RefNode::Directory { is_local: false }));
    assert_eq!(r.directories(), vec!["/", "/a"]);
}
