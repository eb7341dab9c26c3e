use server_wrapper::source::File;
use server_wrapper::sync::DirModel;

#[test]
fn sync_applied_twice_leaves_the_directory_as_once() {
    let mut dir = DirModel::new();
    dir.put("unrelated.cfg".to_string(), vec![9]);
    dir.put("old.jar".to_string(), vec![1]);
    let stale = vec!["old.jar".to_string(), "gone.jar".to_string()];
    let fresh = vec![
        File { name: "new.jar".to_string(), bytes: vec![2, 3] },
        File { name: "other.jar".to_string(), bytes: vec![4] },
    ];
    dir.sync(&stale, &fresh);
    let new_once = dir.get(&"new.jar".to_string()).expect("copied in").clone();
    let other_once = dir.get(&"other.jar".to_string()).expect("copied in").clone();
    assert!(dir.get(&"old.jar".to_string()).is_none());
    assert_eq!(dir.get(&"unrelated.cfg".to_string()).expect("untouched"), &vec![9]);

    dir.sync(&stale, &fresh);
    assert_eq!(dir.get(&"new.jar".to_string()).expect("still there"), &new_once);
    assert_eq!(dir.get(&"other.jar".to_string()).expect("still there"), &other_once);
    assert!(dir.get(&"old.jar".to_string()).is_none());
    assert_eq!(dir.get(&"unrelated.cfg".to_string()).expect("untouched"), &vec![9]);
}

#[test]
fn removing_an_absent_name_is_not_an_error() {
    let mut dir = DirModel::new();
    dir.put("a".to_string(), vec![1]);
    dir.remove(&"nope".to_string());
    assert_eq!(dir.get(&"a".to_string()).expect("kept"), &vec![1]);
}

#[test]
fn later_copies_overwrite_earlier_ones() {
    let mut dir = DirModel::new();
    dir.put("a".to_string(), vec![1]);
    dir.put("a".to_string(), vec![2]);
    assert_eq!(dir.get(&"a".to_string()).expect("present"), &vec![2]);
}

#[test]
fn fresh_files_overwrite_existing_names() {
    let mut dir = DirModel::new();
    dir.put("a.jar".to_string(), vec![1]);
    let fresh = vec![File { name: "a.jar".to_string(), bytes: vec![7, 8] }];
    dir.sync(&Vec::new(), &fresh);
    assert_eq!(dir.get(&"a.jar".to_string()).expect("present"), &vec![7, 8]);
}
