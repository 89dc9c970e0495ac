use std::path::PathBuf;

use dots::stdx::{chars_of, string_of, string_of_range};


#[test]
fn traverse_upwards() {
    let path = "/home/user/project/name/";

    assert_eq!(
        dots::traverse_upwards(path)
            .into_iter()
            .map(PathBuf::from)
            .collect::<Vec<_>>(),
        vec![
            PathBuf::from("/home/user/project/name/"),
            PathBuf::from("/home/user/project/"),
            PathBuf::from("/home/user/"),
            PathBuf::from("/home/"),
            PathBuf::from("/"),
        ]
    );
}

#[test]
fn traverse_upwards_relative() {
    assert_eq!(dots::traverse_upwards("a/b"), vec!["a/b", "a", ""]);
}

#[test]
fn traverse_upwards_root() {
    assert_eq!(dots::traverse_upwards("/"), vec!["/"]);
}

#[test]
fn chars_round_trip() {
    let v = chars_of("héllo");
    assert_eq!(v, vec!['h', 'é', 'l', 'l', 'o']);
    assert_eq!(string_of(&v), "héllo");
    assert_eq!(string_of_range(&v, 1, 3), "él");
}
