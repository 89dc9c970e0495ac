use dots::config::Link as Declared;
use dots::world::{check_digest, fetch_outcome, locate_root, manifest_path, single_err};
use dots::{Config, Dir, Error, Locations, OutputPath, Visit, World};

const FOO_SHA256: &str = "2c26b46b68ffc68ff99b453c1d30413413422d706483bfa0f98a5e886266e7ae";
const OTHER_SHA256: &str = "0000000000000000000000000000000000000000000000000000000000000000";

fn declared(url: &str, sha256: Option<&str>) -> Declared {
    Declared {
        url: url.to_string(),
        path: "f.txt".to_string(),
        sha256: sha256.map(|s| s.to_string()),
        marker: None,
    }
}

fn config(links: Vec<Declared>, dirs: Vec<Dir>) -> Config {
    Config { root: "/r".to_string(), links, dirs }
}

fn out(p: &str) -> OutputPath {
    let l = Locations {
        home: String::new(),
        config_dir: String::new(),
        data_dir: String::new(),
        cache_dir: String::new(),
        vars: vec![],
    };
    OutputPath::interpolate(p, &l)
}

#[test]
fn correct_digest_passes() {
    let d = declared("https://e.x/foo", Some(FOO_SHA256));
    let link = fetch_outcome(&d, &Ok("foo".to_string())).unwrap();
    assert_eq!(link.contents, "foo");
    assert_eq!(link.url, "https://e.x/foo");
    assert_eq!(link.sha256.as_deref(), Some(FOO_SHA256));
}

#[test]
fn wrong_digest_is_a_mismatch() {
    let d = declared("https://e.x/foo", Some(OTHER_SHA256));
    assert_eq!(
        fetch_outcome(&d, &Ok("foo".to_string())).err(),
        Some(Error::HashMismatch {
            url: "https://e.x/foo".to_string(),
            expected: OTHER_SHA256.to_string(),
            actual: FOO_SHA256.to_string(),
        })
    );
}

#[test]
fn no_digest_is_not_checked() {
    let d = declared("https://e.x/foo", None);
    assert_eq!(fetch_outcome(&d, &Ok("bar".to_string())).unwrap().contents, "bar");
}

#[test]
fn fetch_failure_is_reported() {
    let d = declared("https://e.x/foo", Some(FOO_SHA256));
    assert_eq!(
        fetch_outcome(&d, &Err("timed out".to_string())).err(),
        Some(Error::Fetch { url: "https://e.x/foo".to_string(), message: "timed out".to_string() })
    );
}

#[test]
fn check_digest_compares() {
    let url = "u".to_string();
    assert_eq!(check_digest(&url, &None, "a".to_string()), None);
    assert_eq!(check_digest(&url, &Some("a".to_string()), "a".to_string()), None);
    assert_eq!(
        check_digest(&url, &Some("a".to_string()), "b".to_string()),
        Some(Error::HashMismatch {
            url: "u".to_string(),
            expected: "a".to_string(),
            actual: "b".to_string()
        })
    );
}

#[test]
fn every_failure_is_collected() {
    let c = config(
        vec![
            declared("https://e.x/1", Some(OTHER_SHA256)),
            declared("https://e.x/2", None),
            declared("https://e.x/3", Some(FOO_SHA256)),
        ],
        vec![Dir { input: "in".to_string(), output: out("/o") }],
    );
    let fetched = vec![Ok("foo".to_string()), Err("refused".to_string()), Ok("foo".to_string())];
    let walked = vec![vec![
        Visit::File { location: "/r/in/a".to_string(), contents: "a".to_string() },
        Visit::WalkFailed { message: "denied".to_string() },
        Visit::ReadFailed { location: "/r/in/b".to_string(), message: "not UTF-8".to_string() },
    ]];
    let errors = World::new(&c, &fetched, &walked).err().unwrap();
    assert_eq!(
        errors,
        vec![
            Error::HashMismatch {
                url: "https://e.x/1".to_string(),
                expected: OTHER_SHA256.to_string(),
                actual: FOO_SHA256.to_string(),
            },
            Error::Fetch { url: "https://e.x/2".to_string(), message: "refused".to_string() },
            Error::Walk { message: "denied".to_string() },
            Error::Read { path: "/r/in/b".to_string(), message: "not UTF-8".to_string() },
        ]
    );
}

#[test]
fn world_holds_everything_gathered() {
    let c = config(
        vec![declared("https://e.x/3", Some(FOO_SHA256))],
        vec![
            Dir { input: "in".to_string(), output: out("/o") },
            Dir { input: "other".to_string(), output: out("/p") },
        ],
    );
    let fetched = vec![Ok("foo".to_string())];
    let walked = vec![
        vec![Visit::File { location: "/r/in/a".to_string(), contents: "a".to_string() }],
        vec![
            Visit::File { location: "/r/other/b".to_string(), contents: "b".to_string() },
            Visit::File { location: "/r/other/c/d".to_string(), contents: "d".to_string() },
        ],
    ];
    let w = World::new(&c, &fetched, &walked).unwrap();
    assert_eq!(w.root, "/r");
    assert_eq!(w.links.len(), 1);
    assert_eq!(w.links[0].contents, "foo");
    assert_eq!(w.files.len(), 3);
    assert_eq!(w.files[0].old_location, "/r/in/a");
    assert_eq!(w.files[0].output.as_str(), "/o");
    assert_eq!(w.files[2].input, "other");
    assert_eq!(w.files[2].contents, "d");
    assert_eq!(w.files[2].output.as_str(), "/p");
}

#[test]
fn empty_manifest_gives_empty_world() {
    let w = World::new(&config(vec![], vec![]), &vec![], &vec![]).unwrap();
    assert!(w.links.is_empty() && w.files.is_empty());
}

#[test]
fn root_is_closest_with_manifest() {
    let dirs = vec!["/a/b/c".to_string(), "/a/b".to_string(), "/a".to_string(), "/".to_string()];
    assert_eq!(locate_root("/a/b/c", &dirs, &vec![false, true, true, false]), Ok("/a/b".to_string()));
    assert_eq!(
        locate_root("/a/b/c", &dirs, &vec![false, false, false, false]),
        Err(Error::ManifestNotFound { start: "/a/b/c".to_string() })
    );
}

#[test]
fn manifest_is_in_the_directory() {
    assert_eq!(manifest_path("/a/b"), "/a/b/dots.toml");
    assert_eq!(manifest_path("/a/b/"), "/a/b/dots.toml");
}

#[test]
fn single_err_holds_one() {
    assert_eq!(single_err(Error::BaseDirsUnavailable), vec![Error::BaseDirsUnavailable]);
}
