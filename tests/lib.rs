use std::collections::HashSet;
use std::path::Path;

use dots::apply::Step;
use dots::config::Link as Declared;
use dots::{Config, Dir, Error, File, Link, Locations, OutputPath, Visit, World, WritePath};

fn writes_of(w: &World, l: &Locations) -> HashSet<WritePath> {
    w.process(l).unwrap().writes.into_iter().collect()
}

fn places() -> Locations {
    Locations {
        home: "/home/u".to_string(),
        config_dir: "/home/u/.config".to_string(),
        data_dir: "/home/u/.local/share".to_string(),
        cache_dir: "/home/u/.cache".to_string(),
        vars: vec![],
    }
}

fn write(path: &str, contents: &str) -> WritePath {
    WritePath { path: path.to_string(), contents: contents.to_string() }
}

/// The directories of a manifest, as its `[[dir]]` blocks give them.
fn dirs_of(manifest: &str, l: &Locations) -> Vec<Dir> {
    let table = manifest.parse::<toml::Table>().unwrap();
    table["dir"]
        .as_array()
        .unwrap()
        .iter()
        .map(|d| Dir {
            input: d["input"].as_str().unwrap().to_string(),
            output: OutputPath::interpolate(d["output"].as_str().unwrap(), l),
        })
        .collect()
}

#[test]
fn it_works() {
    let l = Locations::detect(vec![]).unwrap();
    let config_dir = Path::new(&l.config_dir).to_path_buf();
    let root = "/tmp/project";

    let manifest = r#"
                [[dir]]
                input = "configs"
                output = "{config}"
                "#;
    let config = Config { root: root.to_string(), links: vec![], dirs: dirs_of(manifest, &l) };
    let walked = vec![vec![
        Visit::File {
            location: "/tmp/project/configs/foo.txt".to_string(),
            contents: "foo".to_string(),
        },
        Visit::File {
            location: "/tmp/project/configs/bar.txt".to_string(),
            contents: "bar".to_string(),
        },
    ]];
    let world = World::new(&config, &vec![], &walked).unwrap();

    assert_eq!(
        writes_of(&world, &l),
        [
            (config_dir.join("foo.txt"), "foo"),
            (config_dir.join("bar.txt"), "bar"),
        ]
        .into_iter()
        .map(|(path, contents)| write(&path.to_string_lossy(), contents))
        .collect::<HashSet<_>>()
    );
}

#[test]
fn plain_dirs_keep_relative_paths_and_contents() {
    let l = places();
    let world = World {
        root: "/r".to_string(),
        links: vec![],
        files: vec![
            File {
                old_location: "/r/in/a/b.conf".to_string(),
                contents: "x = {{y}}\n".to_string(),
                output: OutputPath::interpolate("{data_dir}/app", &l),
                input: "in".to_string(),
            },
            File {
                old_location: "/r/in/c".to_string(),
                contents: "".to_string(),
                output: OutputPath::interpolate("/out", &l),
                input: "in".to_string(),
            },
        ],
    };
    let writes = world.process(&l).unwrap().writes;
    assert_eq!(
        writes,
        vec![
            write("/home/u/.local/share/app/a/b.conf", "x = {{y}}\n"),
            write("/out/c", ""),
        ]
    );
}

#[test]
fn file_marker_overrides_destination() {
    let l = places();
    let world = World {
        root: "/r".to_string(),
        links: vec![],
        files: vec![File {
            old_location: "/r/in/theme.ron".to_string(),
            contents: "// @dots --path '{config}/gitui/theme.ron'\n(a: 1)\n".to_string(),
            output: OutputPath::interpolate("/out", &l),
            input: "in".to_string(),
        }],
    };
    assert_eq!(
        world.process(&l).unwrap().writes,
        vec![write("/home/u/.config/gitui/theme.ron", "(a: 1)\n")]
    );
}

#[test]
fn file_outside_its_input_fails() {
    let l = places();
    let world = World {
        root: "/r".to_string(),
        links: vec![],
        files: vec![
            File {
                old_location: "/elsewhere/x".to_string(),
                contents: "x".to_string(),
                output: OutputPath::interpolate("/out", &l),
                input: "in".to_string(),
            },
            File {
                old_location: "/r/in/ok".to_string(),
                contents: "ok".to_string(),
                output: OutputPath::interpolate("/out", &l),
                input: "in".to_string(),
            },
            File {
                old_location: "/r/nope".to_string(),
                contents: "y".to_string(),
                output: OutputPath::interpolate("/out", &l),
                input: "in".to_string(),
            },
        ],
    };
    assert_eq!(
        world.process(&l).err(),
        Some(vec![
            Error::NotUnderInput { path: "/elsewhere/x".to_string(), input: "/r/in".to_string() },
            Error::NotUnderInput { path: "/r/nope".to_string(), input: "/r/in".to_string() },
        ])
    );
}

fn fetched_rs() -> Link {
    Link {
        url: "https://e.x/f.rs".to_string(),
        contents: "fn main() {}\n".to_string(),
        path: "src/f.rs".to_string(),
        sha256: None,
        marker: Some("--path '{config}/f.rs'".to_string()),
    }
}

const RS_TEXT: &str = "// @dots --path '{config}/f.rs'\n\
// generated by dots, https://github.com/nik-rev/dots\n\
// do not edit this file by hand\n\
// \n\
// downloaded from: https://e.x/f.rs\n\
fn main() {}\n";

#[test]
fn link_gets_marker_and_banner() {
    let l = places();
    let world = World { root: "/r".to_string(), links: vec![fetched_rs()], files: vec![] };
    assert_eq!(world.process(&l).unwrap().writes, vec![write("/r/src/f.rs", RS_TEXT)]);
}

#[test]
fn link_without_marker_gets_banner() {
    let l = places();
    let mut link = fetched_rs();
    link.marker = None;
    link.path = "a.toml".to_string();
    link.url = "u".to_string();
    let world = World { root: "/r".to_string(), links: vec![link], files: vec![] };
    assert_eq!(
        world.process(&l).unwrap().writes,
        vec![write(
            "/r/a.toml",
            "# generated by dots, https://github.com/nik-rev/dots\n# do not edit this file by hand\n# \n# downloaded from: u\nfn main() {}\n"
        )]
    );
}

#[test]
fn link_marker_round_trip() {
    let l = places();
    let first = World { root: "/r".to_string(), links: vec![fetched_rs()], files: vec![] };
    let written = first.process(&l).unwrap().writes.remove(0);
    let again = World {
        root: "/r".to_string(),
        links: vec![],
        files: vec![File {
            old_location: "/r/in/f.rs".to_string(),
            contents: written.contents,
            output: OutputPath::interpolate("/default", &l),
            input: "in".to_string(),
        }],
    };
    let writes = again.process(&l).unwrap().writes;
    assert_eq!(writes.len(), 1);
    assert_eq!(writes[0].path, "/home/u/.config/f.rs");
    assert_eq!(writes[0].contents, RS_TEXT.split_once('\n').unwrap().1);
}

#[test]
fn running_twice_plans_the_same() {
    let l = places();
    let build = || World {
        root: "/r".to_string(),
        links: vec![fetched_rs()],
        files: vec![File {
            old_location: "/r/in/a".to_string(),
            contents: "a".to_string(),
            output: OutputPath::interpolate("/o", &l),
            input: "in".to_string(),
        }],
    };
    assert_eq!(build().process(&l).unwrap().writes, build().process(&l).unwrap().writes);
}

#[test]
fn same_destination_is_written_twice() {
    let l = places();
    let f = |loc: &str, c: &str| File {
        old_location: loc.to_string(),
        contents: c.to_string(),
        output: OutputPath::interpolate("/o", &l),
        input: "in".to_string(),
    };
    let world = World {
        root: "/r".to_string(),
        links: vec![],
        files: vec![f("/r/in/x", "1"), f("/r/in/y", "@dots --path /o/x\n2")],
    };
    assert_eq!(
        world.process(&l).unwrap().writes,
        vec![write("/o/x", "1"), write("/o/x", "2")]
    );
}

#[test]
fn gathered_then_processed() {
    let l = places();
    let config = Config {
        root: "/r".to_string(),
        links: vec![Declared {
            url: "https://e.x/t.css".to_string(),
            path: "t.css".to_string(),
            sha256: None,
            marker: None,
        }],
        dirs: vec![Dir { input: "in".to_string(), output: OutputPath::interpolate("{cache_dir}", &l) }],
    };
    let world = World::new(
        &config,
        &vec![Ok("a {}\n".to_string())],
        &vec![vec![Visit::File { location: "/r/in/x/y".to_string(), contents: "z".to_string() }]],
    )
    .unwrap();
    assert_eq!(
        world.process(&l).unwrap().writes,
        vec![
            write(
                "/r/t.css",
                "/* generated by dots, https://github.com/nik-rev/dots */\n/* do not edit this file by hand */\n/*  */\n/* downloaded from: https://e.x/t.css */\na {}\n"
            ),
            write("/home/u/.cache/x/y", "z"),
        ]
    );
}

#[test]
fn steps_of_a_write() {
    assert_eq!(
        write("/a/b/c.txt", "x").steps(),
        vec![
            Step::Remove { path: "/a/b/c.txt".to_string() },
            Step::CreateDir { path: "/a/b".to_string() },
            Step::Write { path: "/a/b/c.txt".to_string(), contents: "x".to_string() },
        ]
    );
    assert_eq!(write("/", "x").steps(), vec![Step::Remove { path: "/".to_string() }]);
}

#[test]
fn finish_gives_steps_per_write() {
    let analysis = dots::Analysis { writes: vec![write("/o/a", "1"), write("b", "2")], dropped: vec![] };
    assert_eq!(
        analysis.finish(),
        vec![
            vec![
                Step::Remove { path: "/o/a".to_string() },
                Step::CreateDir { path: "/o".to_string() },
                Step::Write { path: "/o/a".to_string(), contents: "1".to_string() },
            ],
            vec![
                Step::Remove { path: "b".to_string() },
                Step::CreateDir { path: "".to_string() },
                Step::Write { path: "b".to_string(), contents: "2".to_string() },
            ],
        ]
    );
}

#[test]
fn process_reports_names_dropped_from_markers() {
    let l = places();
    let f = |loc: &str, c: &str| File {
        old_location: loc.to_string(),
        contents: c.to_string(),
        output: OutputPath::interpolate("/o", &l),
        input: "in".to_string(),
    };
    let world = World {
        root: "/r".to_string(),
        links: vec![],
        files: vec![
            f("/r/in/x", "@dots --path {a}/x\n1"),
            f("/r/in/y", "{b}"),
            f("/r/in/z", "@dots --path {$NOPE}{config}/z\n2"),
        ],
    };
    let analysis = world.process(&l).unwrap();
    assert_eq!(analysis.dropped, vec!["a".to_string(), "$NOPE".to_string()]);
    assert_eq!(
        analysis.writes,
        vec![write("/x", "1"), write("/o/y", "{b}"), write("/home/u/.config/z", "2")]
    );
}
