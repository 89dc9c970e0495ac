use dots::marker::{banner_for, comment, comment_delims_for};
use dots::template::render;
use dots::{extract, inject, Locations, Marker, OutputPath};

fn places() -> Locations {
    Locations {
        home: "/home/u".to_string(),
        config_dir: "/home/u/.config".to_string(),
        data_dir: "/home/u/.local/share".to_string(),
        cache_dir: "/home/u/.cache".to_string(),
        vars: vec![],
    }
}

fn words(ws: &[&str]) -> Vec<String> {
    ws.iter().map(|w| w.to_string()).collect()
}

fn path_of(m: Option<Marker>) -> Option<Option<String>> {
    m.map(|m| m.path.map(|p| p.as_str().to_string()))
}

#[test]
fn marker_words_with_path() {
    let m = Marker::from_words(&words(&["--path", "{config}/x"]), &places());
    assert_eq!(path_of(m), Some(Some("/home/u/.config/x".to_string())));
}

#[test]
fn marker_words_with_equals() {
    let m = Marker::from_words(&words(&["--path=~/y"]), &places());
    assert_eq!(path_of(m), Some(Some("/home/u/y".to_string())));
}

#[test]
fn marker_words_empty() {
    let m = Marker::from_words(&words(&[]), &places());
    assert_eq!(path_of(m), Some(None));
}

#[test]
fn marker_words_refused() {
    assert_eq!(path_of(Marker::from_words(&words(&["--foo"]), &places())), None);
    assert_eq!(path_of(Marker::from_words(&words(&["--path"]), &places())), None);
    assert_eq!(
        path_of(Marker::from_words(&words(&["--path", "a", "b"]), &places())),
        None
    );
}

#[test]
fn marker_parse_quoted() {
    let m = Marker::parse("--path '{config}/gitui/theme.ron'", &places());
    assert_eq!(
        path_of(m),
        Some(Some("/home/u/.config/gitui/theme.ron".to_string()))
    );
}

#[test]
fn marker_parse_mismatched_quotes() {
    assert_eq!(path_of(Marker::parse("--path 'open", &places())), None);
}

#[test]
fn extract_marker_first_line() {
    let (p, rest, _) = extract("@dots --path '{config}/a.txt'\nhello\n", &places());
    assert_eq!(p, Some(OutputPath { path: "/home/u/.config/a.txt".to_string() }));
    assert_eq!(rest, "hello\n");
}

#[test]
fn extract_marker_in_comment() {
    let (p, rest, _) = extract("# @dots --path x\nbody", &places());
    assert_eq!(p.unwrap().as_str(), "x");
    assert_eq!(rest, "body");
}

#[test]
fn extract_marker_in_block_comment() {
    let (p, rest, _) = extract("/* @dots --path 'p q' */\nbody", &places());
    assert_eq!(p.unwrap().as_str(), "p q");
    assert_eq!(rest, "body");
}

#[test]
fn extract_marker_alone() {
    let (p, rest, _) = extract("@dots --path=z", &places());
    assert_eq!(p.unwrap().as_str(), "z");
    assert_eq!(rest, "");
}

#[test]
fn extract_without_marker() {
    let (p, rest, _) = extract("plain\n@dots --path x\n", &places());
    assert_eq!(p, None);
    assert_eq!(rest, "plain\n@dots --path x\n");
}

#[test]
fn extract_bad_marker_is_no_marker() {
    let (p, rest, _) = extract("@dots --bogus\nx", &places());
    assert_eq!(p, None);
    assert_eq!(rest, "@dots --bogus\nx");
    let (p, rest, _) = extract("@dots --path 'open\nx", &places());
    assert_eq!(p, None);
    assert_eq!(rest, "@dots --path 'open\nx");
}

#[test]
fn extract_marker_without_path_is_no_marker() {
    let (p, rest, _) = extract("@dots \nx", &places());
    assert_eq!(p, None);
    assert_eq!(rest, "@dots \nx");
}

#[test]
fn inject_by_extension() {
    assert_eq!(inject("a/b.rs", "--path x"), "// @dots --path x");
    assert_eq!(inject("a/theme.css", "--path x"), "/* @dots --path x */");
    assert_eq!(inject("index.html", "--path x"), "<!-- @dots --path x -->");
    assert_eq!(inject("a/b.toml", "--path x"), "# @dots --path x");
    assert_eq!(inject("init.lua", "--path x"), "-- @dots --path x");
    assert_eq!(inject("Makefile", "--path x"), "# @dots --path x");
    assert_eq!(inject("vimrc.vim", "--path x"), "\" @dots --path x");
    assert_eq!(inject("init.el", "--path x"), ";; @dots --path x");
}

#[test]
fn inject_reads_back() {
    let line = inject("theme.css", "--path '{cache_dir}/t.css'");
    let (p, rest, _) = extract(&format!("{line}\nbody"), &places());
    assert_eq!(p.unwrap().as_str(), "/home/u/.cache/t.css");
    assert_eq!(rest, "body");
}

#[test]
fn comment_and_banner() {
    let d = comment_delims_for("x.css");
    assert_eq!(d, ("/*".to_string(), "*/".to_string()));
    assert_eq!(comment("hi", &d), "/* hi */");
    let d = comment_delims_for("x.sh");
    assert_eq!(
        banner_for("https://e.x/f", &d),
        "# generated by dots, https://github.com/nik-rev/dots\n# do not edit this file by hand\n# \n# downloaded from: https://e.x/f\n"
    );
}

#[test]
fn render_substitutes_bound_variables() {
    let vars = vec![("name".to_string(), "bob".to_string())];
    assert_eq!(render("hi {{name}}!", &vars), "hi bob!");
    assert_eq!(render("{{name}}{{name}}", &vars), "bobbob");
    assert_eq!(render("{{other}} {{name", &vars), "{{other}} {{name");
}

#[test]
fn render_without_variables_is_identity() {
    assert_eq!(render("a {{x}} b { c }", &vec![]), "a {{x}} b { c }");
    assert_eq!(render("", &vec![]), "");
}

#[test]
fn marker_words_end_of_options() {
    let m = Marker::from_words(&words(&["--path", "a", "--"]), &places());
    assert_eq!(path_of(m), Some(Some("a".to_string())));
    assert_eq!(path_of(Marker::from_words(&words(&["--"]), &places())), Some(None));
    assert_eq!(path_of(Marker::from_words(&words(&["--", "a"]), &places())), None);
    assert_eq!(path_of(Marker::from_words(&words(&["--path", "--"]), &places())), None);
}

#[test]
fn marker_value_that_reads_as_option_is_refused() {
    assert_eq!(path_of(Marker::from_words(&words(&["--path", "-x"]), &places())), None);
    let m = Marker::from_words(&words(&["--path", "-"]), &places());
    assert_eq!(path_of(m), Some(Some("-".to_string())));
    let m = Marker::from_words(&words(&["--path=-x"]), &places());
    assert_eq!(path_of(m), Some(Some("-x".to_string())));
}

#[test]
fn marker_reports_dropped_names() {
    let m = Marker::parse("--path '{config}/{nope}/a'", &places()).unwrap();
    assert_eq!(m.path.unwrap().as_str(), "/home/u/.config//a");
    assert_eq!(m.dropped, vec!["nope".to_string()]);
    let (p, rest, dropped) = extract("# @dots --path {$UNSET}/b\nx", &places());
    assert_eq!(p.unwrap().as_str(), "/b");
    assert_eq!(rest, "x");
    assert_eq!(dropped, vec!["$UNSET".to_string()]);
    let (_, _, dropped) = extract("{nope}\n", &places());
    assert!(dropped.is_empty());
}
