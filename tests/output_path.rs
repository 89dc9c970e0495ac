use dots::{Error, Locations, OutputPath};
use etcetera::BaseStrategy as _;

fn places() -> Locations {
    Locations {
        home: "/home/u".to_string(),
        config_dir: "/home/u/.config".to_string(),
        data_dir: "/home/u/.local/share".to_string(),
        cache_dir: "/home/u/.cache".to_string(),
        vars: vec![
            ("HOME".to_string(), "/home/u".to_string()),
            ("EDITOR".to_string(), "hx".to_string()),
            ("EDITOR".to_string(), "vi".to_string()),
        ],
    }
}

fn expand(t: &str) -> String {
    OutputPath::interpolate(t, &places()).as_str().to_string()
}

#[test]
fn parse() {
    let strategy = etcetera::choose_base_strategy().unwrap();
    let parsed = OutputPath::parse("{config_dir}", vec![]).unwrap();
    assert_eq!(parsed.as_str(), strategy.config_dir().to_string_lossy());
}

#[test]
fn parse_keeps_the_variables() {
    let vars = vec![("X".to_string(), "y".to_string())];
    let parsed = OutputPath::parse("{$X}/z", vars).unwrap();
    assert_eq!(parsed.as_str(), "y/z");
}

#[test]
fn detect_finds_the_home_directory() {
    let l = Locations::detect(vec![]).unwrap();
    let strategy = etcetera::choose_base_strategy().unwrap();
    assert_eq!(l.home, strategy.home_dir().to_string_lossy());
    assert_eq!(l.cache_dir, strategy.cache_dir().to_string_lossy());
    assert_ne!(Error::BaseDirsUnavailable, Error::Walk { message: String::new() });
}

#[test]
fn config_dir_resolves_exactly() {
    assert_eq!(expand("{config_dir}"), "/home/u/.config");
    assert_eq!(expand("{config}"), "/home/u/.config");
    assert_eq!(expand("{config_dir}/helix"), "/home/u/.config/helix");
}

#[test]
fn other_base_directories() {
    assert_eq!(expand("{data_dir}/x"), "/home/u/.local/share/x");
    assert_eq!(expand("{data}"), "");
    assert_eq!(expand("{cache_dir}"), "/home/u/.cache");
    assert_eq!(expand("{cache}/y"), "/y");
}

#[test]
fn unset_variable_is_dropped() {
    assert_eq!(expand("{$NONEXISTENT_VAR_XYZ}"), "");
    assert_eq!(expand("a{$NONEXISTENT_VAR_XYZ}b"), "ab");
}

#[test]
fn variable_takes_first_value() {
    assert_eq!(expand("{$EDITOR}.toml"), "hx.toml");
    assert_eq!(expand("{$HOME}/bin"), "/home/u/bin");
}

#[test]
fn unknown_name_is_dropped() {
    assert_eq!(expand("{unknown}x"), "x");
    let (p, dropped) = OutputPath::expand("{data}/{cache}", &places());
    assert_eq!(p.as_str(), "/");
    assert_eq!(dropped, vec!["data".to_string(), "cache".to_string()]);
    assert_eq!(expand("{}x"), "x");
}

#[test]
fn tilde_is_home() {
    assert_eq!(expand("~/foo"), "/home/u/foo");
    assert_eq!(expand("~foo"), "~foo");
    assert_eq!(expand("a/~/b"), "a/~/b");
}

#[test]
fn unterminated_brace_takes_the_rest() {
    assert_eq!(expand("a{data_dir"), "a/home/u/.local/share");
    assert_eq!(expand("a{data"), "a");
    assert_eq!(expand("a{nothing"), "a");
}

#[test]
fn plain_template_is_unchanged() {
    assert_eq!(expand("relative/path.txt"), "relative/path.txt");
    assert_eq!(expand(""), "");
}

#[test]
fn duplicate_is_equal() {
    let p = OutputPath::interpolate("{cache_dir}", &places());
    assert_eq!(p.duplicate(), p);
}

#[test]
fn expand_reports_dropped_names() {
    let (p, dropped) = OutputPath::expand("{config}/{nope}/{$UNSET}/{$EDITOR}/{x", &places());
    assert_eq!(p.as_str(), "/home/u/.config///hx/");
    assert_eq!(dropped, vec!["nope".to_string(), "$UNSET".to_string(), "x".to_string()]);
}

#[test]
fn expand_reports_nothing_when_all_resolve() {
    let (p, dropped) = OutputPath::expand("~/{data_dir}", &places());
    assert_eq!(p.as_str(), "/home/u//home/u/.local/share");
    assert!(dropped.is_empty());
}
