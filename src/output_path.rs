//! Destination paths, and the interpolation that builds them from templates.

use etcetera::BaseStrategy;
use vstd::prelude::*;

use crate::error::Error;
use crate::stdx::{
    chars_of, is_text, join_path, joined_path, opt_view, push_char, string_of_range, views,
};

verus! {

/// What placeholders of a path template resolve to: the platform's base
/// directories and the environment's variables.
#[derive(Debug)]
pub struct Locations {
    /// The user's home directory, which `~/` stands for
    pub home: String,
    /// The platform's config directory: `{config_dir}` or `{config}`
    pub config_dir: String,
    /// The platform's data directory: `{data_dir}`
    pub data_dir: String,
    /// The platform's cache directory: `{cache_dir}`
    pub cache_dir: String,
    /// Environment variables, name then value: `{$NAME}`
    pub vars: Vec<(String, String)>,
}

/// Relies on `etcetera::choose_base_strategy` and its `BaseStrategy` methods:
/// the home, config, data and cache directories of this platform, or nothing
/// where the home directory cannot be located. The directories depend on the
/// environment, so nothing is stated of them.
#[verifier::external_body]
fn base_strategy_locations(vars: Vec<(String, String)>) -> (r: Option<Locations>)
    ensures
        r matches Some(l) ==> l.vars@ == vars@,
{
    match etcetera::choose_base_strategy() {
        Ok(s) => Some(Locations {
            home: s.home_dir().to_string_lossy().into_owned(),
            config_dir: s.config_dir().to_string_lossy().into_owned(),
            data_dir: s.data_dir().to_string_lossy().into_owned(),
            cache_dir: s.cache_dir().to_string_lossy().into_owned(),
            vars,
        }),
        Err(_) => None,
    }
}

impl Locations {
    /// The platform's base directories, with the given environment variables.
    pub fn detect(vars: Vec<(String, String)>) -> (r: Result<Locations, Error>)
        ensures
            r matches Ok(l) ==> l.vars@ == vars@,
            r matches Err(e) ==> e == Error::BaseDirsUnavailable,
    {
        match base_strategy_locations(vars) {
            Some(l) => Ok(l),
            None => Err(Error::BaseDirsUnavailable),
        }
    }
}

/// The value of the first variable called `name`, if any.
pub open spec fn lookup(vars: Seq<(String, String)>, name: Seq<char>) -> Option<Seq<char>>
    decreases vars.len(),
{
    if vars.len() == 0 {
        None
    } else if vars[0].0@ == name {
        Some(vars[0].1@)
    } else {
        lookup(vars.drop_first(), name)
    }
}

/// What the placeholder `{name}` is replaced with: a base directory, the value
/// of an environment variable for `$VAR`, or nothing where the name is unknown
/// or the variable unset.
pub open spec fn resolved(name: Seq<char>, l: Locations) -> Seq<char> {
    if name == "config_dir"@ || name == "config"@ {
        l.config_dir@
    } else if name == "data_dir"@ {
        l.data_dir@
    } else if name == "cache_dir"@ {
        l.cache_dir@
    } else if name.len() > 0 && name[0] == '$' {
        match lookup(l.vars@, name.drop_first()) {
            Some(v) => v,
            None => Seq::empty(),
        }
    } else {
        Seq::empty()
    }
}

/// The number of characters before the first `}` of `s` (all of them if none).
pub open spec fn close_at(s: Seq<char>) -> nat
    decreases s.len(),
{
    if s.len() == 0 || s[0] == '}' {
        0
    } else {
        1 + close_at(s.drop_first())
    }
}

/// `s` with each `{name}` replaced by what `name` resolves to; an unterminated
/// `{` takes the rest of `s` as the name.
pub open spec fn substituted(s: Seq<char>, l: Locations) -> Seq<char>
    decreases s.len(),
{
    if s.len() == 0 {
        Seq::empty()
    } else if s[0] != '{' {
        seq![s[0]] + substituted(s.drop_first(), l)
    } else {
        let body = s.drop_first();
        let k = close_at(body);
        if k < body.len() {
            resolved(body.take(k as int), l) + substituted(body.skip(k + 1int), l)
        } else {
            resolved(body, l)
        }
    }
}

/// Whether the placeholder `{name}` resolves to nothing known: it names no
/// base directory, and no variable that is set.
pub open spec fn is_unresolved(name: Seq<char>, l: Locations) -> bool {
    &&& !(name == "config_dir"@ || name == "config"@ || name == "data_dir"@ || name
        == "cache_dir"@)
    &&& !(name.len() > 0 && name[0] == '$' && lookup(l.vars@, name.drop_first()) is Some)
}

/// The names of the placeholders of `s` that resolve to nothing known, in
/// order.
pub open spec fn unresolved(s: Seq<char>, l: Locations) -> Seq<Seq<char>>
    decreases s.len(),
{
    if s.len() == 0 {
        Seq::empty()
    } else if s[0] != '{' {
        unresolved(s.drop_first(), l)
    } else {
        let body = s.drop_first();
        let k = close_at(body);
        let name = if k < body.len() {
            body.take(k as int)
        } else {
            body
        };
        let here = if is_unresolved(name, l) {
            seq![name]
        } else {
            Seq::empty()
        };
        if k < body.len() {
            here + unresolved(body.skip(k + 1int), l)
        } else {
            here
        }
    }
}

/// The names of the placeholders of the template `t` that resolve to nothing
/// known, and are dropped.
pub open spec fn unresolved_names(t: Seq<char>, l: Locations) -> Seq<Seq<char>> {
    unresolved(tilde_expanded(t, l.home@), l)
}

/// `t` with a leading `~/` replaced by the home directory joined with the rest.
pub open spec fn tilde_expanded(t: Seq<char>, home: Seq<char>) -> Seq<char> {
    if t.len() >= 2 && t[0] == '~' && t[1] == '/' {
        joined_path(home, t.skip(2))
    } else {
        t
    }
}

/// The path that the template `t` denotes.
pub open spec fn interpolated(t: Seq<char>, l: Locations) -> Seq<char> {
    substituted(tilde_expanded(t, l.home@), l)
}

/// A path that will be written to, with every placeholder of its template
/// resolved.
#[derive(Debug, Clone, PartialEq, Eq)]
pub struct OutputPath {
    pub path: String,
}

impl View for OutputPath {
    type V = Seq<char>;

    open spec fn view(&self) -> Seq<char> {
        self.path@
    }
}

/// The value of the first variable called `name`.
pub(crate) fn lookup_var(vars: &Vec<(String, String)>, name: &String) -> (r: Option<String>)
    ensures
        opt_view(r) == lookup(vars@, name@),
{
    let mut i: usize = 0;
    assert(vars@.skip(0) == vars@);
    while i < vars.len()
        invariant
            i <= vars.len(),
            lookup(vars@.skip(i as int), name@) == lookup(vars@, name@),
        decreases vars.len() - i,
    {
        assert(vars@.skip(i as int).drop_first() == vars@.skip(i + 1int));
        if vars[i].0 == *name {
            return Some(vars[i].1.clone());
        }
        i = i + 1;
    }
    None
}

/// What the placeholder `{name}` is replaced with, or nothing where it
/// resolves to nothing known.
fn resolve(name: &String, l: &Locations) -> (r: Option<String>)
    ensures
        r is None <==> is_unresolved(name@, *l),
        r matches Some(v) ==> v@ == resolved(name@, *l),
        r is None ==> resolved(name@, *l) == Seq::<char>::empty(),
{
    if is_text(name, "config_dir") || is_text(name, "config") {
        Some(l.config_dir.clone())
    } else if is_text(name, "data_dir") {
        Some(l.data_dir.clone())
    } else if is_text(name, "cache_dir") {
        Some(l.cache_dir.clone())
    } else {
        let n = name.as_str().unicode_len();
        if n > 0 && name.as_str().get_char(0) == '$' {
            let var = name.as_str().substring_char(1, n).to_string();
            assert(var@ == name@.drop_first());
            lookup_var(&l.vars, &var)
        } else {
            None
        }
    }
}

impl OutputPath {
    /// Expands the template `template`: a leading `~/` becomes the home
    /// directory joined with the rest, and each `{name}` is replaced by a base
    /// directory (`config_dir` or its short form `config`, `data_dir`,
    /// `cache_dir`) or, for `{$VAR}`, by the variable's value. Unknown names and
    /// unset variables are dropped, and returned so that they can be warned
    /// about; this never fails.
    pub fn expand(template: &str, l: &Locations) -> (r: (OutputPath, Vec<String>))
        ensures
            r.0@ == interpolated(template@, *l),
            views(r.1@) == unresolved_names(template@, *l),
    {
        let t = chars_of(template);
        let expanded = if t.len() >= 2 && t[1] == '/' && t[0] == '~' {
            let rest = string_of_range(&t, 2, t.len());
            assert(rest@ == template@.skip(2));
            join_path(l.home.as_str(), rest.as_str())
        } else {
            template.to_string()
        };
        let s = chars_of(expanded.as_str());
        let mut out = String::new();
        let mut dropped: Vec<String> = Vec::new();
        let mut i: usize = 0;
        assert(s@.skip(0) == s@);
        while i < s.len()
            invariant
                i <= s.len(),
                out@ + substituted(s@.skip(i as int), *l) == substituted(s@, *l),
                views(dropped@) + unresolved(s@.skip(i as int), *l) == unresolved(s@, *l),
            decreases s.len() - i,
        {
            let ghost rest = s@.skip(i as int);
            if s[i] != '{' {
                assert(rest.drop_first() == s@.skip(i + 1int));
                assert(out@.push(s@[i as int]) + substituted(s@.skip(i + 1int), *l) == out@
                    + substituted(rest, *l));
                push_char(&mut out, s[i]);
                i = i + 1;
            } else {
                let mut j: usize = i + 1;
                while j < s.len() && s[j] != '}'
                    invariant
                        i < j <= s.len(),
                        close_at(s@.skip(i + 1int)) == (j - (i + 1)) + close_at(s@.skip(j as int)),
                    decreases s.len() - j,
                {
                    assert(s@.skip(j as int).drop_first() == s@.skip(j + 1int));
                    j = j + 1;
                }
                let name = string_of_range(&s, i + 1, j);
                let ghost body = rest.drop_first();
                assert(body == s@.skip(i + 1int));
                assert(close_at(body) == j - (i + 1));
                assert(body.take(j - (i + 1)) == name@);
                let value = match resolve(&name, l) {
                    Some(v) => v,
                    None => {
                        assert(views(dropped@.push(name)) == views(dropped@).push(name@));
                        dropped.push(name);
                        String::new()
                    },
                };
                if j < s.len() {
                    assert(body.skip(j - i) == s@.skip(j + 1int));
                    assert(out@ + value@ + substituted(s@.skip(j + 1int), *l) == out@
                        + substituted(rest, *l));
                    out.append(value.as_str());
                    i = j + 1;
                } else {
                    assert(body == name@);
                    assert(s@.skip(j as int) == Seq::<char>::empty());
                    assert(substituted(Seq::<char>::empty(), *l) == Seq::<char>::empty());
                    assert(unresolved(Seq::<char>::empty(), *l) == Seq::<Seq<char>>::empty());
                    assert(out@ + value@ + substituted(s@.skip(j as int), *l) == out@
                        + substituted(rest, *l));
                    out.append(value.as_str());
                    i = j;
                }
            }
        }
        assert(s@.skip(i as int) == Seq::<char>::empty());
        assert(out@ + substituted(Seq::<char>::empty(), *l) == out@);
        assert(views(dropped@) + unresolved(Seq::<char>::empty(), *l) == views(dropped@));
        (OutputPath { path: out }, dropped)
    }

    /// Expands the template `template` as [`OutputPath::expand`] does, without
    /// the names it dropped.
    pub fn interpolate(template: &str, l: &Locations) -> (r: OutputPath)
        ensures
            r@ == interpolated(template@, *l),
    {
        OutputPath::expand(template, l).0
    }

    /// Expands `template` against this platform's base directories and the
    /// environment variables `vars`; fails only where the base directories
    /// cannot be found.
    pub fn parse(template: &str, vars: Vec<(String, String)>) -> (r: Result<OutputPath, Error>)
        ensures
            r matches Ok(p) ==> exists|l: Locations|
                l.vars@ == vars@ && #[trigger] interpolated(template@, l) == p@,
            r matches Err(e) ==> e == Error::BaseDirsUnavailable,
    {
        match Locations::detect(vars) {
            Ok(l) => {
                let p = OutputPath::interpolate(template, &l);
                assert(interpolated(template@, l) == p@);
                Ok(p)
            },
            Err(e) => Err(e),
        }
    }

    /// A copy of this path.
    pub fn duplicate(&self) -> (r: OutputPath)
        ensures
            r@ == self@,
    {
        OutputPath { path: self.path.clone() }
    }

    /// The path, as text.
    pub fn as_str(&self) -> (r: &str)
        ensures
            r@ == self@,
    {
        self.path.as_str()
    }
}

/// A template without any `{` is left as it is.
pub proof fn lemma_substituted_plain(s: Seq<char>, l: Locations)
    requires
        forall|i: int| 0 <= i < s.len() ==> s[i] != '{',
    ensures
        substituted(s, l) == s,
    decreases s.len(),
{
    if s.len() > 0 {
        lemma_substituted_plain(s.drop_first(), l);
        assert(seq![s[0]] + s.drop_first() == s);
    }
}

/// Where `a` holds no `}`, the first `}` of `a` followed by `}` is right after `a`.
proof fn lemma_close_at(a: Seq<char>, b: Seq<char>)
    requires
        forall|i: int| 0 <= i < a.len() ==> a[i] != '}',
    ensures
        close_at(a + seq!['}'] + b) == a.len(),
    decreases a.len(),
{
    if a.len() > 0 {
        lemma_close_at(a.drop_first(), b);
        assert((a + seq!['}'] + b).drop_first() == a.drop_first() + seq!['}'] + b);
    }
}

/// A template that is one placeholder `{name}` denotes what `name` resolves to.
pub proof fn lemma_single_placeholder(name: Seq<char>, l: Locations)
    requires
        forall|i: int| 0 <= i < name.len() ==> name[i] != '}',
    ensures
        interpolated(seq!['{'] + name + seq!['}'], l) == resolved(name, l),
{
    let t = seq!['{'] + name + seq!['}'];
    assert(tilde_expanded(t, l.home@) == t);
    let body = t.drop_first();
    assert(body == name + seq!['}'] + Seq::<char>::empty());
    lemma_close_at(name, Seq::<char>::empty());
    assert(body.take(name.len() as int) == name);
    assert(body.skip(name.len() + 1int) == Seq::<char>::empty());
    assert(substituted(Seq::<char>::empty(), l) == Seq::<char>::empty());
}

/// `{config_dir}` denotes exactly the config directory; `{$VAR}` for a variable
/// that is not set denotes nothing, and the path is still built; `~/foo`
/// denotes the home directory joined with `foo` (where that holds no `{`).
pub proof fn lemma_interpolation_examples(l: Locations)
    ensures
        interpolated("{config_dir}"@, l) == l.config_dir@,
        lookup(l.vars@, "NONEXISTENT_VAR_XYZ"@) is None ==> interpolated(
            "{$NONEXISTENT_VAR_XYZ}"@,
            l,
        ) == Seq::<char>::empty(),
        (forall|i: int|
            0 <= i < joined_path(l.home@, "foo"@).len() ==> joined_path(l.home@, "foo"@)[i]
                != '{') ==> interpolated("~/foo"@, l) == joined_path(l.home@, "foo"@),
{
    reveal_strlit("{config_dir}");
    reveal_strlit("config_dir");
    reveal_strlit("{$NONEXISTENT_VAR_XYZ}");
    reveal_strlit("$NONEXISTENT_VAR_XYZ");
    reveal_strlit("NONEXISTENT_VAR_XYZ");
    reveal_strlit("~/foo");
    reveal_strlit("foo");
    let n = "config_dir"@;
    assert("{config_dir}"@ == seq!['{'] + n + seq!['}']);
    lemma_single_placeholder(n, l);
    let v = "$NONEXISTENT_VAR_XYZ"@;
    assert("{$NONEXISTENT_VAR_XYZ}"@ == seq!['{'] + v + seq!['}']);
    lemma_single_placeholder(v, l);
    assert(v.drop_first() == "NONEXISTENT_VAR_XYZ"@);
    reveal_strlit("config");
    reveal_strlit("data_dir");
    reveal_strlit("cache_dir");
    assert(v[0] == '$');
    assert(v != "config_dir"@ && v != "config"@ && v != "data_dir"@ && v != "cache_dir"@);
    assert("~/foo"@.skip(2) == "foo"@);
    if forall|i: int|
        0 <= i < joined_path(l.home@, "foo"@).len() ==> joined_path(l.home@, "foo"@)[i] != '{' {
        lemma_substituted_plain(joined_path(l.home@, "foo"@), l);
    }
}

} // verus!
