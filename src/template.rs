//! Rendering of file contents as templates.

use vstd::prelude::*;

use crate::output_path::{lookup, lookup_var};
use crate::stdx::{chars_of, find, find_in, push_char, starts_with, string_of_range};

verus! {

/// The placeholder `{{name}}` at the start of `c`, where `name` is a bound
/// variable: its value, and how many characters the placeholder spans.
pub open spec fn placeholder_at(c: Seq<char>, vars: Seq<(String, String)>) -> Option<
    (Seq<char>, int),
> {
    if starts_with(c, seq!['{', '{']) {
        match find(c.skip(2), seq!['}', '}']) {
            Some(k) => match lookup(vars, c.skip(2).take(k as int)) {
                Some(v) => Some((v, k + 4int)),
                None => None,
            },
            None => None,
        }
    } else {
        None
    }
}

/// `c` rendered with the variables `vars`: each `{{name}}` whose name is
/// bound is replaced by the variable's value; all other text is kept as it is.
pub open spec fn rendered(c: Seq<char>, vars: Seq<(String, String)>) -> Seq<char>
    decreases c.len(),
{
    if c.len() == 0 {
        Seq::empty()
    } else {
        match placeholder_at(c, vars) {
            Some((v, used)) => if 0 < used <= c.len() {
                v + rendered(c.skip(used), vars)
            } else {
                seq![c[0]] + rendered(c.drop_first(), vars)
            },
            None => seq![c[0]] + rendered(c.drop_first(), vars),
        }
    }
}

/// With no variable bound, rendering keeps the text as it is.
pub proof fn lemma_rendered_unbound(c: Seq<char>)
    ensures
        rendered(c, Seq::empty()) == c,
    decreases c.len(),
{
    if c.len() > 0 {
        lemma_rendered_unbound(c.drop_first());
        assert(seq![c[0]] + c.drop_first() == c);
    }
}

/// Renders `contents` as a template with the variables `vars`.
pub fn render(contents: &str, vars: &Vec<(String, String)>) -> (r: String)
    ensures
        r@ == rendered(contents@, vars@),
{
    let v = chars_of(contents);
    let close = vec!['}', '}'];
    let ghost c = contents@;
    let mut out = String::new();
    let mut i: usize = 0;
    assert(c.skip(0) == c);
    while i < v.len()
        invariant
            i <= v.len(),
            v@ == c,
            close@ == seq!['}', '}'],
            out@ + rendered(c.skip(i as int), vars@) == rendered(c, vars@),
        decreases v.len() - i,
    {
        let ghost rest = c.skip(i as int);
        let mut replaced = false;
        if i + 1 < v.len() && v[i] == '{' && v[i + 1] == '{' {
            assert(rest.take(2) =~= seq!['{', '{']);
            assert(rest.skip(2) == v@.subrange(i + 2, v.len() as int));
            match find_in(&v, i + 2, v.len(), &close) {
                Some(j) => {
                    let name = string_of_range(&v, i + 2, j);
                    assert(rest.skip(2).take(j - (i + 2)) == name@);
                    match lookup_var(vars, &name) {
                        Some(value) => {
                            assert(placeholder_at(rest, vars@) == Some((value@, j + 2 - i)));
                            assert(rest.skip(j + 2 - i) == c.skip(j + 2));
                            out.append(value.as_str());
                            i = j + 2;
                            replaced = true;
                        },
                        None => {},
                    }
                },
                None => {},
            }
        } else {
            assert(!starts_with(rest, seq!['{', '{'])) by {
                if starts_with(rest, seq!['{', '{']) {
                    assert(rest[0] == rest.take(2)[0]);
                    assert(rest[1] == rest.take(2)[1]);
                }
            }
        }
        if !replaced {
            assert(rest.drop_first() == c.skip(i + 1int));
            push_char(&mut out, v[i]);
            i = i + 1;
        }
    }
    assert(c.skip(i as int) == Seq::<char>::empty());
    out
}

} // verus!
