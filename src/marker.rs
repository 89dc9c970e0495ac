//! The marker protocol: a one-line directive on the first line of a managed
//! file, read back from files and written into fetched ones.

use vstd::prelude::*;

use crate::config::{marker_template, shell_words, Marker, GITHUB, MARKER};
use crate::output_path::{interpolated, unresolved_names, Locations, OutputPath};
use crate::stdx::{
    chars_of, ends_with, extension_of, find, find_in, is_text, path_extension, push_char, starts_with,
    string_of_range, views,
};

verus! {

/// The number of characters before the first line break of `c`.
pub open spec fn line_end(c: Seq<char>) -> nat
    decreases c.len(),
{
    if c.len() == 0 || c[0] == '\n' {
        0
    } else {
        1 + line_end(c.drop_first())
    }
}

/// The first line of `c`, without its line break.
pub open spec fn first_line(c: Seq<char>) -> Seq<char> {
    c.take(line_end(c) as int)
}

/// What follows the first line of `c` and its line break.
pub open spec fn after_first_line(c: Seq<char>) -> Seq<char> {
    if line_end(c) < c.len() {
        c.skip(line_end(c) + 1int)
    } else {
        Seq::empty()
    }
}

/// The marker's arguments in the text after its token: a closing block
/// comment delimiter at the end of the line is not one of them.
pub open spec fn args_text(rest: Seq<char>) -> Seq<char> {
    if ends_with(rest, " */"@) {
        rest.take(rest.len() - 3)
    } else if ends_with(rest, " -->"@) {
        rest.take(rest.len() - 4)
    } else {
        rest
    }
}

/// The path template that the marker arguments `args` give, if they parse and
/// give one.
pub open spec fn args_template(args: Seq<char>) -> Option<Seq<char>> {
    match shell_words(args) {
        Some(ws) => match marker_template(ws) {
            Some(Some(t)) => Some(t),
            _ => None,
        },
        None => None,
    }
}

/// The path template of the marker on the first line of `c`, if that line
/// holds the marker token and the arguments after it parse and give a path.
pub open spec fn directive_template(c: Seq<char>) -> Option<Seq<char>> {
    let line = first_line(c);
    match find(line, MARKER@) {
        Some(k) => args_template(args_text(line.skip(k + MARKER@.len() as int))),
        None => None,
    }
}

/// The text of `v` from `from` to `to`, less a closing block comment
/// delimiter at its end.
fn args_of(v: &Vec<char>, from: usize, to: usize) -> (r: String)
    requires
        from <= to <= v.len(),
    ensures
        r@ == args_text(v@.subrange(from as int, to as int)),
{
    let ghost rest = v@.subrange(from as int, to as int);
    proof {
        reveal_strlit(" */");
        reveal_strlit(" -->");
    }
    let n = to - from;
    if n >= 3 && v[to - 3] == ' ' && v[to - 2] == '*' && v[to - 1] == '/' {
        assert(rest.skip(n - 3) == " */"@);
        string_of_range(v, from, to - 3)
    } else if n >= 4 && v[to - 4] == ' ' && v[to - 3] == '-' && v[to - 2] == '-' && v[to - 1]
        == '>' {
        assert(!ends_with(rest, " */"@)) by {
            if ends_with(rest, " */"@) {
                assert(rest.skip(n - 3)[2] == '/');
            }
        }
        assert(rest.skip(n - 4) == " -->"@);
        string_of_range(v, from, to - 4)
    } else {
        assert(!ends_with(rest, " */"@)) by {
            if ends_with(rest, " */"@) {
                assert(rest.skip(n - 3)[0] == ' ');
                assert(rest.skip(n - 3)[1] == '*');
                assert(rest.skip(n - 3)[2] == '/');
            }
        }
        assert(!ends_with(rest, " -->"@)) by {
            if ends_with(rest, " -->"@) {
                assert(rest.skip(n - 4)[0] == ' ');
                assert(rest.skip(n - 4)[1] == '-');
                assert(rest.skip(n - 4)[2] == '-');
                assert(rest.skip(n - 4)[3] == '>');
            }
        }
        string_of_range(v, from, to)
    }
}

/// Reads the marker on the first line of `contents`. Where the line holds the
/// marker token and the arguments after it give a path, returns that path,
/// expanded, the contents without their first line, and the placeholders of
/// the path that were dropped. Otherwise returns no path, the contents
/// unchanged and no name: a marker that does not parse is no marker.
pub fn extract(contents: &str, l: &Locations) -> (r: (Option<OutputPath>, String, Vec<String>))
    ensures
        match directive_template(contents@) {
            Some(t) => r.0 matches Some(p) && p@ == interpolated(t, *l) && r.1@
                == after_first_line(contents@) && views(r.2@) == unresolved_names(t, *l),
            None => r.0 is None && r.1@ == contents@ && r.2@.len() == 0,
        },
{
    let v = chars_of(contents);
    let ghost c = contents@;
    let mut e: usize = 0;
    assert(c.skip(0) == c);
    while e < v.len() && v[e] != '\n'
        invariant
            e <= v.len(),
            v@ == c,
            line_end(c) == e + line_end(c.skip(e as int)),
        decreases v.len() - e,
    {
        assert(c.skip(e as int).drop_first() == c.skip(e + 1int));
        e = e + 1;
    }
    assert(line_end(c) == e);
    let ghost line = first_line(c);
    let tok = chars_of(MARKER);
    proof {
        reveal_strlit("@dots ");
    }
    assert(v@.subrange(0, e as int) == line);
    let k = match find_in(&v, 0, e, &tok) {
        Some(k) => k,
        None => {
            return (None, contents.to_string(), Vec::new());
        },
    };
    assert(find(line, MARKER@) == Some(k as nat));
    let args = args_of(&v, k + tok.len(), e);
    assert(v@.subrange(k + tok.len(), e as int) == line.skip(k + MARKER@.len() as int));
    match Marker::parse(args.as_str(), l) {
        Some(m) => match m.path {
            Some(p) => {
                let remaining = if e < v.len() {
                    string_of_range(&v, e + 1, v.len())
                } else {
                    String::new()
                };
                assert(e < v.len() ==> v@.subrange(e + 1int, v.len() as int) == c.skip(e + 1int));
                (Some(p), remaining, m.dropped)
            },
            None => (None, contents.to_string(), Vec::new()),
        },
        None => (None, contents.to_string(), Vec::new()),
    }
}

/// Start of the first line of the banner of a fetched file, before the
/// project's home: what made it.
pub const GENERATED_BY: &'static str = "generated by dots, ";

/// Second line of the banner of a fetched file.
pub const DO_NOT_EDIT: &'static str = "do not edit this file by hand";

/// Start of the last line of the banner of a fetched file, before the URL.
pub const DOWNLOADED_FROM: &'static str = "downloaded from: ";

/// The comment delimiters (opening, closing) for a file with extension `ext`;
/// the closing one is empty for line comments.
pub open spec fn comment_delims(ext: Option<Seq<char>>) -> (Seq<char>, Seq<char>) {
    match ext {
        Some(e) => if e == "rs"@ || e == "js"@ || e == "ts"@ || e == "c"@ || e == "h"@ || e
            == "cpp"@ || e == "go"@ || e == "java"@ || e == "kdl"@ || e == "jsonc"@ || e
            == "zig"@ {
            ("//"@, Seq::empty())
        } else if e == "lua"@ || e == "sql"@ || e == "hs"@ {
            ("--"@, Seq::empty())
        } else if e == "el"@ || e == "lisp"@ || e == "clj"@ {
            (";;"@, Seq::empty())
        } else if e == "vim"@ {
            ("\""@, Seq::empty())
        } else if e == "css"@ {
            ("/*"@, "*/"@)
        } else if e == "html"@ || e == "xml"@ || e == "md"@ {
            ("<!--"@, "-->"@)
        } else {
            ("#"@, Seq::empty())
        },
        None => ("#"@, Seq::empty()),
    }
}

/// `text` as a one-line comment with delimiters `d`.
pub open spec fn commented(text: Seq<char>, d: (Seq<char>, Seq<char>)) -> Seq<char> {
    d.0 + seq![' '] + text + if d.1.len() == 0 {
        Seq::empty()
    } else {
        seq![' '] + d.1
    }
}

/// The comment line that carries a marker with arguments `args`.
pub open spec fn marker_line(args: Seq<char>, d: (Seq<char>, Seq<char>)) -> Seq<char> {
    commented(MARKER@ + args, d)
}

/// The banner put at the top of a file fetched from `url`, one comment per line.
pub open spec fn banner(url: Seq<char>, d: (Seq<char>, Seq<char>)) -> Seq<char> {
    commented(GENERATED_BY@ + GITHUB@, d) + seq!['\n'] + commented(DO_NOT_EDIT@, d) + seq!['\n']
        + commented(Seq::empty(), d) + seq!['\n'] + commented(DOWNLOADED_FROM@ + url, d)
        + seq!['\n']
}

/// The comment delimiters for the file at `path`, by its extension.
pub fn comment_delims_for(path: &str) -> (r: (String, String))
    ensures
        (r.0@, r.1@) == comment_delims(extension_of(path@)),
{
    match path_extension(path) {
        Some(e) => if is_text(&e, "rs") || is_text(&e, "js") || is_text(&e, "ts") || is_text(
            &e,
            "c",
        ) || is_text(&e, "h") || is_text(&e, "cpp") || is_text(&e, "go") || is_text(&e, "java")
            || is_text(&e, "kdl") || is_text(&e, "jsonc") || is_text(&e, "zig") {
            ("//".to_string(), String::new())
        } else if is_text(&e, "lua") || is_text(&e, "sql") || is_text(&e, "hs") {
            ("--".to_string(), String::new())
        } else if is_text(&e, "el") || is_text(&e, "lisp") || is_text(&e, "clj") {
            (";;".to_string(), String::new())
        } else if is_text(&e, "vim") {
            ("\"".to_string(), String::new())
        } else if is_text(&e, "css") {
            ("/*".to_string(), "*/".to_string())
        } else if is_text(&e, "html") || is_text(&e, "xml") || is_text(&e, "md") {
            ("<!--".to_string(), "-->".to_string())
        } else {
            ("#".to_string(), String::new())
        },
        None => ("#".to_string(), String::new()),
    }
}

/// `text` as a one-line comment with delimiters `d`.
pub fn comment(text: &str, d: &(String, String)) -> (r: String)
    ensures
        r@ == commented(text@, (d.0@, d.1@)),
{
    let mut out = d.0.clone();
    push_char(&mut out, ' ');
    out.append(text);
    if d.1.as_str().unicode_len() > 0 {
        push_char(&mut out, ' ');
        out.append(d.1.as_str());
    }
    out
}

/// The comment line that carries a marker with arguments `args`, in the
/// comment syntax of the file at `path`.
pub fn inject(path: &str, args: &str) -> (r: String)
    ensures
        r@ == marker_line(args@, comment_delims(extension_of(path@))),
{
    let d = comment_delims_for(path);
    let mut text = MARKER.to_string();
    text.append(args);
    comment(text.as_str(), &d)
}

/// The banner for a file fetched from `url`, with delimiters `d`.
pub fn banner_for(url: &str, d: &(String, String)) -> (r: String)
    ensures
        r@ == banner(url@, (d.0@, d.1@)),
{
    let mut by = GENERATED_BY.to_string();
    by.append(GITHUB);
    let mut out = comment(by.as_str(), d);
    push_char(&mut out, '\n');
    out.append(comment(DO_NOT_EDIT, d).as_str());
    push_char(&mut out, '\n');
    out.append(comment("", d).as_str());
    push_char(&mut out, '\n');
    let mut from = DOWNLOADED_FROM.to_string();
    from.append(url);
    out.append(comment(from.as_str(), d).as_str());
    push_char(&mut out, '\n');
    proof {
        reveal_strlit("");
    }
    out
}

/// Whether `s` holds no line break.
pub open spec fn one_line(s: Seq<char>) -> bool {
    forall|i: int| 0 <= i < s.len() ==> s[i] != '\n'
}

/// Whether the arguments `args` can stand in a marker line with delimiters `d`
/// and be read back as they are: on one line, and, where comments have no
/// closing delimiter, not ending as a block comment does.
pub open spec fn readable_args(args: Seq<char>, d: (Seq<char>, Seq<char>)) -> bool {
    &&& one_line(args)
    &&& d.1.len() == 0 ==> !ends_with(args, " */"@) && !ends_with(args, " -->"@)
}

/// Every comment syntax has delimiters on one line, and an opening one without
/// `@`; the closing one is empty, `*/` or `-->`.
proof fn lemma_delims(ext: Option<Seq<char>>)
    ensures
        one_line(comment_delims(ext).0),
        one_line(comment_delims(ext).1),
        forall|i: int|
            0 <= i < comment_delims(ext).0.len() ==> comment_delims(ext).0[i] != '@',
        comment_delims(ext).1.len() == 0 || comment_delims(ext).1 == "*/"@
            || comment_delims(ext).1 == "-->"@,
{
    reveal_strlit("//");
    reveal_strlit("--");
    reveal_strlit(";;");
    reveal_strlit("\"");
    reveal_strlit("/*");
    reveal_strlit("*/");
    reveal_strlit("<!--");
    reveal_strlit("-->");
    reveal_strlit("#");
}

/// The first line of `a`, a line break and `b` is `a`.
proof fn lemma_line_end(a: Seq<char>, b: Seq<char>)
    requires
        one_line(a),
    ensures
        line_end(a + seq!['\n'] + b) == a.len(),
    decreases a.len(),
{
    if a.len() > 0 {
        lemma_line_end(a.drop_first(), b);
        assert((a + seq!['\n'] + b).drop_first() == a.drop_first() + seq!['\n'] + b);
    } else {
        assert((a + seq!['\n'] + b)[0] == '\n');
    }
}

/// Where `a` holds no first character of `needle` and `b` starts with it, the
/// first occurrence of `needle` in `a + b` is right after `a`.
proof fn lemma_find_after(a: Seq<char>, b: Seq<char>, needle: Seq<char>)
    requires
        needle.len() > 0,
        starts_with(b, needle),
        forall|i: int| 0 <= i < a.len() ==> a[i] != needle[0],
    ensures
        find(a + b, needle) == Some(a.len()),
    decreases a.len(),
{
    if a.len() > 0 {
        lemma_find_after(a.drop_first(), b, needle);
        assert((a + b).drop_first() == a.drop_first() + b);
        assert(!starts_with(a + b, needle)) by {
            if starts_with(a + b, needle) {
                assert((a + b).take(needle.len() as int)[0] == needle[0]);
            }
        }
    } else {
        assert(a + b == b);
    }
}

/// A marker line written for the arguments `args`, followed by a line break
/// and any text, is read back as a marker with the template that `args`
/// give, and the text after it is what followed the line.
pub proof fn lemma_marker_read_back(args: Seq<char>, ext: Option<Seq<char>>, rest: Seq<char>)
    requires
        readable_args(args, comment_delims(ext)),
    ensures
        directive_template(marker_line(args, comment_delims(ext)) + seq!['\n'] + rest)
            == args_template(args),
        after_first_line(marker_line(args, comment_delims(ext)) + seq!['\n'] + rest) == rest,
{
    let d = comment_delims(ext);
    lemma_delims(ext);
    reveal_strlit("@dots ");
    reveal_strlit(" */");
    reveal_strlit(" -->");
    reveal_strlit("*/");
    reveal_strlit("-->");
    let close = if d.1.len() == 0 {
        Seq::empty()
    } else {
        seq![' '] + d.1
    };
    let line = marker_line(args, d);
    let open = d.0 + seq![' '];
    let tail = MARKER@ + args + close;
    assert(line == open + tail);
    assert(one_line(line)) by {
        assert forall|i: int| 0 <= i < line.len() implies line[i] != '\n' by {
            if i < open.len() {
                assert(line[i] == open[i]);
            } else if i < open.len() + 6 {
                assert(line[i] == MARKER@[i - open.len()]);
            } else if i < open.len() + 6 + args.len() {
                assert(line[i] == args[i - open.len() - 6]);
            } else {
                assert(line[i] == close[i - open.len() - 6 - args.len()]);
            }
        }
    }
    let c = line + seq!['\n'] + rest;
    lemma_line_end(line, rest);
    assert(first_line(c) == line);
    assert(c.skip(line.len() + 1int) == rest);
    assert(starts_with(tail, MARKER@)) by {
        assert(tail.take(6) == MARKER@);
    }
    lemma_find_after(open, tail, MARKER@);
    assert(line.skip(open.len() + 6int) == args + close);
    if d.1.len() == 0 {
        assert(args + close == args);
    } else if d.1 == "*/"@ {
        assert((args + close).skip(args.len() as int) == " */"@);
        assert((args + close).take(args.len() as int) == args);
    } else {
        assert((args + close).skip(args.len() as int) == " -->"@);
        assert(!ends_with(args + close, " */"@)) by {
            if ends_with(args + close, " */"@) {
                assert(close[1] == '-');
                assert((args + close)[args.len() + 1int] == '-');
                assert((args + close).skip(args.len() + 1int)[0] == '-');
            }
        }
        assert((args + close).take(args.len() as int) == args);
    }
}

} // verus!
