//! Line-based scanning of script and stylesheet sources: the stylesheets
//! that an entry imports statically, the `@import` directive of a stylesheet
//! line, and line-based whitespace minification.

use vstd::prelude::*;
use crate::text::{
    chars_of, ends_with, has_prefix, has_suffix, lines, matches_at, occurs_at, slice_of,
    split_lines, starts_with, string_of, strip_prefix, trim, trim_end_index, trim_start,
    trim_start_index, views,
};

verus! {

pub open spec fn kw_import() -> Seq<char> {
    seq!['i', 'm', 'p', 'o', 'r', 't']
}

pub open spec fn kw_from() -> Seq<char> {
    seq![' ', 'f', 'r', 'o', 'm', ' ']
}

pub open spec fn kw_at_import() -> Seq<char> {
    seq!['@', 'i', 'm', 'p', 'o', 'r', 't']
}

pub open spec fn kw_url() -> Seq<char> {
    seq!['u', 'r', 'l', '(']
}

pub open spec fn css_ext() -> Seq<char> {
    seq!['.', 'c', 's', 's']
}

/// Where the quote that opens `s` closes again.
pub open spec fn closes_at(s: Seq<char>, e: int) -> bool {
    &&& 1 <= e < s.len()
    &&& s[e] == s[0]
    &&& forall|k: int| 1 <= k < e ==> #[trigger] s[k] != s[0]
}

/// The text between the quote (`"` or `'`) that opens `s` and the next
/// occurrence of the same quote.
pub open spec fn quoted(s: Seq<char>) -> Option<Seq<char>> {
    if s.len() > 0 && (s[0] == '"' || s[0] == '\'') && exists|e: int| closes_at(s, e) {
        Some(s.subrange(1, choose|e: int| closes_at(s, e)))
    } else {
        None
    }
}

/// The last position at which `p` occurs in `s`.
pub open spec fn last_occurrence(s: Seq<char>, p: Seq<char>, i: int) -> bool {
    &&& occurs_at(s, p, i)
    &&& forall|j: int| i < j ==> !occurs_at(s, p, j)
}

/// The module that a line of script imports statically: the line starts,
/// after white space, with `import`; what follows is not a call `(`; the
/// specifier is the quoted text after the last ` from `, or, where there is
/// none, right after the keyword.
pub open spec fn js_import_specifier(line: Seq<char>) -> Option<Seq<char>> {
    match strip_prefix(trim_start(line), kw_import()) {
        None => None,
        Some(after) => {
            let rem = trim_start(after);
            if rem.len() == 0 || rem[0] == '(' {
                None
            } else {
                specifier_after(rem)
            }
        },
    }
}

/// The quoted specifier after the last ` from ` of `rem`, or at its start
/// where there is none.
pub open spec fn specifier_after(rem: Seq<char>) -> Option<Seq<char>> {
    if exists|i: int| last_occurrence(rem, kw_from(), i) {
        let i = choose|i: int| last_occurrence(rem, kw_from(), i);
        quoted(trim_start(rem.subrange(i + kw_from().len(), rem.len() as int)))
    } else {
        quoted(rem)
    }
}

/// The stylesheets imported by the lines `ls`, in order, duplicates kept.
pub open spec fn css_imports(ls: Seq<Seq<char>>) -> Seq<Seq<char>>
    decreases ls.len(),
{
    if ls.len() == 0 {
        seq![]
    } else {
        let before = css_imports(ls.drop_last());
        match js_import_specifier(ls.last()) {
            Some(sp) => if ends_with(sp, css_ext()) {
                before.push(sp)
            } else {
                before
            },
            None => before,
        }
    }
}

/// The stylesheet that a line of a stylesheet `@import`s by a quoted
/// specifier (an `@import url(...)` is not one).
pub open spec fn css_import_specifier(line: Seq<char>) -> Option<Seq<char>> {
    match strip_prefix(trim(line), kw_at_import()) {
        None => None,
        Some(after) => {
            let rem = trim_start(after);
            if starts_with(rem, kw_url()) {
                None
            } else {
                quoted(rem)
            }
        },
    }
}

pub open spec fn string_views(v: Seq<String>) -> Seq<Seq<char>> {
    v.map_values(|x: String| x@)
}

/// The quoted text that opens `s@[from..]`, as `quoted` states it.
fn extract_quoted_string(s: &Vec<char>, from: usize) -> (r: Option<Vec<char>>)
    requires
        from <= s@.len(),
    ensures
        match r {
            Some(q) => quoted(s@.subrange(from as int, s@.len() as int)) == Some(q@),
            None => quoted(s@.subrange(from as int, s@.len() as int)) is None,
        },
{
    let ghost t = s@.subrange(from as int, s@.len() as int);
    let n = s.len();
    if from >= n {
        return None;
    }
    let q = s[from];
    if q != '"' && q != '\'' {
        return None;
    }
    let mut e = from + 1;
    while e < n && s[e] != q
        invariant
            n == s@.len(),
            from < e <= n,
            t == s@.subrange(from as int, n as int),
            q == t[0],
            forall|k: int| 1 <= k < e - from ==> #[trigger] t[k] != t[0],
        decreases n - e,
    {
        e += 1;
    }
    if e == n {
        assert(!exists|x: int| closes_at(t, x)) by {
            if exists|x: int| closes_at(t, x) {
                let x = choose|x: int| closes_at(t, x);
                assert(t[x] != t[0]);
            }
        }
        None
    } else {
        let ghost w = e - from;
        assert(closes_at(t, w));
        let ghost c = choose|x: int| closes_at(t, x);
        assert(c == w) by {
            if c < w {
                assert(t[c] != t[0]);
            } else if c > w {
                assert(t[w] != t[0]);
            }
        }
        let out = slice_of(s, from + 1, e);
        assert(out@ =~= t.subrange(1, w));
        Some(out)
    }
}

proof fn lemma_suffix_occurs(s: Seq<char>, p: Seq<char>, from: int)
    requires
        0 <= from <= s.len(),
    ensures
        forall|i: int|
            #![trigger occurs_at(s.subrange(from, s.len() as int), p, i)]
            0 <= i ==> (occurs_at(s.subrange(from, s.len() as int), p, i) <==> occurs_at(
                s,
                p,
                from + i,
            )),
{
    let t = s.subrange(from, s.len() as int);
    assert forall|i: int| 0 <= i implies (occurs_at(t, p, i) <==> occurs_at(s, p, from + i)) by {
        if i + p.len() <= t.len() {
            assert(t.subrange(i, i + p.len()) =~= s.subrange(from + i, from + i + p.len()));
        }
    }
}

proof fn lemma_suffix_trim_start(s: Seq<char>, a: int, b: int)
    requires
        0 <= a <= b <= s.len(),
    ensures
        s.subrange(a, s.len() as int).subrange(b - a, s.len() - a) == s.subrange(b, s.len() as int),
{
    assert(s.subrange(a, s.len() as int).subrange(b - a, s.len() - a) =~= s.subrange(b, s.len() as int));
}

/// The module that `line` imports statically, as `js_import_specifier`
/// states it.
pub fn parse_static_js_import_specifier(line: &Vec<char>) -> (r: Option<Vec<char>>)
    ensures
        match r {
            Some(q) => js_import_specifier(line@) == Some(q@),
            None => js_import_specifier(line@) is None,
        },
{
    let n = line.len();
    let ghost full = line@.subrange(0, n as int);
    assert(full =~= line@);
    let kw: Vec<char> = vec!['i', 'm', 'p', 'o', 'r', 't'];
    let i = trim_start_index(line, 0);
    let ghost ts = line@.subrange(i as int, n as int);
    if !matches_at(line, &kw, i) {
        assert(!starts_with(ts, kw_import())) by {
            if starts_with(ts, kw_import()) {
                assert(line@.subrange(i as int, i + 6) =~= ts.subrange(0, 6));
            }
        }
        return None;
    }
    assert(ts.subrange(0, 6) =~= line@.subrange(i as int, i + 6));
    let j = i + 6;
    proof {
        lemma_suffix_trim_start(line@, i as int, j as int);
    }
    let k = trim_start_index(line, j);
    let ghost rem = line@.subrange(k as int, n as int);
    assert(rem == trim_start(ts.subrange(6, ts.len() as int)));
    if k == n || line[k] == '(' {
        return None;
    }
    specifier_after_at(line, k)
}

/// The specifier of `line@[k..]`, as `specifier_after` states it.
fn specifier_after_at(line: &Vec<char>, k: usize) -> (r: Option<Vec<char>>)
    requires
        k <= line@.len(),
    ensures
        match r {
            Some(q) => specifier_after(line@.subrange(k as int, line@.len() as int)) == Some(q@),
            None => specifier_after(line@.subrange(k as int, line@.len() as int)) is None,
        },
{
    let n = line.len();
    let ghost rem = line@.subrange(k as int, n as int);
    let from_kw: Vec<char> = vec![' ', 'f', 'r', 'o', 'm', ' '];
    proof {
        lemma_suffix_occurs(line@, kw_from(), k as int);
    }
    // the last ` from ` at or after `k`
    let mut found: Option<usize> = None;
    let mut a: usize = n;
    while found.is_none() && a > k
        invariant
            n == line@.len(),
            k <= a <= n,
            from_kw@ == kw_from(),
            match found {
                Some(at) => at == a && occurs_at(line@, kw_from(), at as int) && forall|x: int|
                    a < x ==> !occurs_at(line@, kw_from(), x),
                None => forall|x: int| a <= x ==> !occurs_at(line@, kw_from(), x),
            },
        decreases a,
    {
        a -= 1;
        if matches_at(line, &from_kw, a) {
            found = Some(a);
        }
    }
    match found {
        Some(at) => {
            let ghost w = at - k;
            assert(last_occurrence(rem, kw_from(), w)) by {
                assert forall|x: int| w < x implies !occurs_at(rem, kw_from(), x) by {
                    assert(!occurs_at(line@, kw_from(), k + x));
                }
            }
            let ghost c = choose|x: int| last_occurrence(rem, kw_from(), x);
            assert(c == w) by {
                if c < w {
                    assert(!occurs_at(rem, kw_from(), w));
                } else if c > w {
                    assert(!occurs_at(rem, kw_from(), c));
                }
            }
            assert(at + 6 <= n);
            proof {
                lemma_suffix_trim_start(line@, k as int, at + 6);
            }
            let b = trim_start_index(line, at + 6);
            extract_quoted_string(line, b)
        },
        None => {
            assert(!exists|x: int| last_occurrence(rem, kw_from(), x)) by {
                if exists|x: int| last_occurrence(rem, kw_from(), x) {
                    let x = choose|x: int| last_occurrence(rem, kw_from(), x);
                    assert(occurs_at(rem, kw_from(), x));
                    assert(occurs_at(line@, kw_from(), k + x));
                }
            }
            extract_quoted_string(line, k)
        },
    }
}

/// The stylesheets that `source` imports statically, in source order.
pub open spec fn direct_css_imports(source: Seq<char>) -> Seq<Seq<char>> {
    css_imports(lines(source))
}

/// The stylesheet specifiers of the static `import` lines of `source`, in
/// order, duplicates kept; a dynamic `import(...)` is no such line.
pub fn collect_direct_css_imports(source: &str) -> (r: Vec<String>)
    ensures
        string_views(r@) == direct_css_imports(source@),
{
    let chars = chars_of(source);
    let ls = split_lines(&chars);
    let ext: Vec<char> = vec!['.', 'c', 's', 's'];
    let mut out: Vec<String> = Vec::new();
    let mut i: usize = 0;
    while i < ls.len()
        invariant
            i <= ls@.len(),
            views(ls@) == lines(source@),
            ext@ == css_ext(),
            string_views(out@) == css_imports(views(ls@).subrange(0, i as int)),
        decreases ls@.len() - i,
    {
        let ghost prefix = views(ls@).subrange(0, i + 1);
        assert(prefix.drop_last() =~= views(ls@).subrange(0, i as int));
        assert(prefix.last() == ls@[i as int]@);
        let ghost before = out@;
        match parse_static_js_import_specifier(&ls[i]) {
            Some(sp) => {
                if has_suffix(&sp, &ext) {
                    out.push(string_of(&sp));
                    assert(string_views(out@) =~= string_views(before).push(sp@));
                }
            },
            None => {},
        }
        i += 1;
    }
    assert(views(ls@).subrange(0, i as int) =~= views(ls@));
    out
}

/// The specifier that a stylesheet line `@import`s, as `css_import_specifier`
/// states it.
pub fn parse_css_import_specifier(line: &Vec<char>) -> (r: Option<Vec<char>>)
    ensures
        match r {
            Some(q) => css_import_specifier(line@) == Some(q@),
            None => css_import_specifier(line@) is None,
        },
{
    let n = line.len();
    let i = trim_start_index(line, 0);
    assert(line@.subrange(0, n as int) =~= line@);
    let e = trim_end_index(line, i, n);
    let t = slice_of(line, i, e);
    assert(t@ == trim(line@));
    let kw: Vec<char> = vec!['@', 'i', 'm', 'p', 'o', 'r', 't'];
    if !has_prefix(&t, &kw) {
        return None;
    }
    let ghost after = t@.subrange(7, t@.len() as int);
    let k = trim_start_index(&t, 7);
    let rem = slice_of(&t, k, t.len());
    assert(rem@ == trim_start(after));
    let url: Vec<char> = vec!['u', 'r', 'l', '('];
    if has_prefix(&rem, &url) {
        return None;
    }
    let r = extract_quoted_string(&rem, 0);
    assert(rem@.subrange(0, rem@.len() as int) =~= rem@);
    r
}

/// Line-based minification of `lines`: each line trimmed, blank lines
/// dropped, the rest joined with nothing between.
pub open spec fn minified_body(ls: Seq<Seq<char>>) -> Seq<char>
    decreases ls.len(),
{
    if ls.len() == 0 {
        seq![]
    } else {
        minified_body(ls.drop_last()) + trim(ls.last())
    }
}

/// `css` as `maybe_minify_css` returns it: unchanged where `minify` is
/// false; else the minified lines, with one final line feed if any remain.
pub open spec fn minified(css: Seq<char>, minify: bool) -> Seq<char> {
    if !minify {
        css
    } else {
        let body = minified_body(lines(css));
        if body.len() > 0 {
            body.push('\n')
        } else {
            body
        }
    }
}

pub fn maybe_minify_css(css: String, minify: bool) -> (r: String)
    ensures
        r@ == minified(css@, minify),
{
    if !minify {
        return css;
    }
    let chars = chars_of(css.as_str());
    let ls = split_lines(&chars);
    let mut out: Vec<char> = Vec::new();
    let mut i: usize = 0;
    while i < ls.len()
        invariant
            i <= ls@.len(),
            views(ls@) == lines(css@),
            out@ == minified_body(views(ls@).subrange(0, i as int)),
        decreases ls@.len() - i,
    {
        let ghost prefix = views(ls@).subrange(0, i + 1);
        assert(prefix.drop_last() =~= views(ls@).subrange(0, i as int));
        assert(prefix.last() == ls@[i as int]@);
        let line = &ls[i];
        let a = trim_start_index(line, 0);
        assert(line@.subrange(0, line@.len() as int) =~= line@);
        let b = trim_end_index(line, a, line.len());
        let ghost before = out@;
        let mut k = a;
        while k < b
            invariant
                a <= k <= b <= line@.len(),
                out@ == before + line@.subrange(a as int, k as int),
            decreases b - k,
        {
            out.push(line[k]);
            k += 1;
            assert(out@ =~= before + line@.subrange(a as int, k as int));
        }
        i += 1;
    }
    assert(views(ls@).subrange(0, i as int) =~= views(ls@));
    if out.len() > 0 {
        out.push('\n');
    }
    string_of(&out)
}

} // verus!
