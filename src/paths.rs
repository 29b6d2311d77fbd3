//! A model of `/`-separated paths: their components, file names and
//! extensions, and the forms in which the bundler is handed them.

use vstd::prelude::*;
use crate::text::{
    concat_chars, find_last, index_of, last_index_of, lemma_index_of, slice_of, views,
};

verus! {

/// A component that a path names: not empty, and not `.`.
pub open spec fn is_component(c: Seq<char>) -> bool {
    c.len() > 0 && c != seq!['.']
}

/// The components of `s`: its `/`-separated parts, without empty parts and
/// without `.`.
pub open spec fn components(s: Seq<char>) -> Seq<Seq<char>>
    decreases s.len(),
{
    if s.len() == 0 {
        seq![]
    } else {
        let e = index_of(s, '/');
        if 0 <= e < s.len() {
            let head = s.subrange(0, e);
            let rest = components(s.subrange(e + 1, s.len() as int));
            if is_component(head) {
                seq![head] + rest
            } else {
                rest
            }
        } else if is_component(s) {
            seq![s]
        } else {
            seq![]
        }
    }
}

/// The components `cs` joined by `/`.
pub open spec fn join(cs: Seq<Seq<char>>) -> Seq<char>
    decreases cs.len(),
{
    if cs.len() == 0 {
        seq![]
    } else if cs.len() == 1 {
        cs[0]
    } else {
        join(cs.drop_last()) + seq!['/'] + cs.last()
    }
}

pub open spec fn is_absolute(s: Seq<char>) -> bool {
    s.len() > 0 && s[0] == '/'
}

/// `rel` placed under `base`, as `Path::join` places a relative path.
pub open spec fn join_path(base: Seq<char>, rel: Seq<char>) -> Seq<char> {
    if is_absolute(rel) {
        rel
    } else if base.len() == 0 || base.last() == '/' {
        base + rel
    } else {
        base + seq!['/'] + rel
    }
}

/// Where the file name of `s` begins: after its last `/`.
pub open spec fn name_start(s: Seq<char>) -> int {
    last_index_of(s, '/') + 1
}

/// The file name of `s`: what follows its last `/`.
pub open spec fn file_name(s: Seq<char>) -> Seq<char> {
    s.subrange(name_start(s), s.len() as int)
}

/// Where the extension of a file name begins, a dot that is not its first
/// character; `..` has none.
pub open spec fn extension_dot(name: Seq<char>) -> Option<int> {
    let d = last_index_of(name, '.');
    if name != seq!['.', '.'] && d > 0 {
        Some(d)
    } else {
        None
    }
}

/// `s` without the extension of its file name, where it has one.
pub open spec fn strip_extension(s: Seq<char>) -> Seq<char> {
    match extension_dot(file_name(s)) {
        Some(d) => s.subrange(0, name_start(s) + d),
        None => s,
    }
}

/// `tsx` or `jsx`, in any ASCII case.
pub open spec fn is_jsx_extension(e: Seq<char>) -> bool {
    &&& e.len() == 3
    &&& (e[0] == 't' || e[0] == 'T' || e[0] == 'j' || e[0] == 'J')
    &&& (e[1] == 's' || e[1] == 'S')
    &&& (e[2] == 'x' || e[2] == 'X')
}

/// Whether the file name of `s` has the extension `.tsx` or `.jsx`.
pub open spec fn has_jsx_extension(s: Seq<char>) -> bool {
    let name = file_name(s);
    match extension_dot(name) {
        Some(d) => is_jsx_extension(name.subrange(d + 1, name.len() as int)),
        None => false,
    }
}

/// `s` with each `\` written as `/`, the form of an import specifier.
pub open spec fn slashed(s: Seq<char>) -> Seq<char> {
    s.map_values(|c: char| if c == '\\' { '/' } else { c })
}

/// The components of `path` below `root`, where `path` lies inside it.
pub open spec fn relative_components(path: Seq<char>, root: Seq<char>) -> Option<Seq<Seq<char>>> {
    let pc = components(path);
    let rc = components(root);
    if is_absolute(path) == is_absolute(root) && rc.len() <= pc.len() && pc.subrange(
        0,
        rc.len() as int,
    ) == rc {
        Some(pc.subrange(rc.len() as int, pc.len() as int))
    } else {
        None
    }
}

/// The components of `s`, as `components` states them.
pub fn split_components(s: &Vec<char>) -> (r: Vec<Vec<char>>)
    ensures
        views(r@) == components(s@),
{
    let n = s.len();
    let mut out: Vec<Vec<char>> = Vec::new();
    let mut pos: usize = 0;
    assert(s@.subrange(0, n as int) =~= s@);
    while pos < n
        invariant
            n == s@.len(),
            pos <= n,
            components(s@) == views(out@) + components(s@.subrange(pos as int, n as int)),
        decreases n - pos,
    {
        let mut j = pos;
        while j < n && s[j] != '/'
            invariant
                n == s@.len(),
                pos <= j <= n,
                forall|k: int| pos <= k < j ==> s@[k] != '/',
            decreases n - j,
        {
            j += 1;
        }
        let ghost sub = s@.subrange(pos as int, n as int);
        proof {
            lemma_index_of(sub, '/', j - pos);
        }
        let ghost before = out@;
        let head = slice_of(s, pos, j);
        assert(sub.subrange(0, j - pos) =~= head@);
        let keep = head.len() > 0 && !(head.len() == 1 && head[0] == '.');
        assert(keep == is_component(head@)) by {
            if head@ == seq!['.'] {
                assert(head@.len() == 1 && head@[0] == '.');
            }
            if head@.len() == 1 && head@[0] == '.' {
                assert(head@ =~= seq!['.']);
            }
        }
        if keep {
            out.push(head);
        }
        if j < n {
            assert(sub.subrange(j - pos + 1, sub.len() as int) =~= s@.subrange(j + 1, n as int));
            pos = j + 1;
        } else {
            assert(sub.subrange(0, j - pos) =~= sub);
            pos = n;
            assert(components(s@.subrange(pos as int, n as int)) =~= seq![]);
        }
        if keep {
            assert(views(out@) =~= views(before).push(head@));
            assert(views(out@) + components(s@.subrange(pos as int, n as int)) =~= views(before)
                + components(sub));
        } else {
            assert(views(out@) =~= views(before));
        }
    }
    assert(components(s@.subrange(pos as int, n as int)) =~= seq![]);
    assert(views(out@) + seq![] =~= views(out@));
    out
}

/// `cs@[from..to]` joined by `/`.
pub fn join_range(cs: &Vec<Vec<char>>, from: usize, to: usize) -> (r: Vec<char>)
    requires
        from <= to <= cs@.len(),
    ensures
        r@ == join(views(cs@).subrange(from as int, to as int)),
{
    let mut out: Vec<char> = Vec::new();
    let mut i = from;
    assert(views(cs@).subrange(from as int, from as int) =~= seq![]);
    while i < to
        invariant
            from <= i <= to <= cs@.len(),
            out@ == join(views(cs@).subrange(from as int, i as int)),
        decreases to - i,
    {
        let ghost next = views(cs@).subrange(from as int, i + 1);
        assert(next.drop_last() =~= views(cs@).subrange(from as int, i as int));
        if i > from {
            out.push('/');
        }
        out = concat_chars(&out, &cs[i]);
        i += 1;
    }
    out
}

/// Where the stem of `s` ends: before the extension of its file name, or at
/// its end.
pub fn stem_end(s: &Vec<char>) -> (r: usize)
    ensures
        r <= s@.len(),
        s@.subrange(0, r as int) == strip_extension(s@),
{
    let n = s.len();
    let start = match find_last(s, '/') {
        Some(i) => i + 1,
        None => 0,
    };
    let name = slice_of(s, start, n);
    assert(name@ == file_name(s@));
    let dot = find_last(&name, '.');
    let is_dotdot = name.len() == 2 && name[0] == '.' && name[1] == '.';
    assert(is_dotdot == (name@ == seq!['.', '.'])) by {
        if name@ == seq!['.', '.'] {
            assert(name@.len() == 2 && name@[0] == '.' && name@[1] == '.');
        }
        if is_dotdot {
            assert(name@ =~= seq!['.', '.']);
        }
    }
    let stem = match dot {
        Some(d) => if !is_dotdot && d > 0 {
            Some(start + d)
        } else {
            None
        },
        None => None,
    };
    if let Some(e) = stem {
        e
    } else {
        assert(s@.subrange(0, s@.len() as int) =~= s@);
        s.len()
    }
}

/// Whether the file name of `s` ends in `.tsx` or `.jsx`, in any ASCII case.
pub fn is_supported_jsx_extension(s: &Vec<char>) -> (r: bool)
    ensures
        r == has_jsx_extension(s@),
{
    let n = s.len();
    let start = match find_last(s, '/') {
        Some(i) => i + 1,
        None => 0,
    };
    let name = slice_of(s, start, n);
    let dot = find_last(&name, '.');
    let is_dotdot = name.len() == 2 && name[0] == '.' && name[1] == '.';
    assert(is_dotdot == (name@ == seq!['.', '.'])) by {
        if name@ == seq!['.', '.'] {
            assert(name@.len() == 2 && name@[0] == '.' && name@[1] == '.');
        }
        if is_dotdot {
            assert(name@ =~= seq!['.', '.']);
        }
    }
    let d = match dot {
        Some(d) => d,
        None => {
            return false;
        },
    };
    if is_dotdot || d == 0 {
        return false;
    }
    if name.len() - d != 4 {
        return false;
    }
    let a = name[d + 1];
    let b = name[d + 2];
    let c = name[d + 3];
    (a == 't' || a == 'T' || a == 'j' || a == 'J') && (b == 's' || b == 'S') && (c == 'x' || c
        == 'X')
}

/// `s` with each `\` written as `/`.
pub fn to_slashed(s: &Vec<char>) -> (r: Vec<char>)
    ensures
        r@ == slashed(s@),
{
    let mut out: Vec<char> = Vec::new();
    let mut i: usize = 0;
    while i < s.len()
        invariant
            i <= s@.len(),
            out@ == slashed(s@.subrange(0, i as int)),
        decreases s@.len() - i,
    {
        let c = s[i];
        out.push(if c == '\\' { '/' } else { c });
        i += 1;
        assert(out@ =~= slashed(s@.subrange(0, i as int)));
    }
    assert(s@.subrange(0, i as int) =~= s@);
    out
}

} // verus!
