//! Page descriptors and their normalization into a build plan: validation,
//! derived output names, collision detection and ordering.

use vstd::prelude::*;
use crate::paths::{
    components, has_jsx_extension, is_absolute, is_supported_jsx_extension, join, join_path,
    join_range, relative_components, slashed, split_components, stem_end, strip_extension,
    to_slashed,
};
use crate::scan::css_ext;
use crate::text::{
    chars_of, concat_chars, lemma_lex_total, lemma_lex_transitive,
    lex_le, lex_lt, same_chars, slice_of, str_lt, string_of, views,
};

verus! {

/// A failure of planning a build: the caller's input is wrong
/// (`Validation`), or the environment failed (`Runtime`).
pub enum BundleError {
    Validation(String),
    Runtime(String),
}

/// What a `BundleError` says, as text.
pub enum Failure {
    Validation(Seq<char>),
    Runtime(Seq<char>),
}

impl View for BundleError {
    type V = Failure;

    open spec fn view(&self) -> Failure {
        match self {
            BundleError::Validation(m) => Failure::Validation(m@),
            BundleError::Runtime(m) => Failure::Runtime(m@),
        }
    }
}

impl BundleError {
    /// The message of the error, whichever its kind.
    pub fn message(&self) -> (r: String)
        ensures
            r@ == match self@ {
                Failure::Validation(m) => m,
                Failure::Runtime(m) => m,
            },
    {
        match self {
            BundleError::Validation(m) => m.clone(),
            BundleError::Runtime(m) => m.clone(),
        }
    }

    pub fn is_validation(&self) -> (r: bool)
        ensures
            r == (self@ is Validation),
    {
        match self {
            BundleError::Validation(_) => true,
            BundleError::Runtime(_) => false,
        }
    }
}

pub open spec fn msg_empty() -> Seq<char> {
    "`pages` must not be empty; expected at least one .tsx or .jsx file"@
}

pub open spec fn msg_root(root: Seq<char>, cause: Seq<char>) -> Seq<char> {
    "failed to resolve current working directory "@ + root + ": "@ + cause
}

pub open spec fn msg_missing(path: Seq<char>) -> Seq<char> {
    "input path does not exist: "@ + path
}

pub open spec fn msg_not_file(path: Seq<char>) -> Seq<char> {
    "input path is not a file: "@ + path
}

pub open spec fn msg_extension(path: Seq<char>) -> Seq<char> {
    "input path must end in .tsx or .jsx: "@ + path
}

pub open spec fn msg_canonicalize(path: Seq<char>, cause: Seq<char>) -> Seq<char> {
    "failed to canonicalize input "@ + path + ": "@ + cause
}

pub open spec fn msg_outside(root: Seq<char>, path: Seq<char>) -> Seq<char> {
    "input path must resolve inside cwd "@ + root + ": "@ + path
}

pub open spec fn msg_ssr(path: Seq<char>) -> Seq<char> {
    "page cannot set ssr=true when app=false: "@ + path
}

pub open spec fn msg_app_file(path: Seq<char>) -> Seq<char> {
    "app pages must target page.tsx or page.jsx: "@ + path
}

pub open spec fn msg_app_dir(path: Seq<char>) -> Seq<char> {
    "app pages must be inside an apps/ directory: "@ + path
}

pub open spec fn msg_app_tool(path: Seq<char>) -> Seq<char> {
    "app pages must include at least one segment below apps/: "@ + path
}

pub open spec fn msg_collision(
    output: Seq<char>,
    first: Seq<char>,
    second: Seq<char>,
) -> Seq<char> {
    "multiple pages map to the same output "@ + output + ": "@ + first + " and "@ + second
}

/// A literal message followed by `tail`.
fn message_with(head: &str, tail: &str) -> (r: String)
    ensures
        r@ == head@ + tail@,
{
    let mut m = String::from_str(head);
    m.append(tail);
    m
}


/// `a@ + b@ + c@ + d@`.
fn message4(a: &str, b: &str, c: &str, d: &str) -> (r: String)
    ensures
        r@ == a@ + b@ + c@ + d@,
{
    let mut m = String::from_str(a);
    m.append(b);
    m.append(c);
    m.append(d);
    m
}

pub open spec fn page_tsx() -> Seq<char> {
    seq!['p', 'a', 'g', 'e', '.', 't', 's', 'x']
}

pub open spec fn page_jsx() -> Seq<char> {
    seq!['p', 'a', 'g', 'e', '.', 'j', 's', 'x']
}

/// The directory under the root that holds app pages.
pub open spec fn apps_dir() -> Seq<char> {
    seq!['a', 'p', 'p', 's']
}

pub open spec fn client_suffix() -> Seq<char> {
    seq!['/', 'c', 'l', 'i', 'e', 'n', 't']
}

pub open spec fn server_suffix() -> Seq<char> {
    seq!['/', 's', 'e', 'r', 'v', 'e', 'r']
}

pub open spec fn js_ext() -> Seq<char> {
    seq!['.', 'j', 's']
}

/// A page together with what the file system says of its path: whether it
/// exists, whether it is a regular file, and its canonical form (or why
/// that could not be had).
pub struct PageProbe {
    pub path: String,
    pub app: bool,
    pub ssr: bool,
    pub exists: bool,
    pub is_file: bool,
    pub canonical: Result<String, String>,
}

pub struct ProbeView {
    pub path: Seq<char>,
    pub app: bool,
    pub ssr: bool,
    pub exists: bool,
    pub is_file: bool,
    pub canonical: Result<Seq<char>, Seq<char>>,
}

impl View for PageProbe {
    type V = ProbeView;

    open spec fn view(&self) -> ProbeView {
        ProbeView {
            path: self.path@,
            app: self.app,
            ssr: self.ssr,
            exists: self.exists,
            is_file: self.is_file,
            canonical: match self.canonical {
                Ok(c) => Ok(c@),
                Err(e) => Err(e@),
            },
        }
    }
}

/// The build root as given, and its canonical form (or why that could not
/// be had).
pub struct RootProbe {
    pub path: String,
    pub canonical: Result<String, String>,
}

/// One entry of a build plan.
pub struct NormalizedPage {
    absolute_path: String,
    import: String,
    app: bool,
    ssr: bool,
    client_name: String,
    client_css_path: String,
    server_name: Option<String>,
}

pub struct EntryView {
    /// The canonical path of the source.
    pub absolute_path: Seq<char>,
    /// The source's path below the root, with `/` separators.
    pub import: Seq<char>,
    pub app: bool,
    pub ssr: bool,
    /// The name of the client bundle, without extension.
    pub client_name: Seq<char>,
    /// The stylesheet output below the output directory.
    pub client_css_path: Seq<char>,
    /// The name of the server bundle, where the page renders on the server.
    pub server_name: Option<Seq<char>>,
}

impl View for NormalizedPage {
    type V = EntryView;

    closed spec fn view(&self) -> EntryView {
        EntryView {
            absolute_path: self.absolute_path@,
            import: self.import@,
            app: self.app,
            ssr: self.ssr,
            client_name: self.client_name@,
            client_css_path: self.client_css_path@,
            server_name: match self.server_name {
                Some(n) => Some(n@),
                None => None,
            },
        }
    }
}

impl NormalizedPage {
    /// The entries that normalization makes: a server name exactly where
    /// the page renders on the server.
    pub open spec fn wf(&self) -> bool {
        self@.ssr <==> self@.server_name is Some
    }

    pub fn absolute_path(&self) -> (r: &str)
        ensures
            r@ == self@.absolute_path,
    {
        self.absolute_path.as_str()
    }

    pub fn import(&self) -> (r: &str)
        ensures
            r@ == self@.import,
    {
        self.import.as_str()
    }

    pub fn app(&self) -> (r: bool)
        ensures
            r == self@.app,
    {
        self.app
    }

    pub fn ssr(&self) -> (r: bool)
        ensures
            r == self@.ssr,
    {
        self.ssr
    }

    pub fn client_name(&self) -> (r: &str)
        ensures
            r@ == self@.client_name,
    {
        self.client_name.as_str()
    }

    pub fn client_css_path(&self) -> (r: &str)
        ensures
            r@ == self@.client_css_path,
    {
        self.client_css_path.as_str()
    }

    pub fn server_name(&self) -> (r: Option<&str>)
        ensures
            match r {
                Some(n) => self@.server_name == Some(n@),
                None => self@.server_name is None,
            },
    {
        match &self.server_name {
            Some(n) => Some(n.as_str()),
            None => None,
        }
    }
}

/// An entry with the output paths that it claims (its client and server
/// scripts, below the output directory).
pub struct PageOutcome {
    pub entry: EntryView,
    pub client_js: Seq<char>,
    pub server_js: Option<Seq<char>>,
}

/// An app page's outputs, named after its tool directory: the components
/// between `apps` and the file name `page.tsx` or `page.jsx`.
pub open spec fn app_outcome(
    p: ProbeView,
    canonical: Seq<char>,
    rel: Seq<Seq<char>>,
) -> Result<PageOutcome, Failure> {
    let n = rel.len();
    if n == 0 || !(rel.last() == page_tsx() || rel.last() == page_jsx()) {
        Err(Failure::Validation(msg_app_file(p.path)))
    } else if rel[0] != apps_dir() {
        Err(Failure::Validation(msg_app_dir(p.path)))
    } else if n < 3 {
        Err(Failure::Validation(msg_app_tool(p.path)))
    } else {
        let tool = join(rel.subrange(1, n - 1));
        let client_stem = tool + client_suffix();
        let server_stem = tool + server_suffix();
        Ok(
            PageOutcome {
                entry: EntryView {
                    absolute_path: canonical,
                    import: slashed(join(rel)),
                    app: true,
                    ssr: p.ssr,
                    client_name: slashed(client_stem),
                    client_css_path: client_stem + css_ext(),
                    server_name: if p.ssr {
                        Some(slashed(server_stem))
                    } else {
                        None
                    },
                },
                client_js: client_stem + js_ext(),
                server_js: if p.ssr {
                    Some(server_stem + js_ext())
                } else {
                    None
                },
            },
        )
    }
}

/// A plain page's outputs, named after its own path without extension.
pub open spec fn plain_outcome(p: ProbeView, canonical: Seq<char>, rel: Seq<Seq<char>>) -> PageOutcome {
    let stem = strip_extension(join(rel));
    PageOutcome {
        entry: EntryView {
            absolute_path: canonical,
            import: slashed(join(rel)),
            app: false,
            ssr: p.ssr,
            client_name: slashed(stem),
            client_css_path: stem + css_ext(),
            server_name: None,
        },
        client_js: stem + js_ext(),
        server_js: None,
    }
}

/// One page checked and laid out against the canonical root, the first
/// failed rule deciding the error.
pub open spec fn page_entry(p: ProbeView, root: Seq<char>) -> Result<PageOutcome, Failure> {
    if !p.exists {
        Err(Failure::Validation(msg_missing(p.path)))
    } else if !p.is_file {
        Err(Failure::Validation(msg_not_file(p.path)))
    } else if !has_jsx_extension(p.path) {
        Err(Failure::Validation(msg_extension(p.path)))
    } else {
        match p.canonical {
            Err(cause) => Err(Failure::Runtime(msg_canonicalize(p.path, cause))),
            Ok(c) => match relative_components(c, root) {
                None => Err(Failure::Validation(msg_outside(root, c))),
                Some(rel) => if p.ssr && !p.app {
                    Err(Failure::Validation(msg_ssr(p.path)))
                } else if p.app {
                    app_outcome(p, c, rel)
                } else {
                    Ok(plain_outcome(p, c, rel))
                },
            },
        }
    }
}

/// The components of `path` below `root`, as `relative_components` states them.
fn relative_parts(path: &Vec<char>, root: &Vec<char>, root_comps: &Vec<Vec<char>>) -> (r: Option<
    Vec<Vec<char>>,
>)
    requires
        views(root_comps@) == components(root@),
    ensures
        match r {
            Some(rel) => relative_components(path@, root@) == Some(views(rel@)),
            None => relative_components(path@, root@) is None,
        },
{
    let mut pc = split_components(path);
    let pa = path.len() > 0 && path[0] == '/';
    let ra = root.len() > 0 && root[0] == '/';
    let m = root_comps.len();
    assert(pa == is_absolute(path@));
    assert(ra == is_absolute(root@));
    assert(views(pc@).len() == pc@.len());
    assert(views(root_comps@).len() == m);
    if pa != ra || m > pc.len() {
        return None;
    }
    let mut i: usize = 0;
    while i < m
        invariant
            views(pc@) == components(path@),
            views(root_comps@) == components(root@),
            m == root_comps@.len(),
            m <= pc@.len(),
            i <= m,
            forall|k: int| 0 <= k < i ==> views(pc@)[k] == views(root_comps@)[k],
        decreases m - i,
    {
        if !same_chars(&pc[i], &root_comps[i]) {
            assert(views(pc@).subrange(0, m as int)[i as int] != views(root_comps@)[i as int]);
            return None;
        }
        i += 1;
    }
    assert(views(pc@).subrange(0, m as int) =~= views(root_comps@));
    let ghost whole = views(pc@);
    let rel = pc.split_off(m);
    assert(views(rel@) =~= whole.subrange(m as int, whole.len() as int));
    Some(rel)
}


/// An entry with the output paths it claims, as `PageOutcome` states them.
struct Planned {
    page: NormalizedPage,
    client_js: Vec<char>,
    server_js: Option<Vec<char>>,
}

impl View for Planned {
    type V = PageOutcome;

    closed spec fn view(&self) -> PageOutcome {
        PageOutcome {
            entry: self.page@,
            client_js: self.client_js@,
            server_js: match self.server_js {
                Some(k) => Some(k@),
                None => None,
            },
        }
    }
}

/// The outputs of an app page whose components below the root are `rel`.
fn app_planned(p: &PageProbe, canonical: &String, rel: &Vec<Vec<char>>) -> (r: Result<
    Planned,
    BundleError,
>)
    ensures
        match r {
            Ok(o) => app_outcome(p@, canonical@, views(rel@)) == Ok::<PageOutcome, Failure>(o@),
            Err(e) => app_outcome(p@, canonical@, views(rel@)) == Err::<PageOutcome, Failure>(e@),
        },
{
    let n = rel.len();
    let page_tsx: Vec<char> = vec!['p', 'a', 'g', 'e', '.', 't', 's', 'x'];
    let page_jsx: Vec<char> = vec!['p', 'a', 'g', 'e', '.', 'j', 's', 'x'];
    if n == 0 || !(same_chars(&rel[n - 1], &page_tsx) || same_chars(&rel[n - 1], &page_jsx)) {
        return Err(
            BundleError::Validation(
                message_with("app pages must target page.tsx or page.jsx: ", p.path.as_str()),
            ),
        );
    }
    let apps: Vec<char> = vec!['a', 'p', 'p', 's'];
    if !same_chars(&rel[0], &apps) {
        return Err(
            BundleError::Validation(
                message_with("app pages must be inside an apps/ directory: ", p.path.as_str()),
            ),
        );
    }
    if n < 3 {
        return Err(
            BundleError::Validation(
                message_with(
                    "app pages must include at least one segment below apps/: ",
                    p.path.as_str(),
                ),
            ),
        );
    }
    let tool = join_range(rel, 1, n - 1);
    let client_stem = concat_chars(&tool, &vec!['/', 'c', 'l', 'i', 'e', 'n', 't']);
    let server_stem = concat_chars(&tool, &vec!['/', 's', 'e', 'r', 'v', 'e', 'r']);
    assert(views(rel@).subrange(0, n as int) =~= views(rel@));
    let joined = join_range(rel, 0, n);
    let import = string_of(&to_slashed(&joined));
    let client_name = string_of(&to_slashed(&client_stem));
    let client_css_path = string_of(&concat_chars(&client_stem, &vec!['.', 'c', 's', 's']));
    let client_js = concat_chars(&client_stem, &vec!['.', 'j', 's']);
    let (server_name, server_js) = if p.ssr {
        (
            Some(string_of(&to_slashed(&server_stem))),
            Some(concat_chars(&server_stem, &vec!['.', 'j', 's'])),
        )
    } else {
        (None, None)
    };
    let page = NormalizedPage {
        absolute_path: canonical.clone(),
        import,
        app: true,
        ssr: p.ssr,
        client_name,
        client_css_path,
        server_name,
    };
    Ok(Planned { page, client_js, server_js })
}

/// The outputs of a plain page whose components below the root are `rel`.
fn plain_planned(p: &PageProbe, canonical: &String, rel: &Vec<Vec<char>>) -> (r: Planned)
    ensures
        r@ == plain_outcome(p@, canonical@, views(rel@)),
{
    let n = rel.len();
    assert(views(rel@).subrange(0, n as int) =~= views(rel@));
    let joined = join_range(rel, 0, n);
    let e = stem_end(&joined);
    let stem = slice_of(&joined, 0, e);
    let page = NormalizedPage {
        absolute_path: canonical.clone(),
        import: string_of(&to_slashed(&joined)),
        app: false,
        ssr: p.ssr,
        client_name: string_of(&to_slashed(&stem)),
        client_css_path: string_of(&concat_chars(&stem, &vec!['.', 'c', 's', 's'])),
        server_name: None,
    };
    Planned { page, client_js: concat_chars(&stem, &vec!['.', 'j', 's']), server_js: None }
}

/// One page checked and laid out, as `page_entry` states it.
fn normalize_page(p: &PageProbe, root: &String, root_comps: &Vec<Vec<char>>) -> (r: Result<
    Planned,
    BundleError,
>)
    requires
        views(root_comps@) == components(root@),
    ensures
        match r {
            Ok(o) => page_entry(p@, root@) == Ok::<PageOutcome, Failure>(o@),
            Err(e) => page_entry(p@, root@) == Err::<PageOutcome, Failure>(e@),
        },
{
    if !p.exists {
        return Err(
            BundleError::Validation(message_with("input path does not exist: ", p.path.as_str())),
        );
    }
    if !p.is_file {
        return Err(
            BundleError::Validation(message_with("input path is not a file: ", p.path.as_str())),
        );
    }
    let path = chars_of(p.path.as_str());
    if !is_supported_jsx_extension(&path) {
        return Err(
            BundleError::Validation(
                message_with("input path must end in .tsx or .jsx: ", p.path.as_str()),
            ),
        );
    }
    let canonical = match &p.canonical {
        Err(cause) => {
            return Err(
                BundleError::Runtime(
                    message4(
                        "failed to canonicalize input ",
                        p.path.as_str(),
                        ": ",
                        cause.as_str(),
                    ),
                ),
            );
        },
        Ok(c) => c,
    };
    let cchars = chars_of(canonical.as_str());
    let rchars = chars_of(root.as_str());
    let rel = match relative_parts(&cchars, &rchars, root_comps) {
        None => {
            return Err(
                BundleError::Validation(
                    message4(
                        "input path must resolve inside cwd ",
                        root.as_str(),
                        ": ",
                        canonical.as_str(),
                    ),
                ),
            );
        },
        Some(rel) => rel,
    };
    if p.ssr && !p.app {
        return Err(
            BundleError::Validation(
                message_with("page cannot set ssr=true when app=false: ", p.path.as_str()),
            ),
        );
    }
    if p.app {
        app_planned(p, canonical, &rel)
    } else {
        Ok(plain_planned(p, canonical, &rel))
    }
}


/// The outputs claimed by `done`, in the order they were claimed, each with
/// the import specifier that claimed it.
pub open spec fn occupied(done: Seq<PageOutcome>) -> Seq<(Seq<char>, Seq<char>)>
    decreases done.len(),
{
    if done.len() == 0 {
        seq![]
    } else {
        let o = done.last();
        let before = occupied(done.drop_last()).push((o.client_js, o.entry.import));
        match o.server_js {
            Some(k) => before.push((k, o.entry.import)),
            None => before,
        }
    }
}

/// The import specifier that first claimed `key`.
pub open spec fn owner(occ: Seq<(Seq<char>, Seq<char>)>, key: Seq<char>) -> Option<Seq<char>>
    decreases occ.len(),
{
    if occ.len() == 0 {
        None
    } else if occ[0].0 == key {
        Some(occ[0].1)
    } else {
        owner(occ.drop_first(), key)
    }
}

/// `o` added to the plan `done`, unless one of its outputs is claimed
/// already: first its client script, then its server script.
pub open spec fn add_outcome(done: Seq<PageOutcome>, o: PageOutcome, out: Seq<char>) -> Result<
    Seq<PageOutcome>,
    Failure,
> {
    let occ = occupied(done);
    match owner(occ, o.client_js) {
        Some(prev) => Err(
            Failure::Validation(
                msg_collision(join_path(out, o.client_js), prev, o.entry.import),
            ),
        ),
        None => match o.server_js {
            None => Ok(done.push(o)),
            Some(k) => match owner(occ.push((o.client_js, o.entry.import)), k) {
                Some(prev) => Err(
                    Failure::Validation(msg_collision(join_path(out, k), prev, o.entry.import)),
                ),
                None => Ok(done.push(o)),
            },
        },
    }
}

/// The pages `ps` checked and laid out in order; the first failure decides.
pub open spec fn plan(ps: Seq<ProbeView>, root: Seq<char>, out: Seq<char>) -> Result<
    Seq<PageOutcome>,
    Failure,
>
    decreases ps.len(),
{
    if ps.len() == 0 {
        Ok(seq![])
    } else {
        match plan(ps.drop_last(), root, out) {
            Err(e) => Err(e),
            Ok(done) => match page_entry(ps.last(), root) {
                Err(e) => Err(e),
                Ok(o) => add_outcome(done, o, out),
            },
        }
    }
}

pub open spec fn entries_of(done: Seq<PageOutcome>) -> Seq<EntryView> {
    done.map_values(|o: PageOutcome| o.entry)
}

pub open spec fn probe_views(ps: Seq<PageProbe>) -> Seq<ProbeView> {
    ps.map_values(|p: PageProbe| p@)
}

pub open spec fn entry_views(v: Seq<NormalizedPage>) -> Seq<EntryView> {
    v.map_values(|p: NormalizedPage| p@)
}

/// The entries of the build plan, in the order of the pages, or the
/// failure that stops it: no page at all, a root that cannot be resolved,
/// or the first page or collision that fails.
pub open spec fn normalized(
    ps: Seq<ProbeView>,
    root_path: Seq<char>,
    root: Result<Seq<char>, Seq<char>>,
    out: Seq<char>,
) -> Result<Seq<EntryView>, Failure> {
    if ps.len() == 0 {
        Err(Failure::Validation(msg_empty()))
    } else {
        match root {
            Err(cause) => Err(Failure::Runtime(msg_root(root_path, cause))),
            Ok(r) => match plan(ps, r, out) {
                Ok(done) => Ok(entries_of(done)),
                Err(e) => Err(e),
            },
        }
    }
}

/// Entries in the order of their import specifiers.
pub open spec fn sorted_by_import(es: Seq<EntryView>) -> bool {
    forall|i: int, j: int| 0 <= i < j < es.len() ==> lex_le(es[i].import, es[j].import)
}

/// `keys` and `owners` side by side.
pub open spec fn pairs_match(
    keys: Seq<Vec<char>>,
    owners: Seq<Vec<char>>,
    occ: Seq<(Seq<char>, Seq<char>)>,
) -> bool {
    &&& keys.len() == occ.len()
    &&& owners.len() == occ.len()
    &&& forall|i: int| 0 <= i < occ.len() ==> #[trigger] occ[i] == (keys[i]@, owners[i]@)
}

/// The index of the claim on `key`, as `owner` finds it.
fn find_owner(
    keys: &Vec<Vec<char>>,
    owners: &Vec<Vec<char>>,
    key: &Vec<char>,
    Ghost(occ): Ghost<Seq<(Seq<char>, Seq<char>)>>,
) -> (r: Option<usize>)
    requires
        pairs_match(keys@, owners@, occ),
    ensures
        match r {
            Some(i) => i < owners@.len() && owner(occ, key@) == Some(owners@[i as int]@),
            None => owner(occ, key@) is None,
        },
{
    let n = keys.len();
    let mut i: usize = 0;
    assert(occ.subrange(0, n as int) =~= occ);
    while i < n
        invariant
            pairs_match(keys@, owners@, occ),
            n == occ.len(),
            i <= n,
            owner(occ, key@) == owner(occ.subrange(i as int, n as int), key@),
        decreases n - i,
    {
        assert(occ[i as int] == (keys@[i as int]@, owners@[i as int]@));
        if same_chars(&keys[i], key) {
            return Some(i);
        }
        assert(occ.subrange(i as int, n as int).drop_first() =~= occ.subrange(i + 1, n as int));
        i += 1;
    }
    None
}

/// `rel` placed under `base`, as `join_path` states it.
fn join_under(base: &Vec<char>, rel: &Vec<char>) -> (r: Vec<char>)
    ensures
        r@ == join_path(base@, rel@),
{
    if rel.len() > 0 && rel[0] == '/' {
        slice_of(rel, 0, rel.len())
    } else if base.len() == 0 || base[base.len() - 1] == '/' {
        concat_chars(base, rel)
    } else {
        let mut b = slice_of(base, 0, base.len());
        b.push('/');
        concat_chars(&b, rel)
    }
}

fn collision_error(out: &Vec<char>, key: &Vec<char>, first: &Vec<char>, second: &String) -> (r:
    BundleError)
    ensures
        r@ == Failure::Validation(msg_collision(join_path(out@, key@), first@, second@)),
{
    let output = string_of(&join_under(out, key));
    let first = string_of(first);
    let mut m = String::from_str("multiple pages map to the same output ");
    m.append(output.as_str());
    m.append(": ");
    m.append(first.as_str());
    m.append(" and ");
    m.append(second.as_str());
    BundleError::Validation(m)
}

proof fn lemma_outcome_wf(p: ProbeView, root: Seq<char>)
    ensures
        page_entry(p, root) matches Ok(o) ==> (o.entry.ssr <==> o.entry.server_name is Some) && (
        o.entry.ssr <==> o.server_js is Some),
{
}

/// `v` ordered by import specifier, keeping its entries.
fn sort_by_import(v: Vec<NormalizedPage>) -> (r: Vec<NormalizedPage>)
    requires
        forall|i: int| 0 <= i < v@.len() ==> #[trigger] v@[i].wf(),
    ensures
        sorted_by_import(entry_views(r@)),
        entry_views(r@).to_multiset() == entry_views(v@).to_multiset(),
        forall|i: int| 0 <= i < r@.len() ==> #[trigger] r@[i].wf(),
{
    broadcast use vstd::seq_lib::group_to_multiset_ensures;

    let mut rest = v;
    let mut out: Vec<NormalizedPage> = Vec::new();
    while rest.len() > 0
        invariant
            sorted_by_import(entry_views(out@)),
            entry_views(out@).to_multiset().add(entry_views(rest@).to_multiset()) == entry_views(
                v@,
            ).to_multiset(),
            forall|i: int| 0 <= i < out@.len() ==> #[trigger] out@[i].wf(),
            forall|i: int| 0 <= i < rest@.len() ==> #[trigger] rest@[i].wf(),
        decreases rest@.len(),
    {
        let ghost before_rest = rest@;
        let x = rest.pop().unwrap();
        assert(entry_views(before_rest) =~= entry_views(rest@).push(x@));
        let mut pos: usize = 0;
        while pos < out.len() && !str_lt(x.import(), out[pos].import())
            invariant
                pos <= out@.len(),
                forall|i: int| 0 <= i < pos ==> !lex_lt(x@.import, #[trigger] out@[i]@.import),
            decreases out@.len() - pos,
        {
            pos += 1;
        }
        let ghost s = entry_views(out@);
        let ghost xv = x@;
        out.insert(pos, x);
        let ghost t = entry_views(out@);
        assert(t =~= s.insert(pos as int, xv));
        proof {
            broadcast use vstd::multiset::group_multiset_axioms;

            vstd::seq_lib::to_multiset_insert(s, pos as int, xv);
            vstd::seq_lib::to_multiset_build(entry_views(rest@), xv);
            assert(t.to_multiset().add(entry_views(rest@).to_multiset()) =~= s.to_multiset().add(
                entry_views(before_rest).to_multiset(),
            ));
        }
        assert(sorted_by_import(t)) by {
            assert forall|i: int, j: int| 0 <= i < j < t.len() implies lex_le(
                t[i].import,
                t[j].import,
            ) by {
                if j < pos {
                    assert(t[i] == s[i] && t[j] == s[j]);
                } else if j == pos {
                    assert(t[i] == s[i]);
                    assert(!lex_lt(xv.import, s[i].import));
                    lemma_lex_total(xv.import, s[i].import);
                } else if i < pos {
                    assert(t[i] == s[i] && t[j] == s[j - 1]);
                } else if i == pos {
                    assert(t[j] == s[j - 1]);
                    assert(lex_lt(xv.import, s[pos as int].import));
                    assert(lex_le(s[pos as int].import, s[j - 1].import));
                    if s[pos as int].import != s[j - 1].import {
                        lemma_lex_transitive(xv.import, s[pos as int].import, s[j - 1].import);
                    }
                } else {
                    assert(t[i] == s[i - 1] && t[j] == s[j - 1]);
                }
            }
        }
        assert(forall|i: int| 0 <= i < out@.len() ==> #[trigger] out@[i].wf()) by {
            assert forall|i: int| 0 <= i < out@.len() implies #[trigger] out@[i].wf() by {
                assert(out@[i]@ == t[i]);
                if i < pos {
                    assert(t[i] == s[i]);
                } else if i > pos {
                    assert(t[i] == s[i - 1]);
                }
            }
        }
    }
    assert(entry_views(rest@) =~= Seq::<EntryView>::empty());
    out
}


/// Validates `pages` against the root and lays out their outputs: the
/// build plan that `normalized` states, ordered by import specifier, or
/// exactly the failure that it states.
pub fn normalize_pages(pages: &Vec<PageProbe>, root: &RootProbe, output_dir: &str) -> (r: Result<
    Vec<NormalizedPage>,
    BundleError,
>)
    ensures
        match (
            r,
            normalized(
                probe_views(pages@),
                root.path@,
                match root.canonical {
                    Ok(c) => Ok(c@),
                    Err(e) => Err(e@),
                },
                output_dir@,
            ),
        ) {
            (Ok(v), Ok(es)) => {
                &&& v@.len() == pages@.len()
                &&& sorted_by_import(entry_views(v@))
                &&& entry_views(v@).to_multiset() == es.to_multiset()
                &&& forall|i: int| 0 <= i < v@.len() ==> #[trigger] v@[i].wf()
            },
            (Err(e), Err(f)) => e@ == f,
            _ => false,
        },
{
    if pages.len() == 0 {
        return Err(
            BundleError::Validation(
                String::from_str(
                    "`pages` must not be empty; expected at least one .tsx or .jsx file",
                ),
            ),
        );
    }
    let root_canonical = match &root.canonical {
        Err(cause) => {
            return Err(
                BundleError::Runtime(
                    message4(
                        "failed to resolve current working directory ",
                        root.path.as_str(),
                        ": ",
                        cause.as_str(),
                    ),
                ),
            );
        },
        Ok(c) => c,
    };
    let ghost ps = probe_views(pages@);
    let ghost rc = root_canonical@;
    let root_comps = split_components(&chars_of(root_canonical.as_str()));
    let out = chars_of(output_dir);
    let mut done: Vec<NormalizedPage> = Vec::new();
    let mut keys: Vec<Vec<char>> = Vec::new();
    let mut owners: Vec<Vec<char>> = Vec::new();
    let ghost mut outcomes: Seq<PageOutcome> = seq![];
    let mut i: usize = 0;
    while i < pages.len()
        invariant
            i <= pages@.len(),
            ps == probe_views(pages@),
            rc == root_canonical@,
            root.canonical is Ok,
            root.canonical->Ok_0@ == rc,
            views(root_comps@) == components(root_canonical@),
            out@ == output_dir@,
            plan(ps.subrange(0, i as int), rc, out@) == Ok::<Seq<PageOutcome>, Failure>(outcomes),
            entry_views(done@) == entries_of(outcomes),
            done@.len() == i,
            pairs_match(keys@, owners@, occupied(outcomes)),
            forall|k: int| 0 <= k < done@.len() ==> #[trigger] done@[k].wf(),
        decreases pages@.len() - i,
    {
        let ghost prefix = ps.subrange(0, i + 1);
        assert(prefix.drop_last() =~= ps.subrange(0, i as int));
        assert(prefix.last() == pages@[i as int]@);
        proof {
            lemma_outcome_wf(pages@[i as int]@, rc);
        }
        let planned = match normalize_page(&pages[i], root_canonical, &root_comps) {
            Ok(o) => o,
            Err(e) => {
                proof {
                    assert(page_entry(prefix.last(), rc) == Err::<PageOutcome, Failure>(e@));
                    assert(plan(prefix, rc, out@) == Err::<Seq<PageOutcome>, Failure>(e@));
                    lemma_plan_stays_failed(ps, rc, out@, i as int + 1);
                }
                return Err(e);
            },
        };
        let ghost o = planned@;
        let ghost occ = occupied(outcomes);
        let Planned { page, client_js, server_js } = planned;
        if let Some(k) = find_owner(&keys, &owners, &client_js, Ghost(occ)) {
            let e = collision_error(&out, &client_js, &owners[k], &page.import);
            proof {
                assert(owner(occ, o.client_js) == Some(owners@[k as int]@));
                assert(add_outcome(outcomes, o, out@) == Err::<Seq<PageOutcome>, Failure>(e@));
                assert(plan(prefix, rc, out@) == Err::<Seq<PageOutcome>, Failure>(e@));
                lemma_plan_stays_failed(ps, rc, out@, i as int + 1);
            }
            return Err(e);
        }
        keys.push(client_js);
        owners.push(chars_of(page.import.as_str()));
        let ghost occ2 = occ.push((o.client_js, o.entry.import));
        assert(pairs_match(keys@, owners@, occ2)) by {
            assert forall|m: int| 0 <= m < occ2.len() implies #[trigger] occ2[m] == (
                keys@[m]@,
                owners@[m]@,
            ) by {
                if m < occ.len() {
                    assert(occ[m] == (keys@[m]@, owners@[m]@));
                }
            }
        }
        if let Some(sk) = server_js {
            if let Some(k) = find_owner(&keys, &owners, &sk, Ghost(occ2)) {
                let e = collision_error(&out, &sk, &owners[k], &page.import);
                proof {
                    lemma_plan_stays_failed(ps, rc, out@, i as int + 1);
                }
                return Err(e);
            }
            keys.push(sk);
            owners.push(chars_of(page.import.as_str()));
            let ghost occ3 = occ2.push((o.server_js->0, o.entry.import));
            assert(pairs_match(keys@, owners@, occ3)) by {
                assert forall|m: int| 0 <= m < occ3.len() implies #[trigger] occ3[m] == (
                    keys@[m]@,
                    owners@[m]@,
                ) by {
                    if m < occ2.len() {
                        assert(occ2[m] == (keys@[m]@, owners@[m]@));
                    }
                }
            }
        }
        let ghost before = done@;
        let ghost pv = page@;
        assert(pv == o.entry);
        done.push(page);
        assert(done@ == before.push(page));
        let ghost prev_outcomes = outcomes;
        proof {
            outcomes = outcomes.push(o);
            assert(outcomes.drop_last() =~= prev_outcomes);
            assert(outcomes.last() == o);
            assert(entry_views(before).len() == before.len());
            assert(entries_of(prev_outcomes).len() == prev_outcomes.len());
            assert(outcomes.len() == done@.len());
            assert(entry_views(done@) =~= entries_of(outcomes)) by {
                assert(entry_views(before) == entries_of(prev_outcomes));
                assert forall|m: int| 0 <= m < done@.len() implies entry_views(done@)[m]
                    == entries_of(outcomes)[m] by {
                    if m < before.len() {
                        assert(done@[m] == before[m]);
                        assert(entry_views(before)[m] == entries_of(prev_outcomes)[m]);
                        assert(outcomes[m] == prev_outcomes[m]);
                    } else {
                        assert(done@[m]@ == pv);
                        assert(outcomes[m] == o);
                    }
                }
            }
            assert(occupied(outcomes) == match o.server_js {
                Some(k) => occ2.push((k, o.entry.import)),
                None => occ2,
            });
        }
        i += 1;
    }
    assert(ps.subrange(0, i as int) =~= ps);
    let sorted = sort_by_import(done);
    proof {
        broadcast use vstd::seq_lib::group_to_multiset_ensures;

        vstd::seq_lib::to_multiset_len(entry_views(sorted@));
        vstd::seq_lib::to_multiset_len(entry_views(done@));
        assert(entry_views(sorted@).len() == entry_views(done@).len());
    }
    Ok(sorted)
}

/// Once a prefix of the pages fails, the whole plan fails the same way.
proof fn lemma_plan_stays_failed(ps: Seq<ProbeView>, root: Seq<char>, out: Seq<char>, i: int)
    requires
        0 <= i <= ps.len(),
        plan(ps.subrange(0, i), root, out) is Err,
    ensures
        plan(ps, root, out) == plan(ps.subrange(0, i), root, out),
    decreases ps.len() - i,
{
    if i < ps.len() {
        let next = ps.subrange(0, i + 1);
        assert(next.drop_last() =~= ps.subrange(0, i));
        lemma_plan_stays_failed(ps, root, out, i + 1);
    } else {
        assert(ps.subrange(0, i) =~= ps);
    }
}


/// The client stem and, where the page renders on the server, the server
/// stem of a page as declared: a plain page is named after its path without
/// extension; an app page after the components between its first component
/// and its file name (`client` where there are none). A declared path is
/// read as relative to the root, whose first component is the apps
/// directory (normalization rejects an app page that is not so); the first
/// component is dropped whatever it is, so `/srv/apps/x/page.tsx` is named
/// `apps/x`.
pub open spec fn declared_stems(path: Seq<char>, app: bool, ssr: bool) -> (Seq<char>, Option<
    Seq<char>,
>) {
    if !app {
        let stem = strip_extension(path);
        (
            stem,
            if ssr {
                Some(stem)
            } else {
                None
            },
        )
    } else {
        let cs = components(path);
        let inner = if cs.len() >= 2 {
            join(cs.subrange(1, cs.len() - 1))
        } else {
            seq![]
        };
        let tool = if inner.len() == 0 {
            seq!['c', 'l', 'i', 'e', 'n', 't']
        } else {
            inner
        };
        (
            tool + client_suffix(),
            if ssr {
                Some(tool + server_suffix())
            } else {
                None
            },
        )
    }
}

/// A page as the caller declares it, with the outputs derived from it.
pub struct Page {
    path: String,
    app: bool,
    ssr: bool,
    client: String,
    server: Option<String>,
    css: String,
}

pub struct PageView {
    pub path: Seq<char>,
    pub app: bool,
    pub ssr: bool,
    pub client: Seq<char>,
    pub server: Option<Seq<char>>,
    pub css: Seq<char>,
}

impl View for Page {
    type V = PageView;

    closed spec fn view(&self) -> PageView {
        PageView {
            path: self.path@,
            app: self.app,
            ssr: self.ssr,
            client: self.client@,
            server: match self.server {
                Some(s) => Some(s@),
                None => None,
            },
            css: self.css@,
        }
    }
}

/// The stems of `path`, as `declared_stems` states them.
fn derive_output_stems(path: &Vec<char>, app: bool, ssr: bool) -> (r: (Vec<char>, Option<
    Vec<char>,
>))
    ensures
        (r.0@, match r.1 {
            Some(s) => Some(s@),
            None => None,
        }) == declared_stems(path@, app, ssr),
{
    if !app {
        let e = stem_end(path);
        let stem = slice_of(path, 0, e);
        let server = if ssr {
            Some(slice_of(path, 0, e))
        } else {
            None
        };
        return (stem, server);
    }
    let cs = split_components(path);
    let n = cs.len();
    let inner = if n >= 2 {
        join_range(&cs, 1, n - 1)
    } else {
        Vec::new()
    };
    let tool = if inner.len() == 0 {
        vec!['c', 'l', 'i', 'e', 'n', 't']
    } else {
        inner
    };
    let client = concat_chars(&tool, &vec!['/', 'c', 'l', 'i', 'e', 'n', 't']);
    let server = if ssr {
        Some(concat_chars(&tool, &vec!['/', 's', 'e', 'r', 'v', 'e', 'r']))
    } else {
        None
    };
    (client, server)
}

impl Page {
    /// A page at `path`; its client script, stylesheet and (where `ssr`)
    /// server script are the stems of `declared_stems` with `.js`, `.css`
    /// and `.js`.
    pub fn new(path: String, app: bool, ssr: bool) -> (r: Page)
        ensures
            r@.path == path@,
            r@.app == app,
            r@.ssr == ssr,
            r@.client == declared_stems(path@, app, ssr).0 + js_ext(),
            r@.css == declared_stems(path@, app, ssr).0 + css_ext(),
            r@.server == match declared_stems(path@, app, ssr).1 {
                Some(s) => Some(s + js_ext()),
                None => None,
            },
    {
        let chars = chars_of(path.as_str());
        let (client_stem, server_stem) = derive_output_stems(&chars, app, ssr);
        let client = string_of(&concat_chars(&client_stem, &vec!['.', 'j', 's']));
        let css = string_of(&concat_chars(&client_stem, &vec!['.', 'c', 's', 's']));
        let server = match server_stem {
            Some(s) => Some(string_of(&concat_chars(&s, &vec!['.', 'j', 's']))),
            None => None,
        };
        Page { path, app, ssr, client, server, css }
    }

    pub fn path(&self) -> (r: &str)
        ensures
            r@ == self@.path,
    {
        self.path.as_str()
    }

    pub fn app(&self) -> (r: bool)
        ensures
            r == self@.app,
    {
        self.app
    }

    pub fn ssr(&self) -> (r: bool)
        ensures
            r == self@.ssr,
    {
        self.ssr
    }

    pub fn client(&self) -> (r: &str)
        ensures
            r@ == self@.client,
    {
        self.client.as_str()
    }

    pub fn server(&self) -> (r: Option<&str>)
        ensures
            match r {
                Some(s) => self@.server == Some(s@),
                None => self@.server is None,
            },
    {
        match &self.server {
            Some(s) => Some(s.as_str()),
            None => None,
        }
    }

    pub fn css(&self) -> (r: &str)
        ensures
            r@ == self@.css,
    {
        self.css.as_str()
    }

    /// The page together with what the file system says of its path.
    pub fn as_spec(&self, exists: bool, is_file: bool, canonical: Result<String, String>) -> (r:
        PageProbe)
        ensures
            r.path@ == self@.path,
            r.app == self@.app,
            r.ssr == self@.ssr,
            r.exists == exists,
            r.is_file == is_file,
            r.canonical == canonical,
    {
        PageProbe { path: self.path.clone(), app: self.app, ssr: self.ssr, exists, is_file, canonical }
    }
}


/// The outcomes of pages that each pass the checks on their own.
pub open spec fn outcomes_of(ps: Seq<ProbeView>, root: Seq<char>) -> Seq<PageOutcome> {
    ps.map_values(|p: ProbeView| page_entry(p, root)->Ok_0)
}

/// No output is claimed twice.
pub open spec fn claims_distinct(occ: Seq<(Seq<char>, Seq<char>)>) -> bool {
    forall|i: int, j: int| 0 <= i < j < occ.len() ==> occ[i].0 != occ[j].0
}

proof fn lemma_owner_none(occ: Seq<(Seq<char>, Seq<char>)>, key: Seq<char>)
    requires
        forall|i: int| 0 <= i < occ.len() ==> occ[i].0 != key,
    ensures
        owner(occ, key) is None,
    decreases occ.len(),
{
    if occ.len() > 0 {
        assert forall|i: int| 0 <= i < occ.drop_first().len() implies occ.drop_first()[i].0
            != key by {
            assert(occ.drop_first()[i] == occ[i + 1]);
        }
        lemma_owner_none(occ.drop_first(), key);
    }
}

proof fn lemma_occupied_prefix(done: Seq<PageOutcome>, o: PageOutcome)
    ensures
        occupied(done.push(o)) == occupied(done).push((o.client_js, o.entry.import)) + match o.server_js {
            Some(k) => seq![(k, o.entry.import)],
            None => seq![],
        },
{
    assert(done.push(o).drop_last() =~= done);
    match o.server_js {
        Some(k) => {
            assert(occupied(done).push((o.client_js, o.entry.import)).push((k, o.entry.import))
                =~= occupied(done).push((o.client_js, o.entry.import)) + seq![(k, o.entry.import)]);
        },
        None => {
            assert(occupied(done).push((o.client_js, o.entry.import)) =~= occupied(done).push(
                (o.client_js, o.entry.import),
            ) + seq![]);
        },
    }
}

/// Pages that each pass the checks on their own, and whose outputs are
/// pairwise distinct, make a plan that holds each page's entry, in order.
proof fn lemma_valid_pages_plan(ps: Seq<ProbeView>, root: Seq<char>, out: Seq<char>)
    requires
        forall|i: int| 0 <= i < ps.len() ==> page_entry(#[trigger] ps[i], root) is Ok,
        claims_distinct(occupied(outcomes_of(ps, root))),
    ensures
        plan(ps, root, out) == Ok::<Seq<PageOutcome>, Failure>(outcomes_of(ps, root)),
    decreases ps.len(),
{
    if ps.len() > 0 {
        let init = ps.drop_last();
        let done = outcomes_of(init, root);
        let o = page_entry(ps.last(), root)->Ok_0;
        assert(page_entry(ps[ps.len() - 1], root) is Ok);
        assert(outcomes_of(ps, root) =~= done.push(o));
        lemma_occupied_prefix(done, o);
        let occ = occupied(done);
        let all = occupied(outcomes_of(ps, root));
        assert(all =~= occ.push((o.client_js, o.entry.import)) + match o.server_js {
            Some(k) => seq![(k, o.entry.import)],
            None => seq![],
        });
        assert(claims_distinct(occupied(outcomes_of(init, root)))) by {
            assert forall|i: int, j: int| 0 <= i < j < occ.len() implies occ[i].0 != occ[j].0 by {
                assert(all[i] == occ[i] && all[j] == occ[j]);
            }
        }
        assert forall|i: int| 0 <= i < init.len() implies page_entry(#[trigger] init[i], root) is Ok by {
            assert(init[i] == ps[i]);
        }
        lemma_valid_pages_plan(init, root, out);
        assert(forall|i: int| 0 <= i < occ.len() ==> occ[i].0 != o.client_js) by {
            assert forall|i: int| 0 <= i < occ.len() implies occ[i].0 != o.client_js by {
                assert(all[i] == occ[i] && all[occ.len() as int] == (o.client_js, o.entry.import));
            }
        }
        lemma_owner_none(occ, o.client_js);
        if let Some(k) = o.server_js {
            let occ2 = occ.push((o.client_js, o.entry.import));
            assert forall|i: int| 0 <= i < occ2.len() implies occ2[i].0 != k by {
                assert(all[i] == occ2[i] && all[occ2.len() as int] == (k, o.entry.import));
            }
            lemma_owner_none(occ2, k);
        }
        assert(add_outcome(done, o, out) == Ok::<Seq<PageOutcome>, Failure>(done.push(o)));
    } else {
        assert(outcomes_of(ps, root) =~= seq![]);
    }
}


/// A non-empty set of pages, each valid on its own (an existing `.tsx` or
/// `.jsx` file inside the root that meets the app and server rules), whose
/// outputs are pairwise distinct, normalizes without failure to the
/// entries of its pages; `normalize_pages` returns them ordered by import
/// specifier.
pub proof fn lemma_valid_pages_normalize(
    ps: Seq<ProbeView>,
    root_path: Seq<char>,
    root: Seq<char>,
    out: Seq<char>,
)
    requires
        ps.len() > 0,
        forall|i: int| 0 <= i < ps.len() ==> page_entry(#[trigger] ps[i], root) is Ok,
        claims_distinct(occupied(outcomes_of(ps, root))),
    ensures
        normalized(ps, root_path, Ok(root), out) == Ok::<Seq<EntryView>, Failure>(
            entries_of(outcomes_of(ps, root)),
        ),
{
    lemma_valid_pages_plan(ps, root, out);
}

} // verus!
