//! Resolution of stylesheet imports and inlining of `@import`ed
//! stylesheets, as step machines: the machine decides, and its driver does
//! the file-system work that each request names and hands back the answer.

use vstd::prelude::*;
use crate::json::{JsonValue, member};
use crate::pages::{BundleError, Failure};
use crate::paths::{
    components, is_absolute, join, join_path, join_range, relative_components, split_components,
};
use crate::scan::{
    css_ext, css_import_specifier, direct_css_imports, maybe_minify_css, minified,
    parse_css_import_specifier, string_views,
};
use crate::text::{
    chars_of, concat_chars, copy_chars, ends_with, has_prefix, has_suffix, lines, same_chars, slice_of,
    split_lines, starts_with, string_of, views,
};

verus! {

/// How a stylesheet specifier is found.
#[derive(Clone, Copy, PartialEq, Eq, Structural, Debug)]
pub enum ImportKind {
    /// `./` or `../`: beside the importer.
    Relative,
    /// A bare path to a `.css` file, under some `node_modules`.
    Stylesheet,
    /// A bare package name, whose manifest names its stylesheet.
    Package,
}

pub open spec fn import_kind(s: Seq<char>) -> ImportKind {
    if starts_with(s, seq!['.', '/']) || starts_with(s, seq!['.', '.', '/']) {
        ImportKind::Relative
    } else if ends_with(s, css_ext()) {
        ImportKind::Stylesheet
    } else {
        ImportKind::Package
    }
}

pub fn classify_import(specifier: &str) -> (r: ImportKind)
    ensures
        r == import_kind(specifier@),
{
    let s = chars_of(specifier);
    if has_prefix(&s, &vec!['.', '/']) || has_prefix(&s, &vec!['.', '.', '/']) {
        ImportKind::Relative
    } else if has_suffix(&s, &vec!['.', 'c', 's', 's']) {
        ImportKind::Stylesheet
    } else {
        ImportKind::Package
    }
}

/// What the file system says of a path.
pub struct FileFacts {
    pub exists: bool,
    pub is_file: bool,
    /// The canonical form of the path, or why it could not be had.
    pub canonical: Result<String, String>,
}

pub open spec fn msg_file_missing(label: Seq<char>, path: Seq<char>) -> Seq<char> {
    label + " does not exist: "@ + path
}

pub open spec fn msg_file_not_file(label: Seq<char>, path: Seq<char>) -> Seq<char> {
    label + " is not a file: "@ + path
}

pub open spec fn msg_file_canonicalize(label: Seq<char>, path: Seq<char>, cause: Seq<char>) -> Seq<
    char,
> {
    "failed to canonicalize "@ + label + " "@ + path + ": "@ + cause
}

/// The canonical path of an existing regular file, or why there is none.
pub open spec fn checked(label: Seq<char>, path: Seq<char>, facts: FileFacts) -> Result<
    Seq<char>,
    Failure,
> {
    if !facts.exists {
        Err(Failure::Validation(msg_file_missing(label, path)))
    } else if !facts.is_file {
        Err(Failure::Validation(msg_file_not_file(label, path)))
    } else {
        match facts.canonical {
            Ok(c) => Ok(c@),
            Err(cause) => Err(Failure::Runtime(msg_file_canonicalize(label, path, cause@))),
        }
    }
}

pub open spec fn result_view(r: Result<String, BundleError>) -> Result<Seq<char>, Failure> {
    match r {
        Ok(s) => Ok(s@),
        Err(e) => Err(e@),
    }
}

/// The canonical path of an existing regular file, as `checked` states it.
pub fn canonicalize_existing_file(label: &str, path: &str, facts: &FileFacts) -> (r: Result<
    String,
    BundleError,
>)
    ensures
        result_view(r) == checked(label@, path@, *facts),
{
    if !facts.exists {
        let mut m = String::from_str(label);
        m.append(" does not exist: ");
        m.append(path);
        return Err(BundleError::Validation(m));
    }
    if !facts.is_file {
        let mut m = String::from_str(label);
        m.append(" is not a file: ");
        m.append(path);
        return Err(BundleError::Validation(m));
    }
    match &facts.canonical {
        Ok(c) => Ok(c.clone()),
        Err(cause) => {
            let mut m = String::from_str("failed to canonicalize ");
            m.append(label);
            m.append(" ");
            m.append(path);
            m.append(": ");
            m.append(cause.as_str());
            Err(BundleError::Runtime(m))
        },
    }
}

/// The stylesheet that a package manifest names: `exports["."].style`.
pub open spec fn style_export(manifest: JsonValue) -> Option<Seq<char>> {
    match member(manifest, "exports"@) {
        Some(exports) => match member(exports, "."@) {
            Some(entry) => match member(entry, "style"@) {
                Some(JsonValue::Str(s)) => Some(s@),
                _ => None,
            },
            None => None,
        },
        None => None,
    }
}

pub fn package_style_export(manifest: &JsonValue) -> (r: Option<String>)
    ensures
        match style_export(*manifest) {
            Some(s) => r matches Some(x) && x@ == s,
            None => r is None,
        },
{
    let exports = match manifest.get("exports") {
        Some(e) => e,
        None => {
            return None;
        },
    };
    let entry = match exports.get(".") {
        Some(e) => e,
        None => {
            return None;
        },
    };
    match entry.get("style") {
        Some(style) => match style.as_str() {
            Some(s) => Some(String::from_str(s)),
            None => None,
        },
        None => None,
    }
}

/// The directory that holds `s`, as `Path::parent` reads it: none for the
/// root or an empty path.
pub open spec fn parent(s: Seq<char>) -> Option<Seq<char>> {
    let cs = components(s);
    if cs.len() == 0 {
        None
    } else if is_absolute(s) {
        Some(seq!['/'] + join(cs.drop_last()))
    } else {
        Some(join(cs.drop_last()))
    }
}

pub fn parent_dir(s: &Vec<char>) -> (r: Option<Vec<char>>)
    ensures
        match parent(s@) {
            Some(p) => r matches Some(x) && x@ == p,
            None => r is None,
        },
{
    let cs = split_components(s);
    let n = cs.len();
    if n == 0 {
        return None;
    }
    let inner = join_range(&cs, 0, n - 1);
    assert(views(cs@).subrange(0, n - 1) =~= views(cs@).drop_last());
    if s.len() > 0 && s[0] == '/' {
        Some(concat_chars(&vec!['/'], &inner))
    } else {
        Some(inner)
    }
}

/// Whether `dir` lies at or below `root`, component by component.
pub open spec fn within(dir: Seq<char>, root: Seq<char>) -> bool {
    relative_components(dir, root) is Some
}

/// Whether `a` and `b` name the same path, component by component.
pub open spec fn same_path(a: Seq<char>, b: Seq<char>) -> bool {
    is_absolute(a) == is_absolute(b) && components(a) == components(b)
}

pub fn is_same_path(a: &Vec<char>, b: &Vec<char>) -> (r: bool)
    ensures
        r == same_path(a@, b@),
{
    let x = split_components(a);
    let y = split_components(b);
    let aa = a.len() > 0 && a[0] == '/';
    let ba = b.len() > 0 && b[0] == '/';
    assert(views(x@).len() == x@.len());
    assert(views(y@).len() == y@.len());
    if aa != ba || x.len() != y.len() {
        return false;
    }
    let mut i: usize = 0;
    while i < x.len()
        invariant
            views(x@) == components(a@),
            views(y@) == components(b@),
            x@.len() == y@.len(),
            i <= x@.len(),
            forall|k: int| 0 <= k < i ==> views(x@)[k] == views(y@)[k],
        decreases x@.len() - i,
    {
        if !same_chars(&x[i], &y[i]) {
            assert(views(x@)[i as int] != views(y@)[i as int]);
            return false;
        }
        i += 1;
    }
    assert(views(x@) =~= views(y@));
    true
}

/// Whether `dir` lies at or below `root`, as `within` states it.
pub fn is_within(dir: &Vec<char>, root: &Vec<char>) -> (r: bool)
    ensures
        r == within(dir@, root@),
{
    let x = split_components(dir);
    let y = split_components(root);
    let aa = dir.len() > 0 && dir[0] == '/';
    let ba = root.len() > 0 && root[0] == '/';
    assert(views(x@).len() == x@.len());
    assert(views(y@).len() == y@.len());
    if aa != ba || y.len() > x.len() {
        return false;
    }
    let mut i: usize = 0;
    while i < y.len()
        invariant
            y@.len() <= x@.len(),
            i <= y@.len(),
            views(x@) == components(dir@),
            views(y@) == components(root@),
            forall|k: int| 0 <= k < i ==> views(x@)[k] == views(y@)[k],
        decreases y@.len() - i,
    {
        if !same_chars(&x[i], &y[i]) {
            assert(views(x@).subrange(0, y@.len() as int)[i as int] != views(y@)[i as int]);
            return false;
        }
        i += 1;
    }
    assert(views(x@).subrange(0, y@.len() as int) =~= views(y@));
    true
}

/// The place where a bare specifier is looked for from `dir`.
pub open spec fn modules_candidate(dir: Seq<char>, specifier: Seq<char>) -> Seq<char> {
    join_path(join_path(dir, "node_modules"@), specifier)
}

/// The next directory up from `dir` in the search for `node_modules`: the
/// search stops at the root, and never leaves it.
pub open spec fn walk_next(dir: Seq<char>, root: Seq<char>) -> Option<Seq<char>> {
    if same_path(dir, root) {
        None
    } else {
        match parent(dir) {
            Some(p) => if within(p, root) {
                Some(p)
            } else {
                None
            },
            None => None,
        }
    }
}


/// Why a package manifest could not be had.
pub enum ManifestFailure {
    Read(String),
    Parse(String),
}

/// Where a resolution stands.
pub enum ResolutionStage {
    /// Looking for `node_modules/<specifier>` from this directory up.
    Walking(Vec<char>),
    /// Waiting for the manifest of this package directory.
    ReadingManifest(Vec<char>),
    /// Waiting for what the file system says of this path.
    Checking(Vec<char>),
    Finished,
}

pub enum StageView {
    Walking(Seq<char>),
    ReadingManifest(Seq<char>),
    Checking(Seq<char>),
    Finished,
}

/// What a resolution asks of its driver, or its outcome.
pub enum ResolutionRequest {
    /// Whether this path exists.
    Exists(String),
    /// What the file system says of this path (`FileFacts`).
    Inspect(String),
    /// The manifest at this path, parsed.
    ReadManifest(String),
    /// The canonical path of the stylesheet, or why there is none.
    Resolved(Result<String, BundleError>),
}

pub enum RequestView {
    Exists(Seq<char>),
    Inspect(Seq<char>),
    ReadManifest(Seq<char>),
    Resolved(Result<Seq<char>, Failure>),
}

impl View for ResolutionRequest {
    type V = RequestView;

    open spec fn view(&self) -> RequestView {
        match self {
            ResolutionRequest::Exists(p) => RequestView::Exists(p@),
            ResolutionRequest::Inspect(p) => RequestView::Inspect(p@),
            ResolutionRequest::ReadManifest(p) => RequestView::ReadManifest(p@),
            ResolutionRequest::Resolved(r) => RequestView::Resolved(result_view(*r)),
        }
    }
}

/// The driver's answer to the last request.
pub enum ResolutionEvent {
    Existence(bool),
    Inspected(FileFacts),
    Manifest(Result<JsonValue, ManifestFailure>),
}

/// The resolution of one stylesheet specifier, imported from a directory,
/// inside a root.
pub struct ImportResolution {
    specifier: String,
    root: Vec<char>,
    stage: ResolutionStage,
}

pub struct ResolutionView {
    pub specifier: Seq<char>,
    pub root: Seq<char>,
    pub stage: StageView,
}

impl View for ImportResolution {
    type V = ResolutionView;

    closed spec fn view(&self) -> ResolutionView {
        ResolutionView {
            specifier: self.specifier@,
            root: self.root@,
            stage: match self.stage {
                ResolutionStage::Walking(d) => StageView::Walking(d@),
                ResolutionStage::ReadingManifest(d) => StageView::ReadingManifest(d@),
                ResolutionStage::Checking(p) => StageView::Checking(p@),
                ResolutionStage::Finished => StageView::Finished,
            },
        }
    }
}

pub open spec fn msg_unresolved(specifier: Seq<char>) -> Seq<char> {
    "failed to resolve css import \""@ + specifier + "\""@
}

pub open spec fn msg_manifest_read(specifier: Seq<char>, path: Seq<char>, cause: Seq<char>) -> Seq<
    char,
> {
    "failed to read package.json for css import \""@ + specifier + "\": "@ + path + " ("@ + cause
        + ")"@
}

pub open spec fn msg_manifest_parse(specifier: Seq<char>, path: Seq<char>, cause: Seq<char>) -> Seq<
    char,
> {
    "failed to parse package.json for css import \""@ + specifier + "\": "@ + path + " ("@ + cause
        + ")"@
}

pub open spec fn msg_no_style(specifier: Seq<char>) -> Seq<char> {
    "package \""@ + specifier + "\" does not define exports[\".\"].style"@
}

pub open spec fn msg_out_of_turn() -> Seq<char> {
    "css import resolution received an answer it did not ask for"@
}

pub open spec fn manifest_path(package_dir: Seq<char>) -> Seq<char> {
    join_path(package_dir, "package.json"@)
}

/// The first stage and request of resolving `specifier` from `dir`: a
/// relative specifier is checked beside the importer; a bare one is looked
/// for under `node_modules`, from `dir` up.
pub open spec fn resolution_start(specifier: Seq<char>, dir: Seq<char>) -> (StageView, RequestView) {
    if import_kind(specifier) == ImportKind::Relative {
        let p = join_path(dir, specifier);
        (StageView::Checking(p), RequestView::Inspect(p))
    } else {
        (StageView::Walking(dir), RequestView::Exists(modules_candidate(dir, specifier)))
    }
}

/// The next stage and request of a resolution, given the driver's answer.
pub open spec fn resolution_step(r: ResolutionView, event: ResolutionEvent) -> (StageView, RequestView) {
    let spec = r.specifier;
    match (r.stage, event) {
        (StageView::Walking(d), ResolutionEvent::Existence(found)) => if found {
            let c = modules_candidate(d, spec);
            if import_kind(spec) == ImportKind::Stylesheet {
                (StageView::Checking(c), RequestView::Inspect(c))
            } else {
                (StageView::ReadingManifest(c), RequestView::ReadManifest(manifest_path(c)))
            }
        } else {
            match walk_next(d, r.root) {
                Some(p) => (StageView::Walking(p), RequestView::Exists(modules_candidate(p, spec))),
                None => (
                    StageView::Finished,
                    RequestView::Resolved(Err(Failure::Validation(msg_unresolved(spec)))),
                ),
            }
        },
        (StageView::ReadingManifest(c), ResolutionEvent::Manifest(m)) => match m {
            Err(ManifestFailure::Read(e)) => (
                StageView::Finished,
                RequestView::Resolved(
                    Err(Failure::Runtime(msg_manifest_read(spec, manifest_path(c), e@))),
                ),
            ),
            Err(ManifestFailure::Parse(e)) => (
                StageView::Finished,
                RequestView::Resolved(
                    Err(Failure::Runtime(msg_manifest_parse(spec, manifest_path(c), e@))),
                ),
            ),
            Ok(json) => match style_export(json) {
                Some(s) => {
                    let p = join_path(c, s);
                    (StageView::Checking(p), RequestView::Inspect(p))
                },
                None => (
                    StageView::Finished,
                    RequestView::Resolved(Err(Failure::Validation(msg_no_style(spec)))),
                ),
            },
        },
        (StageView::Checking(p), ResolutionEvent::Inspected(facts)) => (
            StageView::Finished,
            RequestView::Resolved(checked("css import"@, p, facts)),
        ),
        _ => (
            StageView::Finished,
            RequestView::Resolved(Err(Failure::Runtime(msg_out_of_turn()))),
        ),
    }
}

fn join_under(base: &Vec<char>, rel: &Vec<char>) -> (r: Vec<char>)
    ensures
        r@ == join_path(base@, rel@),
{
    if rel.len() > 0 && rel[0] == '/' {
        slice_of(rel, 0, rel.len())
    } else if base.len() == 0 || base[base.len() - 1] == '/' {
        concat_chars(base, rel)
    } else {
        let mut b = slice_of(base, 0, base.len());
        b.push('/');
        concat_chars(&b, rel)
    }
}

fn candidate_under(dir: &Vec<char>, specifier: &String) -> (r: Vec<char>)
    ensures
        r@ == modules_candidate(dir@, specifier@),
{
    let nm = join_under(dir, &chars_of("node_modules"));
    join_under(&nm, &chars_of(specifier.as_str()))
}

/// `a@ + b@ + c@ + d@`.
fn message4(a: &str, b: &str, c: &str, d: &str) -> (r: String)
    ensures
        r@ == a@ + b@ + c@ + d@,
{
    let mut m = String::from_str(a);
    m.append(b);
    m.append(c);
    m.append(d);
    m
}

/// `head@ + tail@`.
fn message2(head: &str, tail: &str) -> (r: String)
    ensures
        r@ == head@ + tail@,
{
    let mut m = String::from_str(head);
    m.append(tail);
    m
}

/// `head@ + middle@ + tail@`.
fn message3(head: &str, middle: &str, tail: &str) -> (r: String)
    ensures
        r@ == head@ + middle@ + tail@,
{
    let mut m = String::from_str(head);
    m.append(middle);
    m.append(tail);
    m
}

/// `head@ + middle@ + sep@ + tail@ + close@`.
fn message5(head: &str, middle: &str, sep: &str, tail: &str, close: &str) -> (r: String)
    ensures
        r@ == head@ + middle@ + sep@ + tail@ + close@,
{
    let mut m = String::from_str(head);
    m.append(middle);
    m.append(sep);
    m.append(tail);
    m.append(close);
    m
}

impl ImportResolution {
    /// Starts resolving `specifier`, imported from the directory `dir`,
    /// inside `root`.
    pub fn start(specifier: &str, dir: &str, root: &str) -> (r: (ImportResolution, ResolutionRequest))
        ensures
            r.0@.specifier == specifier@,
            r.0@.root == root@,
            (r.0@.stage, r.1@) == resolution_start(specifier@, dir@),
    {
        let spec = String::from_str(specifier);
        let d = chars_of(dir);
        let rt = chars_of(root);
        match classify_import(specifier) {
            ImportKind::Relative => {
                let p = join_under(&d, &chars_of(specifier));
                let req = ResolutionRequest::Inspect(string_of(&p));
                (ImportResolution { specifier: spec, root: rt, stage: ResolutionStage::Checking(p) }, req)
            },
            _ => {
                let c = candidate_under(&d, &spec);
                let req = ResolutionRequest::Exists(string_of(&c));
                (ImportResolution { specifier: spec, root: rt, stage: ResolutionStage::Walking(d) }, req)
            },
        }
    }

    pub fn is_finished(&self) -> (r: bool)
        ensures
            r == (self@.stage is Finished),
    {
        match self.stage {
            ResolutionStage::Finished => true,
            _ => false,
        }
    }

    /// Takes the driver's answer to the last request, and makes the next.
    pub fn step(&mut self, event: ResolutionEvent) -> (r: ResolutionRequest)
        ensures
            final(self)@.specifier == old(self)@.specifier,
            final(self)@.root == old(self)@.root,
            (final(self)@.stage, r@) == resolution_step(old(self)@, event),
    {
        let stage = match &self.stage {
            ResolutionStage::Walking(d) => ResolutionStage::Walking(copy_chars(d)),
            ResolutionStage::ReadingManifest(d) => ResolutionStage::ReadingManifest(copy_chars(d)),
            ResolutionStage::Checking(p) => ResolutionStage::Checking(copy_chars(p)),
            ResolutionStage::Finished => ResolutionStage::Finished,
        };
        self.stage = ResolutionStage::Finished;
        let ghost spec = self.specifier@;
        match (stage, event) {
            (ResolutionStage::Walking(d), ResolutionEvent::Existence(found)) => {
                if found {
                    let c = candidate_under(&d, &self.specifier);
                    if classify_import(self.specifier.as_str()) == ImportKind::Stylesheet {
                        let req = ResolutionRequest::Inspect(string_of(&c));
                        self.stage = ResolutionStage::Checking(c);
                        req
                    } else {
                        let m = join_under(&c, &chars_of("package.json"));
                        self.stage = ResolutionStage::ReadingManifest(c);
                        ResolutionRequest::ReadManifest(string_of(&m))
                    }
                } else {
                    let next = if is_same_path(&d, &self.root) {
                        None
                    } else {
                        match parent_dir(&d) {
                            Some(p) => if is_within(&p, &self.root) {
                                Some(p)
                            } else {
                                None
                            },
                            None => None,
                        }
                    };
                    match next {
                        Some(p) => {
                            let c = candidate_under(&p, &self.specifier);
                            self.stage = ResolutionStage::Walking(p);
                            ResolutionRequest::Exists(string_of(&c))
                        },
                        None => ResolutionRequest::Resolved(
                            Err(
                                BundleError::Validation(
                                    message3(
                                        "failed to resolve css import \"",
                                        self.specifier.as_str(),
                                        "\"",
                                    ),
                                ),
                            ),
                        ),
                    }
                }
            },
            (ResolutionStage::ReadingManifest(c), ResolutionEvent::Manifest(m)) => {
                let path = string_of(&join_under(&c, &chars_of("package.json")));
                match m {
                    Err(ManifestFailure::Read(e)) => {
                        let mut msg = message5(
                            "failed to read package.json for css import \"",
                            self.specifier.as_str(),
                            "\": ",
                            path.as_str(),
                            " (",
                        );
                        msg.append(e.as_str());
                        msg.append(")");
                        ResolutionRequest::Resolved(Err(BundleError::Runtime(msg)))
                    },
                    Err(ManifestFailure::Parse(e)) => {
                        let mut msg = message5(
                            "failed to parse package.json for css import \"",
                            self.specifier.as_str(),
                            "\": ",
                            path.as_str(),
                            " (",
                        );
                        msg.append(e.as_str());
                        msg.append(")");
                        ResolutionRequest::Resolved(Err(BundleError::Runtime(msg)))
                    },
                    Ok(json) => match package_style_export(&json) {
                        Some(st) => {
                            let p = join_under(&c, &chars_of(st.as_str()));
                            let req = ResolutionRequest::Inspect(string_of(&p));
                            self.stage = ResolutionStage::Checking(p);
                            req
                        },
                        None => ResolutionRequest::Resolved(
                            Err(
                                BundleError::Validation(
                                    message3(
                                        "package \"",
                                        self.specifier.as_str(),
                                        "\" does not define exports[\".\"].style",
                                    ),
                                ),
                            ),
                        ),
                    },
                }
            },
            (ResolutionStage::Checking(p), ResolutionEvent::Inspected(facts)) => {
                let path = string_of(&p);
                ResolutionRequest::Resolved(canonicalize_existing_file("css import", path.as_str(), &facts))
            },
            _ => ResolutionRequest::Resolved(
                Err(
                    BundleError::Runtime(
                        String::from_str("css import resolution received an answer it did not ask for"),
                    ),
                ),
            ),
        }
    }
}


/// `acc` followed by the block `css`, which ends with a line feed.
pub open spec fn with_block(acc: Seq<char>, css: Seq<char>) -> Seq<char> {
    if css.len() > 0 && css.last() == '\n' {
        acc + css
    } else {
        acc + css + seq!['\n']
    }
}

/// Appends the block `css` to `acc`, ending it with a line feed.
pub fn append_block(acc: &mut Vec<char>, css: &Vec<char>)
    ensures
        final(acc)@ == with_block(old(acc)@, css@),
{
    let mut k: usize = 0;
    let ghost start = acc@;
    while k < css.len()
        invariant
            k <= css@.len(),
            acc@ == start + css@.subrange(0, k as int),
        decreases css@.len() - k,
    {
        acc.push(css[k]);
        k += 1;
        assert(acc@ =~= start + css@.subrange(0, k as int));
    }
    assert(css@.subrange(0, css@.len() as int) =~= css@);
    if !(css.len() > 0 && css[css.len() - 1] == '\n') {
        acc.push('\n');
    }
}

/// Appends `line` and a line feed to `acc`.
fn push_line(acc: &mut Vec<char>, line: &Vec<char>)
    ensures
        final(acc)@ == old(acc)@ + line@ + seq!['\n'],
{
    let mut k: usize = 0;
    let ghost start = acc@;
    while k < line.len()
        invariant
            k <= line@.len(),
            acc@ == start + line@.subrange(0, k as int),
        decreases line@.len() - k,
    {
        acc.push(line[k]);
        k += 1;
        assert(acc@ =~= start + line@.subrange(0, k as int));
    }
    assert(line@.subrange(0, line@.len() as int) =~= line@);
    acc.push('\n');
}

pub open spec fn msg_cycle(path: Seq<char>) -> Seq<char> {
    "detected cyclic css import: "@ + path
}

/// Where the stylesheet output of an entry goes: its relative stylesheet
/// path under the output directory, itself under the root unless absolute.
pub open spec fn css_output_path(root: Seq<char>, output_dir: Seq<char>, css: Seq<char>) -> Seq<char> {
    let out = if is_absolute(output_dir) {
        output_dir
    } else {
        join_path(root, output_dir)
    };
    join_path(out, css)
}

/// A stylesheet being inlined: its lines, how far they are read, and the
/// text made of them so far.
struct Frame {
    path: String,
    dir: String,
    lines: Vec<Vec<char>>,
    next: usize,
    text: Vec<char>,
}

pub struct FrameView {
    pub path: Seq<char>,
    /// The directory its `@import`s are resolved from.
    pub dir: Seq<char>,
    pub lines: Seq<Seq<char>>,
    /// The first line not yet read.
    pub next: int,
    pub text: Seq<char>,
}

impl View for Frame {
    type V = FrameView;

    closed spec fn view(&self) -> FrameView {
        FrameView {
            path: self.path@,
            dir: self.dir@,
            lines: views(self.lines@),
            next: self.next as int,
            text: self.text@,
        }
    }
}

/// What the inlining waits for.
#[derive(Clone, Copy, PartialEq, Eq, Structural, Debug)]
pub enum InlinePhase {
    /// The text of the entry.
    ReadingEntry,
    /// The canonical path of an import.
    Resolving,
    /// The text of the innermost stylesheet.
    ReadingSheet,
    /// Nothing: it reads on through the innermost stylesheet.
    Scanning,
    /// The removal of a stale output.
    Removing,
    /// The writing of the output.
    Writing,
    Done,
}

/// What the inlining asks of its driver, or how it ended.
pub enum CssRequest {
    /// The text of this file.
    ReadText(String),
    /// The canonical path of `specifier` imported from `importer_dir`
    /// (the driver runs an `ImportResolution`).
    Resolve { specifier: String, importer_dir: String },
    /// Remove this stale output, where there is one.
    RemoveStale(String),
    /// Create the directory `dir`, where given, and write `text` to `path`.
    Write { dir: Option<String>, path: String, text: String },
    /// Answer `Proceed`: the inlining goes on with the next line.
    Continue,
    Finished,
    Failed(BundleError),
}

pub enum CssRequestView {
    ReadText(Seq<char>),
    Resolve { specifier: Seq<char>, importer_dir: Seq<char> },
    RemoveStale(Seq<char>),
    Write { dir: Option<Seq<char>>, path: Seq<char>, text: Seq<char> },
    Continue,
    Finished,
    Failed(Failure),
}

impl View for CssRequest {
    type V = CssRequestView;

    open spec fn view(&self) -> CssRequestView {
        match self {
            CssRequest::ReadText(p) => CssRequestView::ReadText(p@),
            CssRequest::Resolve { specifier, importer_dir } => CssRequestView::Resolve {
                specifier: specifier@,
                importer_dir: importer_dir@,
            },
            CssRequest::RemoveStale(p) => CssRequestView::RemoveStale(p@),
            CssRequest::Write { dir, path, text } => CssRequestView::Write {
                dir: match dir {
                    Some(d) => Some(d@),
                    None => None,
                },
                path: path@,
                text: text@,
            },
            CssRequest::Continue => CssRequestView::Continue,
            CssRequest::Finished => CssRequestView::Finished,
            CssRequest::Failed(e) => CssRequestView::Failed(e@),
        }
    }
}

/// Why an output could not be written.
pub enum WriteFailure {
    Directory(String),
    File(String),
}

/// The driver's answer to the last request.
pub enum CssEvent {
    Text(Result<String, String>),
    Resolved(Result<String, BundleError>),
    Removed(Result<(), String>),
    Written(Result<(), WriteFailure>),
    /// The answer to `Continue`.
    Proceed,
}

/// The inlining of the stylesheets that one entry imports into its
/// stylesheet output.
pub struct StylesheetBundle {
    entry: String,
    root: String,
    output: String,
    minify: bool,
    phase: InlinePhase,
    imports: Vec<String>,
    next_import: usize,
    entry_dir: String,
    bundled: Vec<char>,
    /// The stylesheets being inlined, the innermost last.
    stack: Vec<Frame>,
}

pub struct BundleView {
    /// The canonical path of the entry.
    pub entry: Seq<char>,
    pub root: Seq<char>,
    /// The path of the stylesheet output.
    pub output: Seq<char>,
    pub minify: bool,
    pub phase: InlinePhase,
    /// The stylesheets that the entry imports.
    pub imports: Seq<Seq<char>>,
    /// The import being inlined, or the next one.
    pub next_import: int,
    pub entry_dir: Seq<char>,
    /// The inlined text of the imports finished so far, each a block.
    pub bundled: Seq<char>,
    /// The stylesheets being inlined, the outermost first.
    pub stack: Seq<FrameView>,
}

impl View for StylesheetBundle {
    type V = BundleView;

    closed spec fn view(&self) -> BundleView {
        BundleView {
            entry: self.entry@,
            root: self.root@,
            output: self.output@,
            minify: self.minify,
            phase: self.phase,
            imports: string_views(self.imports@),
            next_import: self.next_import as int,
            entry_dir: self.entry_dir@,
            bundled: self.bundled@,
            stack: self.stack@.map_values(|f: Frame| f@),
        }
    }
}

pub open spec fn distinct(s: Seq<Seq<char>>) -> bool {
    forall|i: int, j: int| 0 <= i < j < s.len() ==> s[i] != s[j]
}

/// The stylesheets being inlined, outermost first.
pub open spec fn stack_paths(b: BundleView) -> Seq<Seq<char>> {
    b.stack.map_values(|f: FrameView| f.path)
}

pub open spec fn msg_read_entry(entry: Seq<char>, cause: Seq<char>) -> Seq<char> {
    "failed to read entry source "@ + entry + ": "@ + cause
}

pub open spec fn msg_no_parent(entry: Seq<char>) -> Seq<char> {
    "entry source does not have a parent directory: "@ + entry
}

pub open spec fn msg_read_css(path: Seq<char>, cause: Seq<char>) -> Seq<char> {
    "failed to read css file "@ + path + ": "@ + cause
}

pub open spec fn msg_remove(path: Seq<char>, cause: Seq<char>) -> Seq<char> {
    "failed to remove stale css output "@ + path + ": "@ + cause
}

pub open spec fn msg_mkdir(dir: Seq<char>, cause: Seq<char>) -> Seq<char> {
    "failed to create css output directory "@ + dir + ": "@ + cause
}

pub open spec fn msg_write(path: Seq<char>, cause: Seq<char>) -> Seq<char> {
    "failed to write css output "@ + path + ": "@ + cause
}

pub open spec fn msg_css_out_of_turn() -> Seq<char> {
    "css inlining received an answer it did not ask for"@
}

/// The inlining stopped by `f`: nothing else changes.
pub open spec fn failed(b: BundleView, f: Failure) -> (BundleView, CssRequestView) {
    (BundleView { phase: InlinePhase::Done, ..b }, CssRequestView::Failed(f))
}

/// After a top-level import: the next one to resolve from the entry's
/// directory, or, when all are inlined, the write of their minified text.
pub open spec fn after_import(b: BundleView) -> (BundleView, CssRequestView) {
    if b.next_import < b.imports.len() {
        (
            BundleView { phase: InlinePhase::Resolving, ..b },
            CssRequestView::Resolve {
                specifier: b.imports[b.next_import],
                importer_dir: b.entry_dir,
            },
        )
    } else {
        (
            BundleView { phase: InlinePhase::Writing, ..b },
            CssRequestView::Write {
                dir: parent(b.output),
                path: b.output,
                text: minified(b.bundled, b.minify),
            },
        )
    }
}

/// One unit of reading through the innermost stylesheet: a line that
/// `@import`s is handed out for resolution (the stylesheet stays open); any
/// other line is copied with a line feed; a finished stylesheet is closed
/// and spliced as a block into the one that imported it, or into the
/// output.
pub open spec fn scan_step(b: BundleView) -> (BundleView, CssRequestView) {
    if b.stack.len() == 0 {
        failed(b, Failure::Runtime(msg_css_out_of_turn()))
    } else {
        let f = b.stack.last();
        let rest = b.stack.drop_last();
        if f.next < f.lines.len() {
            let line = f.lines[f.next];
            match css_import_specifier(line) {
                Some(sp) => (
                    BundleView {
                        phase: InlinePhase::Resolving,
                        stack: rest.push(FrameView { next: f.next + 1, ..f }),
                        ..b
                    },
                    CssRequestView::Resolve { specifier: sp, importer_dir: f.dir },
                ),
                None => (
                    BundleView {
                        stack: rest.push(
                            FrameView { next: f.next + 1, text: f.text + line + seq!['\n'], ..f },
                        ),
                        ..b
                    },
                    CssRequestView::Continue,
                ),
            }
        } else if rest.len() == 0 {
            after_import(
                BundleView {
                    stack: rest,
                    bundled: with_block(b.bundled, f.text),
                    next_import: b.next_import + 1,
                    ..b
                },
            )
        } else {
            let p = rest.last();
            (
                BundleView {
                    stack: rest.drop_last().push(
                        FrameView { text: with_block(p.text, f.text), ..p },
                    ),
                    ..b
                },
                CssRequestView::Continue,
            )
        }
    }
}

/// The next state and request of the inlining, given the driver's answer.
pub open spec fn bundle_step(b: BundleView, event: CssEvent) -> (BundleView, CssRequestView) {
    match (b.phase, event) {
        (InlinePhase::ReadingEntry, CssEvent::Text(Err(e))) => failed(
            b,
            Failure::Runtime(msg_read_entry(b.entry, e@)),
        ),
        (InlinePhase::ReadingEntry, CssEvent::Text(Ok(src))) => {
            let imports = direct_css_imports(src@);
            let b1 = BundleView { imports: imports, next_import: 0, ..b };
            if imports.len() == 0 {
                (
                    BundleView { phase: InlinePhase::Removing, ..b1 },
                    CssRequestView::RemoveStale(b.output),
                )
            } else {
                match parent(b.entry) {
                    Some(d) => after_import(BundleView { entry_dir: d, ..b1 }),
                    None => failed(b1, Failure::Runtime(msg_no_parent(b.entry))),
                }
            }
        },
        (InlinePhase::Resolving, CssEvent::Resolved(Err(e))) => failed(b, e@),
        (InlinePhase::Resolving, CssEvent::Resolved(Ok(p))) => if stack_paths(b).contains(p@) {
            failed(b, Failure::Runtime(msg_cycle(p@)))
        } else {
            let dir = match parent(p@) {
                Some(d) => d,
                None => b.root,
            };
            (
                BundleView {
                    phase: InlinePhase::ReadingSheet,
                    stack: b.stack.push(
                        FrameView { path: p@, dir, lines: seq![], next: 0, text: seq![] },
                    ),
                    ..b
                },
                CssRequestView::ReadText(p@),
            )
        },
        (InlinePhase::ReadingSheet, CssEvent::Text(t)) => if b.stack.len() == 0 {
            failed(b, Failure::Runtime(msg_css_out_of_turn()))
        } else {
            let f = b.stack.last();
            match t {
                Err(e) => failed(b, Failure::Runtime(msg_read_css(f.path, e@))),
                Ok(text) => (
                    BundleView {
                        phase: InlinePhase::Scanning,
                        stack: b.stack.drop_last().push(
                            FrameView { lines: lines(text@), next: 0, ..f },
                        ),
                        ..b
                    },
                    CssRequestView::Continue,
                ),
            }
        },
        (InlinePhase::Scanning, CssEvent::Proceed) => scan_step(b),
        (InlinePhase::Removing, CssEvent::Removed(Ok(()))) => (
            BundleView { phase: InlinePhase::Done, ..b },
            CssRequestView::Finished,
        ),
        (InlinePhase::Removing, CssEvent::Removed(Err(e))) => failed(
            b,
            Failure::Runtime(msg_remove(b.output, e@)),
        ),
        (InlinePhase::Writing, CssEvent::Written(Ok(()))) => (
            BundleView { phase: InlinePhase::Done, ..b },
            CssRequestView::Finished,
        ),
        (InlinePhase::Writing, CssEvent::Written(Err(WriteFailure::Directory(e)))) => failed(
            b,
            Failure::Runtime(
                msg_mkdir(
                    match parent(b.output) {
                        Some(d) => d,
                        None => seq![],
                    },
                    e@,
                ),
            ),
        ),
        (InlinePhase::Writing, CssEvent::Written(Err(WriteFailure::File(e)))) => failed(
            b,
            Failure::Runtime(msg_write(b.output, e@)),
        ),
        _ => failed(b, Failure::Runtime(msg_css_out_of_turn())),
    }
}

impl StylesheetBundle {
    /// No stylesheet is being inlined inside itself, and an import is under
    /// way whenever one is being resolved or inlined.
    pub closed spec fn wf(&self) -> bool {
        &&& distinct(stack_paths(self@))
        &&& self.next_import <= self.imports@.len()
        &&& (self.stack@.len() > 0 || self.phase == InlinePhase::Resolving) ==> self.next_import
            < self.imports@.len()
        &&& self.phase == InlinePhase::ReadingEntry ==> self.stack@.len() == 0
    }

    /// Starts the stylesheet output of the entry at `entry` (a canonical
    /// path), whose stylesheet path is `css_path`, under `output_dir`: it
    /// first reads the entry.
    pub fn new(entry: &str, root: &str, output_dir: &str, css_path: &str, minify: bool) -> (r: (
        StylesheetBundle,
        CssRequest,
    ))
        ensures
            r.0.wf(),
            r.0@ == (BundleView {
                entry: entry@,
                root: root@,
                output: css_output_path(root@, output_dir@, css_path@),
                minify,
                phase: InlinePhase::ReadingEntry,
                imports: seq![],
                next_import: 0,
                entry_dir: seq![],
                bundled: seq![],
                stack: seq![],
            }),
            r.1@ == CssRequestView::ReadText(entry@),
    {
        let out_dir = chars_of(output_dir);
        let base = if out_dir.len() > 0 && out_dir[0] == '/' {
            out_dir
        } else {
            join_under(&chars_of(root), &out_dir)
        };
        let output = string_of(&join_under(&base, &chars_of(css_path)));
        let b = StylesheetBundle {
            entry: String::from_str(entry),
            root: String::from_str(root),
            output,
            minify,
            phase: InlinePhase::ReadingEntry,
            imports: Vec::new(),
            next_import: 0,
            entry_dir: String::new(),
            bundled: Vec::new(),
            stack: Vec::new(),
        };
        assert(b@.stack =~= seq![]);
        assert(b@.imports =~= seq![]);
        assert(stack_paths(b@) =~= seq![]);
        (b, CssRequest::ReadText(String::from_str(entry)))
    }

    fn fail(&mut self, e: BundleError) -> (r: CssRequest)
        requires
            old(self).wf(),
        ensures
            final(self).wf(),
            (final(self)@, r@) == failed(old(self)@, e@),
    {
        self.phase = InlinePhase::Done;
        CssRequest::Failed(e)
    }

    fn after_import(&mut self) -> (r: CssRequest)
        requires
            old(self).wf(),
            old(self).stack@.len() == 0,
        ensures
            final(self).wf(),
            (final(self)@, r@) == after_import(old(self)@),
    {
        if self.next_import < self.imports.len() {
            let specifier = self.imports[self.next_import].clone();
            self.phase = InlinePhase::Resolving;
            CssRequest::Resolve { specifier, importer_dir: self.entry_dir.clone() }
        } else {
            self.phase = InlinePhase::Writing;
            let text = maybe_minify_css(string_of(&self.bundled), self.minify);
            let dir = match parent_dir(&chars_of(self.output.as_str())) {
                Some(d) => Some(string_of(&d)),
                None => None,
            };
            CssRequest::Write { dir, path: self.output.clone(), text }
        }
    }

    /// One unit of reading, as `scan_step` states it.
    fn scan(&mut self) -> (r: CssRequest)
        requires
            old(self).wf(),
            old(self).phase == InlinePhase::Scanning,
        ensures
            final(self).wf(),
            (final(self)@, r@) == scan_step(old(self)@),
    {
        if self.stack.len() == 0 {
            return self.fail(
                BundleError::Runtime(
                    String::from_str("css inlining received an answer it did not ask for"),
                ),
            );
        }
        let ghost b = self@;
        let ghost paths = stack_paths(b);
        assert(self.next_import < self.imports@.len());
        let mut f = self.stack.pop().unwrap();
        let ghost fv = f@;
        let ghost rest = self.stack@;
        assert(self@.stack =~= b.stack.drop_last());
        assert(fv == b.stack.last());
        assert(stack_paths(self@) =~= paths.drop_last());
        if f.next < f.lines.len() {
            let line = copy_chars(&f.lines[f.next]);
            assert(line@ == fv.lines[fv.next]);
            match parse_css_import_specifier(&line) {
                Some(sp) => {
                    f.next = f.next + 1;
                    let importer_dir = f.dir.clone();
                    self.stack.push(f);
                    assert(self.stack@ == rest.push(f));
                    assert(self@.stack =~= b.stack.drop_last().push(FrameView { next: fv.next + 1, ..fv }));
                    assert(stack_paths(self@) =~= paths);
                    self.phase = InlinePhase::Resolving;
                    CssRequest::Resolve { specifier: string_of(&sp), importer_dir }
                },
                None => {
                    push_line(&mut f.text, &line);
                    f.next = f.next + 1;
                    self.stack.push(f);
                    assert(self.stack@ == rest.push(f));
                    assert(self@.stack =~= b.stack.drop_last().push(
                        FrameView { next: fv.next + 1, text: fv.text + line@ + seq!['\n'], ..fv },
                    ));
                    assert(stack_paths(self@) =~= paths);
                    CssRequest::Continue
                },
            }
        } else if self.stack.len() == 0 {
            let n = self.imports.len();
            append_block(&mut self.bundled, &f.text);
            self.next_import = self.next_import + 1;
            assert(self.next_import <= n);
            assert(stack_paths(self@) =~= seq![]);
            self.after_import()
        } else {
            let ghost inner = self.stack@;
            let mut p = self.stack.pop().unwrap();
            let ghost pv = p@;
            assert(pv == b.stack.drop_last().last());
            append_block(&mut p.text, &f.text);
            self.stack.push(p);
            assert(self.stack@ == inner.drop_last().push(p));
            assert(self@.stack =~= b.stack.drop_last().drop_last().push(
                FrameView { text: with_block(pv.text, fv.text), ..pv },
            ));
            assert(stack_paths(self@) =~= paths.drop_last());
            assert(distinct(stack_paths(self@))) by {
                let q = stack_paths(self@);
                assert forall|i: int, j: int| 0 <= i < j < q.len() implies q[i] != q[j] by {
                    assert(q[i] == paths[i] && q[j] == paths[j]);
                }
            }
            CssRequest::Continue
        }
    }

    /// Whether `p` is a stylesheet being inlined.
    fn on_stack(&self, p: &str) -> (r: bool)
        ensures
            r == stack_paths(self@).contains(p@),
    {
        let mut i: usize = 0;
        while i < self.stack.len()
            invariant
                i <= self.stack@.len(),
                forall|k: int| 0 <= k < i ==> stack_paths(self@)[k] != p@,
            decreases self.stack@.len() - i,
        {
            if same_chars(&chars_of(self.stack[i].path.as_str()), &chars_of(p)) {
                assert(stack_paths(self@)[i as int] == p@);
                return true;
            }
            i += 1;
        }
        false
    }

    /// Takes the driver's answer to the last request, and makes the next,
    /// as `bundle_step` states it.
    pub fn step(&mut self, event: CssEvent) -> (r: CssRequest)
        requires
            old(self).wf(),
        ensures
            final(self).wf(),
            (final(self)@, r@) == bundle_step(old(self)@, event),
    {
        let ghost b = self@;
        match (self.phase, event) {
            (InlinePhase::ReadingEntry, CssEvent::Text(Err(e))) => {
                let m = message4("failed to read entry source ", self.entry.as_str(), ": ", e.as_str());
                self.fail(BundleError::Runtime(m))
            },
            (InlinePhase::ReadingEntry, CssEvent::Text(Ok(src))) => {
                self.imports = crate::scan::collect_direct_css_imports(src.as_str());
                self.next_import = 0;
                if self.imports.len() == 0 {
                    self.phase = InlinePhase::Removing;
                    return CssRequest::RemoveStale(self.output.clone());
                }
                match parent_dir(&chars_of(self.entry.as_str())) {
                    Some(d) => {
                        self.entry_dir = string_of(&d);
                        self.after_import()
                    },
                    None => {
                        let m = message2(
                            "entry source does not have a parent directory: ",
                            self.entry.as_str(),
                        );
                        self.fail(BundleError::Runtime(m))
                    },
                }
            },
            (InlinePhase::Resolving, CssEvent::Resolved(Err(e))) => self.fail(e),
            (InlinePhase::Resolving, CssEvent::Resolved(Ok(p))) => {
                if self.on_stack(p.as_str()) {
                    let m = message2("detected cyclic css import: ", p.as_str());
                    return self.fail(BundleError::Runtime(m));
                }
                let pc = chars_of(p.as_str());
                let dir = match parent_dir(&pc) {
                    Some(d) => string_of(&d),
                    None => self.root.clone(),
                };
                let frame = Frame { path: p.clone(), dir, lines: Vec::new(), next: 0, text: Vec::new() };
                let ghost before = self.stack@;
                self.stack.push(frame);
                assert(self.stack@ == before.push(frame));
                assert(frame@.lines =~= seq![]);
                assert(self@.stack =~= b.stack.push(frame@));
                assert(stack_paths(self@) =~= stack_paths(b).push(p@));
                self.phase = InlinePhase::ReadingSheet;
                CssRequest::ReadText(p)
            },
            (InlinePhase::ReadingSheet, CssEvent::Text(t)) => {
                if self.stack.len() == 0 {
                    return self.fail(
                        BundleError::Runtime(
                            String::from_str("css inlining received an answer it did not ask for"),
                        ),
                    );
                }
                match t {
                    Err(e) => {
                        let n = self.stack.len();
                        let m = message4("failed to read css file ", self.stack[n - 1].path.as_str(), ": ", e.as_str());
                        assert(b.stack.last().path == self.stack@[n - 1].path@);
                        self.fail(BundleError::Runtime(m))
                    },
                    Ok(text) => {
                        let mut f = self.stack.pop().unwrap();
                        let ghost fv = f@;
                        let ghost rest = self.stack@;
                        assert(fv == b.stack.last());
                        f.lines = split_lines(&chars_of(text.as_str()));
                        f.next = 0;
                        self.stack.push(f);
                        assert(self.stack@ == rest.push(f));
                        assert(self@.stack =~= b.stack.drop_last().push(
                            FrameView { lines: lines(text@), next: 0, ..fv },
                        ));
                        assert(stack_paths(self@) =~= stack_paths(b));
                        self.phase = InlinePhase::Scanning;
                        CssRequest::Continue
                    },
                }
            },
            (InlinePhase::Scanning, CssEvent::Proceed) => self.scan(),
            (InlinePhase::Removing, CssEvent::Removed(Ok(()))) => {
                self.phase = InlinePhase::Done;
                CssRequest::Finished
            },
            (InlinePhase::Removing, CssEvent::Removed(Err(e))) => {
                let m = message4("failed to remove stale css output ", self.output.as_str(), ": ", e.as_str());
                self.fail(BundleError::Runtime(m))
            },
            (InlinePhase::Writing, CssEvent::Written(Ok(()))) => {
                self.phase = InlinePhase::Done;
                CssRequest::Finished
            },
            (InlinePhase::Writing, CssEvent::Written(Err(WriteFailure::Directory(e)))) => {
                let dir = match parent_dir(&chars_of(self.output.as_str())) {
                    Some(d) => string_of(&d),
                    None => String::new(),
                };
                let m = message4("failed to create css output directory ", dir.as_str(), ": ", e.as_str());
                self.fail(BundleError::Runtime(m))
            },
            (InlinePhase::Writing, CssEvent::Written(Err(WriteFailure::File(e)))) => {
                let m = message4("failed to write css output ", self.output.as_str(), ": ", e.as_str());
                self.fail(BundleError::Runtime(m))
            },
            _ => self.fail(
                BundleError::Runtime(
                    String::from_str("css inlining received an answer it did not ask for"),
                ),
            ),
        }
    }
}

} // verus!
