//! The bundler's inputs for a build plan, and the virtual modules that its
//! resolve and load hooks supply: stylesheet stubs, the client hydration
//! entry, the server rendering entry and the runtime module.

use vstd::prelude::*;
use crate::pages::{NormalizedPage, entry_views, EntryView};
use crate::paths::{components, split_components};
use crate::scan::css_ext;
use crate::text::{
    chars_of, ends_with, has_prefix, has_suffix, slice_of, starts_with, string_of, strip_suffix,
    views,
};

verus! {

/// The query that marks a client entry wrapped for hydration.
pub const APP_ENTRYPOINT_QUERY: &'static str = "?gdansk-app-entry";

/// The query that marks an entry wrapped for server rendering.
pub const SERVER_ENTRYPOINT_QUERY: &'static str = "?gdansk-server-entry";

/// The specifier of the runtime module.
pub const GDANSK_RUNTIME_SPECIFIER: &'static str = "gdansk:runtime";

/// The namespace of stylesheet stubs.
pub const GDANSK_CSS_STUB_PREFIX: &'static str = "gdansk:css-stub:";

/// The runtime module: `setSsrHtml` hands rendered HTML to the host, and
/// `runCode` evaluates a script in the global scope.
pub const GDANSK_RUNTIME_MODULE_SOURCE: &'static str = "export function setSsrHtml(html) {\n  Deno.core.ops.op_gdansk_set_html(String(html));\n}\n\nexport function runCode(code) {\n  return (0, eval)(code);\n}\n";

/// What a stylesheet stub exports: nothing.
pub const CSS_STUB_SOURCE: &'static str = "export {};";

pub open spec fn client_import(import: Seq<char>, app: bool) -> Seq<char> {
    if app {
        import + APP_ENTRYPOINT_QUERY@
    } else {
        import
    }
}

pub open spec fn server_import(import: Seq<char>) -> Seq<char> {
    import + SERVER_ENTRYPOINT_QUERY@
}

/// The specifier under which the bundler loads a page's client entry: an
/// app page through its hydration wrapper.
pub fn entry_import_for_client(import: &str, app: bool) -> (r: String)
    ensures
        r@ == client_import(import@, app),
{
    let mut s = String::from_str(import);
    if app {
        s.append(APP_ENTRYPOINT_QUERY);
    }
    s
}

/// The specifier under which the bundler loads a page's server entry.
pub fn entry_import_for_server(import: &str) -> (r: String)
    ensures
        r@ == server_import(import@),
{
    let mut s = String::from_str(import);
    s.append(SERVER_ENTRYPOINT_QUERY);
    s
}

pub open spec fn field_views(v: Seq<(String, String)>) -> Seq<(Seq<char>, Seq<char>)> {
    v.map_values(|f: (String, String)| (f.0@, f.1@))
}

/// The client inputs of a plan: each entry's client name with its client
/// specifier, in plan order.
pub open spec fn client_fields(es: Seq<EntryView>) -> Seq<(Seq<char>, Seq<char>)> {
    es.map_values(|e: EntryView| (e.client_name, client_import(e.import, e.app)))
}

/// The server inputs of a plan: for each entry that renders on the server,
/// its server name with its server specifier, in plan order.
pub open spec fn server_fields(es: Seq<EntryView>) -> Seq<(Seq<char>, Seq<char>)>
    decreases es.len(),
{
    if es.len() == 0 {
        seq![]
    } else {
        let before = server_fields(es.drop_last());
        let e = es.last();
        if e.ssr {
            before.push((e.server_name->0, server_import(e.import)))
        } else {
            before
        }
    }
}

pub fn build_client_input_item_fields(pages: &Vec<NormalizedPage>) -> (r: Vec<(String, String)>)
    ensures
        field_views(r@) == client_fields(entry_views(pages@)),
{
    let mut out: Vec<(String, String)> = Vec::new();
    let mut i: usize = 0;
    while i < pages.len()
        invariant
            i <= pages@.len(),
            field_views(out@) == client_fields(entry_views(pages@)).subrange(0, i as int),
        decreases pages@.len() - i,
    {
        let p = &pages[i];
        let name = String::from_str(p.client_name());
        let import = entry_import_for_client(p.import(), p.app());
        let ghost before = out@;
        out.push((name, import));
        assert(field_views(out@) =~= client_fields(entry_views(pages@)).subrange(0, i + 1)) by {
            assert(field_views(out@) =~= field_views(before).push((name@, import@)));
        }
        i += 1;
    }
    assert(client_fields(entry_views(pages@)).subrange(0, i as int) =~= client_fields(
        entry_views(pages@),
    ));
    out
}

pub fn build_server_input_item_fields(pages: &Vec<NormalizedPage>) -> (r: Vec<(String, String)>)
    requires
        forall|i: int| 0 <= i < pages@.len() ==> #[trigger] pages@[i].wf(),
    ensures
        field_views(r@) == server_fields(entry_views(pages@)),
{
    let mut out: Vec<(String, String)> = Vec::new();
    let mut i: usize = 0;
    while i < pages.len()
        invariant
            i <= pages@.len(),
            forall|i: int| 0 <= i < pages@.len() ==> #[trigger] pages@[i].wf(),
            field_views(out@) == server_fields(entry_views(pages@).subrange(0, i as int)),
        decreases pages@.len() - i,
    {
        let ghost prefix = entry_views(pages@).subrange(0, i + 1);
        assert(prefix.drop_last() =~= entry_views(pages@).subrange(0, i as int));
        assert(prefix.last() == pages@[i as int]@);
        let p = &pages[i];
        assert(p.wf());
        if p.ssr() {
            if let Some(name) = p.server_name() {
                let ghost before = out@;
                let import = entry_import_for_server(p.import());
                let name = String::from_str(name);
                out.push((name, import));
                assert(field_views(out@) =~= field_views(before).push((name@, import@)));
            }
        }
        i += 1;
    }
    assert(entry_views(pages@).subrange(0, i as int) =~= entry_views(pages@));
    out
}


/// What precedes the module path in the server rendering wrapper.
pub const SERVER_WRAPPER_HEAD: &'static str = "import { createElement } from \"react\";\nimport { renderToString } from \"react-dom/server\";\nimport { setSsrHtml } from \"gdansk:runtime\";\nimport App from \"./";

/// What follows the module path in the server rendering wrapper.
pub const SERVER_WRAPPER_TAIL: &'static str = "\";\n\nsetSsrHtml(renderToString(createElement(App)));\n";

/// What precedes the module path in the client hydration wrapper.
pub const APP_WRAPPER_HEAD: &'static str = "import { StrictMode, createElement } from \"react\";\nimport { createRoot, hydrateRoot } from \"react-dom/client\";\nimport App from \"./";

/// What follows the module path in the client hydration wrapper.
pub const APP_WRAPPER_TAIL: &'static str = "\";\n\nconst root = document.getElementById(\"root\");\nif (!root) throw new Error(\"Expected #root element\");\nconst element = createElement(StrictMode, null, createElement(App));\nif (root.hasChildNodes()) {\n  hydrateRoot(root, element);\n} else {\n  createRoot(root).render(element);\n}\n";

/// The file name of a module id, as `Path::file_name` reads it: its last
/// component, unless that is `..` or there is none.
pub open spec fn module_file_name(id: Seq<char>) -> Option<Seq<char>> {
    let cs = components(id);
    if cs.len() == 0 || cs.last() == seq!['.', '.'] {
        None
    } else {
        Some(cs.last())
    }
}

/// A module that renders the default export of the sibling file `name` to
/// a string and hands it to the runtime's capture function.
pub open spec fn server_wrapper(name: Seq<char>) -> Seq<char> {
    SERVER_WRAPPER_HEAD@ + name + SERVER_WRAPPER_TAIL@
}

/// A module that mounts the default export of the sibling file `name` into
/// the `#root` element, hydrating where it already has children.
pub open spec fn app_wrapper(name: Seq<char>) -> Seq<char> {
    APP_WRAPPER_HEAD@ + name + APP_WRAPPER_TAIL@
}

/// The file name of `id`, as `module_file_name` states it.
fn file_name_of(id: &str) -> (r: Option<String>)
    ensures
        match r {
            Some(f) => module_file_name(id@) == Some(f@),
            None => module_file_name(id@) is None,
        },
{
    let cs = split_components(&chars_of(id));
    let n = cs.len();
    if n == 0 {
        return None;
    }
    let last = &cs[n - 1];
    assert(views(cs@).last() == last@);
    let is_dotdot = last.len() == 2 && last[0] == '.' && last[1] == '.';
    assert(is_dotdot == (last@ == seq!['.', '.'])) by {
        if is_dotdot {
            assert(last@ =~= seq!['.', '.']);
        }
    }
    if is_dotdot {
        None
    } else {
        Some(string_of(last))
    }
}

fn surround(head: &str, middle: &str, tail: &str) -> (r: String)
    ensures
        r@ == head@ + middle@ + tail@,
{
    let mut s = String::from_str(head);
    s.append(middle);
    s.append(tail);
    s
}

/// The server rendering wrapper for the module `source_id`.
pub fn server_entrypoint_wrapper_source(source_id: &str) -> (r: Option<String>)
    ensures
        match module_file_name(source_id@) {
            Some(f) => r matches Some(w) && w@ == server_wrapper(f),
            None => r is None,
        },
{
    match file_name_of(source_id) {
        Some(f) => Some(surround(SERVER_WRAPPER_HEAD, f.as_str(), SERVER_WRAPPER_TAIL)),
        None => None,
    }
}

/// The client hydration wrapper for the module `source_id`.
pub fn app_entrypoint_wrapper_source(source_id: &str) -> (r: Option<String>)
    ensures
        match module_file_name(source_id@) {
            Some(f) => r matches Some(w) && w@ == app_wrapper(f),
            None => r is None,
        },
{
    match file_name_of(source_id) {
        Some(f) => Some(surround(APP_WRAPPER_HEAD, f.as_str(), APP_WRAPPER_TAIL)),
        None => None,
    }
}

pub open spec fn hex_digits() -> Seq<char> {
    seq!['0', '1', '2', '3', '4', '5', '6', '7', '8', '9', 'a', 'b', 'c', 'd', 'e', 'f']
}

/// The `k`-th hexadecimal digit of `h`, the most significant first.
pub open spec fn nibble(h: u64, k: int) -> u64 {
    (h >> ((60 - 4 * k) as u64)) & 15u64
}

/// `h` as sixteen lowercase hexadecimal digits, as `{:016x}` writes it.
pub open spec fn hex16(h: u64) -> Seq<char> {
    Seq::new(16, |k: int| hex_digits()[nibble(h, k) as int])
}

/// The virtual id of a stylesheet stub whose importer and specifier hash
/// to `hash`.
pub fn css_stub_id(hash: u64) -> (r: String)
    ensures
        r@ == GDANSK_CSS_STUB_PREFIX@ + hex16(hash),
{
    let digits: Vec<char> = vec![
        '0', '1', '2', '3', '4', '5', '6', '7', '8', '9', 'a', 'b', 'c', 'd', 'e', 'f',
    ];
    let mut out: Vec<char> = Vec::new();
    let mut k: u64 = 0;
    while k < 16
        invariant
            k <= 16,
            digits@ == hex_digits(),
            out@ == hex16(hash).subrange(0, k as int),
        decreases 16 - k,
    {
        let shift: u64 = 60 - 4 * k;
        let d = (hash >> shift) & 15u64;
        assert(d < 16) by (bit_vector)
            requires
                d == (hash >> shift) & 15u64,
        ;
        out.push(digits[d as usize]);
        k += 1;
        assert(out@ =~= hex16(hash).subrange(0, k as int));
    }
    assert(hex16(hash).subrange(0, 16) =~= hex16(hash));
    let mut id = String::from_str(GDANSK_CSS_STUB_PREFIX);
    id.append(string_of(&out).as_str());
    id
}


/// A resolve/load hook that the bundler consults, in a chain where the
/// first hook that claims a specifier or id decides.
#[derive(Clone, Copy, PartialEq, Eq, Structural, Debug)]
pub enum Hook {
    /// Stands an empty module in for each stylesheet import.
    CssStub,
    /// Wraps an app page in its client hydration entry.
    AppEntrypoint,
    /// Wraps an app page in its server rendering entry.
    ServerEntrypoint,
    /// Supplies the runtime module.
    RuntimeModule,
}

/// The id that `hook` resolves `specifier` to, where it claims it;
/// `stub_hash` is the hash of the importer and the specifier.
pub open spec fn resolves(hook: Hook, specifier: Seq<char>, stub_hash: u64) -> Option<Seq<char>> {
    match hook {
        Hook::CssStub => if ends_with(specifier, css_ext()) {
            Some(GDANSK_CSS_STUB_PREFIX@ + hex16(stub_hash))
        } else {
            None
        },
        Hook::AppEntrypoint => if ends_with(specifier, APP_ENTRYPOINT_QUERY@) {
            Some(specifier)
        } else {
            None
        },
        Hook::ServerEntrypoint => if ends_with(specifier, SERVER_ENTRYPOINT_QUERY@) {
            Some(specifier)
        } else {
            None
        },
        Hook::RuntimeModule => if specifier == GDANSK_RUNTIME_SPECIFIER@ {
            Some(specifier)
        } else {
            None
        },
    }
}

/// The source that `hook` supplies for the module `id`, where it claims it.
pub open spec fn loads(hook: Hook, id: Seq<char>) -> Option<Seq<char>> {
    match hook {
        Hook::CssStub => if starts_with(id, GDANSK_CSS_STUB_PREFIX@) {
            Some(CSS_STUB_SOURCE@)
        } else {
            None
        },
        Hook::AppEntrypoint => match strip_suffix(id, APP_ENTRYPOINT_QUERY@) {
            Some(source) => match module_file_name(source) {
                Some(f) => Some(app_wrapper(f)),
                None => None,
            },
            None => None,
        },
        Hook::ServerEntrypoint => match strip_suffix(id, SERVER_ENTRYPOINT_QUERY@) {
            Some(source) => match module_file_name(source) {
                Some(f) => Some(server_wrapper(f)),
                None => None,
            },
            None => None,
        },
        Hook::RuntimeModule => if id == GDANSK_RUNTIME_SPECIFIER@ {
            Some(GDANSK_RUNTIME_MODULE_SOURCE@)
        } else {
            None
        },
    }
}

/// `s` without the suffix `p`, where it ends with it.
fn without_suffix(s: &str, p: &str) -> (r: Option<String>)
    ensures
        match strip_suffix(s@, p@) {
            Some(t) => r matches Some(x) && x@ == t,
            None => r is None,
        },
{
    let sc = chars_of(s);
    let pc = chars_of(p);
    if has_suffix(&sc, &pc) {
        Some(string_of(&slice_of(&sc, 0, sc.len() - pc.len())))
    } else {
        None
    }
}

fn same_str(a: &str, b: &str) -> (r: bool)
    ensures
        r == (a@ == b@),
{
    crate::text::same_chars(&chars_of(a), &chars_of(b))
}

impl Hook {
    pub fn name(&self) -> (r: &'static str)
        ensures
            r@ == match *self {
                Hook::CssStub => "gdansk:css-stub"@,
                Hook::AppEntrypoint => "gdansk:app-entrypoint"@,
                Hook::ServerEntrypoint => "gdansk:server-entrypoint"@,
                Hook::RuntimeModule => "gdansk:runtime-module"@,
            },
    {
        match self {
            Hook::CssStub => "gdansk:css-stub",
            Hook::AppEntrypoint => "gdansk:app-entrypoint",
            Hook::ServerEntrypoint => "gdansk:server-entrypoint",
            Hook::RuntimeModule => "gdansk:runtime-module",
        }
    }

    /// The id this hook resolves `specifier` to, as `resolves` states it.
    pub fn resolve_id(&self, specifier: &str, stub_hash: u64) -> (r: Option<String>)
        ensures
            match resolves(*self, specifier@, stub_hash) {
                Some(id) => r matches Some(x) && x@ == id,
                None => r is None,
            },
    {
        let sc = chars_of(specifier);
        match self {
            Hook::CssStub => {
                if has_suffix(&sc, &vec!['.', 'c', 's', 's']) {
                    Some(css_stub_id(stub_hash))
                } else {
                    None
                }
            },
            Hook::AppEntrypoint => {
                if has_suffix(&sc, &chars_of(APP_ENTRYPOINT_QUERY)) {
                    Some(String::from_str(specifier))
                } else {
                    None
                }
            },
            Hook::ServerEntrypoint => {
                if has_suffix(&sc, &chars_of(SERVER_ENTRYPOINT_QUERY)) {
                    Some(String::from_str(specifier))
                } else {
                    None
                }
            },
            Hook::RuntimeModule => {
                if same_str(specifier, GDANSK_RUNTIME_SPECIFIER) {
                    Some(String::from_str(specifier))
                } else {
                    None
                }
            },
        }
    }

    /// The source this hook supplies for `id`, as `loads` states it.
    pub fn load(&self, id: &str) -> (r: Option<String>)
        ensures
            match loads(*self, id@) {
                Some(src) => r matches Some(x) && x@ == src,
                None => r is None,
            },
    {
        match self {
            Hook::CssStub => {
                if has_prefix(&chars_of(id), &chars_of(GDANSK_CSS_STUB_PREFIX)) {
                    Some(String::from_str(CSS_STUB_SOURCE))
                } else {
                    None
                }
            },
            Hook::AppEntrypoint => match without_suffix(id, APP_ENTRYPOINT_QUERY) {
                Some(source) => app_entrypoint_wrapper_source(source.as_str()),
                None => None,
            },
            Hook::ServerEntrypoint => match without_suffix(id, SERVER_ENTRYPOINT_QUERY) {
                Some(source) => server_entrypoint_wrapper_source(source.as_str()),
                None => None,
            },
            Hook::RuntimeModule => {
                if same_str(id, GDANSK_RUNTIME_SPECIFIER) {
                    Some(String::from_str(GDANSK_RUNTIME_MODULE_SOURCE))
                } else {
                    None
                }
            },
        }
    }
}

/// The hooks of a client build: stylesheet stubs, and the hydration
/// wrapper where the plan has app pages.
pub fn client_entrypoint_plugins(include_app_entrypoint_plugin: bool) -> (r: Vec<Hook>)
    ensures
        r@ == if include_app_entrypoint_plugin {
            seq![Hook::CssStub, Hook::AppEntrypoint]
        } else {
            seq![Hook::CssStub]
        },
{
    let mut hooks: Vec<Hook> = vec![Hook::CssStub];
    if include_app_entrypoint_plugin {
        hooks.push(Hook::AppEntrypoint);
    }
    hooks
}

/// The hooks of a server build: stylesheet stubs, the runtime module and
/// the server rendering wrapper.
pub fn server_entrypoint_plugins() -> (r: Vec<Hook>)
    ensures
        r@ == seq![Hook::CssStub, Hook::RuntimeModule, Hook::ServerEntrypoint],
{
    vec![Hook::CssStub, Hook::RuntimeModule, Hook::ServerEntrypoint]
}

/// The id that the first hook of `hooks` to claim `specifier` resolves it to.
pub open spec fn chain_resolves(hooks: Seq<Hook>, specifier: Seq<char>, stub_hash: u64) -> Option<
    Seq<char>,
>
    decreases hooks.len(),
{
    if hooks.len() == 0 {
        None
    } else {
        match resolves(hooks[0], specifier, stub_hash) {
            Some(id) => Some(id),
            None => chain_resolves(hooks.drop_first(), specifier, stub_hash),
        }
    }
}

/// The source that the first hook of `hooks` to claim `id` supplies.
pub open spec fn chain_loads(hooks: Seq<Hook>, id: Seq<char>) -> Option<Seq<char>>
    decreases hooks.len(),
{
    if hooks.len() == 0 {
        None
    } else {
        match loads(hooks[0], id) {
            Some(src) => Some(src),
            None => chain_loads(hooks.drop_first(), id),
        }
    }
}

pub fn resolve_in_chain(hooks: &Vec<Hook>, specifier: &str, stub_hash: u64) -> (r: Option<String>)
    ensures
        match chain_resolves(hooks@, specifier@, stub_hash) {
            Some(id) => r matches Some(x) && x@ == id,
            None => r is None,
        },
{
    let mut i: usize = 0;
    assert(hooks@.subrange(0, hooks@.len() as int) =~= hooks@);
    while i < hooks.len()
        invariant
            i <= hooks@.len(),
            chain_resolves(hooks@, specifier@, stub_hash) == chain_resolves(
                hooks@.subrange(i as int, hooks@.len() as int),
                specifier@,
                stub_hash,
            ),
        decreases hooks@.len() - i,
    {
        let ghost rest = hooks@.subrange(i as int, hooks@.len() as int);
        assert(rest[0] == hooks@[i as int]);
        if let Some(id) = hooks[i].resolve_id(specifier, stub_hash) {
            return Some(id);
        }
        assert(rest.drop_first() =~= hooks@.subrange(i + 1, hooks@.len() as int));
        i += 1;
    }
    None
}

pub fn load_in_chain(hooks: &Vec<Hook>, id: &str) -> (r: Option<String>)
    ensures
        match chain_loads(hooks@, id@) {
            Some(src) => r matches Some(x) && x@ == src,
            None => r is None,
        },
{
    let mut i: usize = 0;
    assert(hooks@.subrange(0, hooks@.len() as int) =~= hooks@);
    while i < hooks.len()
        invariant
            i <= hooks@.len(),
            chain_loads(hooks@, id@) == chain_loads(
                hooks@.subrange(i as int, hooks@.len() as int),
                id@,
            ),
        decreases hooks@.len() - i,
    {
        let ghost rest = hooks@.subrange(i as int, hooks@.len() as int);
        assert(rest[0] == hooks@[i as int]);
        if let Some(src) = hooks[i].load(id) {
            return Some(src);
        }
        assert(rest.drop_first() =~= hooks@.subrange(i + 1, hooks@.len() as int));
        i += 1;
    }
    None
}


/// Whether two different hooks of `hooks` both claim `specifier`.
pub open spec fn claimed_twice(hooks: Seq<Hook>, specifier: Seq<char>, stub_hash: u64) -> bool {
    exists|i: int, j: int|
        0 <= i < j < hooks.len() && #[trigger] resolves(hooks[i], specifier, stub_hash) is Some
            && #[trigger] resolves(hooks[j], specifier, stub_hash) is Some
}

/// In the hook chain of a client build and in that of a server build, no
/// specifier is claimed by two hooks: the stylesheet suffix, the two entry
/// queries and the runtime specifier exclude one another.
pub proof fn lemma_one_hook_claims_each_specifier(
    include_app: bool,
    specifier: Seq<char>,
    stub_hash: u64,
)
    ensures
        !claimed_twice(
            if include_app {
                seq![Hook::CssStub, Hook::AppEntrypoint]
            } else {
                seq![Hook::CssStub]
            },
            specifier,
            stub_hash,
        ),
        !claimed_twice(
            seq![Hook::CssStub, Hook::RuntimeModule, Hook::ServerEntrypoint],
            specifier,
            stub_hash,
        ),
{
    reveal_strlit("?gdansk-app-entry");
    reveal_strlit("?gdansk-server-entry");
    reveal_strlit("gdansk:runtime");
    let n = specifier.len();
    let css = ends_with(specifier, css_ext());
    let app = ends_with(specifier, APP_ENTRYPOINT_QUERY@);
    let server = ends_with(specifier, SERVER_ENTRYPOINT_QUERY@);
    let runtime = specifier == GDANSK_RUNTIME_SPECIFIER@;
    if css {
        assert(specifier[n - 1] == css_ext()[3]);
    }
    if app {
        assert(specifier[n - 1] == APP_ENTRYPOINT_QUERY@[16]);
    }
    if server {
        assert(specifier[n - 1] == SERVER_ENTRYPOINT_QUERY@[19]);
    }
    if runtime {
        assert(specifier[n - 1] == GDANSK_RUNTIME_SPECIFIER@[13]);
    }
    assert(!(css && app) && !(css && server) && !(css && runtime) && !(server && runtime));
}


/// Whether some entry of the plan is an app page.
pub open spec fn has_app_entries(es: Seq<EntryView>) -> bool {
    exists|i: int| 0 <= i < es.len() && (#[trigger] es[i]).app
}

/// One run of the bundler: its named inputs, its hooks, and whether it
/// writes a self-executing script (a server bundle) rather than a module.
pub struct BundlerRun {
    pub inputs: Vec<(String, String)>,
    pub hooks: Vec<Hook>,
    pub self_executing: bool,
}

/// The bundler runs of a build, and whether they run at once.
pub struct BundlerRuns {
    pub runs: Vec<BundlerRun>,
    pub concurrent: bool,
}

/// The bundler runs of a plan: the client build, with the hydration
/// wrapper where there are app pages; then, where some page renders on the
/// server, the self-executing server build. In a watch session the two run
/// at once; else one after the other.
pub fn plan_bundler_runs(pages: &Vec<NormalizedPage>, dev: bool) -> (r: BundlerRuns)
    requires
        forall|i: int| 0 <= i < pages@.len() ==> #[trigger] pages@[i].wf(),
    ensures
        ({
            let es = entry_views(pages@);
            let server = server_fields(es).len() > 0;
            &&& r.runs@.len() == if server {
                2int
            } else {
                1int
            }
            &&& field_views(r.runs@[0].inputs@) == client_fields(es)
            &&& r.runs@[0].hooks@ == if has_app_entries(es) {
                seq![Hook::CssStub, Hook::AppEntrypoint]
            } else {
                seq![Hook::CssStub]
            }
            &&& !r.runs@[0].self_executing
            &&& server ==> field_views(r.runs@[1].inputs@) == server_fields(es)
                && r.runs@[1].hooks@ == seq![
                Hook::CssStub,
                Hook::RuntimeModule,
                Hook::ServerEntrypoint,
            ] && r.runs@[1].self_executing
            &&& r.concurrent == (dev && server)
        }),
{
    let ghost es = entry_views(pages@);
    let mut any_app = false;
    let mut i: usize = 0;
    while i < pages.len()
        invariant
            i <= pages@.len(),
            es == entry_views(pages@),
            any_app == exists|k: int| 0 <= k < i && (#[trigger] es[k]).app,
        decreases pages@.len() - i,
    {
        assert(es[i as int] == pages@[i as int]@);
        if pages[i].app() {
            any_app = true;
        }
        i += 1;
    }
    assert(any_app == has_app_entries(es));
    let client = BundlerRun {
        inputs: build_client_input_item_fields(pages),
        hooks: client_entrypoint_plugins(any_app),
        self_executing: false,
    };
    let server_inputs = build_server_input_item_fields(pages);
    let mut runs: Vec<BundlerRun> = vec![client];
    let server = server_inputs.len() > 0;
    assert(server == (server_fields(es).len() > 0)) by {
        assert(field_views(server_inputs@).len() == server_inputs@.len());
    }
    if server {
        runs.push(
            BundlerRun {
                inputs: server_inputs,
                hooks: server_entrypoint_plugins(),
                self_executing: true,
            },
        );
    }
    BundlerRuns { runs, concurrent: dev && server }
}

} // verus!
