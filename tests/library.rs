use gdansk::entries::{
    app_entrypoint_wrapper_source, client_entrypoint_plugins, css_stub_id, entry_import_for_client, plan_bundler_runs,
    entry_import_for_server, load_in_chain, resolve_in_chain, server_entrypoint_plugins, Hook,
    CSS_STUB_SOURCE, GDANSK_RUNTIME_MODULE_SOURCE,
};
use gdansk::json::JsonValue;
use gdansk::pages::{normalize_pages, Page, PageProbe, RootProbe};
use gdansk::runtime::{
    captured_result, check_value_kind, eval_module_source, SsrCapture, ValueKind,
};
use gdansk::scan::maybe_minify_css;
use gdansk::stylesheet::{
    canonicalize_existing_file, classify_import, package_style_export, CssEvent, CssRequest,
    FileFacts, ImportKind, ImportResolution, ManifestFailure, ResolutionEvent, ResolutionRequest,
    StylesheetBundle, WriteFailure,
};

const ROOT: &str = "/srv/site";

fn root() -> RootProbe {
    RootProbe { path: ROOT.to_string(), canonical: Ok(ROOT.to_string()) }
}

fn page(path: &str, app: bool, ssr: bool) -> PageProbe {
    PageProbe {
        path: path.to_string(),
        app,
        ssr,
        exists: true,
        is_file: true,
        canonical: Ok(format!("{ROOT}/{path}")),
    }
}

fn file(canonical: &str) -> FileFacts {
    FileFacts { exists: true, is_file: true, canonical: Ok(canonical.to_string()) }
}

#[test]
fn valid_pages_come_back_sorted_by_import() {
    let pages = vec![
        page("zeta.tsx", false, false),
        page("apps/tool/page.tsx", true, true),
        page("alpha/main.jsx", false, false),
        page("Beta.TSX", false, false),
    ];
    let plan = normalize_pages(&pages, &root(), ".gdansk").ok().expect("valid pages");
    let imports: Vec<&str> = plan.iter().map(|p| p.import()).collect();
    assert_eq!(imports, vec!["Beta.TSX", "alpha/main.jsx", "apps/tool/page.tsx", "zeta.tsx"]);
    assert_eq!(plan[0].client_name(), "Beta");
    assert_eq!(plan[0].client_css_path(), "Beta.css");
    assert_eq!(plan[2].absolute_path(), "/srv/site/apps/tool/page.tsx");
}

#[test]
fn app_and_plain_names_follow_the_layout() {
    let plan = normalize_pages(
        &vec![page("apps/tool/page.tsx", true, true), page("main.tsx", false, false)],
        &root(),
        ".gdansk",
    )
    .ok()
    .expect("valid pages");
    assert_eq!(plan[0].client_name(), "tool/client");
    assert_eq!(plan[0].server_name(), Some("tool/server"));
    assert!(plan[0].app() && plan[0].ssr());
    assert_eq!(plan[1].client_name(), "main");
    assert_eq!(plan[1].server_name(), None);
}

#[test]
fn empty_root_failure_comes_after_the_empty_check() {
    let broken = RootProbe { path: "gone".to_string(), canonical: Err("no such dir".to_string()) };
    let err = normalize_pages(&vec![], &broken, ".gdansk").err().unwrap();
    assert!(err.message().contains("must not be empty"));
    let err = normalize_pages(&vec![page("a.tsx", false, false)], &broken, ".gdansk").err().unwrap();
    assert!(!err.is_validation());
    assert_eq!(err.message(), "failed to resolve current working directory gone: no such dir");
}

#[test]
fn each_page_rule_has_its_error() {
    let mut missing = page("a.tsx", false, false);
    missing.exists = false;
    let err = normalize_pages(&vec![missing], &root(), "out").err().unwrap();
    assert_eq!(err.message(), "input path does not exist: a.tsx");

    let mut dir = page("a.tsx", false, false);
    dir.is_file = false;
    let err = normalize_pages(&vec![dir], &root(), "out").err().unwrap();
    assert_eq!(err.message(), "input path is not a file: a.tsx");

    let mut broken = page("a.tsx", false, false);
    broken.canonical = Err("loop".to_string());
    let err = normalize_pages(&vec![broken], &root(), "out").err().unwrap();
    assert!(!err.is_validation());
    assert_eq!(err.message(), "failed to canonicalize input a.tsx: loop");

    let err = normalize_pages(&vec![page("apps/tool/main.tsx", true, false)], &root(), "out")
        .err()
        .unwrap();
    assert!(err.message().contains("page.tsx or page.jsx"));

    let err = normalize_pages(&vec![page("apps/page.tsx", true, false)], &root(), "out")
        .err()
        .unwrap();
    assert!(err.message().contains("at least one segment below apps/"));
}

#[test]
fn collision_names_both_pages_and_the_output() {
    let err = normalize_pages(
        &vec![page("a.tsx", false, false), page("a.jsx", false, false)],
        &root(),
        "out",
    )
    .err()
    .unwrap();
    assert_eq!(err.message(), "multiple pages map to the same output out/a.js: a.tsx and a.jsx");
}

#[test]
fn first_failure_decides() {
    let err = normalize_pages(
        &vec![page("a.ts", false, false), page("b.tsx", false, true)],
        &root(),
        "out",
    )
    .err()
    .unwrap();
    assert!(err.message().contains(".tsx or .jsx"));
}

#[test]
fn page_descriptor_derives_outputs() {
    let p = Page::new("apps/get-time/page.tsx".to_string(), true, true);
    assert_eq!(p.client(), "get-time/client.js");
    assert_eq!(p.css(), "get-time/client.css");
    assert_eq!(p.server(), Some("get-time/server.js"));
    let q = Page::new("home/page.tsx".to_string(), false, false);
    assert_eq!(q.client(), "home/page.js");
    assert_eq!(q.css(), "home/page.css");
    assert_eq!(q.server(), None);
    let r = Page::new("page.tsx".to_string(), true, false);
    assert_eq!(r.client(), "client/client.js");
    assert_eq!(r.path(), "page.tsx");
}

#[test]
fn input_specifiers_carry_their_queries() {
    assert_eq!(entry_import_for_client("a.tsx", false), "a.tsx");
    assert_eq!(entry_import_for_client("a.tsx", true), "a.tsx?gdansk-app-entry");
    assert_eq!(entry_import_for_server("a.tsx"), "a.tsx?gdansk-server-entry");
}

#[test]
fn css_stub_ids_are_hexadecimal() {
    assert_eq!(css_stub_id(0), "gdansk:css-stub:0000000000000000");
    assert_eq!(css_stub_id(0xdead_beef_0123_4567), "gdansk:css-stub:deadbeef01234567");
}

#[test]
fn hook_chains_pick_the_first_claim() {
    let client = client_entrypoint_plugins(true);
    assert_eq!(client, vec![Hook::CssStub, Hook::AppEntrypoint]);
    assert_eq!(client_entrypoint_plugins(false), vec![Hook::CssStub]);
    assert_eq!(
        resolve_in_chain(&client, "./page.css", 255),
        Some("gdansk:css-stub:00000000000000ff".to_string())
    );
    assert_eq!(
        resolve_in_chain(&client, "apps/x/page.tsx?gdansk-app-entry", 0),
        Some("apps/x/page.tsx?gdansk-app-entry".to_string())
    );
    assert_eq!(resolve_in_chain(&client, "react", 0), None);
    assert_eq!(load_in_chain(&client, "gdansk:css-stub:00"), Some(CSS_STUB_SOURCE.to_string()));
    let app = load_in_chain(&client, "/p/apps/x/page.tsx?gdansk-app-entry").unwrap();
    assert!(app.contains("import App from \"./page.tsx\";"));
    assert!(app.contains("hydrateRoot(root, element);"));

    let server = server_entrypoint_plugins();
    assert_eq!(
        resolve_in_chain(&server, "gdansk:runtime", 0),
        Some("gdansk:runtime".to_string())
    );
    assert_eq!(
        load_in_chain(&server, "gdansk:runtime"),
        Some(GDANSK_RUNTIME_MODULE_SOURCE.to_string())
    );
    let ssr = load_in_chain(&server, "/p/apps/x/page.tsx?gdansk-server-entry").unwrap();
    assert!(ssr.contains("setSsrHtml(renderToString(createElement(App)));"));
    assert_eq!(load_in_chain(&server, "/p/apps/x/page.tsx"), None);
    assert_eq!(Hook::RuntimeModule.name(), "gdansk:runtime-module");
}

#[test]
fn wrappers_need_a_file_name() {
    assert_eq!(app_entrypoint_wrapper_source("apps/.."), None);
    assert!(app_entrypoint_wrapper_source("apps/x/page.jsx").unwrap().contains("\"./page.jsx\""));
}

#[test]
fn minify_trims_lines_and_drops_blank_ones() {
    assert_eq!(maybe_minify_css("a {\n  color: red;\n\n}\n".to_string(), true), "a {color: red;}\n");
    assert_eq!(maybe_minify_css(" \n\t\n".to_string(), true), "");
    assert_eq!(maybe_minify_css("a {\n}\n".to_string(), false), "a {\n}\n");
}

#[test]
fn import_kinds() {
    assert_eq!(classify_import("./a.css"), ImportKind::Relative);
    assert_eq!(classify_import("../a.css"), ImportKind::Relative);
    assert_eq!(classify_import("pkg/dist/a.css"), ImportKind::Stylesheet);
    assert_eq!(classify_import("pkg"), ImportKind::Package);
}

#[test]
fn file_checks_have_their_errors() {
    let missing = FileFacts { exists: false, is_file: false, canonical: Err("x".to_string()) };
    let err = canonicalize_existing_file("css import", "/a.css", &missing).err().unwrap();
    assert_eq!(err.message(), "css import does not exist: /a.css");
    let dir = FileFacts { exists: true, is_file: false, canonical: Ok("/d".to_string()) };
    let err = canonicalize_existing_file("css import", "/d", &dir).err().unwrap();
    assert_eq!(err.message(), "css import is not a file: /d");
    assert_eq!(canonicalize_existing_file("css import", "/a/./b.css", &file("/a/b.css")).ok(), Some("/a/b.css".to_string()));
}

fn object(fields: Vec<(&str, JsonValue)>) -> JsonValue {
    JsonValue::Object(fields.into_iter().map(|(k, v)| (k.to_string(), v)).collect())
}

#[test]
fn manifest_style_export() {
    let manifest = object(vec![(
        "exports",
        object(vec![(".", object(vec![("style", JsonValue::Str("dist/style.css".to_string()))]))]),
    )]);
    assert_eq!(package_style_export(&manifest), Some("dist/style.css".to_string()));
    let without = object(vec![("exports", object(vec![(".", object(vec![]))]))]);
    assert_eq!(package_style_export(&without), None);
    assert_eq!(package_style_export(&JsonValue::Null), None);
}

#[test]
fn relative_import_is_checked_beside_the_importer() {
    let (mut r, req) = ImportResolution::start("./theme.css", "/srv/site/styles", "/srv/site");
    match req {
        ResolutionRequest::Inspect(p) => assert_eq!(p, "/srv/site/styles/./theme.css"),
        _ => panic!("expected an inspection"),
    }
    match r.step(ResolutionEvent::Inspected(file("/srv/site/styles/theme.css"))) {
        ResolutionRequest::Resolved(Ok(p)) => assert_eq!(p, "/srv/site/styles/theme.css"),
        _ => panic!("expected a resolved path"),
    }
    assert!(r.is_finished());
}

#[test]
fn bare_stylesheet_is_looked_for_up_to_the_root() {
    let (mut r, req) = ImportResolution::start("pkg/a.css", "/srv/site/src", "/srv/site");
    match req {
        ResolutionRequest::Exists(p) => assert_eq!(p, "/srv/site/src/node_modules/pkg/a.css"),
        _ => panic!("expected an existence check"),
    }
    match r.step(ResolutionEvent::Existence(false)) {
        ResolutionRequest::Exists(p) => assert_eq!(p, "/srv/site/node_modules/pkg/a.css"),
        _ => panic!("expected the next directory up"),
    }
    match r.step(ResolutionEvent::Existence(false)) {
        ResolutionRequest::Resolved(Err(e)) => {
            assert!(e.is_validation());
            assert_eq!(e.message(), "failed to resolve css import \"pkg/a.css\"");
        }
        _ => panic!("expected the search to stop at the root"),
    }
}

#[test]
fn package_import_goes_through_its_manifest() {
    let (mut r, _) = ImportResolution::start("pkg", "/srv/site", "/srv/site");
    match r.step(ResolutionEvent::Existence(true)) {
        ResolutionRequest::ReadManifest(p) => assert_eq!(p, "/srv/site/node_modules/pkg/package.json"),
        _ => panic!("expected a manifest read"),
    }
    let manifest = object(vec![(
        "exports",
        object(vec![(".", object(vec![("style", JsonValue::Str("s.css".to_string()))]))]),
    )]);
    match r.step(ResolutionEvent::Manifest(Ok(manifest))) {
        ResolutionRequest::Inspect(p) => assert_eq!(p, "/srv/site/node_modules/pkg/s.css"),
        _ => panic!("expected an inspection"),
    }

    let (mut r, _) = ImportResolution::start("pkg", "/srv/site", "/srv/site");
    r.step(ResolutionEvent::Existence(true));
    match r.step(ResolutionEvent::Manifest(Ok(object(vec![])))) {
        ResolutionRequest::Resolved(Err(e)) => {
            assert!(e.is_validation());
            assert!(e.message().contains("does not define exports[\".\"].style"));
        }
        _ => panic!("expected a missing style export"),
    }

    let (mut r, _) = ImportResolution::start("pkg", "/srv/site", "/srv/site");
    r.step(ResolutionEvent::Existence(true));
    match r.step(ResolutionEvent::Manifest(Err(ManifestFailure::Parse("bad".to_string())))) {
        ResolutionRequest::Resolved(Err(e)) => {
            assert!(!e.is_validation());
            assert!(e.message().starts_with("failed to parse package.json for css import \"pkg\""));
        }
        _ => panic!("expected a parse failure"),
    }
}

/// Runs a bundle against a table of files whose imports resolve to
/// `/s/<name>`; returns the written text or the failure message.
fn run_bundle(entry_source: &str, sheets: &[(&str, &str)]) -> Result<String, String> {
    let (mut b, mut req) = StylesheetBundle::new("/s/page.tsx", "/s", "out", "page.css", false);
    for _ in 0..1000 {
        req = match req {
            CssRequest::ReadText(p) => {
                if p == "/s/page.tsx" {
                    b.step(CssEvent::Text(Ok(entry_source.to_string())))
                } else {
                    let text = sheets.iter().find(|(name, _)| format!("/s/{name}") == p).map(|(_, t)| t.to_string());
                    b.step(CssEvent::Text(text.ok_or_else(|| "missing".to_string())))
                }
            }
            CssRequest::Resolve { specifier, importer_dir } => {
                assert_eq!(importer_dir, "/s");
                let name = specifier.trim_start_matches("./").to_string();
                b.step(CssEvent::Resolved(Ok(format!("/s/{name}"))))
            }
            CssRequest::Write { dir, path, text } => {
                assert_eq!(dir, Some("/s/out".to_string()));
                assert_eq!(path, "/s/out/page.css");
                let done = b.step(CssEvent::Written(Ok(())));
                assert!(matches!(done, CssRequest::Finished));
                return Ok(text);
            }
            CssRequest::RemoveStale(p) => {
                assert_eq!(p, "/s/out/page.css");
                return Err("removed".to_string());
            }
            CssRequest::Continue => b.step(CssEvent::Proceed),
            CssRequest::Finished => return Err("finished".to_string()),
            CssRequest::Failed(e) => return Err(e.message()),
        };
    }
    Err("did not end".to_string())
}

#[test]
fn stylesheets_are_inlined_in_order() {
    let out = run_bundle(
        "import \"./a.css\";\nimport \"./b.css\";\n",
        &[("a.css", "@import \"./c.css\";\na {}"), ("b.css", "b {}\n"), ("c.css", "c {}")],
    );
    assert_eq!(out, Ok("c {}\na {}\nb {}\n".to_string()));
}

#[test]
fn import_url_is_left_as_it_is() {
    let out = run_bundle("import \"./a.css\";\n", &[("a.css", "@import url(x.css);\n")]);
    assert_eq!(out, Ok("@import url(x.css);\n".to_string()));
}

#[test]
fn self_import_is_cyclic() {
    let out = run_bundle("import \"./a.css\";\n", &[("a.css", "@import \"./a.css\";\n")]);
    assert_eq!(out, Err("detected cyclic css import: /s/a.css".to_string()));
}

#[test]
fn transitive_import_cycle_is_cyclic() {
    let out = run_bundle(
        "import \"./a.css\";\n",
        &[("a.css", "@import \"./b.css\";\n"), ("b.css", "@import './a.css';\n")],
    );
    assert_eq!(out, Err("detected cyclic css import: /s/a.css".to_string()));
}

#[test]
fn a_stylesheet_may_be_imported_twice_without_a_cycle() {
    let out = run_bundle(
        "import \"./a.css\";\nimport \"./a.css\";\n",
        &[("a.css", "a {}\n")],
    );
    assert_eq!(out, Ok("a {}\na {}\n".to_string()));
}

#[test]
fn entry_without_stylesheets_removes_stale_output() {
    assert_eq!(run_bundle("export default 1;\n", &[]), Err("removed".to_string()));
}

#[test]
fn unreadable_stylesheet_fails() {
    let out = run_bundle("import \"./gone.css\";\n", &[]);
    assert_eq!(out, Err("failed to read css file /s/gone.css: missing".to_string()));
}

#[test]
fn write_failures_have_their_messages() {
    let (mut b, _) = StylesheetBundle::new("/s/page.tsx", "/s", "/abs/out", "x/page.css", true);
    b.step(CssEvent::Text(Ok("import \"./a.css\";".to_string())));
    b.step(CssEvent::Resolved(Ok("/s/a.css".to_string())));
    let mut req = b.step(CssEvent::Text(Ok("  a {  \n\n}".to_string())));
    while let CssRequest::Continue = req {
        req = b.step(CssEvent::Proceed);
    }
    match req {
        CssRequest::Write { path, text, .. } => {
            assert_eq!(path, "/abs/out/x/page.css");
            assert_eq!(text, "a {}\n");
        }
        _ => panic!("expected a write"),
    }
    match b.step(CssEvent::Written(Err(WriteFailure::Directory("denied".to_string())))) {
        CssRequest::Failed(e) => {
            assert_eq!(e.message(), "failed to create css output directory /abs/out/x: denied")
        }
        _ => panic!("expected a failure"),
    }
}

#[test]
fn value_kinds_without_json_form_are_rejected() {
    for kind in [
        ValueKind::Undefined,
        ValueKind::Function,
        ValueKind::Symbol,
        ValueKind::BigInt,
        ValueKind::Promise,
        ValueKind::Number { finite: false },
    ] {
        let err = check_value_kind(kind).err().unwrap();
        assert!(!err.is_execution());
        assert_eq!(err.message(), "Cannot deserialize value: unsupported JavaScript value");
    }
    assert!(check_value_kind(ValueKind::Number { finite: true }).is_ok());
    assert!(check_value_kind(ValueKind::Other).is_ok());
}

#[test]
fn captured_html_takes_precedence_and_does_not_leak() {
    let mut capture = SsrCapture::new();
    capture.set("<div>first</div>".to_string());
    capture.set("<div>ok</div>".to_string());
    match captured_result(&mut capture) {
        Some(JsonValue::Str(h)) => assert_eq!(h, "<div>ok</div>"),
        _ => panic!("expected the captured html"),
    }
    assert!(captured_result(&mut capture).is_none());
    capture.set("x".to_string());
    capture.reset();
    assert!(capture.take().is_none());
}

#[test]
fn evaluated_code_is_quoted_as_json() {
    let m = eval_module_source("let s = \"a\\b\";\n\u{1}").ok().unwrap();
    assert_eq!(
        m,
        "import { runCode } from \"gdansk:runtime\";\nglobalThis.__gdansk_last_result = runCode(\"let s = \\\"a\\\\b\\\";\\n\\u0001\");"
    );
}

#[test]
fn unreadable_manifest_is_a_runtime_error() {
    let (mut r, _) = ImportResolution::start("pkg", "/srv/site", "/srv/site");
    r.step(ResolutionEvent::Existence(true));
    match r.step(ResolutionEvent::Manifest(Err(ManifestFailure::Read("denied".to_string())))) {
        ResolutionRequest::Resolved(Err(e)) => {
            assert!(!e.is_validation());
            assert_eq!(
                e.message(),
                "failed to read package.json for css import \"pkg\": /srv/site/node_modules/pkg/package.json (denied)"
            );
        }
        _ => panic!("expected a read failure"),
    }
}

#[test]
fn answers_out_of_turn_end_the_machines() {
    let (mut r, _) = ImportResolution::start("./a.css", "/s", "/s");
    match r.step(ResolutionEvent::Existence(true)) {
        ResolutionRequest::Resolved(Err(e)) => assert!(!e.is_validation()),
        _ => panic!("expected a failure"),
    }
    let (mut b, _) = StylesheetBundle::new("/s/page.tsx", "/s", "out", "page.css", false);
    match b.step(CssEvent::Removed(Ok(()))) {
        CssRequest::Failed(e) => assert!(!e.is_validation()),
        _ => panic!("expected a failure"),
    }
}

#[test]
fn entry_read_failure_names_the_entry() {
    let (mut b, _) = StylesheetBundle::new("/s/page.tsx", "/s", "out", "page.css", false);
    match b.step(CssEvent::Text(Err("gone".to_string()))) {
        CssRequest::Failed(e) => assert_eq!(e.message(), "failed to read entry source /s/page.tsx: gone"),
        _ => panic!("expected a failure"),
    }
}

#[test]
fn runtime_error_kinds() {
    let e = gdansk::runtime::RuntimeError::execution("Execution error: boom".to_string());
    assert!(e.is_execution());
    assert_eq!(e.message(), "Execution error: boom");
    let d = gdansk::runtime::RuntimeError::deserialize("bad".to_string());
    assert!(!d.is_execution());
}

#[test]
fn backslashes_become_slashes_in_specifiers() {
    let probe = PageProbe {
        path: "a\\b.tsx".to_string(),
        app: false,
        ssr: false,
        exists: true,
        is_file: true,
        canonical: Ok(format!("{ROOT}/a\\b.tsx")),
    };
    let plan = normalize_pages(&vec![probe], &root(), "out").ok().unwrap();
    assert_eq!(plan[0].import(), "a/b.tsx");
    assert_eq!(plan[0].client_name(), "a/b");
}

#[test]
fn bundler_runs_follow_the_plan() {
    let plan = normalize_pages(
        &vec![page("apps/tool/page.tsx", true, true), page("main.tsx", false, false)],
        &root(),
        ".gdansk",
    )
    .ok()
    .unwrap();
    let runs = plan_bundler_runs(&plan, true);
    assert!(runs.concurrent);
    assert_eq!(runs.runs.len(), 2);
    assert_eq!(runs.runs[0].hooks, vec![Hook::CssStub, Hook::AppEntrypoint]);
    assert!(!runs.runs[0].self_executing);
    assert_eq!(
        runs.runs[0].inputs,
        vec![
            ("tool/client".to_string(), "apps/tool/page.tsx?gdansk-app-entry".to_string()),
            ("main".to_string(), "main.tsx".to_string()),
        ]
    );
    assert_eq!(runs.runs[1].hooks, vec![Hook::CssStub, Hook::RuntimeModule, Hook::ServerEntrypoint]);
    assert!(runs.runs[1].self_executing);
    assert_eq!(
        runs.runs[1].inputs,
        vec![("tool/server".to_string(), "apps/tool/page.tsx?gdansk-server-entry".to_string())]
    );

    let plain = normalize_pages(&vec![page("main.tsx", false, false)], &root(), ".gdansk").ok().unwrap();
    let runs = plan_bundler_runs(&plain, true);
    assert!(!runs.concurrent);
    assert_eq!(runs.runs.len(), 1);
    assert_eq!(runs.runs[0].hooks, vec![Hook::CssStub]);
}

#[test]
fn nested_imports_are_spliced_in_place() {
    let out = run_bundle(
        "import \"./a.css\";\n",
        &[("a.css", "top {}\n@import \"./b.css\";\nbottom {}"), ("b.css", "middle {}")],
    );
    assert_eq!(out, Ok("top {}\nmiddle {}\nbottom {}\n".to_string()));
}
