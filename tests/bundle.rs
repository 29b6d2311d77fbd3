use gdansk::entries::{
    build_client_input_item_fields, build_server_input_item_fields,
    server_entrypoint_wrapper_source, GDANSK_RUNTIME_SPECIFIER,
};
use gdansk::pages::{normalize_pages, NormalizedPage, PageProbe, RootProbe};
use gdansk::scan::collect_direct_css_imports;
use std::collections::HashMap;

const ROOT: &str = "/tmp/gdansk-test-1";
const OTHER_ROOT: &str = "/tmp/gdansk-test-2";

fn root() -> RootProbe {
    RootProbe { path: ROOT.to_string(), canonical: Ok(ROOT.to_string()) }
}

/// A page whose file exists under the project root.
fn page(path: &str, app: bool, ssr: bool) -> PageProbe {
    PageProbe {
        path: path.to_string(),
        app,
        ssr,
        exists: true,
        is_file: true,
        canonical: Ok(format!("{ROOT}/{path}")),
    }
}

fn by_import(pages: Vec<NormalizedPage>) -> HashMap<String, NormalizedPage> {
    pages.into_iter().map(|p| (p.import().to_string(), p)).collect()
}

#[test]
fn rejects_empty_view_set() {
    let result = normalize_pages(&vec![], &root(), ".gdansk");
    let err = result.err().expect("expected empty-set validation error");
    assert!(err.is_validation());
    assert!(err.message().contains("must not be empty"));
}

#[test]
fn bundle_rejects_non_jsx_or_tsx_extensions() {
    let result = normalize_pages(&vec![page("main.ts", false, false)], &root(), ".gdansk");
    let err = result.err().expect("expected extension validation error");
    assert!(err.is_validation());
    assert!(err.message().contains(".tsx or .jsx"));
}

#[test]
fn bundle_rejects_paths_outside_cwd() {
    let outside = format!("{OTHER_ROOT}/outside.tsx");
    let probe = PageProbe {
        path: outside.clone(),
        app: false,
        ssr: false,
        exists: true,
        is_file: true,
        canonical: Ok(outside),
    };
    let result = normalize_pages(&vec![probe], &root(), ".gdansk");
    let err = result.err().expect("expected outside-cwd validation error");
    assert!(err.is_validation());
    assert!(err.message().contains("inside cwd"));
}

#[test]
fn bundle_rejects_output_collisions() {
    let result = normalize_pages(
        &vec![page("a.tsx", false, false), page("a.jsx", false, false)],
        &root(),
        ".gdansk",
    );
    let err = result.err().expect("expected output collision validation error");
    assert!(err.is_validation());
    assert!(err.message().contains("same output"));
}

#[test]
fn preserves_non_app_relative_structure_for_output_mapping() {
    let normalized = normalize_pages(
        &vec![page("main.tsx", false, false), page("home/page.tsx", false, false)],
        &root(),
        ".gdansk",
    )
    .ok()
    .expect("expected normalized input set");
    let by_import = by_import(normalized);

    let main = by_import.get("main.tsx").expect("expected main.tsx mapping");
    assert_eq!(main.client_name(), "main");
    assert_eq!(format!("{}.js", main.client_name()), "main.js");
    assert_eq!(format!("{}.css", main.client_name()), "main.css");
    assert_eq!(main.server_name(), None);

    let nested = by_import.get("home/page.tsx").expect("expected home/page.tsx mapping");
    assert_eq!(nested.client_name(), "home/page");
    assert_eq!(format!("{}.js", nested.client_name()), "home/page.js");
    assert_eq!(format!("{}.css", nested.client_name()), "home/page.css");
    assert_eq!(nested.server_name(), None);
}

#[test]
fn app_view_maps_to_per_tool_client_and_server_outputs() {
    let normalized = normalize_pages(
        &vec![page("apps/get-time/page.tsx", true, true)],
        &root(),
        ".gdansk",
    )
    .ok()
    .expect("expected normalized input set");

    let entry = &normalized[0];
    assert_eq!(entry.client_name(), "get-time/client");
    assert_eq!(format!("{}.js", entry.client_name()), "get-time/client.js");
    assert_eq!(format!("{}.css", entry.client_name()), "get-time/client.css");
    assert_eq!(entry.server_name(), Some("get-time/server"));
    assert_eq!(
        entry.server_name().map(|name| format!("{name}.js")),
        Some("get-time/server.js".to_string())
    );
}

#[test]
fn rejects_ssr_when_app_is_false() {
    let result = normalize_pages(&vec![page("main.tsx", false, true)], &root(), ".gdansk");
    let err = result.err().expect("expected ssr validation error");
    assert!(err.is_validation());
    assert!(err.message().contains("ssr=true"));
}

#[test]
fn rejects_app_view_that_is_not_under_apps() {
    let result = normalize_pages(&vec![page("simple/page.tsx", true, false)], &root(), ".gdansk");
    let err = result.err().expect("expected app path validation error");
    assert!(err.is_validation());
    assert!(err.message().contains("inside an apps/ directory"));
}

#[test]
fn client_input_fields_rewrite_only_app_views() {
    let normalized = normalize_pages(
        &vec![page("apps/simple/page.tsx", true, false), page("main.tsx", false, false)],
        &root(),
        ".gdansk",
    )
    .ok()
    .expect("expected normalized pages");

    let fields = build_client_input_item_fields(&normalized)
        .into_iter()
        .collect::<HashMap<_, _>>();
    assert_eq!(
        fields.get("simple/client"),
        Some(&"apps/simple/page.tsx?gdansk-app-entry".to_string())
    );
    assert_eq!(fields.get("main"), Some(&"main.tsx".to_string()));
}

#[test]
fn css_scanner_detects_side_effect_imports() {
    let imports = collect_direct_css_imports(
        r#"
import "./page.css";
export const page = 1;
"#,
    );

    assert_eq!(imports, vec!["./page.css".to_string()]);
}

#[test]
fn css_scanner_preserves_import_order() {
    let imports = collect_direct_css_imports(
        r#"
import "./first.css";
import "./second.css";
"#,
    );

    assert_eq!(imports, vec!["./first.css".to_string(), "./second.css".to_string()]);
}

#[test]
fn css_scanner_ignores_non_css_imports() {
    let imports = collect_direct_css_imports(
        r#"
import "./page.js";
import value from "./other.ts";
"#,
    );

    assert!(imports.is_empty());
}

#[test]
fn css_scanner_ignores_dynamic_imports() {
    let imports = collect_direct_css_imports(
        r#"
await import("./page.css");
const loader = () => import("./other.css");
"#,
    );

    assert!(imports.is_empty());
}

#[test]
fn server_input_fields_include_only_ssr_views() {
    let normalized = normalize_pages(
        &vec![page("apps/simple/page.tsx", true, true), page("apps/other/page.tsx", true, false)],
        &root(),
        ".gdansk",
    )
    .ok()
    .expect("expected normalized pages");

    let fields = build_server_input_item_fields(&normalized);
    assert_eq!(fields.len(), 1);
    assert_eq!(fields[0].0, "simple/server");
    assert_eq!(fields[0].1, "apps/simple/page.tsx?gdansk-server-entry");
}

#[test]
fn server_entrypoint_wrapper_imports_runtime_module() {
    let wrapper = server_entrypoint_wrapper_source("apps/simple/page.tsx")
        .expect("expected server wrapper");
    assert!(wrapper.contains(&format!(
        r#"import {{ setSsrHtml }} from "{GDANSK_RUNTIME_SPECIFIER}";"#
    )));
}

#[test]
fn server_entrypoint_wrapper_does_not_call_deno_ops_directly() {
    let wrapper = server_entrypoint_wrapper_source("apps/simple/page.tsx")
        .expect("expected server wrapper");
    assert!(!wrapper.contains("Deno.core.ops.op_gdansk_set_html"));
}

#[test]
fn server_entrypoint_wrapper_does_not_use_global_marker() {
    let wrapper = server_entrypoint_wrapper_source("apps/simple/page.tsx")
        .expect("expected server wrapper");
    assert!(!wrapper.contains("globalThis.__gdansk_html"));
}
