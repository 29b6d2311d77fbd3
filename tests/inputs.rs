use gdansk::pages::{normalize_pages, NormalizedPage, PageProbe, RootProbe};
use std::collections::HashMap;

const ROOT: &str = "/tmp/gdansk-test-3";
const OTHER_ROOT: &str = "/tmp/gdansk-test-4";

fn root() -> RootProbe {
    RootProbe { path: ROOT.to_string(), canonical: Ok(ROOT.to_string()) }
}

/// A plain page whose file exists at `path` under the project root.
fn input(path: &str) -> PageProbe {
    PageProbe {
        path: path.to_string(),
        app: false,
        ssr: false,
        exists: true,
        is_file: true,
        canonical: Ok(format!("{ROOT}/{path}")),
    }
}

fn by_import(pages: Vec<NormalizedPage>) -> HashMap<String, NormalizedPage> {
    pages.into_iter().map(|p| (p.import().to_string(), p)).collect()
}

#[test]
fn rejects_empty_input_set() {
    let result = normalize_pages(&vec![], &root(), ".gdansk");
    let err = result.err().expect("expected empty-set validation error");
    assert!(err.message().contains("must not be empty"));
}

#[test]
fn lib_rejects_non_jsx_or_tsx_extensions() {
    let result = normalize_pages(&vec![input("main.ts")], &root(), ".gdansk");
    let err = result.err().expect("expected extension validation error");
    assert!(err.message().contains(".tsx or .jsx"));
}

#[test]
fn lib_rejects_paths_outside_cwd() {
    let outside = format!("{OTHER_ROOT}/outside.tsx");
    let probe = PageProbe {
        path: outside.clone(),
        app: false,
        ssr: false,
        exists: true,
        is_file: true,
        canonical: Ok(outside),
    };
    let result = normalize_pages(&vec![probe], &root(), ".gdansk");
    let err = result.err().expect("expected outside-cwd validation error");
    assert!(err.message().contains("inside cwd"));
}

#[test]
fn lib_rejects_output_collisions() {
    let result = normalize_pages(&vec![input("a.tsx"), input("a.jsx")], &root(), ".gdansk");
    let err = result.err().expect("expected output collision validation error");
    assert!(err.message().contains("same output"));
}

#[test]
fn preserves_relative_structure_for_output_mapping() {
    let normalized = normalize_pages(&vec![input("main.tsx"), input("home/page.tsx")], &root(), ".gdansk")
        .ok()
        .expect("expected normalized input set");
    let by_import = by_import(normalized);

    let main = by_import.get("main.tsx").expect("expected main.tsx mapping");
    assert_eq!(main.client_name(), "main");
    assert_eq!(format!("{}.js", main.client_name()), "main.js");

    let nested = by_import.get("home/page.tsx").expect("expected home/page.tsx mapping");
    assert_eq!(nested.client_name(), "home/page");
    assert_eq!(format!("{}.js", nested.client_name()), "home/page.js");
}
