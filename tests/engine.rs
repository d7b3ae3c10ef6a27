use rsp::compiler::{build_outcome, generate_cargo_toml, BuildStep, CompileError, CompileOptions, Compiler, Platform};
use rsp::config::default_max_connections;
use rsp::engine::prepare_render;
use rsp::loader::Loader;
use rsp::parser::ParseError;

fn compiler() -> Compiler {
    Compiler::new("/tmp/cache".to_string(), None, Some("/home/u".to_string()), Platform::Linux)
}

#[test]
fn hash_of_empty_template() {
    let job = prepare_render("").unwrap();
    assert_eq!(job.hash, "e3b0c44298fc1c149afbf4c8996fb92427ae41e4649b934ca495991b7852b855");
}

#[test]
fn equal_templates_share_a_hash() {
    let a = prepare_render("Hello, World").unwrap();
    let b = prepare_render("Hello, World").unwrap();
    let c = prepare_render("Hello, World!").unwrap();
    assert_eq!(a.hash, b.hash);
    assert_ne!(a.hash, c.hash);
    assert_eq!(a.hash.len(), 64);
    assert!(a.hash.chars().all(|ch| ch.is_ascii_hexdigit() && !ch.is_ascii_uppercase()));
    let comp = compiler();
    assert_eq!(comp.get_lib_path(&a.hash), comp.get_lib_path(&b.hash));
}

#[test]
fn prepare_reports_unclosed_tag() {
    assert!(matches!(prepare_render("prefix <% let x"), Err(ParseError::UnclosedTag)));
}

#[test]
fn prepare_generates_source() {
    let job = prepare_render("<% header(404); %>missing").unwrap();
    assert!(job.generated.needs_cargo);
    assert!(job.generated.source.contains("    output.push_str(\"missing\");\n"));
}

#[test]
fn compiler_paths() {
    let c = compiler();
    assert_eq!(c.cache_dir(), "/tmp/cache");
    assert_eq!(c.target_dir(), "/home/u/.rsp/target");
    assert_eq!(c.get_lib_path("abc"), "/tmp/cache/abc.so");
    let o = Compiler::new("/c/".to_string(), Some("/t".to_string()), None, Platform::MacOs);
    assert_eq!(o.target_dir(), "/t");
    assert_eq!(o.get_lib_path("h"), "/c/h.dylib");
    let w = Compiler::new("C:\\c".to_string(), None, None, Platform::Windows);
    assert_eq!(w.target_dir(), "C:\\c\\target");
    assert_eq!(w.get_lib_path("h"), "C:\\c\\h.dll");
}

#[test]
fn existing_artifact_builds_nothing() {
    let c = compiler();
    match c.build_step("abc", true, true) {
        BuildStep::Cached { artifact } => assert_eq!(artifact, "/tmp/cache/abc.so"),
        other => panic!("unexpected {:?}", other),
    }
}

#[test]
fn direct_build_step() {
    match compiler().build_step("abc", false, false) {
        BuildStep::Direct { source_file, artifact, args } => {
            assert_eq!(source_file, "/tmp/cache/abc.rs");
            assert_eq!(artifact, "/tmp/cache/abc.so");
            assert_eq!(
                args,
                vec![
                    "/tmp/cache/abc.rs", "--crate-type=cdylib", "-o", "/tmp/cache/abc.so", "-C",
                    "opt-level=2", "-C", "debuginfo=0",
                ]
            );
        }
        other => panic!("unexpected {:?}", other),
    }
}

#[test]
fn package_build_step() {
    match compiler().build_step("abc", true, false) {
        BuildStep::Package { project_dir, manifest_file, lib_source, target_dir, built_library, artifact } => {
            assert_eq!(project_dir, "/tmp/cache/cargo/abc");
            assert_eq!(manifest_file, "/tmp/cache/cargo/abc/Cargo.toml");
            assert_eq!(lib_source, "/tmp/cache/cargo/abc/src/lib.rs");
            assert_eq!(target_dir, "/home/u/.rsp/target");
            assert_eq!(built_library, "/home/u/.rsp/target/release/librsp_abc.so");
            assert_eq!(artifact, "/tmp/cache/abc.so");
        }
        other => panic!("unexpected {:?}", other),
    }
}

#[test]
fn build_outcomes() {
    assert_eq!(build_outcome("a.so".to_string(), true, String::new()).unwrap(), "a.so");
    match build_outcome("a.so".to_string(), false, "boom".to_string()) {
        Err(CompileError::Compile(m)) => assert_eq!(m, "boom"),
        other => panic!("unexpected {:?}", other),
    }
    assert_eq!(CompileError::Compile("boom".to_string()).message(), "Compilation failed:\nboom");
    assert_eq!(CompileError::Io("gone".to_string()).message(), "IO error: gone");
}

#[test]
fn manifest_adds_runtime_once() {
    let opts = CompileOptions { dependencies: vec!["serde = \"1\"".to_string()] };
    let m = generate_cargo_toml("abc", &opts, "/opt/rt");
    assert!(m.starts_with("[package]\nname = \"rsp_abc\"\n"));
    assert!(m.contains("[dependencies]\nserde = \"1\"\nrsp-runtime = { path = \"/opt/rt\" }\n\n[profile.release]"));
    assert!(m.contains("crate-type = [\"cdylib\"]"));
    assert!(m.ends_with("[workspace]\n"));
    let own = CompileOptions { dependencies: vec!["rsp-runtime = \"0.1\"".to_string()] };
    let m2 = generate_cargo_toml("abc", &own, "/opt/rt");
    assert!(!m2.contains("/opt/rt"));
    let none = generate_cargo_toml("abc", &CompileOptions::default(), "/opt/rt");
    assert!(none.contains("[dependencies]\nrsp-runtime = { path = \"/opt/rt\" }\n\n"));
}

#[test]
fn fresh_loader_needs_to_open() {
    let mut l = Loader::new();
    assert!(l.needs_reload("/tmp/cache/abc.so", 5));
    assert!(l.library("/tmp/cache/abc.so").is_none());
    l.evict("/tmp/cache/abc.so");
    l.unload_all();
    assert!(l.needs_reload("/tmp/cache/abc.so", 5));
}

#[test]
fn default_pool_size() {
    assert_eq!(default_max_connections(), 5);
}

#[test]
fn prepare_carries_dependencies() {
    let job = prepare_render("<%@ dep serde = \"1\" %><%@ rusqlite %>x").unwrap();
    assert!(job.generated.needs_cargo);
    assert_eq!(
        job.generated.dependencies,
        vec![
            "serde = \"1\"".to_string(),
            "rusqlite = { version = \"0.32\", features = [\"bundled\"] }".to_string(),
        ]
    );
}
