use luapack::{
    generate_bundle, lua_quote, resolve_path_like, resolve_pathbuf, BindRequire, BundleCtx,
    FileListing, ModuleGraph, ModuleResolver, NameMap, NameNormalizer,
};

#[test]
fn lua_quote_escapes_single_quotes() {
    assert_eq!(lua_quote("plain"), "'plain'");
    assert_eq!(lua_quote("it's"), "'it\\'s'");
    assert_eq!(lua_quote(""), "''");
}

#[test]
fn resolve_path_like_joins_relative_values() {
    assert_eq!(resolve_path_like(None, "a/b.lua"), "a/b.lua");
    assert_eq!(resolve_path_like(Some("conf"), "a/b.lua"), "conf/a/b.lua");
    assert_eq!(resolve_path_like(Some("conf/"), "a/b.lua"), "conf/a/b.lua");
    assert_eq!(resolve_path_like(Some("conf"), "/abs/b.lua"), "/abs/b.lua");
    assert_eq!(resolve_pathbuf(Some("conf"), "x"), "conf/x");
}

#[test]
fn bundle_modules_sorted_and_paths_redacted() {
    let code = "require('zeta')\nrequire('alpha')\n".to_string();
    let resolver = ModuleResolver::new(vec!["/work/lua/?.lua".to_string()]);
    let files = FileListing::new(vec![
        "/work/lua/zeta.lua".to_string(),
        "/work/lua/alpha.lua".to_string(),
    ]);
    let mut sources = NameMap::new();
    sources.insert_if_absent("/work/lua/zeta.lua".to_string(), "return 'z'\n".to_string());
    sources.insert_if_absent("/work/lua/alpha.lua".to_string(), "return 'a'".to_string());
    let normalizer = NameNormalizer::new(Vec::new());
    let graph = ModuleGraph::build_from_entry_code(
        code.as_str(),
        &resolver,
        &normalizer,
        &files,
        &sources,
    );
    let vendor_mods = NameMap::new();
    let ctx = BundleCtx {
        preludes: &Vec::new(),
        entry: None,
        replaces: &Vec::new(),
        vendor_mods: &vendor_mods,
        entry_source: code.as_str(),
        entry_path: "/work/lua/main.lua",
        bind: BindRequire::Router,
        resolver: Some(&resolver),
        files: &files,
        redact_base: Some("/work".to_string()),
        normalizer: &normalizer,
        sources: &sources,
    };
    let (bundle, _rewrites) = generate_bundle(&graph, ctx);
    let a = bundle.find("__B_MODULES['alpha']").unwrap();
    let z = bundle.find("__B_MODULES['zeta']").unwrap();
    assert!(a < z, "modules must be sorted by name: {}", bundle);
    // provenance comments are relative to the redaction base
    assert!(bundle.contains("-- module: alpha  (from lua/alpha.lua)"), "{}", bundle);
    assert!(!bundle.contains("(from /work/"), "absolute paths must not leak: {}", bundle);
    // a body without a trailing newline gets one before the closer
    assert!(bundle.contains("return 'a'\nend"), "{}", bundle);
}
