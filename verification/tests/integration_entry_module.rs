use luapack::{
    generate_bundle, BindRequire, BundleCtx, FileListing, ModuleGraph, ModuleResolver, NameMap,
    NameNormalizer,
};

#[test]
fn bundle_returns_specified_entry_module() {
    let code = "local r = require('core.runner')\nr.run()\n".to_string();
    let resolver = ModuleResolver::new(vec![
        "tests/fixtures/entry_module/lua/?.lua".to_string(),
        "tests/fixtures/entry_module/lua/?/init.lua".to_string(),
    ]);
    let files = FileListing::new(vec![
        "tests/fixtures/entry_module/lua/core/runner.lua".to_string(),
    ]);
    let mut sources = NameMap::new();
    sources.insert_if_absent(
        "tests/fixtures/entry_module/lua/core/runner.lua".to_string(),
        "return { run = function() end }\n".to_string(),
    );
    let normalizer = NameNormalizer::new(Vec::new());
    let graph = ModuleGraph::build_from_entry_code(
        code.as_str(),
        &resolver,
        &normalizer,
        &files,
        &sources,
    );
    let vendor_mods = NameMap::new();
    let ctx = BundleCtx {
        preludes: &Vec::new(),
        entry: Some("core.runner"),
        replaces: &Vec::new(),
        vendor_mods: &vendor_mods,
        entry_source: code.as_str(),
        entry_path: "tests/fixtures/entry_module/lua/main.lua",
        bind: BindRequire::Router,
        resolver: Some(&resolver),
        files: &files,
        redact_base: None,
        normalizer: &normalizer,
        sources: &sources,
    };
    let (bundle, _rewrites) = generate_bundle(&graph, ctx);

    assert!(bundle.contains("__B_MODULES['core.runner']"));
    assert!(
        bundle.trim_end().ends_with("return __B_REQUIRE('core.runner')"),
        "unexpected tail: {}",
        bundle
    );
    assert!(bundle.ends_with("return __B_REQUIRE('core.runner')\n"));
}

#[test]
fn bundle_without_entry_requests_synthetic_root() {
    let code = "print('x')\n".to_string();
    let resolver = ModuleResolver::new(Vec::new());
    let files = FileListing::empty();
    let sources = NameMap::new();
    let normalizer = NameNormalizer::new(Vec::new());
    let graph = ModuleGraph::build_from_entry_code(
        code.as_str(),
        &resolver,
        &normalizer,
        &files,
        &sources,
    );
    let vendor_mods = NameMap::new();
    let ctx = BundleCtx {
        preludes: &Vec::new(),
        entry: None,
        replaces: &Vec::new(),
        vendor_mods: &vendor_mods,
        entry_source: code.as_str(),
        entry_path: "main.lua",
        bind: BindRequire::Router,
        resolver: Some(&resolver),
        files: &files,
        redact_base: None,
        normalizer: &normalizer,
        sources: &sources,
    };
    let (bundle, _rewrites) = generate_bundle(&graph, ctx);
    assert!(bundle.ends_with("return __B_REQUIRE('__root')\n"), "tail: {}", bundle);
}
