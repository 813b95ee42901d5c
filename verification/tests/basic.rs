use luapack::{
    generate_bundle, transform_requires, ArgMode, BindRequire, BundleCtx, FileListing, MatchKind,
    ModuleGraph, ModuleResolver, NameMap, NameNormalizer, ReplaceRule,
};

#[test]
fn transform_require_prefix_rewrite_integration() {
    let code = "local t = require('bar.common.tablex')\n";
    let rules = vec![ReplaceRule {
        match_kind: MatchKind::Prefix,
        old: "require".into(),
        new: "bar_require".into(),
        name: None,
        prefix: Some("bar.".into()),
        paths: vec![],
        arg: ArgMode::Rest,
    }];
    let normalizer = NameNormalizer::new(Vec::new());
    let files = FileListing::empty();
    let (out, n) = transform_requires(code, &rules, None, None, &files, &normalizer);
    assert!(n >= 1, "expected at least 1 rewrite, got {}", n);
    assert!(
        out.contains("bar_require('common.tablex')")
            || out.contains("bar_require(\"common.tablex\")"),
        "output was: {}",
        out
    );
}

#[test]
fn bundle_simple_smoke_integration() {
    let code = "local t = require('bar.common.tablex')\nprint(t)\n".to_string();
    let resolver = ModuleResolver::new(vec![
        "tests/fixtures/replace/lua/?.lua".to_string(),
        "tests/fixtures/replace/lua/?/init.lua".to_string(),
    ]);
    let files = FileListing::new(vec![
        "tests/fixtures/replace/lua/bar/common/tablex.lua".to_string(),
    ]);
    let mut sources = NameMap::new();
    sources.insert_if_absent(
        "tests/fixtures/replace/lua/bar/common/tablex.lua".to_string(),
        "return { id = function(x) return x end }\n".to_string(),
    );
    let normalizer = NameNormalizer::new(Vec::new());
    let graph = ModuleGraph::build_from_entry_code(
        code.as_str(),
        &resolver,
        &normalizer,
        &files,
        &sources,
    );
    let vendor_mods = NameMap::new();
    let ctx = BundleCtx {
        preludes: &Vec::new(),
        entry: None,
        replaces: &Vec::new(),
        vendor_mods: &vendor_mods,
        entry_source: code.as_str(),
        entry_path: "tests/fixtures/replace/lua/main.lua",
        bind: BindRequire::Router,
        resolver: Some(&resolver),
        files: &files,
        redact_base: None,
        normalizer: &normalizer,
        sources: &sources,
    };
    let (bundle, _rewrites) = generate_bundle(&graph, ctx);
    assert!(bundle.contains("__B_MODULES['__root']"), "bundle missing root module");
    assert!(
        bundle.contains("require(\"bar.common.tablex\")")
            || bundle.contains("require('bar.common.tablex')"),
        "root require should remain when no replaces, got: {}",
        &bundle
    );
    assert!(
        bundle.contains("__B_MODULES['bar.common.tablex']"),
        "first-party module must be bundled: {}",
        bundle
    );
    // The loader preamble was rendered: no template markers survive, and the
    // isolated binding does not carry the delegating branch.
    assert!(!bundle.contains("{{#if global}}"), "template must be rendered: {}", bundle);
    assert!(!bundle.contains("pcall(require, name)"));
}

#[test]
fn bundle_global_binding_delegates() {
    let code = "print('hi')\n".to_string();
    let resolver = ModuleResolver::new(Vec::new());
    let files = FileListing::empty();
    let sources = NameMap::new();
    let normalizer = NameNormalizer::new(Vec::new());
    let graph = ModuleGraph::build_from_entry_code(
        code.as_str(),
        &resolver,
        &normalizer,
        &files,
        &sources,
    );
    let vendor_mods = NameMap::new();
    let ctx = BundleCtx {
        preludes: &Vec::new(),
        entry: None,
        replaces: &Vec::new(),
        vendor_mods: &vendor_mods,
        entry_source: code.as_str(),
        entry_path: "main.lua",
        bind: BindRequire::Global,
        resolver: Some(&resolver),
        files: &files,
        redact_base: None,
        normalizer: &normalizer,
        sources: &sources,
    };
    let (bundle, rewrites) = generate_bundle(&graph, ctx);
    assert_eq!(rewrites, 0);
    assert!(bundle.contains("pcall(require, name)"), "delegating binding: {}", bundle);
    assert!(!bundle.contains("{{else}}"), "template must be rendered: {}", bundle);
}
