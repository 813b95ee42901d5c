use luapack::{
    generate_bundle, parse_vendor_specs, to_glob_and_root, vendor_add_listing, BindRequire,
    BundleCtx, FileListing, ModuleGraph, ModuleResolver, NameMap, NameNormalizer, NameSet,
};

#[test]
fn bundle_vendor_only_includes_vendor_module() {
    let specs = parse_vendor_specs(&vec![
        "path=tests/fixtures/vendor_only/vendor/lua/?/init.lua".to_string(),
    ])
    .expect("parse vendor specs");
    let normalizer = NameNormalizer::new(vec!["init".to_string()]);

    // Collect the vendor module from the (explicitly listed) vendor tree.
    let mut vendor_mods = NameMap::new();
    let mut dups = NameSet::new();
    let (_glob, root, init_mode) = to_glob_and_root(specs[0].paths[0].as_str());
    vendor_add_listing(
        &mut vendor_mods,
        &mut dups,
        &vec!["tests/fixtures/vendor_only/vendor/lua/foo/init.lua".to_string()],
        root.as_str(),
        init_mode,
        &specs[0],
        &Vec::new(),
        &normalizer,
    );
    assert!(vendor_mods.contains_key("foo"));

    let code = "local f = require('foo')\nf()\n".to_string();
    let resolver = ModuleResolver::new(Vec::new());
    let files = FileListing::empty();
    let mut sources = NameMap::new();
    sources.insert_if_absent(
        "tests/fixtures/vendor_only/vendor/lua/foo/init.lua".to_string(),
        "return function() end\n".to_string(),
    );
    let graph = ModuleGraph::build_from_entry_code(
        code.as_str(),
        &resolver,
        &normalizer,
        &files,
        &sources,
    );
    let ctx = BundleCtx {
        preludes: &Vec::new(),
        entry: None,
        replaces: &Vec::new(),
        vendor_mods: &vendor_mods,
        entry_source: code.as_str(),
        entry_path: "tests/fixtures/vendor_only/lua/main.lua",
        bind: BindRequire::Router,
        resolver: Some(&resolver),
        files: &files,
        redact_base: None,
        normalizer: &normalizer,
        sources: &sources,
    };
    let (bundle, _rewrites) = generate_bundle(&graph, ctx);

    assert!(bundle.contains("__B_MODULES['foo']"), "expected vendor module 'foo' present\n{}", bundle);
    assert!(bundle.contains("__B_MODULES['__root']"), "expected root module present");
}

#[test]
fn vendor_module_skipped_when_first_party_claims_name() {
    // A vendor module whose name a first-party module already claims is not
    // emitted a second time.
    let normalizer = NameNormalizer::new(Vec::new());
    let code = "require('shared')\n".to_string();
    let resolver = ModuleResolver::new(vec!["lua/?.lua".to_string()]);
    let files = FileListing::new(vec!["lua/shared.lua".to_string()]);
    let mut sources = NameMap::new();
    sources.insert_if_absent("lua/shared.lua".to_string(), "FIRST_PARTY_BODY = true\n".to_string());
    sources.insert_if_absent("vendor/shared.lua".to_string(), "VENDOR_BODY = true\n".to_string());
    let graph = ModuleGraph::build_from_entry_code(
        code.as_str(),
        &resolver,
        &normalizer,
        &files,
        &sources,
    );
    let mut vendor_mods = NameMap::new();
    vendor_mods.insert_if_absent("shared".to_string(), "vendor/shared.lua".to_string());
    let ctx = BundleCtx {
        preludes: &Vec::new(),
        entry: None,
        replaces: &Vec::new(),
        vendor_mods: &vendor_mods,
        entry_source: code.as_str(),
        entry_path: "lua/main.lua",
        bind: BindRequire::Router,
        resolver: Some(&resolver),
        files: &files,
        redact_base: None,
        normalizer: &normalizer,
        sources: &sources,
    };
    let (bundle, _rewrites) = generate_bundle(&graph, ctx);
    assert!(bundle.contains("FIRST_PARTY_BODY"));
    assert!(!bundle.contains("VENDOR_BODY"), "vendor duplicate must be skipped: {}", bundle);
    assert_eq!(bundle.matches("__B_MODULES['shared']").count(), 1);
}
