use luapack::{
    generate_bundle, parse_replace_rules, BindRequire, BundleCtx, FileListing, ModuleGraph,
    ModuleResolver, NameMap, NameNormalizer,
};

#[test]
fn bundle_rewrites_exact_in_root() {
    let flags = vec!["match=exact,name=core.greet,new=greet_require".to_string()];
    let rules = parse_replace_rules(&flags).expect("parse");

    let code = "local g = require('core.greet')\ng()\n".to_string();
    let resolver = ModuleResolver::new(Vec::new());
    let files = FileListing::empty();
    let sources = NameMap::new();
    let normalizer = NameNormalizer::new(Vec::new());
    let graph = ModuleGraph::build_from_entry_code(
        code.as_str(),
        &resolver,
        &normalizer,
        &files,
        &sources,
    );
    let vendor_mods = NameMap::new();
    let ctx = BundleCtx {
        preludes: &Vec::new(),
        entry: None,
        replaces: &rules,
        vendor_mods: &vendor_mods,
        entry_source: code.as_str(),
        entry_path: "tests/fixtures/replace_exact/lua/main.lua",
        bind: BindRequire::Router,
        resolver: Some(&resolver),
        files: &files,
        redact_base: None,
        normalizer: &normalizer,
        sources: &sources,
    };
    let (bundle, rewrites) = generate_bundle(&graph, ctx);

    assert!(rewrites >= 1, "expected at least one rewrite");
    assert!(
        bundle.contains("greet_require('core.greet')")
            || bundle.contains("greet_require(\"core.greet\")"),
        "bundle: {}",
        bundle
    );
}
