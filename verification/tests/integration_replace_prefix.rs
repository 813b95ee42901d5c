use luapack::{
    generate_bundle, parse_replace_rules, BindRequire, BundleCtx, FileListing, ModuleGraph,
    ModuleResolver, NameMap, NameNormalizer,
};

#[test]
fn bundle_rewrites_prefix_in_root() {
    let flags = vec!["match=prefix,prefix=bar.,new=bar_require,arg={rest}".to_string()];
    let rules = parse_replace_rules(&flags).expect("parse");

    let code = "local t = require('bar.common.tablex')\nprint(t)\n".to_string();
    let resolver = ModuleResolver::new(vec![
        "tests/fixtures/replace_prefix/lua/?.lua".to_string(),
        "tests/fixtures/replace_prefix/lua/?/init.lua".to_string(),
    ]);
    let files = FileListing::empty();
    let sources = NameMap::new();
    let normalizer = NameNormalizer::new(Vec::new());
    let graph = ModuleGraph::build_from_entry_code(
        code.as_str(),
        &resolver,
        &normalizer,
        &files,
        &sources,
    );
    let vendor_mods = NameMap::new();
    let ctx = BundleCtx {
        preludes: &Vec::new(),
        entry: None,
        replaces: &rules,
        vendor_mods: &vendor_mods,
        entry_source: code.as_str(),
        entry_path: "tests/fixtures/replace_prefix/lua/main.lua",
        bind: BindRequire::Router,
        resolver: Some(&resolver),
        files: &files,
        redact_base: None,
        normalizer: &normalizer,
        sources: &sources,
    };
    let (bundle, rewrites) = generate_bundle(&graph, ctx);

    assert!(rewrites >= 1, "expected at least one rewrite");
    assert!(
        bundle.contains("bar_require('common.tablex')")
            || bundle.contains("bar_require(\"common.tablex\")"),
        "bundle: {}",
        bundle
    );
}
