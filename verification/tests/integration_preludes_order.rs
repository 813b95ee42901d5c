use luapack::{
    generate_bundle, BindRequire, BundleCtx, FileListing, ModuleGraph, ModuleResolver, NameMap,
    NameNormalizer,
};

#[test]
fn preludes_appear_in_order() {
    let preludes = vec![
        "tests/fixtures/preludes_order/prelude1.lua".to_string(),
        "tests/fixtures/preludes_order/prelude2.lua".to_string(),
    ];
    let code = "print('main')\n".to_string();
    let resolver = ModuleResolver::new(Vec::new());
    let files = FileListing::empty();
    let mut sources = NameMap::new();
    sources.insert_if_absent(
        "tests/fixtures/preludes_order/prelude1.lua".to_string(),
        "PRELUDE_ONE = 1\n".to_string(),
    );
    sources.insert_if_absent(
        "tests/fixtures/preludes_order/prelude2.lua".to_string(),
        "PRELUDE_TWO = 2\n".to_string(),
    );
    let normalizer = NameNormalizer::new(Vec::new());
    let graph = ModuleGraph::build_from_entry_code(
        code.as_str(),
        &resolver,
        &normalizer,
        &files,
        &sources,
    );
    let vendor_mods = NameMap::new();
    let ctx = BundleCtx {
        preludes: &preludes,
        entry: None,
        replaces: &Vec::new(),
        vendor_mods: &vendor_mods,
        entry_source: code.as_str(),
        entry_path: "tests/fixtures/preludes_order/lua/main.lua",
        bind: BindRequire::Router,
        resolver: Some(&resolver),
        files: &files,
        redact_base: Some("tests/fixtures/preludes_order".to_string()),
        normalizer: &normalizer,
        sources: &sources,
    };
    let (bundle, _rewrites) = generate_bundle(&graph, ctx);

    // Comments carry base-relative paths; find them by filename.
    let p1 = bundle.find("prelude1.lua").unwrap();
    let p2 = bundle.find("prelude2.lua").unwrap();
    assert!(p1 < p2, "preludes not in order: {}", bundle);
    // Preludes come after the root module definition.
    let root = bundle.find("__B_MODULES['__root']").unwrap();
    assert!(root < p1, "preludes must follow the root module: {}", bundle);
    assert!(bundle.contains("PRELUDE_ONE = 1"));
    assert!(bundle.contains("PRELUDE_TWO = 2"));
}
