use luapack::{
    generate_bundle, infer_suffixes, BindRequire, BundleCtx, FileListing, ModuleGraph,
    ModuleResolver, NameMap, NameNormalizer,
};

#[test]
fn bundle_includes_init_module() {
    let templates = vec![
        "tests/fixtures/init_search/lua/?.lua".to_string(),
        "tests/fixtures/init_search/lua/?/init.lua".to_string(),
    ];
    let code = "local p = require('pkg')\np.hello()\n".to_string();
    let resolver = ModuleResolver::new(templates.clone());
    // only the directory-style file exists
    let files = FileListing::new(vec![
        "tests/fixtures/init_search/lua/pkg/init.lua".to_string(),
    ]);
    let mut sources = NameMap::new();
    sources.insert_if_absent(
        "tests/fixtures/init_search/lua/pkg/init.lua".to_string(),
        "return { hello = function() end }\n".to_string(),
    );
    let suffixes = infer_suffixes(&templates, &Vec::new(), &Vec::new(), &Vec::new());
    assert_eq!(suffixes, vec!["init".to_string()]);
    let normalizer = NameNormalizer::new(suffixes);
    let graph = ModuleGraph::build_from_entry_code(
        code.as_str(),
        &resolver,
        &normalizer,
        &files,
        &sources,
    );
    assert!(graph.first_party.contains_key("pkg"), "module pkg must be in the first-party map");
    assert_eq!(
        graph.first_party.get("pkg").map(|s| s.as_str()),
        Some("tests/fixtures/init_search/lua/pkg/init.lua")
    );
    let vendor_mods = NameMap::new();
    let ctx = BundleCtx {
        preludes: &Vec::new(),
        entry: None,
        replaces: &Vec::new(),
        vendor_mods: &vendor_mods,
        entry_source: code.as_str(),
        entry_path: "tests/fixtures/init_search/lua/main.lua",
        bind: BindRequire::Router,
        resolver: Some(&resolver),
        files: &files,
        redact_base: None,
        normalizer: &normalizer,
        sources: &sources,
    };
    let (bundle, _rewrites) = generate_bundle(&graph, ctx);
    assert!(
        bundle.contains("__B_MODULES['pkg']"),
        "expected module from init search present\n{}",
        bundle
    );
}

#[test]
fn graph_walks_transitive_requires_and_records_unresolved() {
    let code = "require('a')\n".to_string();
    let resolver = ModuleResolver::new(vec!["lua/?.lua".to_string()]);
    let files = FileListing::new(vec!["lua/a.lua".to_string(), "lua/b.lua".to_string()]);
    let mut sources = NameMap::new();
    sources.insert_if_absent("lua/a.lua".to_string(), "require('b')\nrequire('ghost')\n".to_string());
    sources.insert_if_absent("lua/b.lua".to_string(), "return 2\n".to_string());
    let normalizer = NameNormalizer::new(Vec::new());
    let graph = ModuleGraph::build_from_entry_code(
        code.as_str(),
        &resolver,
        &normalizer,
        &files,
        &sources,
    );
    assert!(graph.first_party.contains_key("a"));
    assert!(graph.first_party.contains_key("b"), "transitive module must be visited");
    assert!(graph.unresolved.contains("ghost"));
    assert!(!graph.unresolved.contains("a"));
    assert_eq!(graph.first_party.len(), 2);
}

#[test]
fn graph_resolves_the_normalized_name() {
    // `require('pkg.init')` normalizes to `pkg`, and the normalized name is
    // what gets resolved: under a flat template the candidate is pkg.lua.
    let code = "require('pkg.init')\n".to_string();
    let resolver = ModuleResolver::new(vec!["lua/?.lua".to_string()]);
    let files = FileListing::new(vec!["lua/pkg.lua".to_string()]);
    let mut sources = NameMap::new();
    sources.insert_if_absent("lua/pkg.lua".to_string(), "return {}\n".to_string());
    let normalizer = NameNormalizer::new(vec!["init".to_string()]);
    let graph = ModuleGraph::build_from_entry_code(
        code.as_str(),
        &resolver,
        &normalizer,
        &files,
        &sources,
    );
    assert!(graph.first_party.contains_key("pkg"));
    assert_eq!(graph.first_party.get("pkg").map(|s| s.as_str()), Some("lua/pkg.lua"));
    assert!(graph.unresolved.len() == 0);
}
