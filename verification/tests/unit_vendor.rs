use luapack::{
    infer_suffixes, parse_vendor_specs, to_glob_and_root, vendor_add_listing, NameMap,
    NameNormalizer, NameSet, VendorSpec,
};

#[test]
fn parse_vendor_specs_bare_and_exclude() {
    let flags = vec![
        "path=vendor/?.lua,exclude=name:foo,exclude=prefix:bar.".to_string(),
        "vendor/?/init.lua".to_string(),
    ];
    let specs = parse_vendor_specs(&flags).expect("parse");
    assert_eq!(specs.len(), 2);
    assert_eq!(specs[0].paths.len(), 1);
    assert_eq!(specs[0].exclude_names, vec!["foo"]);
    assert_eq!(specs[0].exclude_prefixes, vec!["bar."]);
    assert_eq!(specs[1].paths, vec!["vendor/?/init.lua".to_string()]);
}

#[test]
fn vendor_suffix_normalization_dedups_init() {
    // Two templates point at the flat and the index-file view of one tree.
    let flags = vec![
        "path=examples/simple/vendor/lua/?.lua".to_string(),
        "path=examples/simple/vendor/lua/?/init.lua".to_string(),
    ];
    let specs = parse_vendor_specs(&flags).expect("parse vendor specs");

    // Infer suffixes from the templates (this infers `init`).
    let vendor_paths: Vec<String> = specs.iter().flat_map(|v| v.paths.clone()).collect();
    let vendor_suffixes: Vec<String> = specs.iter().flat_map(|v| v.suffixes.clone()).collect();
    let suffixes = infer_suffixes(&Vec::new(), &vendor_paths, &vendor_suffixes, &Vec::new());
    let nrm = NameNormalizer::new(suffixes);

    // Both templates list the same file; collect from both listings.
    let mut mods = NameMap::new();
    let mut dups = NameSet::new();
    let listing = vec!["examples/simple/vendor/lua/mock_recoil/init.lua".to_string()];
    for t in &vendor_paths {
        let (_glob, root, init_mode) = to_glob_and_root(t.as_str());
        vendor_add_listing(
            &mut mods,
            &mut dups,
            &listing,
            root.as_str(),
            init_mode,
            &specs[0],
            &Vec::new(),
            &nrm,
        );
    }
    assert!(mods.contains_key("mock_recoil"), "expected normalized name present");
    assert!(!mods.contains_key("mock_recoil.init"), "did not expect unnormalized name");
}

#[test]
fn to_glob_and_root_cases() {
    let (g1, root1, init1) = to_glob_and_root("a/b/?.lua");
    assert_eq!(g1, "a/b/**/*.lua");
    assert_eq!(root1, "a/b/");
    assert!(!init1);

    let (g2, root2, init2) = to_glob_and_root("a/b/?/init.lua");
    assert_eq!(g2, "a/b/**/init.lua");
    assert_eq!(root2, "a/b/");
    assert!(init2);
}

#[test]
fn vendor_exclusions_drop_modules() {
    // A name exclusion, a prefix exclusion, and a replace-rule hit each keep
    // the module out of the map even though its file is listed.
    let nrm = NameNormalizer::new(Vec::new());
    let spec = VendorSpec {
        paths: vec!["vendor/?.lua".to_string()],
        exclude_names: vec!["foo".to_string()],
        exclude_prefixes: vec!["bar.".to_string()],
        suffixes: vec![],
    };
    let listing = vec![
        "vendor/foo.lua".to_string(),
        "vendor/bar/common.lua".to_string(),
        "vendor/keep.lua".to_string(),
        "vendor/redirected.lua".to_string(),
    ];
    let rules = luapack::parse_replace_rules(&vec![
        "match=exact,name=redirected,new=host_require".to_string(),
    ])
    .expect("parse");
    let mut mods = NameMap::new();
    let mut dups = NameSet::new();
    vendor_add_listing(&mut mods, &mut dups, &listing, "vendor/", false, &spec, &rules, &nrm);
    assert!(!mods.contains_key("foo"), "name exclusion must drop the module");
    assert!(!mods.contains_key("bar.common"), "prefix exclusion must drop the module");
    assert!(!mods.contains_key("redirected"), "replace-rule hit must drop the module");
    assert!(mods.contains_key("keep"));
    assert_eq!(mods.get("keep").map(|s| s.as_str()), Some("vendor/keep.lua"));
}

#[test]
fn vendor_first_path_wins_and_duplicates_reported() {
    let nrm = NameNormalizer::new(Vec::new());
    let spec = VendorSpec {
        paths: vec![],
        exclude_names: vec![],
        exclude_prefixes: vec![],
        suffixes: vec![],
    };
    let mut mods = NameMap::new();
    let mut dups = NameSet::new();
    vendor_add_listing(
        &mut mods,
        &mut dups,
        &vec!["a/m.lua".to_string()],
        "a/",
        false,
        &spec,
        &Vec::new(),
        &nrm,
    );
    vendor_add_listing(
        &mut mods,
        &mut dups,
        &vec!["b/m.lua".to_string()],
        "b/",
        false,
        &spec,
        &Vec::new(),
        &nrm,
    );
    assert_eq!(mods.get("m").map(|s| s.as_str()), Some("a/m.lua"));
    assert!(dups.contains("m"));
}

#[test]
fn collect_vendor_modules_rejects_bad_glob_pattern() {
    let nrm = NameNormalizer::new(Vec::new());
    let specs = vec![VendorSpec {
        paths: vec!["broken[/?.lua".to_string()],
        exclude_names: vec![],
        exclude_prefixes: vec![],
        suffixes: vec![],
    }];
    let err = luapack::collect_vendor_modules(&specs, &Vec::new(), &nrm).unwrap_err();
    assert!(err.message.contains("bad glob pattern"), "{}", err.message);
}

#[test]
fn collect_vendor_modules_empty_tree_yields_empty_map() {
    let nrm = NameNormalizer::new(Vec::new());
    let specs = vec![VendorSpec {
        paths: vec!["no_such_directory_anywhere/vendor/?.lua".to_string()],
        exclude_names: vec![],
        exclude_prefixes: vec![],
        suffixes: vec![],
    }];
    let (mods, dups) = luapack::collect_vendor_modules(&specs, &Vec::new(), &nrm).expect("collect");
    assert_eq!(mods.len(), 0);
    assert_eq!(dups.len(), 0);
}

#[test]
fn parse_vendor_specs_rejects_unknown_keys_and_kinds() {
    let err = parse_vendor_specs(&vec!["bogus=1".to_string()]).unwrap_err();
    assert!(err.message.contains("unknown vendor key: bogus"), "{}", err.message);

    let err2 = parse_vendor_specs(&vec!["exclude=glob:foo".to_string()]).unwrap_err();
    assert!(err2.message.contains("unknown exclude kind: glob"), "{}", err2.message);

    let err3 = parse_vendor_specs(&vec!["exclude=foo".to_string()]).unwrap_err();
    assert!(err3.message.contains("invalid exclude value: foo"), "{}", err3.message);
}
