use luapack::{find_literal_requires, infer_suffixes, normalize_module_name, NameNormalizer};

#[test]
fn normalize_strips_configured_suffixes_repeatedly() {
    let nrm = NameNormalizer::new(vec!["init".to_string()]);
    assert_eq!(nrm.normalize("pkg.init"), "pkg");
    assert_eq!(nrm.normalize("pkg.init.init"), "pkg");
    assert_eq!(nrm.normalize("pkg"), "pkg");
    assert_eq!(nrm.normalize("initial"), "initial");
    assert_eq!(normalize_module_name("a.b.init", &nrm), "a.b");
}

#[test]
fn normalize_is_idempotent_on_samples() {
    let nrm = NameNormalizer::new(vec!["init".to_string(), "index".to_string()]);
    for name in ["pkg.init", "pkg.index.init", "a", "", "x.y.z", "init.init"] {
        let once = nrm.normalize(name);
        let twice = nrm.normalize(once.as_str());
        assert_eq!(once, twice, "normalize must be idempotent for {}", name);
    }
}

#[test]
fn infer_suffixes_from_templates_and_explicit_entries() {
    let none = infer_suffixes(
        &vec!["lua/?.lua".to_string()],
        &Vec::new(),
        &Vec::new(),
        &Vec::new(),
    );
    assert!(none.is_empty());

    let from_paths = infer_suffixes(
        &vec!["lua/?.lua".to_string(), "lua/?/init.lua".to_string()],
        &Vec::new(),
        &Vec::new(),
        &Vec::new(),
    );
    assert_eq!(from_paths, vec!["init".to_string()]);

    let explicit = infer_suffixes(
        &Vec::new(),
        &Vec::new(),
        &vec!["index".to_string(), "".to_string()],
        &Vec::new(),
    );
    assert_eq!(explicit, vec!["index".to_string()]);
}

#[test]
fn scanner_finds_literal_requires_in_order() {
    let code = "local a = require('one')\nlocal b = require \"two\"\nlocal c = other('three')\n";
    let found = find_literal_requires(code);
    assert_eq!(found.len(), 2);
    assert_eq!(found[0].module, "one");
    assert_eq!(found[1].module, "two");
    // one-based line and column of the callee
    assert_eq!((found[0].line, found[0].col), (1, 11));
    assert_eq!((found[1].line, found[1].col), (2, 11));
}

#[test]
fn scanner_reports_source_locations() {
    let code = "require('a')\n\n  require('b')";
    let found = find_literal_requires(code);
    assert_eq!(found.len(), 2);
    assert_eq!((found[0].line, found[0].col), (1, 1));
    assert_eq!((found[1].line, found[1].col), (3, 3));
}

#[test]
fn infer_suffixes_reads_only_path_rule_patterns() {
    // A Prefix rule's path patterns are file-scope filters: they do not feed
    // suffix inference. A Path rule's patterns do.
    let prefix_rules = luapack::parse_replace_rules(&vec![
        "match=prefix,prefix=bar.,new=b,path=?/init.lua".to_string(),
    ])
    .expect("parse");
    let none = infer_suffixes(&Vec::new(), &Vec::new(), &Vec::new(), &prefix_rules);
    assert!(none.is_empty());

    let path_rules = luapack::parse_replace_rules(&vec![
        "match=path,new=b,path=?/init.lua".to_string(),
    ])
    .expect("parse");
    let from_rules = infer_suffixes(&Vec::new(), &Vec::new(), &Vec::new(), &path_rules);
    assert_eq!(from_rules, vec!["init".to_string()]);
}

#[test]
fn scanner_ignores_member_calls_and_comments() {
    let code = "m.require('a')\nm:require('b')\n-- require('c')\n--[[ require('d') ]]\nrequire('e')\n";
    let found = find_literal_requires(code);
    assert_eq!(found.len(), 1);
    assert_eq!(found[0].module, "e");
}

#[test]
fn scanner_respects_function_parameters() {
    let code = "local f = function(require) return require('a') end\nrequire('b')\n";
    let found = find_literal_requires(code);
    assert_eq!(found.len(), 1);
    assert_eq!(found[0].module, "b");
}
