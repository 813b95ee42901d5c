use luapack::{
    transform_requires, ArgMode, FileListing, MatchKind, NameNormalizer, ReplaceRule,
};

fn prefix_rule() -> ReplaceRule {
    ReplaceRule {
        match_kind: MatchKind::Prefix,
        old: "require".into(),
        new: "bar_require".into(),
        name: None,
        prefix: Some("bar.".into()),
        paths: vec![],
        arg: ArgMode::Rest,
    }
}

#[test]
fn no_rewrite_when_require_shadowed() {
    let code = r#"
        local require = function(x) return x end
        local x = require('bar.z')
    "#;
    let rules = vec![prefix_rule()];
    let nrm = NameNormalizer::new(Vec::new());
    let files = FileListing::empty();
    let (_out, n) = transform_requires(code, &rules, None, None, &files, &nrm);
    assert_eq!(n, 0, "should not rewrite shadowed require");
}

#[test]
fn no_rewrite_with_extra_args() {
    let code = "require('bar.z', 123)";
    let rules = vec![prefix_rule()];
    let nrm = NameNormalizer::new(Vec::new());
    let files = FileListing::empty();
    let (out, n) = transform_requires(code, &rules, None, None, &files, &nrm);
    assert_eq!(n, 0, "should not rewrite call with extra args");
    assert_eq!(out, code);
}

#[test]
fn rewrite_string_arg_form() {
    let code = "return require 'bar.alpha'";
    let rules = vec![prefix_rule()];
    let nrm = NameNormalizer::new(Vec::new());
    let files = FileListing::empty();
    let (out, n) = transform_requires(code, &rules, None, None, &files, &nrm);
    assert!(n >= 1);
    assert!(out.contains("bar_require"), "output: {}", out);
    assert!(
        !out.contains("require('bar.alpha')") && !out.contains("require 'bar.alpha'"),
        "output: {}",
        out
    );
}

#[test]
fn rewrite_before_later_local_declaration() {
    // A call before a local declaration of `require` in the same block is
    // still a global reference; a call after it is not.
    let code = "local a = require('bar.early')\nlocal require = f\nlocal b = require('bar.late')\n";
    let rules = vec![prefix_rule()];
    let nrm = NameNormalizer::new(Vec::new());
    let files = FileListing::empty();
    let (out, n) = transform_requires(code, &rules, None, None, &files, &nrm);
    assert_eq!(n, 1, "only the early call is rewritten: {}", out);
    assert!(out.contains("bar_require('early')"), "output: {}", out);
    assert!(out.contains("require('bar.late')"), "output: {}", out);
}

#[test]
fn shadowing_ends_with_its_block() {
    let code = "do\n  local require = f\n  require('bar.inner')\nend\nrequire('bar.outer')\n";
    let rules = vec![prefix_rule()];
    let nrm = NameNormalizer::new(Vec::new());
    let files = FileListing::empty();
    let (out, n) = transform_requires(code, &rules, None, None, &files, &nrm);
    assert_eq!(n, 1, "only the call outside the block is rewritten: {}", out);
    assert!(out.contains("require('bar.inner')"), "output: {}", out);
    assert!(out.contains("bar_require('outer')"), "output: {}", out);
}

#[test]
fn exact_rule_keeps_full_name_and_quoting() {
    let rules = vec![ReplaceRule {
        match_kind: MatchKind::Exact,
        old: "require".into(),
        new: "greet_require".into(),
        name: Some("core.greet".into()),
        prefix: None,
        paths: vec![],
        arg: ArgMode::Rest,
    }];
    let nrm = NameNormalizer::new(Vec::new());
    let files = FileListing::empty();
    let (out, n) = transform_requires(
        "local g = require(\"core.greet\")\n",
        &rules,
        None,
        None,
        &files,
        &nrm,
    );
    assert_eq!(n, 1);
    // Exact matches always pass the full name, and double quotes survive.
    assert!(out.contains("greet_require(\"core.greet\")"), "output: {}", out);
}

#[test]
fn file_scope_pattern_uses_glob_matching() {
    // `*/x.lua` never occurs as a substring of `src/x.lua`, so only a real
    // glob match lets the rule fire in this file.
    let mut rule = prefix_rule();
    rule.paths = vec!["*/x.lua".to_string()];
    let rules = vec![rule];
    let nrm = NameNormalizer::new(Vec::new());
    let files = FileListing::empty();
    let (out, n) = transform_requires(
        "require('bar.z')",
        &rules,
        Some("src/x.lua"),
        None,
        &files,
        &nrm,
    );
    assert_eq!(n, 1, "glob-scoped rule must fire: {}", out);
    let (out2, n2) = transform_requires(
        "require('bar.z')",
        &rules,
        Some("src/other.lua"),
        None,
        &files,
        &nrm,
    );
    assert_eq!(n2, 0, "rule must not fire in other files: {}", out2);
}

#[test]
fn path_rule_rewrites_resolved_modules() {
    let rules = luapack::parse_replace_rules(&vec![
        "match=path,new=v_require,path=vendor/*.lua".to_string(),
    ])
    .expect("parse");
    let resolver = luapack::ModuleResolver::new(vec!["vendor/?.lua".to_string()]);
    let files = FileListing::new(vec!["vendor/dep.lua".to_string()]);
    let nrm = NameNormalizer::new(Vec::new());
    let (out, n) = transform_requires(
        "local d = require('dep')\nlocal m = require('missing')\n",
        &rules,
        None,
        Some(&resolver),
        &files,
        &nrm,
    );
    assert_eq!(n, 1, "only the resolvable module is redirected: {}", out);
    assert!(out.contains("v_require('dep')"), "output: {}", out);
    assert!(out.contains("require('missing')"), "output: {}", out);
}

#[test]
fn long_string_argument_keeps_bracket_level() {
    let rules = vec![prefix_rule()];
    let nrm = NameNormalizer::new(Vec::new());
    let files = FileListing::empty();
    let (out, n) = transform_requires("require [=[bar.deep]=]", &rules, None, None, &files, &nrm);
    assert_eq!(n, 1);
    assert!(out.contains("bar_require [=[deep]=]"), "output: {}", out);
}

#[test]
fn elseif_does_not_leak_a_scope_frame() {
    // The shadow declared inside the `do` block must end with that block,
    // however many `elseif` branches sit inside it.
    let code =
        "do\n  local require = 1\n  if a then\n  elseif b then\n  end\nend\nrequire('bar.x')\n";
    let rules = vec![prefix_rule()];
    let nrm = NameNormalizer::new(Vec::new());
    let files = FileListing::empty();
    let (out, n) = transform_requires(code, &rules, None, None, &files, &nrm);
    assert_eq!(n, 1, "the call after the block is a global reference: {}", out);
    assert!(out.contains("bar_require('x')"), "output: {}", out);
}

#[test]
fn global_function_statement_does_not_shadow() {
    // Only local declarations and parameters shadow; a global function named
    // `require` does not.
    let code = "function require(name)\n  return name\nend\nrequire('bar.q')\n";
    let rules = vec![prefix_rule()];
    let nrm = NameNormalizer::new(Vec::new());
    let files = FileListing::empty();
    let (out, n) = transform_requires(code, &rules, None, None, &files, &nrm);
    assert_eq!(n, 1, "output: {}", out);
    assert!(out.contains("bar_require('q')"), "output: {}", out);

    let local_fn = "local function require(name)\n  return name\nend\nrequire('bar.q')\n";
    let (out2, n2) = transform_requires(local_fn, &rules, None, None, &files, &nrm);
    assert_eq!(n2, 0, "a local function declaration shadows: {}", out2);
}
