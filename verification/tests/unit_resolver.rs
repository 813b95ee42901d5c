use luapack::{FileListing, ModuleResolver};

#[test]
fn dotted_to_path_and_resolve() {
    assert_eq!(ModuleResolver::dotted_to_path("a.b.c"), "a/b/c");

    // Resolve against an explicit listing of the fixture tree.
    let resolver = ModuleResolver::new(vec![
        "tests/fixtures/replace_path/lua/?.lua".to_string(),
        "tests/fixtures/replace_path/lua/?/init.lua".to_string(),
    ]);
    let files = FileListing::new(vec![
        "tests/fixtures/replace_path/lua/x/y.lua".to_string(),
    ]);
    let p = resolver.resolve("x.y", &files);
    assert!(p.is_some(), "expected to resolve x.y in fixtures/replace_path");
    assert!(p.unwrap().ends_with("tests/fixtures/replace_path/lua/x/y.lua"));

    // Negative case
    let none = resolver.resolve("not.present", &files);
    assert!(none.is_none());
}

#[test]
fn resolve_prefers_first_template() {
    // Both templates produce an existing candidate: the first template wins.
    let resolver = ModuleResolver::new(vec![
        "lua/?.lua".to_string(),
        "lua/?/init.lua".to_string(),
    ]);
    let files = FileListing::new(vec![
        "lua/pkg/init.lua".to_string(),
        "lua/pkg.lua".to_string(),
    ]);
    assert_eq!(resolver.resolve("pkg", &files), Some("lua/pkg.lua".to_string()));

    // Only the later template's candidate exists: it is chosen.
    let files2 = FileListing::new(vec!["lua/pkg/init.lua".to_string()]);
    assert_eq!(resolver.resolve("pkg", &files2), Some("lua/pkg/init.lua".to_string()));
}
