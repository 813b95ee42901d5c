use luapack::{matches_replace, parse_replace_rules, ArgMode, MatchKind, NameNormalizer, ReplaceRule};

#[test]
fn parse_replace_rules_prefix_and_exact() {
    let flags = vec![
        "match=prefix,prefix=bar.,new=bar_require,arg={rest}".to_string(),
        "match=exact,name=core.greet,new=greet_require,arg={full}".to_string(),
    ];
    let rules = parse_replace_rules(&flags).expect("parse");
    assert_eq!(rules.len(), 2);

    // prefix
    let r0 = &rules[0];
    assert!(matches!(r0.match_kind, MatchKind::Prefix));
    assert_eq!(r0.prefix.as_deref(), Some("bar."));

    // exact
    let r1 = &rules[1];
    assert!(matches!(r1.match_kind, MatchKind::Exact));
    assert_eq!(r1.name.as_deref(), Some("core.greet"));
}

#[test]
fn matches_replace_basic() {
    let rules = vec![
        ReplaceRule {
            match_kind: MatchKind::Exact,
            old: "require".into(),
            new: "g".into(),
            name: Some("core.greet".into()),
            prefix: None,
            paths: vec![],
            arg: ArgMode::Full,
        },
        ReplaceRule {
            match_kind: MatchKind::Prefix,
            old: "require".into(),
            new: "b".into(),
            name: None,
            prefix: Some("bar.".into()),
            paths: vec![],
            arg: ArgMode::Rest,
        },
    ];
    let normalizer = NameNormalizer::new(Vec::new());
    assert!(matches_replace("core.greet", &rules, &normalizer));
    assert!(matches_replace("bar.x", &rules, &normalizer));
    assert!(!matches_replace("baz", &rules, &normalizer));
}

#[test]
fn parse_replace_rules_invalid_match_kind() {
    let flags = vec!["match=unknown,new=x".to_string()];
    let err = parse_replace_rules(&flags).unwrap_err();
    assert!(err.message.contains("unknown match kind"));
}

#[test]
fn parse_replace_rules_missing_keys() {
    let err = parse_replace_rules(&vec!["new=x".to_string()]).unwrap_err();
    assert!(err.message.contains("replace rule requires 'match='"));
    let err2 = parse_replace_rules(&vec!["match=exact,name=a".to_string()]).unwrap_err();
    assert!(err2.message.contains("replace rule requires 'new='"));
    let err3 = parse_replace_rules(&vec!["match=exact,new=x,arg={sideways}".to_string()])
        .unwrap_err();
    assert!(err3.message.contains("unknown arg mode"));
}

#[test]
fn parse_replace_rules_defaults_and_paths() {
    let rules =
        parse_replace_rules(&vec!["match=path,new=v_require,path=a/*.lua,path=b/*.lua".to_string()])
            .expect("parse");
    assert_eq!(rules.len(), 1);
    assert_eq!(rules[0].old, "require");
    assert!(matches!(rules[0].match_kind, MatchKind::Path));
    assert_eq!(rules[0].paths, vec!["a/*.lua".to_string(), "b/*.lua".to_string()]);
    assert!(matches!(rules[0].arg, ArgMode::Full));
}
