//! Redirect rules: parsing of `key=value` rule strings and the name-level
//! match test used by the vendor collector.

use vstd::prelude::*;

use crate::options::{spec_normalize, NameNormalizer};
use crate::text::{
    split_char, split_once_at, starts_with, str_eq, str_split, str_split_once, str_starts_with,
    str_trim, trimmed,
};

verus! {

#[derive(Debug, Clone, PartialEq, Eq, Structural)]
pub enum MatchKind {
    Exact,
    Prefix,
    Path,
}

#[derive(Debug, Clone, PartialEq, Eq, Structural)]
pub enum ArgMode {
    Rest,
    Full,
}

/// One redirect rule. `paths` is a file-scope filter for `Exact`/`Prefix`
/// rules and the match target for `Path` rules.
#[derive(Debug, Clone)]
pub struct ReplaceRule {
    pub match_kind: MatchKind,
    pub old: String,
    pub new: String,
    pub name: Option<String>,
    pub prefix: Option<String>,
    pub paths: Vec<String>,
    pub arg: ArgMode,
}

/// Spec-level image of a rule.
#[verifier::ext_equal]
pub ghost struct RuleV {
    pub match_kind: MatchKind,
    pub old: Seq<char>,
    pub new_callee: Seq<char>,
    pub name: Option<Seq<char>>,
    pub prefix: Option<Seq<char>>,
    pub paths: Seq<Seq<char>>,
    pub arg: ArgMode,
}

pub open spec fn rule_view(r: ReplaceRule) -> RuleV {
    RuleV {
        match_kind: r.match_kind,
        old: r.old@,
        new_callee: r.new@,
        name: match r.name {
            Some(n) => Some(n@),
            None => None,
        },
        prefix: match r.prefix {
            Some(p) => Some(p@),
            None => None,
        },
        paths: r.paths.deep_view(),
        arg: r.arg,
    }
}

/// Accumulator for one rule while its `key=value` parts are read.
#[verifier::ext_equal]
pub ghost struct RuleAcc {
    pub match_kind: Option<MatchKind>,
    pub old: Option<Seq<char>>,
    pub new_callee: Option<Seq<char>>,
    pub name: Option<Seq<char>>,
    pub prefix: Option<Seq<char>>,
    pub paths: Seq<Seq<char>>,
    pub arg: ArgMode,
}

pub open spec fn empty_acc() -> RuleAcc {
    RuleAcc {
        match_kind: None,
        old: None,
        new_callee: None,
        name: None,
        prefix: None,
        paths: Seq::empty(),
        arg: ArgMode::Full,
    }
}

/// Effect of one `key=value` part on the accumulator; a part without `=` is
/// ignored, an unknown key is ignored, an unknown value is an error.
pub open spec fn parse_kv(acc: RuleAcc, part: Seq<char>) -> Result<RuleAcc, Seq<char>> {
    match split_once_at(part, '=') {
        None => Ok(acc),
        Some((k, v)) => {
            let key = trimmed(k);
            let val = trimmed(v);
            if key == "match"@ {
                if val == "exact"@ {
                    Ok(RuleAcc { match_kind: Some(MatchKind::Exact), ..acc })
                } else if val == "prefix"@ {
                    Ok(RuleAcc { match_kind: Some(MatchKind::Prefix), ..acc })
                } else if val == "path"@ {
                    Ok(RuleAcc { match_kind: Some(MatchKind::Path), ..acc })
                } else {
                    Err("unknown match kind: "@ + val)
                }
            } else if key == "old"@ {
                Ok(RuleAcc { old: Some(val), ..acc })
            } else if key == "new"@ {
                Ok(RuleAcc { new_callee: Some(val), ..acc })
            } else if key == "name"@ {
                Ok(RuleAcc { name: Some(val), ..acc })
            } else if key == "prefix"@ {
                Ok(RuleAcc { prefix: Some(val), ..acc })
            } else if key == "path"@ {
                Ok(RuleAcc { paths: acc.paths.push(val), ..acc })
            } else if key == "arg"@ {
                if val == "{rest}"@ {
                    Ok(RuleAcc { arg: ArgMode::Rest, ..acc })
                } else if val == "{full}"@ {
                    Ok(RuleAcc { arg: ArgMode::Full, ..acc })
                } else {
                    Err("unknown arg mode: "@ + val)
                }
            } else {
                Ok(acc)
            }
        },
    }
}

pub open spec fn parse_parts(acc: RuleAcc, parts: Seq<Seq<char>>) -> Result<RuleAcc, Seq<char>>
    decreases parts.len(),
{
    if parts.len() == 0 {
        Ok(acc)
    } else {
        match parse_kv(acc, parts[0]) {
            Err(e) => Err(e),
            Ok(a) => parse_parts(a, parts.skip(1)),
        }
    }
}

/// A finished accumulator must name a match kind and a new callee; the old
/// callee defaults to `require`.
pub open spec fn finish_rule(acc: RuleAcc) -> Result<RuleV, Seq<char>> {
    if acc.match_kind is None {
        Err("replace rule requires 'match='"@)
    } else if acc.new_callee is None {
        Err("replace rule requires 'new='"@)
    } else {
        Ok(
            RuleV {
                match_kind: acc.match_kind->0,
                old: match acc.old {
                    Some(o) => o,
                    None => "require"@,
                },
                new_callee: acc.new_callee->0,
                name: acc.name,
                prefix: acc.prefix,
                paths: acc.paths,
                arg: acc.arg,
            },
        )
    }
}

pub open spec fn parse_rule(raw: Seq<char>) -> Result<RuleV, Seq<char>> {
    match parse_parts(empty_acc(), split_char(raw, ',')) {
        Err(e) => Err(e),
        Ok(acc) => finish_rule(acc),
    }
}

/// The rules parsed from `flags`, or the first error.
pub open spec fn spec_parse_rules(flags: Seq<Seq<char>>) -> Result<Seq<RuleV>, Seq<char>>
    decreases flags.len(),
{
    if flags.len() == 0 {
        Ok(Seq::empty())
    } else {
        match parse_rule(flags[0]) {
            Err(e) => Err(e),
            Ok(r) => match spec_parse_rules(flags.skip(1)) {
                Err(e) => Err(e),
                Ok(rest) => Ok(seq![r] + rest),
            },
        }
    }
}

/// Error from rule or vendor-spec parsing; `message` says which value was bad.
#[derive(Debug, Clone)]
pub struct RuleError {
    pub message: String,
}

struct Acc {
    match_kind: Option<MatchKind>,
    old: Option<String>,
    new_callee: Option<String>,
    name: Option<String>,
    prefix: Option<String>,
    paths: Vec<String>,
    arg: ArgMode,
}

impl Acc {
    spec fn view(&self) -> RuleAcc {
        RuleAcc {
            match_kind: self.match_kind,
            old: match self.old {
                Some(o) => Some(o@),
                None => None,
            },
            new_callee: match self.new_callee {
                Some(o) => Some(o@),
                None => None,
            },
            name: match self.name {
                Some(o) => Some(o@),
                None => None,
            },
            prefix: match self.prefix {
                Some(o) => Some(o@),
                None => None,
            },
            paths: self.paths.deep_view(),
            arg: self.arg,
        }
    }
}

fn step_kv(acc: Acc, part: &String) -> (r: Result<Acc, RuleError>)
    ensures
        match r {
            Ok(a2) => parse_kv(acc.view(), part@) == Ok::<RuleAcc, Seq<char>>(a2.view()),
            Err(e) => parse_kv(acc.view(), part@) == Err::<RuleAcc, Seq<char>>(e.message@),
        },
{
    let mut acc = acc;
    match str_split_once(part.as_str(), '=') {
        None => Ok(acc),
        Some((k, v)) => {
            let key = str_trim(k.as_str());
            let val = str_trim(v.as_str());
            if str_eq(key.as_str(), "match") {
                if str_eq(val.as_str(), "exact") {
                    acc.match_kind = Some(MatchKind::Exact);
                    Ok(acc)
                } else if str_eq(val.as_str(), "prefix") {
                    acc.match_kind = Some(MatchKind::Prefix);
                    Ok(acc)
                } else if str_eq(val.as_str(), "path") {
                    acc.match_kind = Some(MatchKind::Path);
                    Ok(acc)
                } else {
                    let mut m = String::new();
                    m.append("unknown match kind: ");
                    m.append(val.as_str());
                    Err(RuleError { message: m })
                }
            } else if str_eq(key.as_str(), "old") {
                acc.old = Some(val);
                Ok(acc)
            } else if str_eq(key.as_str(), "new") {
                acc.new_callee = Some(val);
                Ok(acc)
            } else if str_eq(key.as_str(), "name") {
                acc.name = Some(val);
                Ok(acc)
            } else if str_eq(key.as_str(), "prefix") {
                acc.prefix = Some(val);
                Ok(acc)
            } else if str_eq(key.as_str(), "path") {
                let ghost before = acc.view();
                acc.paths.push(val);
                proof {
                    assert(acc.view() =~= RuleAcc { paths: before.paths.push(val@), ..before });
                }
                Ok(acc)
            } else if str_eq(key.as_str(), "arg") {
                if str_eq(val.as_str(), "{rest}") {
                    acc.arg = ArgMode::Rest;
                    Ok(acc)
                } else if str_eq(val.as_str(), "{full}") {
                    acc.arg = ArgMode::Full;
                    Ok(acc)
                } else {
                    let mut m = String::new();
                    m.append("unknown arg mode: ");
                    m.append(val.as_str());
                    Err(RuleError { message: m })
                }
            } else {
                Ok(acc)
            }
        },
    }
}

fn parse_one(raw: &String) -> (r: Result<ReplaceRule, RuleError>)
    ensures
        match r {
            Ok(rule) => parse_rule(raw@) == Ok::<RuleV, Seq<char>>(rule_view(rule)),
            Err(e) => parse_rule(raw@) == Err::<RuleV, Seq<char>>(e.message@),
        },
{
    let parts = str_split(raw.as_str(), ',');
    let mut acc = Acc {
        match_kind: None,
        old: None,
        new_callee: None,
        name: None,
        prefix: None,
        paths: Vec::new(),
        arg: ArgMode::Full,
    };
    proof {
        assert(acc.view() =~= empty_acc());
        assert(parts.deep_view().skip(0) =~~= parts.deep_view());
    }
    let mut i: usize = 0;
    let n = parts.len();
    while i < n
        invariant
            i <= n,
            n == parts@.len(),
            parts.deep_view() == split_char(raw@, ','),
            parse_parts(empty_acc(), split_char(raw@, ',')) == parse_parts(
                acc.view(),
                parts.deep_view().skip(i as int),
            ),
        decreases n - i,
    {
        let ghost rest = parts.deep_view().skip(i as int);
        proof {
            assert(rest[0] == parts.deep_view()[i as int]);
            assert(parts.deep_view()[i as int] == parts@[i as int]@);
        }
        match step_kv(acc, &parts[i]) {
            Ok(a2) => {
                acc = a2;
            },
            Err(e) => {
                proof {
                    assert(parse_parts(empty_acc(), split_char(raw@, ',')) == Err::<
                        RuleAcc,
                        Seq<char>,
                    >(e.message@));
                }
                return Err(e);
            },
        }
        i += 1;
        proof {
            assert(rest.skip(1) =~~= parts.deep_view().skip(i as int));
        }
    }
    proof {
        assert(parts.deep_view().skip(i as int) =~~= Seq::<Seq<char>>::empty());
        assert(parse_parts(empty_acc(), split_char(raw@, ',')) == Ok::<RuleAcc, Seq<char>>(
            acc.view(),
        ));
    }
    let mk = match acc.match_kind {
        Some(m) => m,
        None => {
            let mut m = String::new();
            m.append("replace rule requires 'match='");
            return Err(RuleError { message: m });
        },
    };
    let nc = match acc.new_callee {
        Some(v) => v,
        None => {
            let mut m = String::new();
            m.append("replace rule requires 'new='");
            return Err(RuleError { message: m });
        },
    };
    let old = match acc.old {
        Some(o) => o,
        None => {
            let mut o = String::new();
            o.append("require");
            o
        },
    };
    let rule = ReplaceRule {
        match_kind: mk,
        old,
        new: nc,
        name: acc.name,
        prefix: acc.prefix,
        paths: acc.paths,
        arg: acc.arg,
    };
    proof {
        reveal_strlit("require");
        assert(finish_rule(
            RuleAcc {
                match_kind: Some(mk),
                old: match acc.old {
                    Some(o) => Some(o@),
                    None => None,
                },
                new_callee: Some(nc@),
                name: rule_view(rule).name,
                prefix: rule_view(rule).prefix,
                paths: rule.paths.deep_view(),
                arg: rule.arg,
            },
        ) == Ok::<RuleV, Seq<char>>(rule_view(rule)));
    }
    Ok(rule)
}

/// Parses each flag string into a rule; the first malformed flag is reported
/// as the error.
pub fn parse_replace_rules(flags: &Vec<String>) -> (r: Result<Vec<ReplaceRule>, RuleError>)
    ensures
        match r {
            Ok(rules) => spec_parse_rules(flags.deep_view()) == Ok::<Seq<RuleV>, Seq<char>>(
                rules@.map_values(|rl: ReplaceRule| rule_view(rl)),
            ),
            Err(e) => spec_parse_rules(flags.deep_view()) == Err::<Seq<RuleV>, Seq<char>>(
                e.message@,
            ),
        },
{
    let mut out: Vec<ReplaceRule> = Vec::new();
    let n = flags.len();
    let mut i: usize = 0;
    proof {
        assert(flags.deep_view().skip(0) =~~= flags.deep_view());
        let f = |rl: ReplaceRule| rule_view(rl);
        if spec_parse_rules(flags.deep_view()) is Ok {
            let rest = spec_parse_rules(flags.deep_view())->Ok_0;
            assert(out@.map_values(f) + rest =~= rest);
        }
    }
    while i < n
        invariant
            i <= n,
            n == flags@.len(),
            spec_parse_rules(flags.deep_view()) == (match spec_parse_rules(
                flags.deep_view().skip(i as int),
            ) {
                Ok(rest) => Ok::<Seq<RuleV>, Seq<char>>(
                    out@.map_values(|rl: ReplaceRule| rule_view(rl)) + rest,
                ),
                Err(e) => Err::<Seq<RuleV>, Seq<char>>(e),
            }),
        decreases n - i,
    {
        let ghost rest = flags.deep_view().skip(i as int);
        proof {
            assert(rest[0] == flags@[i as int]@);
        }
        let ghost out_pre = out@;
        match parse_one(&flags[i]) {
            Ok(rule) => {
                out.push(rule);
                proof {
                    assert(out@ =~= out_pre.push(rule));
                }
            },
            Err(e) => {
                return Err(e);
            },
        }
        i += 1;
        proof {
            assert(rest.skip(1) =~~= flags.deep_view().skip(i as int));
            let f = |rl: ReplaceRule| rule_view(rl);
            assert(out@.map_values(f) =~= out_pre.map_values(f).push(rule_view(out@[out@.len()
                - 1])));
            if spec_parse_rules(flags.deep_view().skip(i as int)) is Ok {
                let tail = spec_parse_rules(flags.deep_view().skip(i as int))->Ok_0;
                assert(out_pre.map_values(f) + (seq![rule_view(out@[out@.len() - 1])] + tail)
                    =~= out@.map_values(f) + tail);
            }
        }
    }
    proof {
        assert(flags.deep_view().skip(i as int) =~~= Seq::<Seq<char>>::empty());
        let f = |rl: ReplaceRule| rule_view(rl);
        assert(out@.map_values(f) + Seq::<RuleV>::empty() =~= out@.map_values(f));
    }
    Ok(out)
}

/// A rule hits a normalized name when an `Exact` rule names it or a `Prefix`
/// rule's prefix starts it; `Path` rules never hit by name alone.
pub open spec fn name_rule_hit(r: ReplaceRule, n: Seq<char>) -> bool {
    ||| (r.match_kind == MatchKind::Exact && match r.name {
        Some(x) => x@ == n,
        None => false,
    })
    ||| (r.match_kind == MatchKind::Prefix && match r.prefix {
        Some(p) => starts_with(n, p@),
        None => false,
    })
}

pub open spec fn spec_matches_replace(
    raw: Seq<char>,
    rules: Seq<ReplaceRule>,
    sufs: Seq<Seq<char>>,
) -> bool {
    exists|i: int|
        0 <= i < rules.len() && name_rule_hit(rules[i], spec_normalize(sufs, raw))
}

/// Whether any `Exact` or `Prefix` rule hits the normalized form of `name`.
pub fn matches_replace(name: &str, replaces: &Vec<ReplaceRule>, normalizer: &NameNormalizer) -> (r:
    bool)
    ensures
        r == spec_matches_replace(name@, replaces@, normalizer@),
{
    let n = normalizer.normalize(name);
    let count = replaces.len();
    let mut i: usize = 0;
    while i < count
        invariant
            i <= count,
            count == replaces@.len(),
            n@ == spec_normalize(normalizer@, name@),
            forall|j: int| 0 <= j < i ==> !name_rule_hit(replaces@[j], n@),
        decreases count - i,
    {
        let rule = &replaces[i];
        match rule.match_kind {
            MatchKind::Exact => {
                match &rule.name {
                    Some(x) => {
                        if str_eq(x.as_str(), n.as_str()) {
                            return true;
                        }
                    },
                    None => {},
                }
            },
            MatchKind::Prefix => {
                match &rule.prefix {
                    Some(p) => {
                        if str_starts_with(n.as_str(), p.as_str()) {
                            return true;
                        }
                    },
                    None => {},
                }
            },
            MatchKind::Path => {},
        }
        proof {
            assert(!name_rule_hit(replaces@[i as int], n@));
        }
        i += 1;
    }
    false
}

} // verus!
