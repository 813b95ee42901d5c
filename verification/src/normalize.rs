//! Suffix inference: the normalizer's suffix set is derived once from the
//! configured templates before any name is normalized.

use vstd::prelude::*;

use crate::options::{spec_normalize, NameNormalizer};
use crate::replace::{MatchKind, ReplaceRule};
use crate::text::{contains_seq, str_contains};

verus! {

/// The normalized form of `name` under the normalizer `n`.
pub fn normalize_module_name(name: &str, n: &NameNormalizer) -> (r: String)
    ensures
        r@ == spec_normalize(n@, name@),
{
    n.normalize(name)
}

/// Some template in `ts` mentions an index-file placeholder.
pub open spec fn has_init_template(ts: Seq<Seq<char>>) -> bool {
    exists|i: int| 0 <= i < ts.len() && contains_seq(ts[i], "?/init.lua"@)
}

/// Some `Path`-mode replace rule carries a path pattern with the index-file
/// placeholder; patterns of other rule kinds are file-scope filters and do
/// not feed suffix inference.
pub open spec fn rules_have_init(rules: Seq<ReplaceRule>) -> bool {
    exists|i: int|
        0 <= i < rules.len() && (#[trigger] rules[i]).match_kind == MatchKind::Path
            && has_init_template(rules[i].paths.deep_view())
}

/// The nonempty entries of `ss`, in order.
pub open spec fn keep_nonempty(ss: Seq<Seq<char>>) -> Seq<Seq<char>>
    decreases ss.len(),
{
    if ss.len() == 0 {
        Seq::empty()
    } else if ss[0].len() > 0 {
        seq![ss[0]] + keep_nonempty(ss.skip(1))
    } else {
        keep_nonempty(ss.skip(1))
    }
}

/// The inferred suffix list: `init` when any first-party template, vendor
/// template or `Path`-mode rule path pattern mentions `?/init.lua`, followed
/// by the explicit nonempty vendor suffixes.
pub open spec fn spec_infer_suffixes(
    paths: Seq<Seq<char>>,
    vendor_paths: Seq<Seq<char>>,
    vendor_suffixes: Seq<Seq<char>>,
    replaces: Seq<ReplaceRule>,
) -> Seq<Seq<char>> {
    (if has_init_template(paths) || has_init_template(vendor_paths) || rules_have_init(replaces) {
        seq!["init"@]
    } else {
        Seq::empty()
    }) + keep_nonempty(vendor_suffixes)
}

fn any_has_init(ts: &Vec<String>) -> (r: bool)
    ensures
        r == has_init_template(ts.deep_view()),
{
    let n = ts.len();
    let mut i: usize = 0;
    while i < n
        invariant
            i <= n,
            n == ts@.len(),
            forall|j: int| 0 <= j < i ==> !contains_seq(ts.deep_view()[j], "?/init.lua"@),
        decreases n - i,
    {
        if str_contains(ts[i].as_str(), "?/init.lua") {
            proof {
                assert(contains_seq(ts.deep_view()[i as int], "?/init.lua"@));
            }
            return true;
        }
        i += 1;
    }
    false
}

/// Scans templates and rule patterns for the index-file convention and adds
/// the explicit vendor suffixes.
pub fn infer_suffixes(
    paths: &Vec<String>,
    vendor_paths: &Vec<String>,
    vendor_suffixes: &Vec<String>,
    replaces: &Vec<ReplaceRule>,
) -> (r: Vec<String>)
    ensures
        r.deep_view() == spec_infer_suffixes(
            paths.deep_view(),
            vendor_paths.deep_view(),
            vendor_suffixes.deep_view(),
            replaces@,
        ),
{
    let mut init_flag = any_has_init(paths) || any_has_init(vendor_paths);
    if !init_flag {
        let n = replaces.len();
        let mut i: usize = 0;
        let mut in_rules = false;
        while i < n && !in_rules
            invariant
                i <= n,
                n == replaces@.len(),
                in_rules ==> rules_have_init(replaces@),
                !in_rules ==> forall|j: int|
                    0 <= j < i ==> !((#[trigger] replaces@[j]).match_kind == MatchKind::Path
                        && has_init_template(replaces@[j].paths.deep_view())),
            decreases n - i,
        {
            if replaces[i].match_kind == MatchKind::Path && any_has_init(&replaces[i].paths) {
                in_rules = true;
            }
            i += 1;
        }
        proof {
            if !in_rules {
                assert(!rules_have_init(replaces@));
            }
        }
        init_flag = in_rules;
    }
    let mut out: Vec<String> = Vec::new();
    if init_flag {
        let mut s = String::new();
        s.append("init");
        out.push(s);
    }
    let ghost head: Seq<Seq<char>> = if init_flag {
        seq!["init"@]
    } else {
        Seq::empty()
    };
    proof {
        assert(out.deep_view() =~~= head);
        assert(vendor_suffixes.deep_view().skip(0) =~~= vendor_suffixes.deep_view());
    }
    let n = vendor_suffixes.len();
    let mut i: usize = 0;
    while i < n
        invariant
            i <= n,
            n == vendor_suffixes@.len(),
            head + keep_nonempty(vendor_suffixes.deep_view()) == out.deep_view() + keep_nonempty(
                vendor_suffixes.deep_view().skip(i as int),
            ),
        decreases n - i,
    {
        let ghost rest = vendor_suffixes.deep_view().skip(i as int);
        let ghost pre = out.deep_view();
        proof {
            assert(rest[0] == vendor_suffixes.deep_view()[i as int]);
        }
        if vendor_suffixes[i].as_str().unicode_len() > 0 {
            let s = vendor_suffixes[i].clone();
            out.push(s);
            proof {
                assert(out.deep_view() =~~= pre + seq![rest[0]]);
            }
        }
        i += 1;
        proof {
            assert(rest.skip(1) =~~= vendor_suffixes.deep_view().skip(i as int));
            assert(keep_nonempty(rest) == (if rest[0].len() > 0 {
                seq![rest[0]] + keep_nonempty(rest.skip(1))
            } else {
                keep_nonempty(rest.skip(1))
            }));
            assert(head + keep_nonempty(vendor_suffixes.deep_view()) =~~= out.deep_view()
                + keep_nonempty(vendor_suffixes.deep_view().skip(i as int)));
        }
    }
    proof {
        assert(vendor_suffixes.deep_view().skip(i as int) =~~= Seq::<Seq<char>>::empty());
        assert(out.deep_view() =~~= head + keep_nonempty(vendor_suffixes.deep_view()));
    }
    out
}

} // verus!
