//! Vendor collection: vendor path templates are split into a glob and a root
//! prefix, matching files are turned into dotted module names, and names are
//! dropped when excluded or when a replace rule will redirect them anyway.

use vstd::prelude::*;

use crate::namemap::{NameMap, NameSet};
use crate::options::{lemma_normalize_idempotent, spec_normalize, NameNormalizer};
use crate::replace::{spec_matches_replace, MatchKind, ReplaceRule, RuleError};
use crate::shims::{glob_enumerable, glob_matches, glob_paths, glob_pattern_ok, path_is_file};
use crate::text::{
    contains_seq, ends_with, find_in, split_char, split_once_at, starts_with, str_contains,
    str_ends_with, str_replace_all, str_split, str_split_once, str_starts_with, str_trim, trimmed,
    replace_all,
};
use crate::transform::norm_seps;

verus! {

/// One vendor specification: templates, exclusions and extra suffixes.
#[derive(Debug, Clone)]
pub struct VendorSpec {
    pub paths: Vec<String>,
    pub exclude_names: Vec<String>,
    pub exclude_prefixes: Vec<String>,
    pub suffixes: Vec<String>,
}

/// Spec-level image of a vendor specification.
#[verifier::ext_equal]
pub ghost struct VendorSpecV {
    pub paths: Seq<Seq<char>>,
    pub exclude_names: Seq<Seq<char>>,
    pub exclude_prefixes: Seq<Seq<char>>,
    pub suffixes: Seq<Seq<char>>,
}

pub open spec fn vendor_view(v: VendorSpec) -> VendorSpecV {
    VendorSpecV {
        paths: v.paths.deep_view(),
        exclude_names: v.exclude_names.deep_view(),
        exclude_prefixes: v.exclude_prefixes.deep_view(),
        suffixes: v.suffixes.deep_view(),
    }
}

/// Effect of one `key=value` part on a vendor spec under construction: a
/// bare value is a path template, empty parts are skipped, and an unknown
/// key or exclude kind is an error naming the offending value.
pub open spec fn vendor_kv(acc: VendorSpecV, part: Seq<char>) -> Result<VendorSpecV, Seq<char>> {
    let s = trimmed(part);
    if s.len() == 0 {
        Ok(acc)
    } else {
        match split_once_at(s, '=') {
            Some((k, v)) => {
                let key = trimmed(k);
                if key == "path"@ {
                    Ok(VendorSpecV { paths: acc.paths.push(trimmed(v)), ..acc })
                } else if key == "exclude"@ {
                    match split_once_at(v, ':') {
                        Some((kind, val)) => {
                            let kd = trimmed(kind);
                            if kd == "name"@ {
                                Ok(
                                    VendorSpecV {
                                        exclude_names: acc.exclude_names.push(trimmed(val)),
                                        ..acc
                                    },
                                )
                            } else if kd == "prefix"@ {
                                Ok(
                                    VendorSpecV {
                                        exclude_prefixes: acc.exclude_prefixes.push(trimmed(val)),
                                        ..acc
                                    },
                                )
                            } else {
                                Err("unknown exclude kind: "@ + kd)
                            }
                        },
                        None => Err("invalid exclude value: "@ + trimmed(v)),
                    }
                } else if key == "suffix"@ {
                    Ok(VendorSpecV { suffixes: acc.suffixes.push(trimmed(v)), ..acc })
                } else {
                    Err("unknown vendor key: "@ + key)
                }
            },
            None => Ok(VendorSpecV { paths: acc.paths.push(s), ..acc }),
        }
    }
}

pub open spec fn empty_vendor() -> VendorSpecV {
    VendorSpecV {
        paths: Seq::empty(),
        exclude_names: Seq::empty(),
        exclude_prefixes: Seq::empty(),
        suffixes: Seq::empty(),
    }
}

pub open spec fn vendor_parts(acc: VendorSpecV, parts: Seq<Seq<char>>) -> Result<
    VendorSpecV,
    Seq<char>,
>
    decreases parts.len(),
{
    if parts.len() == 0 {
        Ok(acc)
    } else {
        match vendor_kv(acc, parts[0]) {
            Err(e) => Err(e),
            Ok(a) => vendor_parts(a, parts.skip(1)),
        }
    }
}

pub open spec fn spec_parse_vendor(raw: Seq<char>) -> Result<VendorSpecV, Seq<char>> {
    vendor_parts(empty_vendor(), split_char(raw, ','))
}

/// The vendor specs parsed from `flags`, or the first error.
pub open spec fn spec_parse_vendors(flags: Seq<Seq<char>>) -> Result<Seq<VendorSpecV>, Seq<char>>
    decreases flags.len(),
{
    if flags.len() == 0 {
        Ok(Seq::empty())
    } else {
        match spec_parse_vendor(flags[0]) {
            Err(e) => Err(e),
            Ok(v) => match spec_parse_vendors(flags.skip(1)) {
                Err(e) => Err(e),
                Ok(rest) => Ok(seq![v] + rest),
            },
        }
    }
}

fn parse_one_vendor(raw: &String) -> (r: Result<VendorSpec, RuleError>)
    ensures
        match r {
            Ok(v) => spec_parse_vendor(raw@) == Ok::<VendorSpecV, Seq<char>>(vendor_view(v)),
            Err(e) => spec_parse_vendor(raw@) == Err::<VendorSpecV, Seq<char>>(e.message@),
        },
{
    let parts = str_split(raw.as_str(), ',');
    let mut acc = VendorSpec {
        paths: Vec::new(),
        exclude_names: Vec::new(),
        exclude_prefixes: Vec::new(),
        suffixes: Vec::new(),
    };
    proof {
        assert(vendor_view(acc) =~= empty_vendor());
        assert(parts.deep_view().skip(0) =~~= parts.deep_view());
    }
    let n = parts.len();
    let mut i: usize = 0;
    while i < n
        invariant
            i <= n,
            n == parts@.len(),
            parts.deep_view() == split_char(raw@, ','),
            vendor_parts(empty_vendor(), split_char(raw@, ',')) == vendor_parts(
                vendor_view(acc),
                parts.deep_view().skip(i as int),
            ),
        decreases n - i,
    {
        let ghost acc0 = vendor_view(acc);
        let ghost rest = parts.deep_view().skip(i as int);
        proof {
            assert(rest[0] == parts@[i as int]@);
        }
        let s = str_trim(parts[i].as_str());
        if s.as_str().unicode_len() > 0 {
            match str_split_once(s.as_str(), '=') {
                Some((k, v)) => {
                    let key = str_trim(k.as_str());
                    if crate::text::str_eq(key.as_str(), "path") {
                        let ghost pre = acc.paths.deep_view();
                        acc.paths.push(str_trim(v.as_str()));
                        proof {
                            assert(acc.paths.deep_view() =~~= pre.push(trimmed(v@)));
                            assert(vendor_kv(acc0, rest[0]) == Ok::<VendorSpecV, Seq<char>>(
                                vendor_view(acc),
                            ));
                        }
                    } else if crate::text::str_eq(key.as_str(), "exclude") {
                        match str_split_once(v.as_str(), ':') {
                            Some((kind, val)) => {
                                let kd = str_trim(kind.as_str());
                                if crate::text::str_eq(kd.as_str(), "name") {
                                    let ghost pre = acc.exclude_names.deep_view();
                                    acc.exclude_names.push(str_trim(val.as_str()));
                                    proof {
                                        assert(acc.exclude_names.deep_view() =~~= pre.push(
                                            trimmed(val@),
                                        ));
                                        assert(vendor_kv(acc0, rest[0]) == Ok::<
                                            VendorSpecV,
                                            Seq<char>,
                                        >(vendor_view(acc)));
                                    }
                                } else if crate::text::str_eq(kd.as_str(), "prefix") {
                                    let ghost pre = acc.exclude_prefixes.deep_view();
                                    acc.exclude_prefixes.push(str_trim(val.as_str()));
                                    proof {
                                        assert(acc.exclude_prefixes.deep_view() =~~= pre.push(
                                            trimmed(val@),
                                        ));
                                        assert(vendor_kv(acc0, rest[0]) == Ok::<
                                            VendorSpecV,
                                            Seq<char>,
                                        >(vendor_view(acc)));
                                    }
                                } else {
                                    let mut m = String::new();
                                    m.append("unknown exclude kind: ");
                                    m.append(kd.as_str());
                                    proof {
                                        assert(vendor_kv(acc0, rest[0]) == Err::<
                                            VendorSpecV,
                                            Seq<char>,
                                        >(m@));
                                        assert(vendor_parts(
                                            empty_vendor(),
                                            split_char(raw@, ','),
                                        ) == Err::<VendorSpecV, Seq<char>>(m@));
                                    }
                                    return Err(RuleError { message: m });
                                }
                            },
                            None => {
                                let mut m = String::new();
                                m.append("invalid exclude value: ");
                                let vt = str_trim(v.as_str());
                                m.append(vt.as_str());
                                proof {
                                    assert(vendor_kv(acc0, rest[0]) == Err::<
                                        VendorSpecV,
                                        Seq<char>,
                                    >(m@));
                                    assert(vendor_parts(empty_vendor(), split_char(raw@, ','))
                                        == Err::<VendorSpecV, Seq<char>>(m@));
                                }
                                return Err(RuleError { message: m });
                            },
                        }
                    } else if crate::text::str_eq(key.as_str(), "suffix") {
                        let ghost pre = acc.suffixes.deep_view();
                        acc.suffixes.push(str_trim(v.as_str()));
                        proof {
                            assert(acc.suffixes.deep_view() =~~= pre.push(trimmed(v@)));
                            assert(vendor_kv(acc0, rest[0]) == Ok::<VendorSpecV, Seq<char>>(
                                vendor_view(acc),
                            ));
                        }
                    } else {
                        let mut m = String::new();
                        m.append("unknown vendor key: ");
                        m.append(key.as_str());
                        proof {
                            assert(vendor_kv(acc0, rest[0]) == Err::<VendorSpecV, Seq<char>>(m@));
                            assert(vendor_parts(empty_vendor(), split_char(raw@, ',')) == Err::<
                                VendorSpecV,
                                Seq<char>,
                            >(m@));
                        }
                        return Err(RuleError { message: m });
                    }
                },
                None => {
                    let ghost pre = acc.paths.deep_view();
                    acc.paths.push(s);
                    proof {
                        assert(acc.paths.deep_view() =~~= pre.push(trimmed(parts@[i as int]@)));
                        assert(vendor_kv(acc0, rest[0]) == Ok::<VendorSpecV, Seq<char>>(
                            vendor_view(acc),
                        ));
                    }
                },
            }
        } else {
            proof {
                assert(vendor_kv(acc0, rest[0]) == Ok::<VendorSpecV, Seq<char>>(vendor_view(acc)));
            }
        }
        i += 1;
        proof {
            assert(rest.skip(1) =~~= parts.deep_view().skip(i as int));
        }
    }
    proof {
        assert(parts.deep_view().skip(i as int) =~~= Seq::<Seq<char>>::empty());
    }
    Ok(acc)
}

/// Parses each vendor flag; the first malformed flag (an unknown key or
/// exclude kind) is reported as the error.
pub fn parse_vendor_specs(flags: &Vec<String>) -> (r: Result<Vec<VendorSpec>, RuleError>)
    ensures
        match r {
            Ok(specs) => spec_parse_vendors(flags.deep_view()) == Ok::<Seq<VendorSpecV>, Seq<char>>(
                specs@.map_values(|v: VendorSpec| vendor_view(v)),
            ),
            Err(e) => spec_parse_vendors(flags.deep_view()) == Err::<Seq<VendorSpecV>, Seq<char>>(
                e.message@,
            ),
        },
{
    let mut out: Vec<VendorSpec> = Vec::new();
    let n = flags.len();
    let mut i: usize = 0;
    proof {
        assert(flags.deep_view().skip(0) =~~= flags.deep_view());
        let f = |v: VendorSpec| vendor_view(v);
        if spec_parse_vendors(flags.deep_view()) is Ok {
            let rest = spec_parse_vendors(flags.deep_view())->Ok_0;
            assert(out@.map_values(f) + rest =~= rest);
        }
    }
    while i < n
        invariant
            i <= n,
            n == flags@.len(),
            spec_parse_vendors(flags.deep_view()) == (match spec_parse_vendors(
                flags.deep_view().skip(i as int),
            ) {
                Ok(rest) => Ok::<Seq<VendorSpecV>, Seq<char>>(
                    out@.map_values(|v: VendorSpec| vendor_view(v)) + rest,
                ),
                Err(e) => Err::<Seq<VendorSpecV>, Seq<char>>(e),
            }),
        decreases n - i,
    {
        let ghost rest = flags.deep_view().skip(i as int);
        proof {
            assert(rest[0] == flags@[i as int]@);
        }
        let ghost out_pre = out@;
        match parse_one_vendor(&flags[i]) {
            Ok(v) => {
                out.push(v);
                proof {
                    assert(out@ =~= out_pre.push(v));
                }
            },
            Err(e) => {
                return Err(e);
            },
        }
        i += 1;
        proof {
            assert(rest.skip(1) =~~= flags.deep_view().skip(i as int));
            let f = |v: VendorSpec| vendor_view(v);
            assert(out@.map_values(f) =~= out_pre.map_values(f).push(vendor_view(out@[out@.len()
                - 1])));
            if spec_parse_vendors(flags.deep_view().skip(i as int)) is Ok {
                let tail = spec_parse_vendors(flags.deep_view().skip(i as int))->Ok_0;
                assert(out_pre.map_values(f) + (seq![vendor_view(out@[out@.len() - 1])] + tail)
                    =~= out@.map_values(f) + tail);
            }
        }
    }
    proof {
        assert(flags.deep_view().skip(i as int) =~~= Seq::<Seq<char>>::empty());
        let f = |v: VendorSpec| vendor_view(v);
        assert(out@.map_values(f) + Seq::<VendorSpecV>::empty() =~= out@.map_values(f));
    }
    Ok(out)
}

/// `s` with every copy of the suffix stripped off the end, one after another.
pub open spec fn strip_all_suffix(s: Seq<char>, suf: Seq<char>) -> Seq<char>
    decreases s.len(),
{
    if suf.len() > 0 && ends_with(s, suf) {
        strip_all_suffix(s.take(s.len() - suf.len()), suf)
    } else {
        s
    }
}

fn x_strip_all_suffix(s: &str, suf: &str) -> (r: String)
    ensures
        r@ == strip_all_suffix(s@, suf@),
{
    let mut cur = s.to_owned();
    let sl = suf.unicode_len();
    if sl == 0 {
        return cur;
    }
    loop
        invariant
            sl == suf@.len(),
            sl > 0,
            strip_all_suffix(s@, suf@) == strip_all_suffix(cur@, suf@),
        decreases cur@.len(),
    {
        if str_ends_with(cur.as_str(), suf) {
            let cl = cur.as_str().unicode_len();
            let next = cur.as_str().substring_char(0, cl - sl).to_owned();
            proof {
                assert(next@ =~= cur@.take(cur@.len() - suf@.len()));
            }
            cur = next;
        } else {
            return cur;
        }
    }
}

/// The root prefix of a template: everything before the `?` placeholder.
pub open spec fn spec_template_root(t: Seq<char>) -> Seq<char> {
    match find_in(t, '?') {
        None => t,
        Some(i) => t.take(i),
    }
}

/// The glob pattern a template expands to: the placeholder becomes a
/// recursive wildcard, index-file style when the template uses one.
pub open spec fn spec_template_glob(t: Seq<char>) -> Seq<char> {
    if contains_seq(t, "?/init.lua"@) {
        replace_all(t, "?/init.lua"@, "**/init.lua"@)
    } else {
        replace_all(t, "?.lua"@, "**/*.lua"@)
    }
}

/// Splits a vendor template into its glob pattern, its root prefix, and
/// whether it resolves through index files.
pub fn to_glob_and_root(t: &str) -> (r: (String, String, bool))
    ensures
        r.2 == contains_seq(t@, "?/init.lua"@),
        r.1@ == spec_template_root(t@),
        r.0@ == spec_template_glob(t@),
{
    let init_mode = str_contains(t, "?/init.lua");
    let root = match crate::text::find_char_from(t, '?', 0) {
        None => {
            proof {
                crate::text::lemma_find_in_none(t@, '?');
            }
            t.to_owned()
        },
        Some(i) => {
            proof {
                crate::text::lemma_find_in_unique(t@, '?', i as int);
            }
            let piece = t.substring_char(0, i).to_owned();
            proof {
                assert(piece@ =~= t@.take(i as int));
            }
            piece
        },
    };
    let glob_pat = if init_mode {
        str_replace_all(t, "?/init.lua", "**/init.lua")
    } else {
        str_replace_all(t, "?.lua", "**/*.lua")
    };
    (glob_pat, root, init_mode)
}

/// A `Path` rule pattern (compiled as a glob, no substring fallback) hits the
/// separator-normalized file path.
pub open spec fn spec_vendor_path_hit(rules: Seq<ReplaceRule>, file: Seq<char>) -> bool {
    exists|i: int, k: int|
        {
            &&& 0 <= i < rules.len()
            &&& (#[trigger] rules[i]).match_kind == MatchKind::Path
            &&& 0 <= k < rules[i].paths@.len()
            &&& glob_pattern_ok((#[trigger] rules[i].paths@[k])@)
            &&& glob_matches(rules[i].paths@[k]@, norm_seps(file))
        }
}

fn vendor_path_hit(rules: &Vec<ReplaceRule>, file: &str) -> (r: bool)
    ensures
        r == spec_vendor_path_hit(rules@, file@),
{
    let nf = str_replace_all(file, "\\", "/");
    let n = rules.len();
    let mut i: usize = 0;
    while i < n
        invariant
            i <= n,
            n == rules@.len(),
            nf@ == norm_seps(file@),
            forall|a: int, k: int|
                0 <= a < i && 0 <= k < (#[trigger] rules@[a]).paths@.len() ==> !(rules@[a].match_kind
                    == MatchKind::Path && glob_pattern_ok((#[trigger] rules@[a].paths@[k])@)
                    && glob_matches(rules@[a].paths@[k]@, norm_seps(file@))),
        decreases n - i,
    {
        let rule = &rules[i];
        if rule.match_kind == MatchKind::Path {
            let m = rule.paths.len();
            let mut k: usize = 0;
            while k < m
                invariant
                    k <= m,
                    i < n,
                    n == rules@.len(),
                    *rule == rules@[i as int],
                    m == rules@[i as int].paths@.len(),
                    nf@ == norm_seps(file@),
                    rules@[i as int].match_kind == MatchKind::Path,
                    forall|kk: int|
                        0 <= kk < k ==> !(glob_pattern_ok(
                            (#[trigger] rules@[i as int].paths@[kk])@,
                        ) && glob_matches(rules@[i as int].paths@[kk]@, norm_seps(file@))),
                decreases m - k,
            {
                match crate::shims::glob_match(rule.paths[k].as_str(), nf.as_str()) {
                    Some(true) => {
                        proof {
                            assert(rule.paths@[k as int] == rules@[i as int].paths@[k as int]);
                            assert(glob_pattern_ok((rules@[i as int].paths@[k as int])@)
                                && glob_matches(
                                rules@[i as int].paths@[k as int]@,
                                norm_seps(file@),
                            ));
                        }
                        return true;
                    },
                    Some(false) => {
                        proof {
                            assert(rule.paths@[k as int] == rules@[i as int].paths@[k as int]);
                        }
                    },
                    None => {
                        proof {
                            assert(rule.paths@[k as int] == rules@[i as int].paths@[k as int]);
                        }
                    },
                }
                k += 1;
            }
        }
        i += 1;
    }
    false
}

/// Separators of a relative path turned into name dots.
pub open spec fn seps_to_dots(s: Seq<char>) -> Seq<char> {
    replace_all(replace_all(s, "\\"@, "."@), "/"@, "."@)
}

/// The normalized module name a vendor file yields, when the file lies under
/// the template root.
pub open spec fn spec_vendor_name(
    file: Seq<char>,
    root: Seq<char>,
    init_mode: bool,
    sufs: Seq<Seq<char>>,
) -> Option<Seq<char>> {
    if starts_with(file, root) {
        let rel = file.skip(root.len() as int);
        let raw = if init_mode {
            strip_all_suffix(strip_all_suffix(rel, "/init.lua"@), "\\init.lua"@)
        } else {
            strip_all_suffix(rel, ".lua"@)
        };
        Some(spec_normalize(sufs, seps_to_dots(raw)))
    } else {
        None
    }
}

/// Whether a vendor spec excludes the name outright.
pub open spec fn spec_vendor_excluded(v: VendorSpec, name: Seq<char>) -> bool {
    ||| v.exclude_names.deep_view().contains(name)
    ||| exists|k: int|
        0 <= k < v.exclude_prefixes.deep_view().len() && starts_with(
            name,
            #[trigger] v.exclude_prefixes.deep_view()[k],
        )
}

/// The name under which a vendor file enters the map, if it enters at all:
/// the file must lie under the root, and its name must not be excluded,
/// hit by a name rule, or (by its path) hit by a `Path` rule.
pub open spec fn spec_vendor_admit(
    file: Seq<char>,
    root: Seq<char>,
    init_mode: bool,
    v: VendorSpec,
    rules: Seq<ReplaceRule>,
    sufs: Seq<Seq<char>>,
) -> Option<Seq<char>> {
    match spec_vendor_name(file, root, init_mode, sufs) {
        None => None,
        Some(name) => {
            if spec_vendor_excluded(v, name) || spec_matches_replace(name, rules, sufs)
                || spec_vendor_path_hit(rules, file) {
                None
            } else {
                Some(name)
            }
        },
    }
}

fn vendor_excluded(v: &VendorSpec, name: &str) -> (r: bool)
    ensures
        r == spec_vendor_excluded(*v, name@),
{
    let n = v.exclude_names.len();
    let mut i: usize = 0;
    while i < n
        invariant
            i <= n,
            n == v.exclude_names@.len(),
            forall|j: int| 0 <= j < i ==> v.exclude_names.deep_view()[j] != name@,
        decreases n - i,
    {
        if crate::text::str_eq(v.exclude_names[i].as_str(), name) {
            proof {
                assert(v.exclude_names.deep_view()[i as int] == name@);
            }
            return true;
        }
        i += 1;
    }
    let m = v.exclude_prefixes.len();
    let mut k: usize = 0;
    while k < m
        invariant
            m == v.exclude_prefixes@.len(),
            k <= m,
            forall|j: int| 0 <= j < n ==> v.exclude_names.deep_view()[j] != name@,
            n == v.exclude_names@.len(),
            forall|j: int|
                0 <= j < k ==> !starts_with(name@, #[trigger] v.exclude_prefixes.deep_view()[j]),
        decreases m - k,
    {
        if str_starts_with(name, v.exclude_prefixes[k].as_str()) {
            proof {
                assert(starts_with(name@, v.exclude_prefixes.deep_view()[k as int]));
            }
            return true;
        }
        k += 1;
    }
    false
}

/// Adds the modules of one template listing to the vendor map. The first
/// binding of a name wins; a name bound before this listing is reported in
/// `dups` when a file here derives it again.
pub fn vendor_add_listing(
    out: &mut NameMap,
    dups: &mut NameSet,
    files: &Vec<String>,
    root: &str,
    init_mode: bool,
    v: &VendorSpec,
    replaces: &Vec<ReplaceRule>,
    normalizer: &NameNormalizer,
)
    requires
        old(out).wf(),
        old(dups).wf(),
    ensures
        final(out).wf(),
        final(dups).wf(),
        // nothing already bound changes
        forall|k: Seq<char>| #[trigger]
            old(out).has_key(k) ==> final(out).has_key(k) && final(out).val_of(k) == old(
                out,
            ).val_of(k),
        // a new binding comes from an admitted file of this listing
        forall|k: Seq<char>| #[trigger]
            final(out).has_key(k) ==> old(out).has_key(k) || exists|j: int|
                0 <= j < files.deep_view().len() && spec_vendor_admit(
                    #[trigger] files.deep_view()[j],
                    root@,
                    init_mode,
                    *v,
                    replaces@,
                    normalizer@,
                ) == Some(k) && final(out).val_of(k) == files.deep_view()[j],
        // every admitted file leaves its name in the map, and a re-derived
        // name that was already bound is reported as a duplicate
        forall|j: int|
            0 <= j < files.deep_view().len() ==> match spec_vendor_admit(
                #[trigger] files.deep_view()[j],
                root@,
                init_mode,
                *v,
                replaces@,
                normalizer@,
            ) {
                Some(name) => final(out).has_key(name) && (old(out).has_key(name)
                    ==> final(dups).has(name)),
                None => true,
            },
        forall|d: Seq<char>| #[trigger]
            final(dups).has(d) ==> old(dups).has(d) || final(out).has_key(d),
        forall|d: Seq<char>| #[trigger] old(dups).has(d) ==> final(dups).has(d),
{
    let n = files.len();
    let mut i: usize = 0;
    while i < n
        invariant
            i <= n,
            n == files@.len(),
            out.wf(),
            dups.wf(),
            forall|k: Seq<char>| #[trigger]
                old(out).has_key(k) ==> out.has_key(k) && out.val_of(k) == old(out).val_of(k),
            forall|k: Seq<char>| #[trigger]
                out.has_key(k) ==> old(out).has_key(k) || exists|j: int|
                    0 <= j < i && spec_vendor_admit(
                        #[trigger] files.deep_view()[j],
                        root@,
                        init_mode,
                        *v,
                        replaces@,
                        normalizer@,
                    ) == Some(k) && out.val_of(k) == files.deep_view()[j],
            forall|j: int|
                0 <= j < i ==> match spec_vendor_admit(
                    #[trigger] files.deep_view()[j],
                    root@,
                    init_mode,
                    *v,
                    replaces@,
                    normalizer@,
                ) {
                    Some(name) => out.has_key(name) && (old(out).has_key(name)
                        ==> dups.has(name)),
                    None => true,
                },
            forall|d: Seq<char>| #[trigger] dups.has(d) ==> old(dups).has(d) || out.has_key(d),
            forall|d: Seq<char>| #[trigger] old(dups).has(d) ==> dups.has(d),
        decreases n - i,
    {
        let file = &files[i];
        proof {
            assert(file@ == files.deep_view()[i as int]);
        }
        let ghost out0 = *out;
        let ghost dups0 = *dups;
        if str_starts_with(file.as_str(), root) {
            let fl = file.as_str().unicode_len();
            let rl = root.unicode_len();
            let rel = file.as_str().substring_char(rl, fl);
            proof {
                assert(rel@ =~= file@.skip(root@.len() as int));
            }
            let raw = if init_mode {
                let once = x_strip_all_suffix(rel, "/init.lua");
                x_strip_all_suffix(once.as_str(), "\\init.lua")
            } else {
                x_strip_all_suffix(rel, ".lua")
            };
            let dotted = str_replace_all(
                str_replace_all(raw.as_str(), "\\", ".").as_str(),
                "/",
                ".",
            );
            let name = normalizer.normalize(dotted.as_str());
            proof {
                assert(spec_vendor_name(file@, root@, init_mode, normalizer@) == Some(name@));
            }
            if !vendor_excluded(v, name.as_str()) && !crate::replace::matches_replace(
                name.as_str(),
                replaces,
                normalizer,
            ) && !vendor_path_hit(replaces, file.as_str()) {
                proof {
                    assert(spec_vendor_admit(
                        file@,
                        root@,
                        init_mode,
                        *v,
                        replaces@,
                        normalizer@,
                    ) == Some(name@));
                }
                if out.contains_key(name.as_str()) {
                    dups.insert(name.clone());
                }
                let inserted = out.insert_if_absent(name.clone(), file.clone());
                proof {
                    assert(out.has_key(name@));
                    if inserted {
                        assert(out.val_of(name@) == file@);
                    }
                    assert forall|k: Seq<char>| #[trigger]
                        out.has_key(k) implies old(out).has_key(k) || exists|j: int|
                        0 <= j < i + 1 && spec_vendor_admit(
                            #[trigger] files.deep_view()[j],
                            root@,
                            init_mode,
                            *v,
                            replaces@,
                            normalizer@,
                        ) == Some(k) && out.val_of(k) == files.deep_view()[j] by {
                        if k == name@ && !out0.has_key(k) {
                            assert(spec_vendor_admit(
                                files.deep_view()[i as int],
                                root@,
                                init_mode,
                                *v,
                                replaces@,
                                normalizer@,
                            ) == Some(k) && out.val_of(k) == files.deep_view()[i as int]);
                        } else {
                            assert(out0.has_key(k));
                            assert(out.val_of(k) == out0.val_of(k));
                        }
                    }
                }
            } else {
                proof {
                    assert(spec_vendor_admit(
                        file@,
                        root@,
                        init_mode,
                        *v,
                        replaces@,
                        normalizer@,
                    ) is None);
                }
            }
        } else {
            proof {
                assert(spec_vendor_name(file@, root@, init_mode, normalizer@) is None);
            }
        }
        i += 1;
    }
}

/// The key properties every vendor-map key has, whatever the filesystem
/// held: it is a normalization fixpoint, no `Exact`/`Prefix` rule redirects
/// it, and no `Path`-rule pattern hits its registered file.
pub open spec fn vendor_key_ok(
    m: NameMap,
    k: Seq<char>,
    replaces: Seq<ReplaceRule>,
    sufs: Seq<Seq<char>>,
) -> bool {
    &&& spec_normalize(sufs, k) == k
    &&& !spec_matches_replace(k, replaces, sufs)
    &&& !spec_vendor_path_hit(replaces, m.val_of(k))
}

/// Collects vendor modules from the real filesystem: each template is turned
/// into a glob, matching regular files are collected, and every name that
/// enters the map is a normalization fixpoint that no rule redirects (by
/// name or by its file's path). Collection fails exactly when some
/// template's expanded glob pattern cannot be enumerated, naming the pattern.
pub fn collect_vendor_modules(
    specs: &Vec<VendorSpec>,
    replaces: &Vec<ReplaceRule>,
    normalizer: &NameNormalizer,
) -> (r: Result<(NameMap, NameSet), RuleError>)
    ensures
        match r {
            Ok(md) => {
                &&& md.0.wf()
                &&& md.1.wf()
                &&& forall|k: Seq<char>| #[trigger]
                    md.0.has_key(k) ==> vendor_key_ok(md.0, k, replaces@, normalizer@)
                &&& forall|d: Seq<char>| #[trigger] md.1.has(d) ==> md.0.has_key(d)
                &&& forall|a: int, b: int|
                    0 <= a < specs@.len() && 0 <= b < (#[trigger] specs@[a]).paths@.len()
                        ==> glob_enumerable(
                        spec_template_glob((#[trigger] specs@[a].paths@[b])@),
                    )
            },
            Err(e) => exists|a: int, b: int|
                {
                    &&& 0 <= a < specs@.len()
                    &&& 0 <= b < (#[trigger] specs@[a]).paths@.len()
                    &&& !glob_enumerable(spec_template_glob((#[trigger] specs@[a].paths@[b])@))
                    &&& e.message@ == "bad glob pattern: "@ + spec_template_glob(
                        specs@[a].paths@[b]@,
                    )
                },
        },
{
    let mut out = NameMap::new();
    let mut dups = NameSet::new();
    let ns = specs.len();
    let mut si: usize = 0;
    while si < ns
        invariant
            si <= ns,
            ns == specs@.len(),
            out.wf(),
            dups.wf(),
            forall|k: Seq<char>| #[trigger]
                out.has_key(k) ==> vendor_key_ok(out, k, replaces@, normalizer@),
            forall|d: Seq<char>| #[trigger] dups.has(d) ==> out.has_key(d),
            forall|a: int, b: int|
                0 <= a < si && 0 <= b < (#[trigger] specs@[a]).paths@.len() ==> glob_enumerable(
                    spec_template_glob((#[trigger] specs@[a].paths@[b])@),
                ),
        decreases ns - si,
    {
        let v = &specs[si];
        let np = v.paths.len();
        let mut pi: usize = 0;
        while pi < np
            invariant
                pi <= np,
                si < ns,
                ns == specs@.len(),
                np == specs@[si as int].paths@.len(),
                out.wf(),
                dups.wf(),
                forall|k: Seq<char>| #[trigger]
                    out.has_key(k) ==> vendor_key_ok(out, k, replaces@, normalizer@),
                forall|d: Seq<char>| #[trigger] dups.has(d) ==> out.has_key(d),
                forall|a: int, b: int|
                    0 <= a < si && 0 <= b < (#[trigger] specs@[a]).paths@.len() ==> glob_enumerable(
                        spec_template_glob((#[trigger] specs@[a].paths@[b])@),
                    ),
                forall|b: int|
                    0 <= b < pi ==> glob_enumerable(
                        spec_template_glob((#[trigger] specs@[si as int].paths@[b])@),
                    ),
            decreases np - pi,
        {
            let v2 = &specs[si];
            let (glob_pat, root, init_mode) = to_glob_and_root(v2.paths[pi].as_str());
            proof {
                assert(v2.paths@[pi as int]@ == specs@[si as int].paths@[pi as int]@);
            }
            let listed = match glob_paths(glob_pat.as_str()) {
                Some(l) => l,
                None => {
                    let mut m = String::new();
                    m.append("bad glob pattern: ");
                    m.append(glob_pat.as_str());
                    proof {
                        assert(!glob_enumerable(
                            spec_template_glob(specs@[si as int].paths@[pi as int]@),
                        ));
                        assert(m@ == "bad glob pattern: "@ + spec_template_glob(
                            specs@[si as int].paths@[pi as int]@,
                        ));
                    }
                    return Err(RuleError { message: m });
                },
            };
            let mut files: Vec<String> = Vec::new();
            let nl = listed.len();
            let mut li: usize = 0;
            while li < nl
                invariant
                    li <= nl,
                    nl == listed@.len(),
                decreases nl - li,
            {
                if path_is_file(listed[li].as_str()) {
                    files.push(listed[li].clone());
                }
                li += 1;
            }
            let ghost out0 = out;
            let ghost dups0 = dups;
            vendor_add_listing(
                &mut out,
                &mut dups,
                &files,
                root.as_str(),
                init_mode,
                v2,
                replaces,
                normalizer,
            );
            proof {
                assert forall|k: Seq<char>| #[trigger]
                    out.has_key(k) implies vendor_key_ok(out, k, replaces@, normalizer@) by {
                    if out0.has_key(k) {
                        assert(out.val_of(k) == out0.val_of(k));
                    } else {
                        let j = choose|j: int|
                            0 <= j < files.deep_view().len() && spec_vendor_admit(
                                #[trigger] files.deep_view()[j],
                                root@,
                                init_mode,
                                *v2,
                                replaces@,
                                normalizer@,
                            ) == Some(k) && out.val_of(k) == files.deep_view()[j];
                        let file = files.deep_view()[j];
                        let rel = file.skip(root@.len() as int);
                        let raw = if init_mode {
                            strip_all_suffix(strip_all_suffix(rel, "/init.lua"@), "\\init.lua"@)
                        } else {
                            strip_all_suffix(rel, ".lua"@)
                        };
                        lemma_normalize_idempotent(normalizer@, seps_to_dots(raw));
                    }
                }
                assert forall|d: Seq<char>| #[trigger] dups.has(d) implies out.has_key(d) by {
                    if dups0.has(d) {
                        assert(out0.has_key(d));
                    }
                }
            }
            pi += 1;
        }
        si += 1;
    }
    Ok((out, dups))
}

} // verus!