//! Source rewriting: every reference site found by the scanner is evaluated
//! against the redirect rules in order, and matched sites have their callee
//! identifier and string argument replaced in place. All other text,
//! including the formatting between callee and argument, is kept
//! character-for-character — the callee's leading formatting included, which
//! deliberately keeps more than the bare minimum a rewriter must.

use vstd::prelude::*;

use crate::lex::QuoteV;
use crate::options::{spec_normalize, NameNormalizer};
use crate::replace::{ArgMode, MatchKind, ReplaceRule};
use crate::resolve::{spec_resolve, FileListing, ModuleResolver};
use crate::scan::{site_v, site_wf, sites_sep, spec_sites, x_scan_sites, Site, SiteV};
use crate::shims::{glob_match, glob_matches, glob_pattern_ok};
use crate::text::{
    contains_seq, replace_all, starts_with, str_contains, str_replace_all, str_starts_with,
};

verus! {

/// Path separators normalized: every backslash becomes a forward slash.
pub open spec fn norm_seps(p: Seq<char>) -> Seq<char> {
    replace_all(p, "\\"@, "/"@)
}

/// A pattern hits a text when it compiles as a glob and matches, or, failing
/// to compile, when it occurs in the text as a plain substring.
pub open spec fn spec_glob_or_substr(pat: Seq<char>, text: Seq<char>) -> bool {
    if glob_pattern_ok(pat) {
        glob_matches(pat, text)
    } else {
        contains_seq(text, pat)
    }
}

pub(crate) fn glob_or_substr(pat: &str, text: &str) -> (r: bool)
    ensures
        r == spec_glob_or_substr(pat@, text@),
{
    match glob_match(pat, text) {
        Some(b) => b,
        None => str_contains(text, pat),
    }
}

/// File scoping of an `Exact`/`Prefix` rule: no patterns means the rule is
/// unconditional; otherwise some pattern must hit the (separator-normalized)
/// path of the file being rewritten.
pub open spec fn spec_rule_applies_to_file(r: ReplaceRule, file: Seq<char>) -> bool {
    r.paths@.len() == 0 || exists|k: int|
        0 <= k < r.paths@.len() && spec_glob_or_substr(
            (#[trigger] r.paths@[k])@,
            norm_seps(file),
        )
}

fn rule_applies_to_file(r: &ReplaceRule, file: &str) -> (res: bool)
    ensures
        res == spec_rule_applies_to_file(*r, file@),
{
    let n = r.paths.len();
    if n == 0 {
        return true;
    }
    let nf = str_replace_all(file, "\\", "/");
    let mut k: usize = 0;
    while k < n
        invariant
            k <= n,
            n == r.paths@.len(),
            nf@ == norm_seps(file@),
            forall|j: int|
                0 <= j < k ==> !spec_glob_or_substr((#[trigger] r.paths@[j])@, norm_seps(file@)),
        decreases n - k,
    {
        if glob_or_substr(r.paths[k].as_str(), nf.as_str()) {
            return true;
        }
        k += 1;
    }
    false
}

/// The templates a resolver offers, when one is present.
pub open spec fn templates_of(r: Option<&ModuleResolver>) -> Option<Seq<Seq<char>>> {
    match r {
        Some(m) => Some(m@),
        None => None,
    }
}

/// What one rule does to a module reference: `Exact` redirects the exact
/// normalized name, `Prefix` a name starting with the prefix (passing the
/// rest or the full name as configured), and `Path` a name whose resolved
/// file path hits one of the rule's patterns (always passing the full name).
pub open spec fn spec_apply_replace(
    module: Seq<char>,
    r: ReplaceRule,
    rtempl: Option<Seq<Seq<char>>>,
    files: Seq<Seq<char>>,
    sufs: Seq<Seq<char>>,
) -> Option<(Seq<char>, Seq<char>)> {
    let module_n = spec_normalize(sufs, module);
    match r.match_kind {
        MatchKind::Exact => {
            match r.name {
                Some(nm) => if nm@ == module_n {
                    Some((r.new@, module_n))
                } else {
                    None
                },
                None => None,
            }
        },
        MatchKind::Prefix => {
            match r.prefix {
                Some(p) => if starts_with(module_n, p@) {
                    Some(
                        (
                            r.new@,
                            if r.arg == ArgMode::Rest {
                                module_n.skip(p@.len() as int)
                            } else {
                                module_n
                            },
                        ),
                    )
                } else {
                    None
                },
                None => None,
            }
        },
        MatchKind::Path => {
            match rtempl {
                None => None,
                Some(ts) => {
                    match spec_resolve(ts, module_n, files) {
                        None => None,
                        Some(path) => {
                            if exists|k: int|
                                0 <= k < r.paths@.len() && spec_glob_or_substr(
                                    (#[trigger] r.paths@[k])@,
                                    norm_seps(path),
                                ) {
                                Some((r.new@, module_n))
                            } else {
                                None
                            }
                        },
                    }
                },
            }
        },
    }
}

fn apply_replace(
    module: &str,
    r: &ReplaceRule,
    resolver: Option<&ModuleResolver>,
    files: &FileListing,
    normalizer: &NameNormalizer,
) -> (res: Option<(String, String)>)
    ensures
        match res {
            Some(p) => spec_apply_replace(module@, *r, templates_of(resolver), files@, normalizer@)
                == Some((p.0@, p.1@)),
            None => spec_apply_replace(module@, *r, templates_of(resolver), files@, normalizer@)
                is None,
        },
{
    let module_n = normalizer.normalize(module);
    match r.match_kind {
        MatchKind::Exact => {
            match &r.name {
                Some(nm) => {
                    if crate::text::str_eq(nm.as_str(), module_n.as_str()) {
                        Some((r.new.clone(), module_n))
                    } else {
                        None
                    }
                },
                None => None,
            }
        },
        MatchKind::Prefix => {
            match &r.prefix {
                Some(p) => {
                    if str_starts_with(module_n.as_str(), p.as_str()) {
                        let arg = match r.arg {
                            ArgMode::Rest => {
                                let pl = p.as_str().unicode_len();
                                let ml = module_n.as_str().unicode_len();
                                module_n.as_str().substring_char(pl, ml).to_owned()
                            },
                            ArgMode::Full => module_n.clone(),
                        };
                        proof {
                            if r.arg == ArgMode::Rest {
                                assert(arg@ =~= module_n@.skip(r.prefix->0@.len() as int));
                            }
                        }
                        Some((r.new.clone(), arg))
                    } else {
                        None
                    }
                },
                None => None,
            }
        },
        MatchKind::Path => {
            match resolver {
                None => None,
                Some(res) => {
                    match res.resolve(module_n.as_str(), files) {
                        None => None,
                        Some(path) => {
                            let np = str_replace_all(path.as_str(), "\\", "/");
                            let n = r.paths.len();
                            let mut k: usize = 0;
                            while k < n
                                invariant
                                    k <= n,
                                    n == r.paths@.len(),
                                    r.match_kind == MatchKind::Path,
                                    module_n@ == spec_normalize(normalizer@, module@),
                                    np@ == norm_seps(path@),
                                    templates_of(resolver) is Some,
                                    spec_resolve(templates_of(resolver)->0, module_n@, files@)
                                        == Some(path@),
                                    forall|j: int|
                                        0 <= j < k ==> !spec_glob_or_substr(
                                            (#[trigger] r.paths@[j])@,
                                            norm_seps(path@),
                                        ),
                                decreases n - k,
                            {
                                if glob_or_substr(r.paths[k].as_str(), np.as_str()) {
                                    proof {
                                        assert(spec_glob_or_substr(
                                            (r.paths@[k as int])@,
                                            norm_seps(path@),
                                        ));
                                    }
                                    return Some((r.new.clone(), module_n));
                                }
                                k += 1;
                            }
                            None
                        },
                    }
                },
            }
        },
    }
}

/// The first rule, in order, that fires for this module in this file.
pub open spec fn spec_first_rewrite(
    module: Seq<char>,
    rules: Seq<ReplaceRule>,
    file: Option<Seq<char>>,
    rtempl: Option<Seq<Seq<char>>>,
    files: Seq<Seq<char>>,
    sufs: Seq<Seq<char>>,
) -> Option<(Seq<char>, Seq<char>)>
    decreases rules.len(),
{
    if rules.len() == 0 {
        None
    } else {
        let r = rules[0];
        let scoped_ok = r.match_kind == MatchKind::Path || (match file {
            None => true,
            Some(f) => spec_rule_applies_to_file(r, f),
        });
        if scoped_ok && spec_apply_replace(module, r, rtempl, files, sufs) is Some {
            spec_apply_replace(module, r, rtempl, files, sufs)
        } else {
            spec_first_rewrite(module, rules.skip(1), file, rtempl, files, sufs)
        }
    }
}

pub open spec fn opt_view(file: Option<&str>) -> Option<Seq<char>> {
    match file {
        Some(f) => Some(f@),
        None => None,
    }
}

fn first_rewrite(
    module: &str,
    rules: &Vec<ReplaceRule>,
    file: Option<&str>,
    resolver: Option<&ModuleResolver>,
    files: &FileListing,
    normalizer: &NameNormalizer,
) -> (res: Option<(String, String)>)
    ensures
        match res {
            Some(p) => spec_first_rewrite(
                module@,
                rules@,
                opt_view(file),
                templates_of(resolver),
                files@,
                normalizer@,
            ) == Some((p.0@, p.1@)),
            None => spec_first_rewrite(
                module@,
                rules@,
                opt_view(file),
                templates_of(resolver),
                files@,
                normalizer@,
            ) is None,
        },
{
    let n = rules.len();
    let mut i: usize = 0;
    proof {
        assert(rules@.skip(0) =~= rules@);
    }
    while i < n
        invariant
            i <= n,
            n == rules@.len(),
            spec_first_rewrite(
                module@,
                rules@,
                opt_view(file),
                templates_of(resolver),
                files@,
                normalizer@,
            ) == spec_first_rewrite(
                module@,
                rules@.skip(i as int),
                opt_view(file),
                templates_of(resolver),
                files@,
                normalizer@,
            ),
        decreases n - i,
    {
        let r = &rules[i];
        proof {
            assert(rules@.skip(i as int)[0] == rules@[i as int]);
        }
        let scoped_ok = if r.match_kind == MatchKind::Path {
            true
        } else {
            match file {
                None => true,
                Some(f) => rule_applies_to_file(r, f),
            }
        };
        if scoped_ok {
            match apply_replace(module, r, resolver, files, normalizer) {
                Some(p) => {
                    return Some(p);
                },
                None => {},
            }
        }
        i += 1;
        proof {
            assert(rules@.skip(i - 1).skip(1) =~= rules@.skip(i as int));
        }
    }
    None
}

/// The `=` run of a long bracket of the given level.
pub open spec fn eq_seq(level: int) -> Seq<char> {
    Seq::new(if level >= 0 {
        level as nat
    } else {
        0
    }, |i: int| '=')
}

pub open spec fn quote_open(q: QuoteV) -> Seq<char> {
    match q {
        QuoteV::Single => seq!['\''],
        QuoteV::Double => seq!['"'],
        QuoteV::Long(l) => seq!['['] + eq_seq(l) + seq!['['],
    }
}

pub open spec fn quote_close(q: QuoteV) -> Seq<char> {
    match q {
        QuoteV::Single => seq!['\''],
        QuoteV::Double => seq!['"'],
        QuoteV::Long(l) => seq![']'] + eq_seq(l) + seq![']'],
    }
}

/// The sites that some rule rewrites, each with its replacement callee and
/// argument, in source order.
pub open spec fn spec_rewrites(
    code: Seq<char>,
    sites: Seq<SiteV>,
    rules: Seq<ReplaceRule>,
    file: Option<Seq<char>>,
    rtempl: Option<Seq<Seq<char>>>,
    files: Seq<Seq<char>>,
    sufs: Seq<Seq<char>>,
) -> Seq<(SiteV, (Seq<char>, Seq<char>))>
    decreases sites.len(),
{
    if sites.len() == 0 {
        Seq::empty()
    } else {
        let rest = spec_rewrites(code, sites.skip(1), rules, file, rtempl, files, sufs);
        let content = code.subrange(sites[0].content_start, sites[0].content_end);
        match spec_first_rewrite(content, rules, file, rtempl, files, sufs) {
            None => rest,
            Some(rp) => seq![(sites[0], rp)] + rest,
        }
    }
}

/// The text with each listed site's callee and argument replaced and all
/// text between and around the sites kept unchanged.
pub open spec fn splice(
    code: Seq<char>,
    items: Seq<(SiteV, (Seq<char>, Seq<char>))>,
    cursor: int,
) -> Seq<char>
    decreases items.len(),
{
    if items.len() == 0 {
        code.skip(cursor)
    } else {
        let s = items[0].0;
        let rp = items[0].1;
        code.subrange(cursor, s.callee_start) + rp.0 + code.subrange(s.callee_end, s.str_start)
            + quote_open(s.quote) + rp.1 + quote_close(s.quote) + splice(
            code,
            items.skip(1),
            s.str_end,
        )
    }
}

/// Sites later in the list start no earlier than `str_end` of any earlier one.
pub proof fn lemma_sites_chain(sites: Seq<SiteV>, n: int, a: int, b: int)
    requires
        sites_sep(sites, n),
        0 <= a < b < sites.len(),
    ensures
        sites[a].str_end <= sites[b].callee_start,
    decreases b - a,
{
    if a + 1 == b {
    } else {
        lemma_sites_chain(sites, n, a, b - 1);
        assert(site_wf(sites[b - 1], n));
    }
}

fn x_eq_string(level: usize) -> (r: String)
    ensures
        r@ == eq_seq(level as int),
{
    let mut out = String::new();
    let mut k: usize = 0;
    proof {
        reveal_strlit("=");
        assert(out@ =~= eq_seq(0));
    }
    while k < level
        invariant
            k <= level,
            out@ == eq_seq(k as int),
        decreases level - k,
    {
        out.append("=");
        k += 1;
        proof {
            reveal_strlit("=");
            assert(("="@).len() == 1);
            assert(("="@)[0] == '=');
            assert(out@ =~= eq_seq(k as int));
        }
    }
    out
}

/// The argument string re-quoted in the original style.
fn x_quoted(arg: &str, q: crate::lex::QuoteKind) -> (r: String)
    ensures
        r@ == quote_open(crate::lex::quote_v(q)) + arg@ + quote_close(crate::lex::quote_v(q)),
{
    let mut out = String::new();
    match q {
        crate::lex::QuoteKind::Single => {
            out.append("'");
            out.append(arg);
            out.append("'");
            proof {
                reveal_strlit("'");
                assert(out@ =~= quote_open(QuoteV::Single) + arg@ + quote_close(QuoteV::Single));
            }
        },
        crate::lex::QuoteKind::Double => {
            out.append("\"");
            out.append(arg);
            out.append("\"");
            proof {
                reveal_strlit("\"");
                assert(out@ =~= quote_open(QuoteV::Double) + arg@ + quote_close(QuoteV::Double));
            }
        },
        crate::lex::QuoteKind::Long { level } => {
            let eqs = x_eq_string(level);
            out.append("[");
            out.append(eqs.as_str());
            out.append("[");
            out.append(arg);
            out.append("]");
            out.append(eqs.as_str());
            out.append("]");
            proof {
                reveal_strlit("[");
                reveal_strlit("]");
                assert(out@ =~= quote_open(QuoteV::Long(level as int)) + arg@ + quote_close(
                    QuoteV::Long(level as int),
                ));
            }
        },
    }
    out
}

/// The rewritten text and rewrite count of one source unit: unchanged when
/// there are no rules or the unit cannot be scanned.
pub open spec fn spec_transform(
    code: Seq<char>,
    rules: Seq<ReplaceRule>,
    file: Option<Seq<char>>,
    rtempl: Option<Seq<Seq<char>>>,
    fl: Seq<Seq<char>>,
    sufs: Seq<Seq<char>>,
) -> (Seq<char>, int) {
    if rules.len() == 0 {
        (code, 0int)
    } else {
        match spec_sites(code) {
            None => (code, 0int),
            Some(sites) => {
                let items = spec_rewrites(code, sites, rules, file, rtempl, fl, sufs);
                (splice(code, items, 0), items.len() as int)
            },
        }
    }
}

/// Appends one rewritten site to the output: the text from `cursor` up to
/// the callee, the new callee, the text between callee and argument, and the
/// re-quoted new argument.
fn emit_rewrite(
    out: &mut String,
    code: &str,
    cursor: usize,
    s: &Site,
    new_callee: &str,
    new_arg: &str,
)
    requires
        cursor <= s.callee_start,
        site_wf(site_v(*s), code@.len() as int),
    ensures
        final(out)@ == old(out)@ + (code@.subrange(cursor as int, s.callee_start as int)
            + new_callee@ + code@.subrange(s.callee_end as int, s.str_start as int) + quote_open(
            site_v(*s).quote,
        ) + new_arg@ + quote_close(site_v(*s).quote)),
{
    out.append(code.substring_char(cursor, s.callee_start));
    out.append(new_callee);
    out.append(code.substring_char(s.callee_end, s.str_start));
    let quoted = x_quoted(new_arg, s.quote);
    out.append(quoted.as_str());
}

/// Rewrites every matched reference of `code` under `rules` and returns the
/// new text with the number of rewrites. Text that cannot be scanned, and
/// any run without rules, comes back unchanged.
#[verifier::rlimit(100)]
pub fn transform_requires(
    code: &str,
    rules: &Vec<ReplaceRule>,
    file_path: Option<&str>,
    resolver: Option<&ModuleResolver>,
    files: &FileListing,
    normalizer: &NameNormalizer,
) -> (r: (String, usize))
    ensures
        r.0@ == spec_transform(
            code@,
            rules@,
            opt_view(file_path),
            templates_of(resolver),
            files@,
            normalizer@,
        ).0,
        r.1 as int == spec_transform(
            code@,
            rules@,
            opt_view(file_path),
            templates_of(resolver),
            files@,
            normalizer@,
        ).1,
{
    if rules.len() == 0 {
        return (code.to_owned(), 0);
    }
    let sites = match x_scan_sites(code) {
        None => {
            return (code.to_owned(), 0);
        },
        Some(s) => s,
    };
    let ghost sitesv = sites@.map_values(|s: Site| site_v(s));
    let ghost filev = opt_view(file_path);
    let ghost rtempl = templates_of(resolver);
    let n = code.unicode_len();
    let count = sites.len();
    let mut out = String::new();
    let mut rewrites: usize = 0;
    let mut cursor: usize = 0;
    let mut k: usize = 0;
    proof {
        assert(sitesv.skip(0) =~= sitesv);
        assert(splice(code@, spec_rewrites(code@, sitesv, rules@, filev, rtempl, files@, normalizer@), 0)
            =~= out@ + splice(
            code@,
            spec_rewrites(code@, sitesv.skip(0), rules@, filev, rtempl, files@, normalizer@),
            0,
        ));
    }
    while k < count
        invariant
            k <= count,
            count == sites@.len(),
            n == code@.len(),
            sitesv == sites@.map_values(|s: Site| site_v(s)),
            filev == opt_view(file_path),
            rtempl == templates_of(resolver),
            sites_sep(sitesv, n as int),
            spec_sites(code@) == Some(sitesv),
            rules@.len() > 0,
            cursor <= n,
            forall|j: int| k <= j < sitesv.len() ==> cursor <= (#[trigger] sitesv[j]).callee_start,
            rewrites <= k,
            rewrites as int == spec_rewrites(
                code@,
                sitesv,
                rules@,
                filev,
                rtempl,
                files@,
                normalizer@,
            ).len() - spec_rewrites(
                code@,
                sitesv.skip(k as int),
                rules@,
                filev,
                rtempl,
                files@,
                normalizer@,
            ).len(),
            splice(
                code@,
                spec_rewrites(code@, sitesv, rules@, filev, rtempl, files@, normalizer@),
                0,
            ) == out@ + splice(
                code@,
                spec_rewrites(code@, sitesv.skip(k as int), rules@, filev, rtempl, files@, normalizer@),
                cursor as int,
            ),
        decreases count - k,
    {
        let ghost rest_sites = sitesv.skip(k as int);
        let ghost rest_items = spec_rewrites(
            code@,
            rest_sites,
            rules@,
            filev,
            rtempl,
            files@,
            normalizer@,
        );
        let s = sites[k];
        proof {
            assert(rest_sites[0] == sitesv[k as int]);
            assert(site_wf(sitesv[k as int], n as int));
            assert(rest_sites.skip(1) =~= sitesv.skip(k as int + 1));
        }
        let module = code.substring_char(s.content_start, s.content_end);
        proof {
            assert(module@ == code@.subrange(
                sitesv[k as int].content_start,
                sitesv[k as int].content_end,
            ));
        }
        let ghost cur0 = cursor as int;
        let ghost out0 = out@;
        let ghost after = spec_rewrites(
            code@,
            sitesv.skip(k as int + 1),
            rules@,
            filev,
            rtempl,
            files@,
            normalizer@,
        );
        match first_rewrite(module, rules, file_path, resolver, files, normalizer) {
            Some((new_callee, new_arg)) => {
                proof {
                    assert(rest_items =~= seq![(sitesv[k as int], (new_callee@, new_arg@))]
                        + after);
                    assert(rest_items[0] == (sitesv[k as int], (new_callee@, new_arg@)));
                    assert(rest_items.skip(1) =~= after);
                }
                emit_rewrite(&mut out, code, cursor, &s, new_callee.as_str(), new_arg.as_str());
                cursor = s.str_end;
                rewrites += 1;
                proof {
                    let sv = sitesv[k as int];
                    assert(splice(code@, rest_items, cur0) == code@.subrange(cur0, sv.callee_start)
                        + new_callee@ + code@.subrange(sv.callee_end, sv.str_start) + quote_open(
                        sv.quote,
                    ) + new_arg@ + quote_close(sv.quote) + splice(code@, after, sv.str_end));
                    assert(out@ =~= out0 + (code@.subrange(cur0, sv.callee_start) + new_callee@
                        + code@.subrange(sv.callee_end, sv.str_start) + quote_open(sv.quote)
                        + new_arg@ + quote_close(sv.quote)));
                    assert(out0 + splice(code@, rest_items, cur0) =~= out@ + splice(
                        code@,
                        after,
                        cursor as int,
                    ));
                }
            },
            None => {
                proof {
                    assert(rest_items =~= after);
                }
            },
        }
        k += 1;
        proof {
            if k < count {
                lemma_sites_chain_all(sitesv, n as int, k as int);
            }
        }
    }
    proof {
        assert(sitesv.skip(count as int) =~= Seq::<SiteV>::empty());
        assert(splice(code@, Seq::empty(), cursor as int) == code@.skip(cursor as int));
    }
    let tail = code.substring_char(cursor, n);
    out.append(tail);
    proof {
        assert(out@ =~= splice(
            code@,
            spec_rewrites(code@, sitesv, rules@, filev, rtempl, files@, normalizer@),
            0,
        ));
    }
    (out, rewrites)
}

pub proof fn lemma_sites_chain_all(sites: Seq<SiteV>, n: int, k: int)
    requires
        sites_sep(sites, n),
        0 < k <= sites.len(),
    ensures
        forall|j: int| k <= j < sites.len() ==> sites[k - 1].str_end <= (#[trigger] sites[j]).callee_start,
{
    assert forall|j: int| k <= j < sites.len() implies sites[k - 1].str_end <= (
    #[trigger] sites[j]).callee_start by {
        lemma_sites_chain(sites, n, k - 1, j);
    }
}



/// A call with anything beyond one string literal in its argument list is
/// not a reference site: this fixed call with an extra argument survives
/// every rule set, file scope and resolver unchanged.
pub proof fn lemma_extra_argument_never_rewritten(
    rules: Seq<ReplaceRule>,
    file: Option<Seq<char>>,
    rtempl: Option<Seq<Seq<char>>>,
    fl: Seq<Seq<char>>,
    sufs: Seq<Seq<char>>,
)
    ensures
        spec_transform("require('bar.z', 123)"@, rules, file, rtempl, fl, sufs).0 == "require('bar.z', 123)"@,
        spec_transform("require('bar.z', 123)"@, rules, file, rtempl, fl, sufs).1 == 0,
{
    reveal_strlit("require('bar.z', 123)");
    let code = "require('bar.z', 123)"@;
    assert(code.len() == 21);
    lemma_fixed_call_has_no_sites(code);
    if rules.len() > 0 {
        assert(spec_rewrites(code, Seq::empty(), rules, file, rtempl, fl, sufs)
            =~= Seq::<(SiteV, (Seq<char>, Seq<char>))>::empty());
        assert(splice(code, Seq::empty(), 0) =~= code.skip(0));
        assert(code.skip(0) =~= code);
    }
}

/// The scanner finds no reference site in the fixed two-argument call.
proof fn lemma_fixed_call_has_no_sites(code: Seq<char>)
    requires
        code == "require('bar.z', 123)"@,
    ensures
        spec_sites(code) == Some(Seq::<SiteV>::empty()),
{
    reveal_strlit("require('bar.z', 123)");
    reveal_strlit("require");
    reveal_strlit("local");
    reveal_strlit("function");
    reveal_strlit("do");
    reveal_strlit("repeat");
    reveal_strlit("end");
    reveal_strlit("until");
    reveal_strlit("else");
    reveal_strlit("elseif");
    reveal_strlit("th");
    reveal_strlit("en");
    reveal_with_fuel(crate::lex::ident_end, 9);
    reveal_with_fuel(crate::lex::num_end, 5);
    reveal_with_fuel(crate::lex::short_str_end, 8);
    reveal_with_fuel(crate::lex::next_tok, 3);
    let t0 = crate::lex::TokV { kind: crate::lex::TokKindV::Ident, start: 0, end: 7 };
    let t1 = crate::lex::TokV { kind: crate::lex::TokKindV::Sym, start: 7, end: 8 };
    let t2 = crate::lex::TokV {
        kind: crate::lex::TokKindV::Str { cs: 9, ce: 14, q: crate::lex::QuoteV::Single },
        start: 8,
        end: 15,
    };
    let t3 = crate::lex::TokV { kind: crate::lex::TokKindV::Sym, start: 15, end: 16 };
    let t4 = crate::lex::TokV { kind: crate::lex::TokKindV::Num, start: 17, end: 20 };
    let t5 = crate::lex::TokV { kind: crate::lex::TokKindV::Sym, start: 20, end: 21 };
    assert(crate::lex::ident_end(code, 1) == 7);
    assert(crate::lex::short_str_end(code, 9, '\'') == Some(15int));
    assert(crate::lex::num_end(code, 18) == 20);
    assert(crate::lex::next_tok(code, 0) == crate::lex::LexV::Found(t0));
    assert(crate::lex::next_tok(code, 7) == crate::lex::LexV::Found(t1));
    assert(crate::lex::next_tok(code, 8) == crate::lex::LexV::Found(t2));
    assert(crate::lex::next_tok(code, 15) == crate::lex::LexV::Found(t3));
    assert(crate::lex::next_tok(code, 16) == crate::lex::LexV::Found(t4));
    assert(crate::lex::next_tok(code, 20) == crate::lex::LexV::Found(t5));
    assert(crate::lex::next_tok(code, 21) == crate::lex::LexV::Done);

    let st0 = crate::scan::init_st();
    assert(!crate::scan::in_scope(st0.stack, "require"@)) by {
        assert(st0.stack.len() == 1);
        assert(st0.stack[0] =~~= Seq::<Seq<char>>::empty());
        assert(forall|f: int| 0 <= f < 1 ==> !st0.stack[f].contains("require"@));
    }
    assert(crate::scan::tok_text(code, t0) =~= "require"@);
    let st1 = crate::scan::ScanStV {
        mode: crate::scan::ModeV::ReqCallee { cs: 0, ce: 7 },
        ..st0
    };
    assert(crate::scan::scan_step(st0, t0, code).0 =~= st1);
    assert(crate::scan::scan_step(st0, t0, code).1 is None);
    let st2 = crate::scan::ScanStV {
        mode: crate::scan::ModeV::ReqParen { cs: 0, ce: 7 },
        ..st0
    };
    assert(code[7] == '(');
    assert(crate::scan::scan_step(st1, t1, code).0 =~= st2);
    assert(crate::scan::scan_step(st1, t1, code).1 is None);
    let st3 = crate::scan::ScanStV {
        mode: crate::scan::ModeV::ReqStr {
            cs: 0,
            ce: 7,
            ss: 8,
            se: 15,
            acs: 9,
            ace: 14,
            q: crate::lex::QuoteV::Single,
        },
        ..st0
    };
    assert(crate::scan::scan_step(st2, t2, code).0 =~= st3);
    assert(crate::scan::scan_step(st2, t2, code).1 is None);
    let st4 = crate::scan::ScanStV { mode: crate::scan::ModeV::Normal, ..st0 };
    assert(code[15] == ',');
    assert(crate::scan::scan_step(st3, t3, code).0 =~= st4);
    assert(crate::scan::scan_step(st3, t3, code).1 is None);
    assert(crate::scan::scan_step(st4, t4, code).0 =~= st4);
    assert(crate::scan::scan_step(st4, t4, code).1 is None);
    assert(code[20] == ')');
    assert(crate::scan::scan_step(st4, t5, code).0 =~= st4);
    assert(crate::scan::scan_step(st4, t5, code).1 is None);

    assert(crate::scan::scan_from(code, 21, st4) == Some(Seq::<SiteV>::empty()));
    assert(crate::scan::scan_from(code, 20, st4) == Some(Seq::<SiteV>::empty()));
    assert(crate::scan::scan_from(code, 16, st4) == Some(Seq::<SiteV>::empty()));
    assert(crate::scan::scan_from(code, 15, st3) == Some(Seq::<SiteV>::empty()));
    assert(crate::scan::scan_from(code, 8, st2) == Some(Seq::<SiteV>::empty()));
    assert(crate::scan::scan_from(code, 7, st1) == Some(Seq::<SiteV>::empty()));
    assert(crate::scan::scan_from(code, 0, st0) == Some(Seq::<SiteV>::empty()));
}


/// A local binding of `require` shadows the loader: a call of `require`
/// after the declaration is not a reference site, so no rule set, file scope
/// or resolver ever rewrites this text.
pub proof fn lemma_shadowed_call_never_rewritten(
    rules: Seq<ReplaceRule>,
    file: Option<Seq<char>>,
    rtempl: Option<Seq<Seq<char>>>,
    fl: Seq<Seq<char>>,
    sufs: Seq<Seq<char>>,
)
    ensures
        spec_transform("local require = f\nrequire('x')"@, rules, file, rtempl, fl, sufs).0
            == "local require = f\nrequire('x')"@,
        spec_transform("local require = f\nrequire('x')"@, rules, file, rtempl, fl, sufs).1 == 0,
{
    reveal_strlit("local require = f\nrequire('x')");
    let code = "local require = f\nrequire('x')"@;
    assert(code.len() == 30);
    lemma_shadowed_call_has_no_sites(code);
    if rules.len() > 0 {
        assert(spec_rewrites(code, Seq::empty(), rules, file, rtempl, fl, sufs)
            =~= Seq::<(SiteV, (Seq<char>, Seq<char>))>::empty());
        assert(splice(code, Seq::empty(), 0) =~= code.skip(0));
        assert(code.skip(0) =~= code);
    }
}

/// The scanner finds no reference site after the shadowing declaration.
proof fn lemma_shadowed_call_has_no_sites(code: Seq<char>)
    requires
        code == "local require = f\nrequire('x')"@,
    ensures
        spec_sites(code) == Some(Seq::<SiteV>::empty()),
{
    reveal_strlit("local require = f\nrequire('x')");
    reveal_strlit("require");
    reveal_strlit("local");
    reveal_strlit("function");
    reveal_strlit("do");
    reveal_strlit("repeat");
    reveal_strlit("end");
    reveal_strlit("until");
    reveal_strlit("else");
    reveal_strlit("elseif");
    reveal_strlit("th");
    reveal_strlit("en");
    reveal_with_fuel(crate::lex::ident_end, 9);
    reveal_with_fuel(crate::lex::short_str_end, 4);
    reveal_with_fuel(crate::lex::next_tok, 3);
    let t0 = crate::lex::TokV { kind: crate::lex::TokKindV::Ident, start: 0, end: 5 };
    let t1 = crate::lex::TokV { kind: crate::lex::TokKindV::Ident, start: 6, end: 13 };
    let t2 = crate::lex::TokV { kind: crate::lex::TokKindV::Sym, start: 14, end: 15 };
    let t3 = crate::lex::TokV { kind: crate::lex::TokKindV::Ident, start: 16, end: 17 };
    let t4 = crate::lex::TokV { kind: crate::lex::TokKindV::Ident, start: 18, end: 25 };
    let t5 = crate::lex::TokV { kind: crate::lex::TokKindV::Sym, start: 25, end: 26 };
    let t6 = crate::lex::TokV {
        kind: crate::lex::TokKindV::Str { cs: 27, ce: 28, q: crate::lex::QuoteV::Single },
        start: 26,
        end: 29,
    };
    let t7 = crate::lex::TokV { kind: crate::lex::TokKindV::Sym, start: 29, end: 30 };
    assert(crate::lex::ident_end(code, 1) == 5);
    assert(crate::lex::ident_end(code, 7) == 13);
    assert(crate::lex::ident_end(code, 17) == 17);
    assert(crate::lex::ident_end(code, 19) == 25);
    assert(crate::lex::short_str_end(code, 27, '\'') == Some(29int));
    assert(crate::lex::next_tok(code, 0) == crate::lex::LexV::Found(t0));
    assert(crate::lex::next_tok(code, 5) == crate::lex::LexV::Found(t1));
    assert(crate::lex::next_tok(code, 13) == crate::lex::LexV::Found(t2));
    assert(crate::lex::next_tok(code, 15) == crate::lex::LexV::Found(t3));
    assert(crate::lex::next_tok(code, 17) == crate::lex::LexV::Found(t4));
    assert(crate::lex::next_tok(code, 25) == crate::lex::LexV::Found(t5));
    assert(crate::lex::next_tok(code, 26) == crate::lex::LexV::Found(t6));
    assert(crate::lex::next_tok(code, 29) == crate::lex::LexV::Found(t7));
    assert(crate::lex::next_tok(code, 30) == crate::lex::LexV::Done);

    let st0 = crate::scan::init_st();
    assert(crate::scan::tok_text(code, t0) =~= "local"@);
    assert(crate::scan::tok_text(code, t1) =~= "require"@);
    assert(crate::scan::tok_text(code, t4) =~= "require"@);
    let st1 = crate::scan::ScanStV { mode: crate::scan::ModeV::LocalKw, ..st0 };
    assert(crate::scan::scan_step(st0, t0, code).0 =~= st1);
    assert(crate::scan::scan_step(st0, t0, code).1 is None);
    let shadowed = crate::scan::declare(st0.stack, "require"@);
    let st2 = crate::scan::ScanStV {
        mode: crate::scan::ModeV::LocalName,
        stack: shadowed,
        prev_member: false,
    };
    assert(crate::scan::scan_step(st1, t1, code).0 =~= st2);
    assert(crate::scan::scan_step(st1, t1, code).1 is None);
    let st3 = crate::scan::ScanStV { mode: crate::scan::ModeV::Normal, ..st2 };
    assert(code[14] == '=');
    assert(crate::scan::scan_step(st2, t2, code).0 =~= st3);
    assert(crate::scan::scan_step(st2, t2, code).1 is None);
    assert(crate::scan::tok_text(code, t3).len() == 1);
    assert(crate::scan::tok_text(code, t3) != "require"@);
    assert(crate::scan::tok_text(code, t3) != "local"@);
    assert(crate::scan::tok_text(code, t3) != "function"@);
    assert(!crate::scan::kw_block_open(crate::scan::tok_text(code, t3)));
    assert(!crate::scan::kw_block_close(crate::scan::tok_text(code, t3)));
    assert(!crate::scan::kw_branch(crate::scan::tok_text(code, t3)));
    assert(crate::scan::m0_step(st3, t3, code) =~= st3);
    assert(crate::scan::scan_step(st3, t3, code).0 =~= st3);
    assert(crate::scan::scan_step(st3, t3, code).1 is None);
    assert(crate::scan::in_scope(shadowed, "require"@)) by {
        assert(shadowed.len() == 1);
        assert(shadowed[0][0] == "require"@);
        assert(shadowed[0].contains("require"@));
    }
    assert(crate::scan::scan_step(st3, t4, code).0 =~= st3);
    assert(crate::scan::scan_step(st3, t4, code).1 is None);
    assert(crate::scan::scan_step(st3, t5, code).0 =~= st3);
    assert(crate::scan::scan_step(st3, t5, code).1 is None);
    assert(crate::scan::scan_step(st3, t6, code).0 =~= st3);
    assert(crate::scan::scan_step(st3, t6, code).1 is None);
    assert(crate::scan::scan_step(st3, t7, code).0 =~= st3);
    assert(crate::scan::scan_step(st3, t7, code).1 is None);

    assert(crate::scan::scan_from(code, 30, st3) == Some(Seq::<SiteV>::empty()));
    assert(crate::scan::scan_from(code, 29, st3) == Some(Seq::<SiteV>::empty()));
    assert(crate::scan::scan_from(code, 26, st3) == Some(Seq::<SiteV>::empty()));
    assert(crate::scan::scan_from(code, 25, st3) == Some(Seq::<SiteV>::empty()));
    assert(crate::scan::scan_from(code, 17, st3) == Some(Seq::<SiteV>::empty()));
    assert(crate::scan::scan_from(code, 15, st3) == Some(Seq::<SiteV>::empty()));
    assert(crate::scan::scan_from(code, 13, st2) == Some(Seq::<SiteV>::empty()));
    assert(crate::scan::scan_from(code, 5, st1) == Some(Seq::<SiteV>::empty()));
    assert(crate::scan::scan_from(code, 0, st0) == Some(Seq::<SiteV>::empty()));
}

} // verus!
