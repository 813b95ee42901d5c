//! Bundle assembly: a loader preamble, the first-party modules in ascending
//! name order (rewritten under the active rules), the vendor modules in
//! ascending name order (verbatim, and skipped when a first-party module
//! already claims the name), a synthetic root module wrapping the entry
//! source, the prelude files in their given order, and an epilogue that
//! requests the entry module or the synthetic root.

use vstd::prelude::*;

use crate::namemap::NameMap;
use crate::options::NameNormalizer;
use crate::replace::ReplaceRule;
use crate::resolve::{FileListing, ModuleResolver};
use crate::shims::{hbs_render, hbs_rendered, hbs_renders};
use crate::text::{ends_with, replace_all, starts_with, str_replace_all, str_starts_with};
use crate::transform::{opt_view, spec_transform, templates_of, transform_requires};

verus! {

/// How bundled modules see `require`: `Router` hands them the internal
/// loader only; `Global` lets them delegate to a host loader first.
#[derive(Debug, Clone, Copy, PartialEq, Eq, Structural)]
pub enum BindRequire {
    Router,
    Global,
}

/// Everything the assembler reads: module and prelude sources come from the
/// `sources` table (path to text; a missing path reads as empty).
pub struct BundleCtx<'a> {
    pub preludes: &'a Vec<String>,
    pub entry: Option<&'a str>,
    pub replaces: &'a Vec<ReplaceRule>,
    pub vendor_mods: &'a NameMap,
    pub entry_source: &'a str,
    pub entry_path: &'a str,
    pub bind: BindRequire,
    pub resolver: Option<&'a ModuleResolver>,
    pub files: &'a FileListing,
    pub redact_base: Option<String>,
    pub normalizer: &'a NameNormalizer,
    pub sources: &'a NameMap,
}

pub open spec fn spec_lua_quote(s: Seq<char>) -> Seq<char> {
    seq!['\''] + replace_all(s, "'"@, "\\'"@) + seq!['\'']
}

/// Wraps a name in single quotes, escaping embedded single quotes.
pub fn lua_quote(s: &str) -> (r: String)
    ensures
        r@ == spec_lua_quote(s@),
{
    let mut out = String::new();
    out.append("'");
    let esc = str_replace_all(s, "'", "\\'");
    out.append(esc.as_str());
    out.append("'");
    proof {
        reveal_strlit("'");
        reveal_strlit("\\'");
        assert(out@ =~= spec_lua_quote(s@));
    }
    out
}

/// The loader preamble template; `version` and the binding switch `global`
/// are filled in by the template engine. A module that returned no value is
/// cached under a distinct private marker, so a later request returns no
/// value again without re-running the body and without confusing the marker
/// with any value a module could return.
fn header_template() -> (r: &'static str)
    ensures
        r@ == spec_header_template(),
{
    "-- luapack bundle v{{version}} auto-generated: DO NOT EDIT\nlocal __B_LOADED = {}\nlocal __B_MODULES = {}\nlocal __B_EMPTY = {}\nlocal __B_REQ_TO_PASS\n\nlocal function __B_REQUIRE(name)\n  local cached = __B_LOADED[name]\n  if cached ~= nil then\n    if cached == __B_EMPTY then\n      return nil\n    end\n    return cached\n  end\n  local loader = __B_MODULES[name]\n  if loader then\n    local res = loader(__B_REQ_TO_PASS)\n    if res == nil then\n      __B_LOADED[name] = __B_EMPTY\n    else\n      __B_LOADED[name] = res\n    end\n    return res\n  end\n  error('module not found: ' .. name)\nend\n\n{{#if global}}\n__B_REQ_TO_PASS = (function()\n  if require then\n    return function(name)\n      local ok, mod = pcall(require, name)\n      if ok then return mod end\n      return __B_REQUIRE(name)\n    end\n  else\n    return __B_REQUIRE\n  end\nend)()\n{{else}}\n__B_REQ_TO_PASS = __B_REQUIRE\n{{/if}}\n\n"
}

pub open spec fn spec_header_template() -> Seq<char> {
    "-- luapack bundle v{{version}} auto-generated: DO NOT EDIT\nlocal __B_LOADED = {}\nlocal __B_MODULES = {}\nlocal __B_EMPTY = {}\nlocal __B_REQ_TO_PASS\n\nlocal function __B_REQUIRE(name)\n  local cached = __B_LOADED[name]\n  if cached ~= nil then\n    if cached == __B_EMPTY then\n      return nil\n    end\n    return cached\n  end\n  local loader = __B_MODULES[name]\n  if loader then\n    local res = loader(__B_REQ_TO_PASS)\n    if res == nil then\n      __B_LOADED[name] = __B_EMPTY\n    else\n      __B_LOADED[name] = res\n    end\n    return res\n  end\n  error('module not found: ' .. name)\nend\n\n{{#if global}}\n__B_REQ_TO_PASS = (function()\n  if require then\n    return function(name)\n      local ok, mod = pcall(require, name)\n      if ok then return mod end\n      return __B_REQUIRE(name)\n    end\n  else\n    return __B_REQUIRE\n  end\nend)()\n{{else}}\n__B_REQ_TO_PASS = __B_REQUIRE\n{{/if}}\n\n"@
}

/// The header the assembler emits: the template rendered for the binding
/// mode, or the raw template itself in the case that the template engine
/// fails on it.
pub open spec fn spec_header(bind: BindRequire) -> Seq<char> {
    if hbs_renders(spec_header_template(), bind == BindRequire::Global, "0.1.0"@) {
        hbs_rendered(spec_header_template(), bind == BindRequire::Global, "0.1.0"@)
    } else {
        spec_header_template()
    }
}

fn render_header(bind: BindRequire) -> (r: String)
    ensures
        r@ == spec_header(bind),
{
    let tpl = header_template();
    match hbs_render(tpl, matches!(bind, BindRequire::Global), "0.1.0") {
        Some(s) => s,
        None => tpl.to_owned(),
    }
}

/// A path shown relative to the redaction base; `None` when there is no base
/// or the path does not lie under it.
pub open spec fn spec_redact(base: Option<Seq<char>>, path: Seq<char>) -> Option<Seq<char>> {
    match base {
        None => None,
        Some(b) => {
            if starts_with(path, b) && (path.len() == b.len() || path[b.len() as int] == '/' || (
            b.len() > 0 && b[b.len() - 1] == '/')) {
                let rest = path.skip(b.len() as int);
                if rest.len() > 0 && rest[0] == '/' {
                    Some(rest.skip(1))
                } else {
                    Some(rest)
                }
            } else {
                None
            }
        },
    }
}

fn redact(base: &Option<String>, path: &str) -> (r: Option<String>)
    ensures
        match r {
            Some(p) => spec_redact(opt_base(base), path@) == Some(p@),
            None => spec_redact(opt_base(base), path@) is None,
        },
{
    match base {
        None => None,
        Some(b) => {
            let bl = b.as_str().unicode_len();
            let pl = path.unicode_len();
            if str_starts_with(path, b.as_str()) && (pl == bl || path.get_char(bl) == '/' || (bl
                > 0 && b.as_str().get_char(bl - 1) == '/')) {
                let rest = path.substring_char(bl, pl);
                proof {
                    assert(rest@ =~= path@.skip(b@.len() as int));
                }
                if rest.unicode_len() > 0 && rest.get_char(0) == '/' {
                    let rl = rest.unicode_len();
                    let out = rest.substring_char(1, rl).to_owned();
                    proof {
                        assert(out@ =~= rest@.skip(1));
                    }
                    Some(out)
                } else {
                    Some(rest.to_owned())
                }
            } else {
                None
            }
        },
    }
}

pub open spec fn opt_base(base: &Option<String>) -> Option<Seq<char>> {
    match base {
        Some(b) => Some(b@),
        None => None,
    }
}

/// `t` closed with a newline when it does not already end in one.
pub open spec fn nl_fix(t: Seq<char>) -> Seq<char> {
    if ends_with(t, "\n"@) {
        t
    } else {
        t + "\n"@
    }
}

/// The provenance comment above a module entry.
pub open spec fn spec_comment(prefix: Seq<char>, name: Seq<char>, rel: Option<Seq<char>>) -> Seq<
    char,
> {
    match rel {
        Some(rp) => prefix + name + "  (from "@ + rp + ")"@ + "\n"@,
        None => prefix + name + "\n"@,
    }
}

/// One loader entry: comment, registration line, body (when the source is
/// known), closer.
pub open spec fn spec_wrap(
    prefix: Seq<char>,
    name: Seq<char>,
    path: Seq<char>,
    base: Option<Seq<char>>,
    body: Option<Seq<char>>,
) -> Seq<char> {
    spec_comment(prefix, name, spec_redact(base, path)) + "__B_MODULES["@ + spec_lua_quote(name)
        + "] = function(require)\n"@ + (match body {
        Some(b) => nl_fix(b),
        None => Seq::empty(),
    }) + "end\n\n"@
}

/// The first-party section from entry `i` on: entries in key order, each
/// body rewritten under the rules, with the total rewrite count.
pub open spec fn spec_fp_fold(
    m: NameMap,
    i: int,
    sources: NameMap,
    base: Option<Seq<char>>,
    rules: Seq<ReplaceRule>,
    rtempl: Option<Seq<Seq<char>>>,
    fl: Seq<Seq<char>>,
    sufs: Seq<Seq<char>>,
) -> (Seq<char>, int)
    decreases m.keys_v().len() - i,
        when 0 <= i <= m.keys_v().len()
{
    if i >= m.keys_v().len() {
        (Seq::empty(), 0int)
    } else {
        let name = m.keys_v()[i];
        let path = m.vals_v()[i];
        let body = if sources.has_key(path) {
            let t = spec_transform(sources.val_of(path), rules, Some(path), rtempl, fl, sufs);
            (Some(t.0), t.1)
        } else {
            (None::<Seq<char>>, 0int)
        };
        let rest = spec_fp_fold(m, i + 1, sources, base, rules, rtempl, fl, sufs);
        (spec_wrap("-- module: "@, name, path, base, body.0) + rest.0, body.1 + rest.1)
    }
}

/// The vendor section from entry `i` on: entries in key order, verbatim,
/// skipping names the first-party map claims.
pub open spec fn spec_vendor_fold(
    v: NameMap,
    fp: NameMap,
    i: int,
    sources: NameMap,
    base: Option<Seq<char>>,
) -> Seq<char>
    decreases v.keys_v().len() - i,
        when 0 <= i <= v.keys_v().len()
{
    if i >= v.keys_v().len() {
        Seq::empty()
    } else {
        let name = v.keys_v()[i];
        let path = v.vals_v()[i];
        let rest = spec_vendor_fold(v, fp, i + 1, sources, base);
        if fp.has_key(name) {
            rest
        } else {
            spec_wrap(
                "-- vendor module: "@,
                name,
                path,
                base,
                if sources.has_key(path) {
                    Some(sources.val_of(path))
                } else {
                    None
                },
            ) + rest
        }
    }
}

/// The synthetic root module wrapping the (rewritten) entry source, with its
/// rewrite count. The trailing-newline check looks at the original source.
pub open spec fn spec_root_text(
    entry_source: Seq<char>,
    entry_path: Seq<char>,
    rules: Seq<ReplaceRule>,
    rtempl: Option<Seq<Seq<char>>>,
    fl: Seq<Seq<char>>,
    sufs: Seq<Seq<char>>,
) -> (Seq<char>, int) {
    let t = spec_transform(entry_source, rules, Some(entry_path), rtempl, fl, sufs);
    (
        "-- root module: __root\n__B_MODULES['__root'] = function(require)\n"@ + t.0 + (if
        ends_with(entry_source, "\n"@) {
            Seq::<char>::empty()
        } else {
            "\n"@
        }) + "end\n\n"@,
        t.1,
    )
}

/// The prelude section: each readable prelude in the exact order given, as
/// top-level text with a provenance comment.
pub open spec fn spec_preludes(
    paths: Seq<Seq<char>>,
    i: int,
    sources: NameMap,
    base: Option<Seq<char>>,
) -> Seq<char>
    decreases paths.len() - i,
        when 0 <= i <= paths.len()
{
    if i >= paths.len() {
        Seq::empty()
    } else {
        (if sources.has_key(paths[i]) {
            (match spec_redact(base, paths[i]) {
                Some(rp) => "-- prelude: "@ + rp + "\n"@,
                None => "-- prelude\n"@,
            }) + nl_fix(sources.val_of(paths[i])) + "\n"@
        } else {
            Seq::<char>::empty()
        }) + spec_preludes(paths, i + 1, sources, base)
    }
}

/// The closing statement that requests the entry module, or the synthetic
/// root when no entry module is named.
pub open spec fn spec_epilogue(entry: Option<Seq<char>>) -> Seq<char> {
    "return __B_REQUIRE("@ + spec_lua_quote(
        match entry {
            Some(e) => e,
            None => "__root"@,
        },
    ) + ")\n"@
}

/// Everything after the loader header.
pub open spec fn spec_bundle_rest(
    fp: NameMap,
    vendor: NameMap,
    preludes: Seq<Seq<char>>,
    entry: Option<Seq<char>>,
    entry_source: Seq<char>,
    entry_path: Seq<char>,
    sources: NameMap,
    base: Option<Seq<char>>,
    rules: Seq<ReplaceRule>,
    rtempl: Option<Seq<Seq<char>>>,
    fl: Seq<Seq<char>>,
    sufs: Seq<Seq<char>>,
) -> Seq<char> {
    spec_fp_fold(fp, 0, sources, base, rules, rtempl, fl, sufs).0 + spec_vendor_fold(
        vendor,
        fp,
        0,
        sources,
        base,
    ) + spec_root_text(entry_source, entry_path, rules, rtempl, fl, sufs).0 + spec_preludes(
        preludes,
        0,
        sources,
        base,
    ) + spec_epilogue(entry)
}

/// The total number of rewrites the assembly performs.
pub open spec fn spec_bundle_count(
    fp: NameMap,
    sources: NameMap,
    base: Option<Seq<char>>,
    entry_source: Seq<char>,
    entry_path: Seq<char>,
    rules: Seq<ReplaceRule>,
    rtempl: Option<Seq<Seq<char>>>,
    fl: Seq<Seq<char>>,
    sufs: Seq<Seq<char>>,
) -> int {
    spec_fp_fold(fp, 0, sources, base, rules, rtempl, fl, sufs).1 + spec_root_text(
        entry_source,
        entry_path,
        rules,
        rtempl,
        fl,
        sufs,
    ).1
}

/// One loader entry emitted into `out`.
fn emit_wrap(
    out: &mut String,
    prefix: &str,
    name: &str,
    path: &str,
    base: &Option<String>,
    body: Option<&String>,
)
    ensures
        final(out)@ == old(out)@ + spec_wrap(
            prefix@,
            name@,
            path@,
            opt_base(base),
            match body {
                Some(b) => Some(b@),
                None => None,
            },
        ),
{
    match redact(base, path) {
        Some(rp) => {
            out.append(prefix);
            out.append(name);
            out.append("  (from ");
            out.append(rp.as_str());
            out.append(")");
            out.append("\n");
        },
        None => {
            out.append(prefix);
            out.append(name);
            out.append("\n");
        },
    }
    out.append("__B_MODULES[");
    let q = lua_quote(name);
    out.append(q.as_str());
    out.append("] = function(require)\n");
    match body {
        Some(b) => {
            out.append(b.as_str());
            if !crate::text::str_ends_with(b.as_str(), "\n") {
                out.append("\n");
            }
        },
        None => {},
    }
    out.append("end\n\n");
    proof {
        assert(out@ =~= old(out)@ + spec_wrap(
            prefix@,
            name@,
            path@,
            opt_base(base),
            match body {
                Some(b) => Some(b@),
                None => None,
            },
        ));
    }
}

/// Assembles the bundle text and reports how many references were rewritten
/// (saturating only past the pointer-size limit).
#[verifier::rlimit(100)]
pub fn generate_bundle(graph: &crate::graph::ModuleGraph, ctx: BundleCtx) -> (r: (String, usize))
    requires
        graph.first_party.wf(),
        ctx.vendor_mods.wf(),
        ctx.sources.wf(),
    ensures
        r.0@ == spec_header(ctx.bind) + spec_bundle_rest(
                graph.first_party,
                *ctx.vendor_mods,
                ctx.preludes.deep_view(),
                opt_view(ctx.entry),
                ctx.entry_source@,
                ctx.entry_path@,
                *ctx.sources,
                opt_base(&ctx.redact_base),
                ctx.replaces@,
                templates_of(ctx.resolver),
                ctx.files@,
                ctx.normalizer@,
            ),
        spec_bundle_count(
            graph.first_party,
            *ctx.sources,
            opt_base(&ctx.redact_base),
            ctx.entry_source@,
            ctx.entry_path@,
            ctx.replaces@,
            templates_of(ctx.resolver),
            ctx.files@,
            ctx.normalizer@,
        ) <= usize::MAX ==> r.1 as int == spec_bundle_count(
            graph.first_party,
            *ctx.sources,
            opt_base(&ctx.redact_base),
            ctx.entry_source@,
            ctx.entry_path@,
            ctx.replaces@,
            templates_of(ctx.resolver),
            ctx.files@,
            ctx.normalizer@,
        ),
{
    let ghost fp = graph.first_party;
    let ghost base_v = opt_base(&ctx.redact_base);
    let ghost rtempl = templates_of(ctx.resolver);
    let mut out = render_header(ctx.bind);
    let ghost header = out@;
    let mut total: usize = 0;

    // first-party modules, ascending by name
    let n = graph.first_party.len();
    let mut i: usize = 0;
    proof {
        lemma_fp_fold_nonneg(
            fp,
            0,
            *ctx.sources,
            base_v,
            ctx.replaces@,
            rtempl,
            ctx.files@,
            ctx.normalizer@,
        );
    }
    while i < n
        invariant
            i <= n,
            n == fp.keys_v().len(),
            fp == graph.first_party,
            fp.wf(),
            ctx.sources.wf(),
            base_v == opt_base(&ctx.redact_base),
            rtempl == templates_of(ctx.resolver),
            out@ + spec_fp_fold(
                fp,
                i as int,
                *ctx.sources,
                base_v,
                ctx.replaces@,
                rtempl,
                ctx.files@,
                ctx.normalizer@,
            ).0 == header + spec_fp_fold(
                fp,
                0,
                *ctx.sources,
                base_v,
                ctx.replaces@,
                rtempl,
                ctx.files@,
                ctx.normalizer@,
            ).0,
            total as int + spec_fp_fold(
                fp,
                i as int,
                *ctx.sources,
                base_v,
                ctx.replaces@,
                rtempl,
                ctx.files@,
                ctx.normalizer@,
            ).1 == spec_fp_fold(
                fp,
                0,
                *ctx.sources,
                base_v,
                ctx.replaces@,
                rtempl,
                ctx.files@,
                ctx.normalizer@,
            ).1 || spec_fp_fold(
                fp,
                0,
                *ctx.sources,
                base_v,
                ctx.replaces@,
                rtempl,
                ctx.files@,
                ctx.normalizer@,
            ).1 > usize::MAX,
            spec_fp_fold(
                fp,
                i as int,
                *ctx.sources,
                base_v,
                ctx.replaces@,
                rtempl,
                ctx.files@,
                ctx.normalizer@,
            ).1 >= 0,
        decreases n - i,
    {
        let name = graph.first_party.key_at(i).clone();
        let path = graph.first_party.val_at(i).clone();
        let body = match ctx.sources.get(path.as_str()) {
            Some(code) => {
                let (t, c) = transform_requires(
                    code.as_str(),
                    ctx.replaces,
                    Some(path.as_str()),
                    ctx.resolver,
                    ctx.files,
                    ctx.normalizer,
                );
                total = total.saturating_add(c);
                Some(t)
            },
            None => None,
        };
        let ghost out_before = out@;
        emit_wrap(
            &mut out,
            "-- module: ",
            name.as_str(),
            path.as_str(),
            &ctx.redact_base,
            body.as_ref(),
        );
        i += 1;
        proof {
            lemma_fp_fold_nonneg(
                fp,
                i as int,
                *ctx.sources,
                base_v,
                ctx.replaces@,
                rtempl,
                ctx.files@,
                ctx.normalizer@,
            );
            let full = spec_fp_fold(
                fp,
                0,
                *ctx.sources,
                base_v,
                ctx.replaces@,
                rtempl,
                ctx.files@,
                ctx.normalizer@,
            );
            let prev = spec_fp_fold(
                fp,
                i - 1,
                *ctx.sources,
                base_v,
                ctx.replaces@,
                rtempl,
                ctx.files@,
                ctx.normalizer@,
            );
            let next = spec_fp_fold(
                fp,
                i as int,
                *ctx.sources,
                base_v,
                ctx.replaces@,
                rtempl,
                ctx.files@,
                ctx.normalizer@,
            );
            assert(prev.0 =~= spec_wrap(
                "-- module: "@,
                fp.keys_v()[i - 1],
                fp.vals_v()[i - 1],
                base_v,
                match body {
                    Some(b) => Some(b@),
                    None => None::<Seq<char>>,
                },
            ) + next.0);
            assert(out@ + next.0 =~= header + full.0);
        }
    }
    proof {
        lemma_fp_fold_nonneg(
            fp,
            i as int,
            *ctx.sources,
            base_v,
            ctx.replaces@,
            rtempl,
            ctx.files@,
            ctx.normalizer@,
        );
    }

    // vendor modules, ascending by name, skipping claimed names
    let nv = ctx.vendor_mods.len();
    let mut k: usize = 0;
    let ghost after_fp = out@;
    proof {
        assert(spec_fp_fold(
            fp,
            n as int,
            *ctx.sources,
            base_v,
            ctx.replaces@,
            rtempl,
            ctx.files@,
            ctx.normalizer@,
        ).0 =~= Seq::<char>::empty());
        assert(after_fp =~= header + spec_fp_fold(
            fp,
            0,
            *ctx.sources,
            base_v,
            ctx.replaces@,
            rtempl,
            ctx.files@,
            ctx.normalizer@,
        ).0);
    }
    while k < nv
        invariant
            k <= nv,
            nv == ctx.vendor_mods.keys_v().len(),
            fp == graph.first_party,
            fp.wf(),
            ctx.vendor_mods.wf(),
            ctx.sources.wf(),
            base_v == opt_base(&ctx.redact_base),
            out@ + spec_vendor_fold(*ctx.vendor_mods, fp, k as int, *ctx.sources, base_v)
                == after_fp + spec_vendor_fold(*ctx.vendor_mods, fp, 0, *ctx.sources, base_v),
        decreases nv - k,
    {
        let name = ctx.vendor_mods.key_at(k).clone();
        let path = ctx.vendor_mods.val_at(k).clone();
        if !graph.first_party.contains_key(name.as_str()) {
            let body = match ctx.sources.get(path.as_str()) {
                Some(code) => Some(code.clone()),
                None => None,
            };
            emit_wrap(
                &mut out,
                "-- vendor module: ",
                name.as_str(),
                path.as_str(),
                &ctx.redact_base,
                body.as_ref(),
            );
        }
        k += 1;
        proof {
            assert(out@ + spec_vendor_fold(*ctx.vendor_mods, fp, k as int, *ctx.sources, base_v)
                =~= after_fp + spec_vendor_fold(*ctx.vendor_mods, fp, 0, *ctx.sources, base_v));
        }
    }

    // synthetic root module
    let ghost before_root = out@;
    proof {
        assert(spec_vendor_fold(*ctx.vendor_mods, fp, nv as int, *ctx.sources, base_v)
            =~= Seq::<char>::empty());
        assert(before_root =~= after_fp + spec_vendor_fold(
            *ctx.vendor_mods,
            fp,
            0,
            *ctx.sources,
            base_v,
        ));
    }
    out.append("-- root module: __root\n__B_MODULES['__root'] = function(require)\n");
    let (entry_t, entry_c) = transform_requires(
        ctx.entry_source,
        ctx.replaces,
        Some(ctx.entry_path),
        ctx.resolver,
        ctx.files,
        ctx.normalizer,
    );
    total = total.saturating_add(entry_c);
    out.append(entry_t.as_str());
    if !crate::text::str_ends_with(ctx.entry_source, "\n") {
        out.append("\n");
    }
    out.append("end\n\n");
    let ghost after_root = out@;
    proof {
        assert(after_root =~= before_root + spec_root_text(
            ctx.entry_source@,
            ctx.entry_path@,
            ctx.replaces@,
            rtempl,
            ctx.files@,
            ctx.normalizer@,
        ).0);
        assert(after_root =~= after_fp + spec_vendor_fold(
            *ctx.vendor_mods,
            fp,
            0,
            *ctx.sources,
            base_v,
        ) + spec_root_text(
            ctx.entry_source@,
            ctx.entry_path@,
            ctx.replaces@,
            rtempl,
            ctx.files@,
            ctx.normalizer@,
        ).0);
    }

    // preludes, in the order given
    let np = ctx.preludes.len();
    let mut pi: usize = 0;
    while pi < np
        invariant
            pi <= np,
            np == ctx.preludes@.len(),
            ctx.sources.wf(),
            base_v == opt_base(&ctx.redact_base),
            out@ + spec_preludes(ctx.preludes.deep_view(), pi as int, *ctx.sources, base_v)
                == after_root + spec_preludes(ctx.preludes.deep_view(), 0, *ctx.sources, base_v),
        decreases np - pi,
    {
        let p = &ctx.preludes[pi];
        proof {
            assert(p@ == ctx.preludes.deep_view()[pi as int]);
        }
        match ctx.sources.get(p.as_str()) {
            Some(txt) => {
                match redact(&ctx.redact_base, p.as_str()) {
                    Some(rp) => {
                        out.append("-- prelude: ");
                        out.append(rp.as_str());
                        out.append("\n");
                    },
                    None => {
                        out.append("-- prelude\n");
                    },
                }
                out.append(txt.as_str());
                if !crate::text::str_ends_with(txt.as_str(), "\n") {
                    out.append("\n");
                }
                out.append("\n");
            },
            None => {},
        }
        pi += 1;
        proof {
            assert(out@ + spec_preludes(ctx.preludes.deep_view(), pi as int, *ctx.sources, base_v)
                =~= after_root + spec_preludes(
                ctx.preludes.deep_view(),
                0,
                *ctx.sources,
                base_v,
            ));
        }
    }

    // epilogue
    out.append("return __B_REQUIRE(");
    let q = match ctx.entry {
        Some(e) => lua_quote(e),
        None => lua_quote("__root"),
    };
    out.append(q.as_str());
    out.append(")\n");
    proof {
        reveal_strlit("__root");
        assert(spec_preludes(ctx.preludes.deep_view(), np as int, *ctx.sources, base_v)
            =~= Seq::<char>::empty());
        assert(out@ =~= header + spec_bundle_rest(
            fp,
            *ctx.vendor_mods,
            ctx.preludes.deep_view(),
            opt_view(ctx.entry),
            ctx.entry_source@,
            ctx.entry_path@,
            *ctx.sources,
            base_v,
            ctx.replaces@,
            rtempl,
            ctx.files@,
            ctx.normalizer@,
        ));
    }
    (out, total)
}

pub proof fn lemma_fp_fold_nonneg(
    m: NameMap,
    i: int,
    sources: NameMap,
    base: Option<Seq<char>>,
    rules: Seq<ReplaceRule>,
    rtempl: Option<Seq<Seq<char>>>,
    fl: Seq<Seq<char>>,
    sufs: Seq<Seq<char>>,
)
    requires
        0 <= i <= m.keys_v().len(),
    ensures
        spec_fp_fold(m, i, sources, base, rules, rtempl, fl, sufs).1 >= 0,
    decreases m.keys_v().len() - i,
{
    if i < m.keys_v().len() {
        lemma_fp_fold_nonneg(m, i + 1, sources, base, rules, rtempl, fl, sufs);
    }
}


/// An assembled bundle ends in the statement that requests the named entry
/// module, or the synthetic root module when no entry module is named.
pub proof fn lemma_bundle_ends_with_entry_request(
    bundle: Seq<char>,
    h: Seq<char>,
    fp: NameMap,
    vendor: NameMap,
    preludes: Seq<Seq<char>>,
    entry: Option<Seq<char>>,
    entry_source: Seq<char>,
    entry_path: Seq<char>,
    sources: NameMap,
    base: Option<Seq<char>>,
    rules: Seq<ReplaceRule>,
    rtempl: Option<Seq<Seq<char>>>,
    fl: Seq<Seq<char>>,
    sufs: Seq<Seq<char>>,
)
    requires
        bundle == h + spec_bundle_rest(
            fp,
            vendor,
            preludes,
            entry,
            entry_source,
            entry_path,
            sources,
            base,
            rules,
            rtempl,
            fl,
            sufs,
        ),
    ensures
        ends_with(bundle, spec_epilogue(entry)),
{
    let epi = spec_epilogue(entry);
    let before = h + spec_fp_fold(fp, 0, sources, base, rules, rtempl, fl, sufs).0
        + spec_vendor_fold(vendor, fp, 0, sources, base) + spec_root_text(
        entry_source,
        entry_path,
        rules,
        rtempl,
        fl,
        sufs,
    ).0 + spec_preludes(preludes, 0, sources, base);
    assert(bundle =~= before + epi);
    assert(bundle.subrange(bundle.len() - epi.len(), bundle.len() as int) =~= epi);
}

/// A vendor entry whose name a first-party module claims contributes nothing
/// to the vendor section: the fold skips straight past it, so no module name
/// is emitted twice.
pub proof fn lemma_vendor_skips_claimed(
    vendor: NameMap,
    fp: NameMap,
    i: int,
    sources: NameMap,
    base: Option<Seq<char>>,
)
    requires
        0 <= i < vendor.keys_v().len(),
        fp.has_key(vendor.keys_v()[i]),
    ensures
        spec_vendor_fold(vendor, fp, i, sources, base) == spec_vendor_fold(
            vendor,
            fp,
            i + 1,
            sources,
            base,
        ),
{
}

/// The assembler walks the first-party map by index, so the module names it
/// emits appear in strictly ascending order.
pub proof fn lemma_modules_emitted_sorted(m: NameMap)
    requires
        m.wf(),
    ensures
        forall|i: int, j: int|
            0 <= i < j < m.keys_v().len() ==> crate::text::lex_lt(
                #[trigger] m.keys_v()[i],
                #[trigger] m.keys_v()[j],
            ),
{
}

} // verus!
