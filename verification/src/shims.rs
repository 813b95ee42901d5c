//! The crate's only contact points with outside libraries. Each wrapper makes
//! exactly one outside call; what the call returns is either stated directly
//! or given a name that the callers' contracts use.

use vstd::prelude::*;

verus! {

/// Whether `pat` compiles as a glob pattern (`glob::Pattern::new` succeeds);
/// a function of the pattern text alone.
pub uninterp spec fn glob_pattern_ok(pat: Seq<char>) -> bool;

/// What `glob::Pattern::matches` returns for a compiled pattern and a text;
/// a function of the two texts alone.
pub uninterp spec fn glob_matches(pat: Seq<char>, text: Seq<char>) -> bool;

/// Relies on glob::Pattern::new and glob::Pattern::matches: `None` when the
/// pattern does not compile, else whether `text` matches the glob.
#[verifier::external_body]
pub(crate) fn glob_match(pat: &str, text: &str) -> (r: Option<bool>)
    ensures
        r is Some <==> glob_pattern_ok(pat@),
        match r {
            Some(b) => b == glob_matches(pat@, text@),
            None => true,
        },
{
    match glob::Pattern::new(pat) {
        Ok(p) => Some(p.matches(text)),
        Err(_) => None,
    }
}

/// Whether `glob::glob` accepts `pat`: it fails only while compiling the
/// pattern or its path components, so success is a function of the pattern
/// text alone.
pub uninterp spec fn glob_enumerable(pat: Seq<char>) -> bool;

/// Relies on glob::glob: the paths currently on disk that match the pattern,
/// as strings; `None` when the pattern does not compile. Which paths come
/// back depends on the filesystem, so nothing is promised about them.
#[verifier::external_body]
pub(crate) fn glob_paths(pattern: &str) -> (r: Option<Vec<String>>)
    ensures
        r is Some <==> glob_enumerable(pattern@),
{
    match glob::glob(pattern) {
        Ok(iter) => Some(
            iter.flatten().map(|p| p.to_string_lossy().into_owned()).collect(),
        ),
        Err(_) => None,
    }
}

/// Relies on std::path::Path::is_file: whether the path names a regular file
/// on disk right now; nothing is promised about the answer.
#[verifier::external_body]
pub(crate) fn path_is_file(p: &str) -> (r: bool) {
    std::path::Path::new(p).is_file()
}

/// What handlebars renders from a template and the two header fields; a
/// function of its arguments alone.
pub uninterp spec fn hbs_rendered(template: Seq<char>, global: bool, version: Seq<char>) -> Seq<
    char,
>;

/// Whether handlebars registers and renders the template with the two header
/// fields without error; registering fails only while parsing the template
/// and rendering with built-in helpers is a function of template and data,
/// so this too depends on the arguments alone.
pub uninterp spec fn hbs_renders(template: Seq<char>, global: bool, version: Seq<char>) -> bool;

/// Relies on handlebars::Handlebars::render (with register_template_string):
/// the template rendered with fields `global` and `version`; `None` exactly
/// when registering or rendering fails.
#[verifier::external_body]
pub(crate) fn hbs_render(template: &str, global: bool, version: &str) -> (r: Option<String>)
    ensures
        r is Some <==> hbs_renders(template@, global, version@),
        match r {
            Some(s) => s@ == hbs_rendered(template@, global, version@),
            None => true,
        },
{
    let mut data = serde_json::Map::new();
    data.insert("global".to_string(), serde_json::Value::Bool(global));
    data.insert("version".to_string(), serde_json::Value::String(version.to_string()));
    let mut hbs = handlebars::Handlebars::new();
    if hbs.register_template_string("header", template).is_err() {
        return None;
    }
    hbs.render("header", &serde_json::Value::Object(data)).ok()
}

} // verus!
