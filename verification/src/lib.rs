//! Bundler for Lua-style module trees: it scans sources for literal
//! `require(name)` references, resolves dotted module names through ordered
//! path templates, applies user redirect rules, collects vendor modules, and
//! assembles a single self-contained script around a small module loader.

mod bundle;
mod config;
mod graph;
mod lex;
mod namemap;
mod normalize;
mod options;
mod replace;
mod resolve;
mod scan;
mod shims;
mod text;
mod transform;
mod vendor;

pub use bundle::{generate_bundle, lua_quote, BindRequire, BundleCtx};
pub use config::{resolve_path_like, resolve_pathbuf, BundleConfig, LoadedConfig};
pub use graph::ModuleGraph;
pub use namemap::{NameMap, NameSet};
pub use normalize::{infer_suffixes, normalize_module_name};
pub use options::{BundleOptions, NameNormalizer};
pub use replace::{matches_replace, parse_replace_rules, ArgMode, MatchKind, ReplaceRule, RuleError};
pub use resolve::{FileListing, ModuleResolver};
pub use scan::{find_literal_requires, RequireMatch};
pub use transform::transform_requires;
pub use vendor::{
    collect_vendor_modules, parse_vendor_specs, to_glob_and_root, vendor_add_listing, VendorSpec,
};
