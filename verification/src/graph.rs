//! The module dependency graph: a worklist traversal seeded by the entry
//! source. Every literal reference is normalized and the normalized name is
//! resolved through the templates against the file listing; resolved paths
//! are visited once each, their sources (when the source table has them)
//! scanned for further references, and the first name to claim a path is
//! recorded in the first-party map. Names that do not resolve are collected,
//! never fatal.

use vstd::prelude::*;

use crate::namemap::{NameMap, NameSet};
use crate::options::{lemma_normalize_idempotent, spec_normalize, NameNormalizer};
use crate::resolve::{lemma_resolve_first_template_wins, spec_resolve, FileListing, ModuleResolver};
use crate::scan::{find_literal_requires, spec_sites, RequireMatch, SiteV};

verus! {

/// The literal reference contents of a source unit, in source order; a unit
/// that cannot be scanned contributes none.
pub open spec fn ref_names(code: Seq<char>) -> Seq<Seq<char>> {
    match spec_sites(code) {
        None => Seq::empty(),
        Some(sites) => sites.map_values(
            |s: SiteV| code.subrange(s.content_start, s.content_end),
        ),
    }
}

/// Every reference of `code` is accounted for: a normalized name that
/// resolves has its path visited or still queued; one that does not resolve
/// is recorded.
pub open spec fn refs_absorbed(
    code: Seq<char>,
    ts: Seq<Seq<char>>,
    fl: Seq<Seq<char>>,
    sufs: Seq<Seq<char>>,
    vis: NameSet,
    unres: NameSet,
    queued: Seq<Seq<char>>,
) -> bool {
    forall|j: int|
        0 <= j < ref_names(code).len() ==> match spec_resolve(
            ts,
            spec_normalize(sufs, #[trigger] ref_names(code)[j]),
            fl,
        ) {
            Some(p) => vis.has(p) || queued.contains(p),
            None => unres.has(spec_normalize(sufs, ref_names(code)[j])),
        }
}

pub proof fn lemma_absorbed_mono(
    code: Seq<char>,
    ts: Seq<Seq<char>>,
    fl: Seq<Seq<char>>,
    sufs: Seq<Seq<char>>,
    vis0: NameSet,
    unres0: NameSet,
    q0: Seq<Seq<char>>,
    vis1: NameSet,
    unres1: NameSet,
    q1: Seq<Seq<char>>,
)
    requires
        refs_absorbed(code, ts, fl, sufs, vis0, unres0, q0),
        forall|x: Seq<char>| vis0.has(x) ==> vis1.has(x),
        forall|x: Seq<char>| unres0.has(x) ==> unres1.has(x),
        forall|x: Seq<char>| q0.contains(x) ==> q1.contains(x),
    ensures
        refs_absorbed(code, ts, fl, sufs, vis1, unres1, q1),
{
    assert forall|j: int| 0 <= j < ref_names(code).len() implies match spec_resolve(
        ts,
        spec_normalize(sufs, #[trigger] ref_names(code)[j]),
        fl,
    ) {
        Some(p) => vis1.has(p) || q1.contains(p),
        None => unres1.has(spec_normalize(sufs, ref_names(code)[j])),
    } by {
        assert(match spec_resolve(ts, spec_normalize(sufs, ref_names(code)[j]), fl) {
            Some(p) => vis0.has(p) || q0.contains(p),
            None => unres0.has(spec_normalize(sufs, ref_names(code)[j])),
        });
    }
}

pub proof fn lemma_absorbed_drain(
    code: Seq<char>,
    ts: Seq<Seq<char>>,
    fl: Seq<Seq<char>>,
    sufs: Seq<Seq<char>>,
    vis: NameSet,
    unres: NameSet,
    queued: Seq<Seq<char>>,
)
    requires
        refs_absorbed(code, ts, fl, sufs, vis, unres, queued),
        forall|x: Seq<char>| queued.contains(x) ==> vis.has(x),
    ensures
        refs_absorbed(code, ts, fl, sufs, vis, unres, Seq::empty()),
{
    assert forall|j: int| 0 <= j < ref_names(code).len() implies match spec_resolve(
        ts,
        spec_normalize(sufs, #[trigger] ref_names(code)[j]),
        fl,
    ) {
        Some(p) => vis.has(p) || Seq::<Seq<char>>::empty().contains(p),
        None => unres.has(spec_normalize(sufs, ref_names(code)[j])),
    } by {
        assert(match spec_resolve(ts, spec_normalize(sufs, ref_names(code)[j]), fl) {
            Some(p) => vis.has(p) || queued.contains(p),
            None => unres.has(spec_normalize(sufs, ref_names(code)[j])),
        });
    }
}

fn scan_refs(code: &str) -> (r: Vec<RequireMatch>)
    ensures
        r@.len() == ref_names(code@).len(),
        forall|j: int| 0 <= j < r@.len() ==> (#[trigger] r@[j]).module@ == ref_names(code@)[j],
{
    let r = find_literal_requires(code);
    proof {
        match spec_sites(code@) {
            Some(sites) => {
                assert(ref_names(code@) =~~= sites.map_values(
                    |s: SiteV| code@.subrange(s.content_start, s.content_end),
                ));
            },
            None => {
                assert(ref_names(code@) =~~= Seq::<Seq<char>>::empty());
            },
        }
    }
    r
}

/// Some reference of `code` has a normalized name resolving to `p`.
#[verifier::opaque]
pub open spec fn resolves_from(
    code: Seq<char>,
    ts: Seq<Seq<char>>,
    fl: Seq<Seq<char>>,
    sufs: Seq<Seq<char>>,
    p: Seq<char>,
) -> bool {
    exists|j: int|
        0 <= j < ref_names(code).len() && spec_resolve(
            ts,
            spec_normalize(sufs, #[trigger] ref_names(code)[j]),
            fl,
        ) == Some(p)
}

/// Some reference of `code` has normalized name `u`, and `u` does not
/// resolve.
#[verifier::opaque]
pub open spec fn fails_from(
    code: Seq<char>,
    ts: Seq<Seq<char>>,
    fl: Seq<Seq<char>>,
    sufs: Seq<Seq<char>>,
    u: Seq<char>,
) -> bool {
    exists|j: int|
        0 <= j < ref_names(code).len() && spec_normalize(sufs, #[trigger] ref_names(code)[j]) == u
            && spec_resolve(ts, u, fl) is None
}

/// A path is discovered by the traversal within `steps` expansions: some
/// entry reference's normalized name resolves to it, or some reference in
/// the source of a path discovered in fewer steps does.
pub open spec fn path_discovered(
    entry: Seq<char>,
    ts: Seq<Seq<char>>,
    fl: Seq<Seq<char>>,
    sufs: Seq<Seq<char>>,
    sources: NameMap,
    p: Seq<char>,
    steps: nat,
) -> bool
    decreases steps,
{
    ||| resolves_from(entry, ts, fl, sufs, p)
    ||| (steps > 0 && exists|q: Seq<char>|
        {
            &&& path_discovered(entry, ts, fl, sufs, sources, q, (steps - 1) as nat)
            &&& #[trigger] sources.has_key(q)
            &&& resolves_from(sources.val_of(q), ts, fl, sufs, p)
        })
}

/// The path is discovered after some number of expansions.
pub open spec fn discovered(
    entry: Seq<char>,
    ts: Seq<Seq<char>>,
    fl: Seq<Seq<char>>,
    sufs: Seq<Seq<char>>,
    sources: NameMap,
    p: Seq<char>,
) -> bool {
    exists|steps: nat| #[trigger] path_discovered(entry, ts, fl, sufs, sources, p, steps)
}

/// A name enters the unresolved set only for a discovered occurrence: some
/// entry reference, or some reference of a discovered path's source,
/// normalizes to it and does not resolve.
pub open spec fn unresolved_discovered(
    entry: Seq<char>,
    ts: Seq<Seq<char>>,
    fl: Seq<Seq<char>>,
    sufs: Seq<Seq<char>>,
    sources: NameMap,
    u: Seq<char>,
) -> bool {
    ||| fails_from(entry, ts, fl, sufs, u)
    ||| exists|q: Seq<char>, steps: nat|
        {
            &&& #[trigger] path_discovered(entry, ts, fl, sufs, sources, q, steps)
            &&& sources.has_key(q)
            &&& fails_from(sources.val_of(q), ts, fl, sufs, u)
        }
}

/// One queue slot is well-formed: its name is a normalization fixpoint and
/// its path is what the name resolves to.
pub open spec fn queue_entry_ok(
    qnames: Seq<Seq<char>>,
    qpaths: Seq<Seq<char>>,
    ts: Seq<Seq<char>>,
    fl: Seq<Seq<char>>,
    sufs: Seq<Seq<char>>,
    j: int,
) -> bool {
    &&& spec_normalize(sufs, qnames[j]) == qnames[j]
    &&& spec_resolve(ts, qnames[j], fl) == Some(qpaths[j])
}

/// The queue is well-formed: names are normalization fixpoints, and each
/// queued path is what its queued name resolves to.
pub open spec fn queue_ok(
    qnames: Seq<Seq<char>>,
    qpaths: Seq<Seq<char>>,
    ts: Seq<Seq<char>>,
    fl: Seq<Seq<char>>,
    sufs: Seq<Seq<char>>,
) -> bool {
    &&& qnames.len() == qpaths.len()
    &&& forall|j: int|
        0 <= j < qnames.len() ==> #[trigger] queue_entry_ok(qnames, qpaths, ts, fl, sufs, j)
}

/// Pushing a normalized name with the path it resolves to keeps the queue
/// well-formed.
proof fn lemma_queue_push(
    qn0: Seq<Seq<char>>,
    qp0: Seq<Seq<char>>,
    nmv: Seq<char>,
    pv: Seq<char>,
    ts: Seq<Seq<char>>,
    fl: Seq<Seq<char>>,
    sufs: Seq<Seq<char>>,
)
    requires
        queue_ok(qn0, qp0, ts, fl, sufs),
        spec_normalize(sufs, nmv) == nmv,
        spec_resolve(ts, nmv, fl) == Some(pv),
    ensures
        queue_ok(qn0.push(nmv), qp0.push(pv), ts, fl, sufs),
{
    let qn1 = qn0.push(nmv);
    let qp1 = qp0.push(pv);
    assert forall|j: int| 0 <= j < qn1.len() implies #[trigger] queue_entry_ok(
        qn1,
        qp1,
        ts,
        fl,
        sufs,
        j,
    ) by {
        if j < qn0.len() {
            assert(queue_entry_ok(qn0, qp0, ts, fl, sufs, j));
            assert(qn1[j] == qn0[j]);
            assert(qp1[j] == qp0[j]);
        } else {
            assert(qn1[j] == nmv);
            assert(qp1[j] == pv);
        }
    }
}

/// Normalizes and resolves every reference in `refs`: a resolved normalized
/// name goes to the queue with its path unless the path is already visited;
/// an unresolved normalized name goes to the unresolved set.
#[verifier::rlimit(100)]
fn absorb_refs(
    refs: &Vec<RequireMatch>,
    ghost_code: Ghost<Seq<char>>,
    resolver: &ModuleResolver,
    normalizer: &NameNormalizer,
    files: &FileListing,
    visited: &NameSet,
    unresolved: &mut NameSet,
    qnames: &mut Vec<String>,
    qpaths: &mut Vec<String>,
)
    requires
        old(unresolved).wf(),
        visited.wf(),
        queue_ok(
            old(qnames).deep_view(),
            old(qpaths).deep_view(),
            resolver@,
            files@,
            normalizer@,
        ),
        refs@.len() == ref_names(ghost_code@).len(),
        forall|j: int|
            0 <= j < refs@.len() ==> (#[trigger] refs@[j]).module@ == ref_names(ghost_code@)[j],
    ensures
        final(unresolved).wf(),
        queue_ok(
            final(qnames).deep_view(),
            final(qpaths).deep_view(),
            resolver@,
            files@,
            normalizer@,
        ),
        final(qpaths)@.len() >= old(qpaths)@.len(),
        forall|j: int|
            0 <= j < old(qpaths).deep_view().len() ==> #[trigger] final(qpaths).deep_view()[j]
                == old(qpaths).deep_view()[j],
        forall|x: Seq<char>| old(unresolved).has(x) ==> final(unresolved).has(x),
        forall|u: Seq<char>| #[trigger]
            final(unresolved).has(u) ==> old(unresolved).has(u) || (spec_normalize(normalizer@, u)
                == u && spec_resolve(resolver@, u, files@) is None),
        // each new queue entry and unresolved name comes from a reference of
        // this very source
        forall|j: int|
            old(qpaths)@.len() <= j < final(qpaths).deep_view().len() ==> resolves_from(
                ghost_code@,
                resolver@,
                files@,
                normalizer@,
                #[trigger] final(qpaths).deep_view()[j],
            ),
        forall|u: Seq<char>| #[trigger]
            final(unresolved).has(u) && !old(unresolved).has(u) ==> fails_from(
                ghost_code@,
                resolver@,
                files@,
                normalizer@,
                u,
            ),
        refs_absorbed(
            ghost_code@,
            resolver@,
            files@,
            normalizer@,
            *visited,
            *final(unresolved),
            final(qpaths).deep_view(),
        ),
{
    let n = refs.len();
    let mut i: usize = 0;
    while i < n
        invariant
            i <= n,
            n == refs@.len(),
            unresolved.wf(),
            visited.wf(),
            queue_ok(qnames.deep_view(), qpaths.deep_view(), resolver@, files@, normalizer@),
            qpaths@.len() >= old(qpaths)@.len(),
            forall|j: int|
                0 <= j < old(qpaths).deep_view().len() ==> #[trigger] qpaths.deep_view()[j] == old(
                    qpaths,
                ).deep_view()[j],
            forall|x: Seq<char>| old(unresolved).has(x) ==> unresolved.has(x),
            forall|u: Seq<char>| #[trigger]
                unresolved.has(u) ==> old(unresolved).has(u) || (spec_normalize(normalizer@, u)
                    == u && spec_resolve(resolver@, u, files@) is None),
            forall|j: int|
                old(qpaths)@.len() <= j < qpaths.deep_view().len() ==> resolves_from(
                    ghost_code@,
                    resolver@,
                    files@,
                    normalizer@,
                    #[trigger] qpaths.deep_view()[j],
                ),
            forall|u: Seq<char>| #[trigger]
                unresolved.has(u) && !old(unresolved).has(u) ==> fails_from(
                    ghost_code@,
                    resolver@,
                    files@,
                    normalizer@,
                    u,
                ),
            refs@.len() == ref_names(ghost_code@).len(),
            forall|j: int|
                0 <= j < refs@.len() ==> (#[trigger] refs@[j]).module@ == ref_names(
                    ghost_code@,
                )[j],
            forall|j: int|
                0 <= j < i ==> match spec_resolve(
                    resolver@,
                    spec_normalize(normalizer@, #[trigger] ref_names(ghost_code@)[j]),
                    files@,
                ) {
                    Some(p) => visited.has(p) || qpaths.deep_view().contains(p),
                    None => unresolved.has(
                        spec_normalize(normalizer@, ref_names(ghost_code@)[j]),
                    ),
                },
        decreases n - i,
    {
        let r = &refs[i];
        let nm = normalizer.normalize(r.module.as_str());
        proof {
            lemma_normalize_idempotent(normalizer@, r.module@);
        }
        let ghost qp0 = qpaths.deep_view();
        let ghost qn0 = qnames.deep_view();
        match resolver.resolve(nm.as_str(), files) {
            Some(p) => {
                if !visited.contains(p.as_str()) {
                    let ghost nmv = nm@;
                    let ghost pv = p@;
                    qnames.push(nm);
                    qpaths.push(p);
                    proof {
                        assert(spec_resolve(
                            resolver@,
                            spec_normalize(normalizer@, ref_names(ghost_code@)[i as int]),
                            files@,
                        ) == Some(pv));
                        assert(resolves_from(ghost_code@, resolver@, files@, normalizer@, pv))
                            by {
                            reveal(resolves_from);
                            assert(spec_resolve(
                                resolver@,
                                spec_normalize(normalizer@, ref_names(ghost_code@)[i as int]),
                                files@,
                            ) == Some(pv));
                        }
                        assert(qpaths.deep_view() =~~= qp0.push(pv));
                        assert(qnames.deep_view() =~~= qn0.push(nmv));
                        lemma_queue_push(qn0, qp0, nmv, pv, resolver@, files@, normalizer@);
                        assert forall|x: Seq<char>| qp0.contains(x) implies qpaths.deep_view()
                            .contains(x) by {
                            let w = choose|w: int| 0 <= w < qp0.len() && qp0[w] == x;
                            assert(qpaths.deep_view()[w] == x);
                        }
                        assert(qpaths.deep_view().contains(qpaths.deep_view()[qp0.len() as int]));
                        assert(queue_ok(
                            qnames.deep_view(),
                            qpaths.deep_view(),
                            resolver@,
                            files@,
                            normalizer@,
                        ));
                    }
                }
            },
            None => {
                let ghost un0 = *unresolved;
                unresolved.insert(nm);
                proof {
                    assert forall|u: Seq<char>| #[trigger]
                        unresolved.has(u) && !old(unresolved).has(u) implies fails_from(
                        ghost_code@,
                        resolver@,
                        files@,
                        normalizer@,
                        u,
                    ) by {
                        if !un0.has(u) {
                            assert(u == nm@);
                            assert(spec_normalize(
                                normalizer@,
                                ref_names(ghost_code@)[i as int],
                            ) == u && spec_resolve(resolver@, u, files@) is None);
                            assert(fails_from(ghost_code@, resolver@, files@, normalizer@, u))
                                by {
                                reveal(fails_from);
                                assert(spec_normalize(
                                    normalizer@,
                                    ref_names(ghost_code@)[i as int],
                                ) == u && spec_resolve(resolver@, u, files@) is None);
                            }
                        }
                    }
                }
            },
        }
        i += 1;
    }
}

/// The dependency graph of one bundling run: the first-party module map
/// (normalized name to the path that name resolves to, first discovery
/// wins), the normalized names that did not resolve, and every path the
/// traversal visited.
pub struct ModuleGraph {
    pub first_party: NameMap,
    pub unresolved: NameSet,
    pub visited: NameSet,
}

impl ModuleGraph {
    /// Builds the graph from the entry source: scans it, normalizes and
    /// resolves each reference against `files`, and walks resolved paths to
    /// a fixed point, reading module sources from `sources` (a path missing
    /// there is a leaf).
    #[verifier::rlimit(100)]
    pub fn build_from_entry_code(
        entry_code: &str,
        resolver: &ModuleResolver,
        normalizer: &NameNormalizer,
        files: &FileListing,
        sources: &NameMap,
    ) -> (g: ModuleGraph)
        requires
            sources.wf(),
        ensures
            g.first_party.wf(),
            g.unresolved.wf(),
            g.visited.wf(),
            // a key is a normalized name and maps to exactly the listed,
            // visited path that the key itself resolves to
            forall|k: Seq<char>| #[trigger]
                g.first_party.has_key(k) ==> spec_normalize(normalizer@, k) == k && spec_resolve(
                    resolver@,
                    k,
                    files@,
                ) == Some(g.first_party.val_of(k)) && files@.contains(g.first_party.val_of(k))
                    && g.visited.has(g.first_party.val_of(k)),
            // every visited path is listed and registered under some name
            forall|p: Seq<char>| #[trigger]
                g.visited.has(p) ==> files@.contains(p) && exists|k: Seq<char>|
                    g.first_party.has_key(k) && #[trigger] g.first_party.val_of(k) == p,
            // an unresolved entry is a normalized name that does not resolve
            forall|u: Seq<char>| #[trigger]
                g.unresolved.has(u) ==> spec_normalize(normalizer@, u) == u && spec_resolve(
                    resolver@,
                    u,
                    files@,
                ) is None,
            // nothing is visited or recorded without a discovered reference
            forall|p: Seq<char>| #[trigger]
                g.visited.has(p) ==> discovered(
                    entry_code@,
                    resolver@,
                    files@,
                    normalizer@,
                    *sources,
                    p,
                ),
            forall|u: Seq<char>| #[trigger]
                g.unresolved.has(u) ==> unresolved_discovered(
                    entry_code@,
                    resolver@,
                    files@,
                    normalizer@,
                    *sources,
                    u,
                ),
            // every entry reference resolves to a visited path or is recorded
            refs_absorbed(
                entry_code@,
                resolver@,
                files@,
                normalizer@,
                g.visited,
                g.unresolved,
                Seq::empty(),
            ),
            // the traversal is closed: references of every visited source are
            // themselves visited or recorded
            forall|p: Seq<char>|
                g.visited.has(p) && sources.has_key(p) ==> refs_absorbed(
                    #[trigger] sources.val_of(p),
                    resolver@,
                    files@,
                    normalizer@,
                    g.visited,
                    g.unresolved,
                    Seq::empty(),
                ),
    {
        let mut first_party = NameMap::new();
        let mut unresolved = NameSet::new();
        let mut visited = NameSet::new();
        let mut qnames: Vec<String> = Vec::new();
        let mut qpaths: Vec<String> = Vec::new();
        let entry_refs = scan_refs(entry_code);
        proof {
            assert(qpaths.deep_view() =~~= Seq::<Seq<char>>::empty());
            assert(qnames.deep_view() =~~= Seq::<Seq<char>>::empty());
        }
        absorb_refs(
            &entry_refs,
            Ghost(entry_code@),
            resolver,
            normalizer,
            files,
            &visited,
            &mut unresolved,
            &mut qnames,
            &mut qpaths,
        );
        let mut qi: usize = 0;
        proof {
            visited.lemma_card_le(files@);
            assert forall|j: int|
                0 <= j < qpaths.deep_view().len() implies files@.contains(
                #[trigger] qpaths.deep_view()[j],
            ) by {
                assert(queue_entry_ok(
                    qnames.deep_view(),
                    qpaths.deep_view(),
                    resolver@,
                    files@,
                    normalizer@,
                    j,
                ));
                lemma_resolve_first_template_wins(resolver@, qnames.deep_view()[j], files@);
            }
            assert forall|j: int| #![trigger qpaths.deep_view()[j]]
                0 <= j < qpaths.deep_view().len() implies discovered(
                entry_code@,
                resolver@,
                files@,
                normalizer@,
                *sources,
                qpaths.deep_view()[j],
            ) by {
                assert(resolves_from(
                    entry_code@,
                    resolver@,
                    files@,
                    normalizer@,
                    qpaths.deep_view()[j],
                ));
                assert(path_discovered(
                    entry_code@,
                    resolver@,
                    files@,
                    normalizer@,
                    *sources,
                    qpaths.deep_view()[j],
                    0,
                ));
            }
            assert forall|u: Seq<char>| #[trigger]
                unresolved.has(u) implies unresolved_discovered(
                entry_code@,
                resolver@,
                files@,
                normalizer@,
                *sources,
                u,
            ) by {
                assert(fails_from(entry_code@, resolver@, files@, normalizer@, u));
            }
        }
        while qi < qpaths.len()
            invariant
                qi <= qpaths@.len(),
                first_party.wf(),
                unresolved.wf(),
                visited.wf(),
                sources.wf(),
                visited.items_v().len() <= files@.len(),
                queue_ok(qnames.deep_view(), qpaths.deep_view(), resolver@, files@, normalizer@),
                forall|j: int|
                    0 <= j < qpaths.deep_view().len() ==> files@.contains(
                        #[trigger] qpaths.deep_view()[j],
                    ),
                forall|j: int| 0 <= j < qi ==> visited.has(#[trigger] qpaths.deep_view()[j]),
                forall|k: Seq<char>| #[trigger]
                    first_party.has_key(k) ==> spec_normalize(normalizer@, k) == k
                        && spec_resolve(resolver@, k, files@) == Some(first_party.val_of(k))
                        && files@.contains(first_party.val_of(k)) && visited.has(
                        first_party.val_of(k),
                    ),
                forall|p: Seq<char>| #[trigger]
                    visited.has(p) ==> files@.contains(p) && exists|k: Seq<char>|
                        first_party.has_key(k) && #[trigger] first_party.val_of(k) == p,
                forall|u: Seq<char>| #[trigger]
                    unresolved.has(u) ==> spec_normalize(normalizer@, u) == u && spec_resolve(
                        resolver@,
                        u,
                        files@,
                    ) is None,
                forall|j: int| #![trigger qpaths.deep_view()[j]]
                    0 <= j < qpaths.deep_view().len() ==> discovered(
                        entry_code@,
                        resolver@,
                        files@,
                        normalizer@,
                        *sources,
                        qpaths.deep_view()[j],
                    ),
                forall|p: Seq<char>| #[trigger]
                    visited.has(p) ==> discovered(
                        entry_code@,
                        resolver@,
                        files@,
                        normalizer@,
                        *sources,
                        p,
                    ),
                forall|u: Seq<char>| #[trigger]
                    unresolved.has(u) ==> unresolved_discovered(
                        entry_code@,
                        resolver@,
                        files@,
                        normalizer@,
                        *sources,
                        u,
                    ),
                refs_absorbed(
                    entry_code@,
                    resolver@,
                    files@,
                    normalizer@,
                    visited,
                    unresolved,
                    qpaths.deep_view(),
                ),
                forall|p: Seq<char>|
                    visited.has(p) && sources.has_key(p) ==> refs_absorbed(
                        #[trigger] sources.val_of(p),
                        resolver@,
                        files@,
                        normalizer@,
                        visited,
                        unresolved,
                        qpaths.deep_view(),
                    ),
            decreases files@.len() + 1 - visited.items_v().len(), qpaths@.len() - qi,
        {
            let ghost vis0 = visited;
            let ghost un0 = unresolved;
            let ghost qp0 = qpaths.deep_view();
            let p = qpaths[qi].clone();
            let nm = qnames[qi].clone();
            proof {
                assert(p@ == qpaths.deep_view()[qi as int]);
                assert(nm@ == qnames.deep_view()[qi as int]);
                assert(queue_entry_ok(
                    qnames.deep_view(),
                    qpaths.deep_view(),
                    resolver@,
                    files@,
                    normalizer@,
                    qi as int,
                ));
                assert(spec_resolve(resolver@, nm@, files@) == Some(p@));
                assert(spec_normalize(normalizer@, nm@) == nm@);
            }
            if !visited.contains(p.as_str()) {
                let ghost fp0 = first_party;
                proof {
                    assert(discovered(
                        entry_code@,
                        resolver@,
                        files@,
                        normalizer@,
                        *sources,
                        qpaths.deep_view()[qi as int],
                    ));
                }
                let ghost steps_p: nat = choose|steps: nat|
                    #[trigger] path_discovered(
                        entry_code@,
                        resolver@,
                        files@,
                        normalizer@,
                        *sources,
                        p@,
                        steps,
                    );
                visited.insert(p.clone());
                proof {
                    assert forall|pp: Seq<char>| #[trigger]
                        visited.has(pp) implies discovered(
                        entry_code@,
                        resolver@,
                        files@,
                        normalizer@,
                        *sources,
                        pp,
                    ) by {
                        if !vis0.has(pp) {
                            assert(pp == p@);
                            assert(path_discovered(
                                entry_code@,
                                resolver@,
                                files@,
                                normalizer@,
                                *sources,
                                p@,
                                steps_p,
                            ));
                        }
                    }
                }
                let inserted = first_party.insert_if_absent(nm.clone(), p.clone());
                proof {
                    visited.lemma_card_le(files@);
                    assert(visited.has(p@));
                    if !inserted {
                        assert(fp0.has_key(nm@));
                        assert(spec_resolve(resolver@, nm@, files@) == Some(fp0.val_of(nm@)));
                        assert(first_party.val_of(nm@) == p@);
                    } else {
                        assert(first_party.val_of(nm@) == p@);
                    }
                    assert forall|k: Seq<char>| #[trigger]
                        first_party.has_key(k) implies spec_normalize(normalizer@, k) == k
                        && spec_resolve(resolver@, k, files@) == Some(first_party.val_of(k))
                        && files@.contains(first_party.val_of(k)) && visited.has(
                        first_party.val_of(k),
                    ) by {
                        if fp0.has_key(k) {
                            assert(first_party.val_of(k) == fp0.val_of(k));
                        } else {
                            assert(k == nm@);
                        }
                    }
                    assert forall|pp: Seq<char>| #[trigger]
                        visited.has(pp) implies files@.contains(pp) && exists|k: Seq<char>|
                        first_party.has_key(k) && #[trigger] first_party.val_of(k) == pp by {
                        if vis0.has(pp) {
                            let k0 = choose|k0: Seq<char>|
                                fp0.has_key(k0) && #[trigger] fp0.val_of(k0) == pp;
                            assert(first_party.has_key(k0) && first_party.val_of(k0) == pp);
                        } else {
                            assert(pp == p@);
                            assert(first_party.has_key(nm@) && first_party.val_of(nm@) == pp);
                        }
                    }
                }
                let source_code = match sources.get(p.as_str()) {
                    Some(c) => Some(c.clone()),
                    None => None,
                };
                match source_code {
                    Some(code2) => {
                        let refs2 = scan_refs(code2.as_str());
                        proof {
                            assert(code2@ == sources.val_of(p@));
                        }
                        let ghost un1 = unresolved;
                        absorb_refs(
                            &refs2,
                            Ghost(code2@),
                            resolver,
                            normalizer,
                            files,
                            &visited,
                            &mut unresolved,
                            &mut qnames,
                            &mut qpaths,
                        );
                        proof {
                            assert forall|j: int|
                                0 <= j < qpaths.deep_view().len() implies files@.contains(
                                #[trigger] qpaths.deep_view()[j],
                            ) by {
                                assert(queue_entry_ok(
                                    qnames.deep_view(),
                                    qpaths.deep_view(),
                                    resolver@,
                                    files@,
                                    normalizer@,
                                    j,
                                ));
                                lemma_resolve_first_template_wins(
                                    resolver@,
                                    qnames.deep_view()[j],
                                    files@,
                                );
                            }
                            assert forall|j: int| #![trigger qpaths.deep_view()[j]]
                                0 <= j < qpaths.deep_view().len() implies discovered(
                                entry_code@,
                                resolver@,
                                files@,
                                normalizer@,
                                *sources,
                                qpaths.deep_view()[j],
                            ) by {
                                if j < qp0.len() {
                                    assert(qpaths.deep_view()[j] == qp0[j]);
                                } else {
                                    assert(resolves_from(
                                        code2@,
                                        resolver@,
                                        files@,
                                        normalizer@,
                                        qpaths.deep_view()[j],
                                    ));
                                    assert(sources.has_key(p@));
                                    assert(path_discovered(
                                        entry_code@,
                                        resolver@,
                                        files@,
                                        normalizer@,
                                        *sources,
                                        p@,
                                        steps_p,
                                    ));
                                    assert(path_discovered(
                                        entry_code@,
                                        resolver@,
                                        files@,
                                        normalizer@,
                                        *sources,
                                        qpaths.deep_view()[j],
                                        steps_p + 1,
                                    ));
                                }
                            }
                            assert forall|u: Seq<char>| #[trigger]
                                unresolved.has(u) implies unresolved_discovered(
                                entry_code@,
                                resolver@,
                                files@,
                                normalizer@,
                                *sources,
                                u,
                            ) by {
                                if !un1.has(u) {
                                    assert(fails_from(code2@, resolver@, files@, normalizer@, u));
                                    assert(path_discovered(
                                        entry_code@,
                                        resolver@,
                                        files@,
                                        normalizer@,
                                        *sources,
                                        p@,
                                        steps_p,
                                    ));
                                    assert(sources.has_key(p@));
                                }
                            }
                        }
                    },
                    None => {},
                }
                proof {
                    assert forall|x: Seq<char>| qp0.contains(x) implies qpaths.deep_view()
                        .contains(x) by {
                        let w = choose|w: int| 0 <= w < qp0.len() && qp0[w] == x;
                        assert(qpaths.deep_view()[w] == x);
                    }
                    lemma_absorbed_mono(
                        entry_code@,
                        resolver@,
                        files@,
                        normalizer@,
                        vis0,
                        un0,
                        qp0,
                        visited,
                        unresolved,
                        qpaths.deep_view(),
                    );
                    assert forall|pp: Seq<char>|
                        visited.has(pp) && sources.has_key(pp) implies refs_absorbed(
                        #[trigger] sources.val_of(pp),
                        resolver@,
                        files@,
                        normalizer@,
                        visited,
                        unresolved,
                        qpaths.deep_view(),
                    ) by {
                        if vis0.has(pp) {
                            lemma_absorbed_mono(
                                sources.val_of(pp),
                                resolver@,
                                files@,
                                normalizer@,
                                vis0,
                                un0,
                                qp0,
                                visited,
                                unresolved,
                                qpaths.deep_view(),
                            );
                        } else {
                            assert(pp == p@);
                        }
                    }
                }
            } else {
                proof {
                    assert(visited.has(p@));
                }
            }
            qi += 1;
        }
        proof {
            assert forall|x: Seq<char>| qpaths.deep_view().contains(x) implies visited.has(x) by {
                let w = choose|w: int|
                    0 <= w < qpaths.deep_view().len() && qpaths.deep_view()[w] == x;
                assert(visited.has(qpaths.deep_view()[w]));
            }
            lemma_absorbed_drain(
                entry_code@,
                resolver@,
                files@,
                normalizer@,
                visited,
                unresolved,
                qpaths.deep_view(),
            );
            assert forall|p: Seq<char>|
                visited.has(p) && sources.has_key(p) implies refs_absorbed(
                #[trigger] sources.val_of(p),
                resolver@,
                files@,
                normalizer@,
                visited,
                unresolved,
                Seq::<Seq<char>>::empty(),
            ) by {
                lemma_absorbed_drain(
                    sources.val_of(p),
                    resolver@,
                    files@,
                    normalizer@,
                    visited,
                    unresolved,
                    qpaths.deep_view(),
                );
            }
        }
        ModuleGraph { first_party, unresolved, visited }
    }
}

} // verus!
