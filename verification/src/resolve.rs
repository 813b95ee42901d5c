//! Module resolution: dotted names are turned into path fragments and
//! substituted into ordered `?` templates; the first candidate that names an
//! existing file wins. Which files exist is passed in explicitly as a
//! `FileListing`, so resolution itself is a pure function.

use vstd::prelude::*;

use crate::text::{replace_all, str_eq, str_replace_all};

verus! {

/// The files known to exist, as plain paths. Callers that resolve against a
/// real tree enumerate it once and hand the listing in.
pub struct FileListing {
    paths: Vec<String>,
}

impl View for FileListing {
    type V = Seq<Seq<char>>;

    closed spec fn view(&self) -> Seq<Seq<char>> {
        self.paths.deep_view()
    }
}

impl FileListing {
    pub fn new(paths: Vec<String>) -> (r: Self)
        ensures
            r@ == paths.deep_view(),
    {
        FileListing { paths }
    }

    pub fn empty() -> (r: Self)
        ensures
            r@ == Seq::<Seq<char>>::empty(),
    {
        let r = FileListing { paths: Vec::new() };
        proof {
            assert(r@ =~~= Seq::<Seq<char>>::empty());
        }
        r
    }

    pub fn contains_path(&self, p: &str) -> (r: bool)
        ensures
            r == self@.contains(p@),
    {
        let n = self.paths.len();
        let mut i: usize = 0;
        while i < n
            invariant
                i <= n,
                n == self.paths@.len(),
                self@ == self.paths.deep_view(),
                forall|j: int| 0 <= j < i ==> self@[j] != p@,
            decreases n - i,
        {
            if str_eq(self.paths[i].as_str(), p) {
                proof {
                    assert(self@[i as int] == p@);
                }
                return true;
            }
            i += 1;
        }
        false
    }
}

/// A dotted name as a path fragment: every `.` becomes `/`.
pub open spec fn spec_dotted_to_path(name: Seq<char>) -> Seq<char> {
    replace_all(name, "."@, "/"@)
}

/// The path a template produces for a name: the `?` placeholder replaced by
/// the name's path fragment.
pub open spec fn spec_candidate(template: Seq<char>, name: Seq<char>) -> Seq<char> {
    replace_all(template, "?"@, spec_dotted_to_path(name))
}

/// The first template whose candidate path is listed, in template order.
pub open spec fn spec_resolve(
    templates: Seq<Seq<char>>,
    name: Seq<char>,
    files: Seq<Seq<char>>,
) -> Option<Seq<char>>
    decreases templates.len(),
{
    if templates.len() == 0 {
        None
    } else if files.contains(spec_candidate(templates[0], name)) {
        Some(spec_candidate(templates[0], name))
    } else {
        spec_resolve(templates.skip(1), name, files)
    }
}

/// Template order decides: a resolved path always comes from the first
/// template whose candidate exists, never from a later one.
pub proof fn lemma_resolve_first_template_wins(
    templates: Seq<Seq<char>>,
    name: Seq<char>,
    files: Seq<Seq<char>>,
)
    ensures
        match spec_resolve(templates, name, files) {
            Some(p) => exists|i: int|
                {
                    &&& 0 <= i < templates.len()
                    &&& p == spec_candidate(templates[i], name)
                    &&& files.contains(spec_candidate(templates[i], name))
                    &&& forall|j: int| 0 <= j < i ==> !files.contains(
                        spec_candidate(templates[j], name),
                    )
                },
            None => forall|j: int|
                0 <= j < templates.len() ==> !files.contains(spec_candidate(templates[j], name)),
        },
    decreases templates.len(),
{
    if templates.len() == 0 {
    } else if files.contains(spec_candidate(templates[0], name)) {
        let p = spec_candidate(templates[0], name);
        assert(0 <= 0 < templates.len() && p == spec_candidate(templates[0], name)
            && files.contains(spec_candidate(templates[0], name)) && forall|j: int|
            0 <= j < 0 ==> !files.contains(spec_candidate(templates[j], name)));
    } else {
        let rest = templates.skip(1);
        lemma_resolve_first_template_wins(rest, name, files);
        assert(forall|j: int| 0 <= j < rest.len() ==> rest[j] == templates[j + 1]);
        match spec_resolve(rest, name, files) {
            Some(p) => {
                let i = choose|i: int|
                    {
                        &&& 0 <= i < rest.len()
                        &&& p == spec_candidate(rest[i], name)
                        &&& files.contains(spec_candidate(rest[i], name))
                        &&& forall|j: int| 0 <= j < i ==> !files.contains(
                            spec_candidate(rest[j], name),
                        )
                    };
                assert forall|j: int| 0 <= j < i + 1 implies !files.contains(
                    spec_candidate(templates[j], name),
                ) by {
                    if j >= 1 {
                        assert(templates[j] == rest[j - 1]);
                    }
                }
                assert(0 <= i + 1 < templates.len() && p == spec_candidate(templates[i + 1], name)
                    && files.contains(spec_candidate(templates[i + 1], name)));
            },
            None => {
                assert forall|j: int| 0 <= j < templates.len() implies !files.contains(
                    spec_candidate(templates[j], name),
                ) by {
                    if j >= 1 {
                        assert(templates[j] == rest[j - 1]);
                    }
                }
            },
        }
    }
}

/// Ordered `?` path templates for first-party modules.
pub struct ModuleResolver {
    templates: Vec<String>,
}

impl View for ModuleResolver {
    type V = Seq<Seq<char>>;

    closed spec fn view(&self) -> Seq<Seq<char>> {
        self.templates.deep_view()
    }
}

impl ModuleResolver {
    pub fn new(templates: Vec<String>) -> (r: Self)
        ensures
            r@ == templates.deep_view(),
    {
        ModuleResolver { templates }
    }

    /// `a.b.c` becomes `a/b/c`.
    pub fn dotted_to_path(name: &str) -> (r: String)
        ensures
            r@ == spec_dotted_to_path(name@),
    {
        str_replace_all(name, ".", "/")
    }

    /// The first template (in order) whose substituted path is listed.
    pub fn resolve(&self, module_name: &str, files: &FileListing) -> (r: Option<String>)
        ensures
            match r {
                Some(p) => spec_resolve(self@, module_name@, files@) == Some(p@),
                None => spec_resolve(self@, module_name@, files@) is None,
            },
    {
        let mod_path = Self::dotted_to_path(module_name);
        let n = self.templates.len();
        let mut i: usize = 0;
        proof {
            assert(self@.skip(0) =~~= self@);
        }
        while i < n
            invariant
                i <= n,
                n == self.templates@.len(),
                self@ == self.templates.deep_view(),
                mod_path@ == spec_dotted_to_path(module_name@),
                spec_resolve(self@, module_name@, files@) == spec_resolve(
                    self@.skip(i as int),
                    module_name@,
                    files@,
                ),
            decreases n - i,
        {
            let candidate = str_replace_all(self.templates[i].as_str(), "?", mod_path.as_str());
            proof {
                assert(self@.skip(i as int)[0] == self@[i as int]);
                assert(candidate@ == spec_candidate(self@[i as int], module_name@));
            }
            if files.contains_path(candidate.as_str()) {
                return Some(candidate);
            }
            i += 1;
            proof {
                assert(self@.skip(i - 1).skip(1) =~~= self@.skip(i as int));
            }
        }
        None
    }
}

} // verus!
