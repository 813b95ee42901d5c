//! Name normalization: a `NameNormalizer` holds the configured index-file
//! suffixes and collapses a dotted module name by repeatedly stripping a
//! trailing `.<suffix>` until none of the suffixes matches.

use vstd::prelude::*;

use crate::bundle::BindRequire;
use crate::replace::ReplaceRule;
use crate::text::{ends_with, str_ends_with};
use crate::vendor::VendorSpec;

verus! {

/// The dotted form of a suffix: `.` followed by the suffix text.
pub open spec fn dot_suffix(suf: Seq<char>) -> Seq<char> {
    seq!['.'] + suf
}

/// Index of the first suffix in `sufs` whose dotted form ends `s`.
pub open spec fn first_strippable(sufs: Seq<Seq<char>>, s: Seq<char>) -> Option<int>
    decreases sufs.len(),
{
    if sufs.len() == 0 {
        None
    } else if ends_with(s, dot_suffix(sufs[0])) {
        Some(0int)
    } else {
        match first_strippable(sufs.skip(1), s) {
            None => None,
            Some(i) => Some(i + 1),
        }
    }
}

pub proof fn lemma_first_strippable(sufs: Seq<Seq<char>>, s: Seq<char>)
    ensures
        match first_strippable(sufs, s) {
            Some(i) => 0 <= i < sufs.len() && ends_with(s, dot_suffix(sufs[i])) && forall|j: int|
                0 <= j < i ==> !ends_with(s, dot_suffix(sufs[j])),
            None => forall|j: int| 0 <= j < sufs.len() ==> !ends_with(s, dot_suffix(sufs[j])),
        },
    decreases sufs.len(),
{
    if sufs.len() == 0 {
    } else if ends_with(s, dot_suffix(sufs[0])) {
    } else {
        let rest = sufs.skip(1);
        lemma_first_strippable(rest, s);
        assert(forall|j: int| 0 <= j < rest.len() ==> rest[j] == sufs[j + 1]);
        match first_strippable(rest, s) {
            Some(i) => {
                assert(sufs[i + 1] == rest[i]);
                assert forall|j: int| 1 <= j < i + 1 implies !ends_with(s, dot_suffix(sufs[j])) by {
                    assert(rest[j - 1] == sufs[j]);
                }
            },
            None => {
                assert forall|j: int| 1 <= j < sufs.len() implies !ends_with(
                    s,
                    dot_suffix(sufs[j]),
                ) by {
                    assert(rest[j - 1] == sufs[j]);
                }
            },
        }
    }
}

/// Converse: a first-match scan pins `first_strippable` down.
pub proof fn lemma_first_strippable_some(sufs: Seq<Seq<char>>, s: Seq<char>, i: int)
    requires
        0 <= i < sufs.len(),
        ends_with(s, dot_suffix(sufs[i])),
        forall|j: int| 0 <= j < i ==> !ends_with(s, dot_suffix(sufs[j])),
    ensures
        first_strippable(sufs, s) == Some(i),
    decreases sufs.len(),
{
    if ends_with(s, dot_suffix(sufs[0])) {
        assert(i == 0);
    } else {
        let rest = sufs.skip(1);
        assert(forall|j: int| 0 <= j < rest.len() ==> rest[j] == sufs[j + 1]);
        lemma_first_strippable_some(rest, s, i - 1);
    }
}

pub proof fn lemma_first_strippable_none(sufs: Seq<Seq<char>>, s: Seq<char>)
    requires
        forall|j: int| 0 <= j < sufs.len() ==> !ends_with(s, dot_suffix(sufs[j])),
    ensures
        first_strippable(sufs, s) is None,
    decreases sufs.len(),
{
    if sufs.len() > 0 {
        let rest = sufs.skip(1);
        assert(forall|j: int| 0 <= j < rest.len() ==> rest[j] == sufs[j + 1]);
        lemma_first_strippable_none(rest, s);
    }
}

/// The normalized form of `s` under the suffix list `sufs`: repeatedly strip
/// the first matching dotted suffix until none matches.
pub open spec fn spec_normalize(sufs: Seq<Seq<char>>, s: Seq<char>) -> Seq<char>
    decreases s.len(),
{
    match first_strippable(sufs, s) {
        None => s,
        Some(i) => {
            if 0 <= i < sufs.len() && ends_with(s, dot_suffix(sufs[i])) {
                spec_normalize(sufs, s.take(s.len() - 1 - sufs[i].len()))
            } else {
                s
            }
        },
    }
}

/// Normalization is idempotent: a second pass never strips anything more.
pub proof fn lemma_normalize_idempotent(sufs: Seq<Seq<char>>, s: Seq<char>)
    ensures
        spec_normalize(sufs, spec_normalize(sufs, s)) == spec_normalize(sufs, s),
    decreases s.len(),
{
    lemma_first_strippable(sufs, s);
    match first_strippable(sufs, s) {
        None => {
        },
        Some(i) => {
            lemma_normalize_idempotent(sufs, s.take(s.len() - 1 - sufs[i].len()));
        },
    }
}

/// An immutable set of suffixes, applied in the order given.
#[derive(Clone, Debug)]
pub struct NameNormalizer {
    suffixes: Vec<String>,
}

impl View for NameNormalizer {
    type V = Seq<Seq<char>>;

    closed spec fn view(&self) -> Seq<Seq<char>> {
        self.suffixes.deep_view()
    }
}

impl Default for NameNormalizer {
    fn default() -> (r: Self)
        ensures
            r@ == Seq::<Seq<char>>::empty(),
    {
        NameNormalizer { suffixes: Vec::new() }
    }
}

impl NameNormalizer {
    pub fn new(suffixes: Vec<String>) -> (r: Self)
        ensures
            r@ == suffixes.deep_view(),
    {
        NameNormalizer { suffixes }
    }

    /// Strips configured `.suffix` endings until none of them matches.
    pub fn normalize(&self, name: &str) -> (r: String)
        ensures
            r@ == spec_normalize(self@, name@),
    {
        let mut cur: String = name.to_owned();
        loop
            invariant
                spec_normalize(self@, name@) == spec_normalize(self@, cur@),
            decreases cur@.len(),
        {
            let n = self.suffixes.len();
            let mut k: usize = 0;
            let mut hit: Option<usize> = None;
            while k < n && hit.is_none()
                invariant
                    k <= n,
                    n == self@.len(),
                    self@ == self.suffixes.deep_view(),
                    match hit {
                        Some(h) => h < n && h < k && ends_with(cur@, dot_suffix(self@[h as int]))
                            && forall|j: int| 0 <= j < h ==> !ends_with(
                            cur@,
                            dot_suffix(self@[j]),
                        ),
                        None => forall|j: int| 0 <= j < k ==> !ends_with(
                            cur@,
                            dot_suffix(self@[j]),
                        ),
                    },
                decreases n - k,
            {
                let mut dotted = String::new();
                dotted.append(".");
                dotted.append(self.suffixes[k].as_str());
                proof {
                    reveal_strlit(".");
                    assert(dotted@ =~= dot_suffix(self@[k as int]));
                }
                if str_ends_with(cur.as_str(), dotted.as_str()) {
                    hit = Some(k);
                }
                k += 1;
            }
            match hit {
                None => {
                    proof {
                        lemma_first_strippable_none(self@, cur@);
                    }
                    return cur;
                },
                Some(h) => {
                    proof {
                        lemma_first_strippable_some(self@, cur@, h as int);
                    }
                    let suf_chars = self.suffixes[h].as_str().unicode_len();
                    let cur_len = cur.as_str().unicode_len();
                    let next = cur.as_str().substring_char(0, cur_len - 1 - suf_chars).to_owned();
                    proof {
                        assert(next@ =~= cur@.take(cur@.len() - 1 - self@[h as int].len()));
                    }
                    cur = next;
                },
            }
        }
    }
}

/// The effective options of one bundling run, assembled by the caller from
/// its configuration sources.
#[derive(Debug, Clone)]
pub struct BundleOptions {
    pub lua: String,
    pub paths: Vec<String>,
    pub preludes: Vec<String>,
    pub replaces: Vec<ReplaceRule>,
    pub vendor_specs: Vec<VendorSpec>,
    pub entry: Option<String>,
    pub bind: BindRequire,
    pub diagnostics: bool,
    pub redact_base: Option<String>,
    pub normalizer: NameNormalizer,
}

} // verus!
