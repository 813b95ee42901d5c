//! Ordered collections keyed by module name: a map and a set backed by
//! vectors kept strictly sorted in lexicographic order, so that iterating by
//! index already yields names in ascending order and no name appears twice.

use vstd::prelude::*;

use crate::text::{lex_lt, str_eq, str_lex_lt};

verus! {

pub proof fn lemma_char_inj(c: char, d: char)
    requires
        c as u32 == d as u32,
    ensures
        c == d,
{
}

pub proof fn lemma_lex_irrefl(a: Seq<char>)
    ensures
        !lex_lt(a, a),
    decreases a.len(),
{
    if a.len() > 0 {
        lemma_lex_irrefl(a.skip(1));
    }
}

pub proof fn lemma_lex_trichotomy(a: Seq<char>, b: Seq<char>)
    ensures
        lex_lt(a, b) || lex_lt(b, a) || a == b,
    decreases a.len() + b.len(),
{
    if b.len() == 0 {
        if a.len() == 0 {
            assert(a =~= b);
        }
    } else if a.len() == 0 {
    } else if (a[0] as u32) < (b[0] as u32) {
    } else if (a[0] as u32) > (b[0] as u32) {
    } else {
        assert((a[0] as u32) == (b[0] as u32));
        lemma_char_inj(a[0], b[0]);
        assert(a[0] == b[0]);
        lemma_lex_trichotomy(a.skip(1), b.skip(1));
        if a.skip(1) == b.skip(1) {
            assert(a.skip(1).len() == b.skip(1).len());
            assert(a.len() == b.len());
            assert forall|i: int| 0 <= i < a.len() implies a[i] == b[i] by {
                if i > 0 {
                    assert(a.skip(1)[i - 1] == b.skip(1)[i - 1]);
                    assert(a.skip(1)[i - 1] == a[i]);
                    assert(b.skip(1)[i - 1] == b[i]);
                }
            }
            assert(a =~= b);
        }
    }
}

/// A map from names to strings whose key vector is strictly ascending.
#[derive(Debug)]
pub struct NameMap {
    keys: Vec<String>,
    vals: Vec<String>,
}

/// A set of names kept strictly ascending.
#[derive(Debug)]
pub struct NameSet {
    items: Vec<String>,
}

impl NameMap {
    pub closed spec fn keys_v(&self) -> Seq<Seq<char>> {
        self.keys.deep_view()
    }

    pub closed spec fn vals_v(&self) -> Seq<Seq<char>> {
        self.vals.deep_view()
    }

    /// Keys are strictly sorted (hence unique) and paired with values.
    pub open spec fn wf(&self) -> bool {
        &&& self.keys_v().len() == self.vals_v().len()
        &&& forall|i: int, j: int|
            0 <= i < j < self.keys_v().len() ==> lex_lt(
                #[trigger] self.keys_v()[i],
                #[trigger] self.keys_v()[j],
            )
    }

    pub open spec fn has_key(&self, k: Seq<char>) -> bool {
        self.keys_v().contains(k)
    }

    /// The value bound to `k`.
    pub open spec fn val_of(&self, k: Seq<char>) -> Seq<char> {
        self.vals_v()[self.key_index(k)]
    }

    pub open spec fn key_index(&self, k: Seq<char>) -> int {
        choose|i: int| 0 <= i < self.keys_v().len() && self.keys_v()[i] == k
    }

    pub proof fn lemma_key_index(&self, k: Seq<char>)
        requires
            self.wf(),
            self.has_key(k),
        ensures
            0 <= self.key_index(k) < self.keys_v().len(),
            self.keys_v()[self.key_index(k)] == k,
            forall|i: int|
                0 <= i < self.keys_v().len() && self.keys_v()[i] == k ==> i == self.key_index(k),
    {
        let i0 = self.key_index(k);
        assert(0 <= i0 < self.keys_v().len() && self.keys_v()[i0] == k);
        assert forall|i: int|
            0 <= i < self.keys_v().len() && self.keys_v()[i] == k implies i == i0 by {
            if i < i0 {
                assert(lex_lt(self.keys_v()[i], self.keys_v()[i0]));
                lemma_lex_irrefl(k);
                assert(false);
            } else if i > i0 {
                assert(lex_lt(self.keys_v()[i0], self.keys_v()[i]));
                lemma_lex_irrefl(k);
                assert(false);
            }
        }
    }

    pub fn new() -> (r: Self)
        ensures
            r.wf(),
            r.keys_v().len() == 0,
            forall|k: Seq<char>| !r.has_key(k),
    {
        let r = NameMap { keys: Vec::new(), vals: Vec::new() };
        proof {
            assert(r.keys_v() =~~= Seq::<Seq<char>>::empty());
        }
        r
    }

    pub fn len(&self) -> (r: usize)
        ensures
            r == self.keys_v().len(),
    {
        self.keys.len()
    }

    pub fn key_at(&self, i: usize) -> (r: &String)
        requires
            i < self.keys_v().len(),
        ensures
            r@ == self.keys_v()[i as int],
    {
        &self.keys[i]
    }

    pub fn val_at(&self, i: usize) -> (r: &String)
        requires
            self.wf(),
            i < self.keys_v().len(),
        ensures
            r@ == self.vals_v()[i as int],
    {
        &self.vals[i]
    }

    /// Position of the first key not below `k`.
    fn lower_bound(&self, k: &str) -> (r: usize)
        requires
            self.wf(),
        ensures
            r <= self.keys_v().len(),
            forall|j: int| 0 <= j < r ==> lex_lt(#[trigger] self.keys_v()[j], k@),
            r < self.keys_v().len() ==> !lex_lt(self.keys_v()[r as int], k@),
    {
        let n = self.keys.len();
        let mut i: usize = 0;
        while i < n && str_lex_lt(self.keys[i].as_str(), k)
            invariant
                i <= n,
                n == self.keys_v().len(),
                forall|j: int| 0 <= j < i ==> lex_lt(#[trigger] self.keys_v()[j], k@),
            decreases n - i,
        {
            i += 1;
        }
        i
    }

    pub fn get(&self, k: &str) -> (r: Option<&String>)
        requires
            self.wf(),
        ensures
            match r {
                Some(v) => self.has_key(k@) && v@ == self.val_of(k@),
                None => !self.has_key(k@),
            },
    {
        let i = self.lower_bound(k);
        if i < self.keys.len() && str_eq(self.keys[i].as_str(), k) {
            proof {
                assert(self.keys_v()[i as int] == k@);
                assert(self.has_key(k@));
                self.lemma_key_index(k@);
            }
            Some(&self.vals[i])
        } else {
            proof {
                if self.has_key(k@) {
                    let j = choose|j: int|
                        0 <= j < self.keys_v().len() && self.keys_v()[j] == k@;
                    lemma_lex_irrefl(k@);
                    if j < i as int {
                        assert(lex_lt(self.keys_v()[j], k@));
                    } else if j > i as int {
                        assert(lex_lt(self.keys_v()[i as int], self.keys_v()[j]));
                        lemma_lex_trichotomy(self.keys_v()[i as int], k@);
                    } else {
                        lemma_lex_trichotomy(self.keys_v()[i as int], k@);
                    }
                }
            }
            None
        }
    }

    pub fn contains_key(&self, k: &str) -> (r: bool)
        requires
            self.wf(),
        ensures
            r == self.has_key(k@),
    {
        match self.get(k) {
            Some(_) => true,
            None => false,
        }
    }

    /// Inserts unless the key is present: the first binding of a name wins.
    #[verifier::rlimit(100)]
    pub fn insert_if_absent(&mut self, k: String, v: String) -> (r: bool)
        requires
            old(self).wf(),
        ensures
            final(self).wf(),
            r == !old(self).has_key(k@),
            final(self).has_key(k@),
            forall|q: Seq<char>| #[trigger]
                final(self).has_key(q) <==> old(self).has_key(q) || q == k@,
            final(self).val_of(k@) == if old(self).has_key(k@) {
                old(self).val_of(k@)
            } else {
                v@
            },
            forall|q: Seq<char>|
                old(self).has_key(q) && q != k@ ==> #[trigger] final(self).val_of(q) == old(
                    self,
                ).val_of(q),
            final(self).keys_v().len() == old(self).keys_v().len() + (if old(self).has_key(k@) {
                0int
            } else {
                1int
            }),
    {
        let ghost pre = *self;
        let i = self.lower_bound(k.as_str());
        if i < self.keys.len() && str_eq(self.keys[i].as_str(), k.as_str()) {
            proof {
                assert(self.keys_v()[i as int] == k@);
                assert(self.has_key(k@));
                assert forall|q: Seq<char>| #[trigger]
                    self.has_key(q) <==> pre.has_key(q) || q == k@ by {}
            }
            false
        } else {
            proof {
                lemma_lex_irrefl(k@);
                if pre.has_key(k@) {
                    let j = choose|j: int| 0 <= j < pre.keys_v().len() && pre.keys_v()[j] == k@;
                    if j < i as int {
                        assert(lex_lt(pre.keys_v()[j], k@));
                    } else if j > i as int {
                        assert(lex_lt(pre.keys_v()[i as int], pre.keys_v()[j]));
                        lemma_lex_trichotomy(pre.keys_v()[i as int], k@);
                    } else {
                        lemma_lex_trichotomy(pre.keys_v()[i as int], k@);
                    }
                }
                assert(!pre.has_key(k@));
            }
            self.keys.insert(i, k);
            self.vals.insert(i, v);
            proof {
                let ks = self.keys_v();
                assert(ks =~~= pre.keys_v().insert(i as int, k@));
                assert(self.vals_v() =~~= pre.vals_v().insert(i as int, v@));
                pre.keys_v().insert_ensures(i as int, k@);
                pre.vals_v().insert_ensures(i as int, v@);
                assert(ks[i as int] == k@);
                assert(forall|j: int| 0 <= j < i ==> #[trigger] ks[j] == pre.keys_v()[j]);
                assert(forall|j: int|
                    i <= j < pre.keys_v().len() ==> #[trigger] ks[j + 1] == pre.keys_v()[j]);
                assert(forall|j: int|
                    i as int + 1 <= j < ks.len() ==> #[trigger] ks[j] == pre.keys_v()[j - 1]);
                assert(forall|j: int| 0 <= j < i ==> #[trigger] self.vals_v()[j] == pre.vals_v()[j]);
                assert(forall|j: int|
                    i as int + 1 <= j < self.vals_v().len() ==> #[trigger] self.vals_v()[j]
                        == pre.vals_v()[j - 1]);
                assert forall|a: int, b: int| 0 <= a < b < ks.len() implies lex_lt(
                    #[trigger] ks[a],
                    #[trigger] ks[b],
                ) by {
                    if b == i as int {
                        assert(ks[a] == pre.keys_v()[a]);
                        assert(lex_lt(pre.keys_v()[a], k@));
                    } else if a == i as int {
                        assert(ks[b] == pre.keys_v()[b - 1]);
                        assert(!lex_lt(pre.keys_v()[i as int], k@));
                        lemma_lex_trichotomy(pre.keys_v()[i as int], k@);
                        if pre.keys_v()[i as int] == k@ {
                            assert(pre.has_key(k@));
                        }
                        assert(lex_lt(k@, pre.keys_v()[i as int]));
                        if b - 1 > i as int {
                            assert(lex_lt(pre.keys_v()[i as int], pre.keys_v()[b - 1]));
                            lemma_lex_trans(k@, pre.keys_v()[i as int], pre.keys_v()[b - 1]);
                        }
                    } else {
                        let pa: int = if a < i as int { a } else { a - 1 };
                        let pb: int = if b < i as int { b } else { b - 1 };
                        assert(ks[a] == pre.keys_v()[pa]);
                        assert(ks[b] == pre.keys_v()[pb]);
                        assert(0 <= pa < pb < pre.keys_v().len());
                        assert(lex_lt(pre.keys_v()[pa], pre.keys_v()[pb]));
                    }
                }
                assert forall|q: Seq<char>| #[trigger]
                    self.has_key(q) <==> pre.has_key(q) || q == k@ by {
                    if self.has_key(q) {
                        let j = choose|j: int| 0 <= j < ks.len() && ks[j] == q;
                        if j != i as int {
                            assert(pre.keys_v()[if j < i as int {
                                j
                            } else {
                                j - 1
                            }] == q);
                            assert(pre.has_key(q));
                        }
                    }
                    if pre.has_key(q) {
                        let j = choose|j: int|
                            0 <= j < pre.keys_v().len() && pre.keys_v()[j] == q;
                        if j < i as int {
                            assert(ks[j] == q);
                        } else {
                            assert(ks[j + 1] == q);
                        }
                        assert(self.has_key(q));
                    }
                    if q == k@ {
                        assert(ks[i as int] == q);
                        assert(self.has_key(q));
                    }
                }
                self.lemma_key_index(k@);
                assert(self.val_of(k@) == v@);
                assert forall|q: Seq<char>|
                    pre.has_key(q) && q != k@ implies #[trigger] self.val_of(q) == pre.val_of(
                    q,
                ) by {
                    pre.lemma_key_index(q);
                    self.lemma_key_index(q);
                    let jp = pre.key_index(q);
                    if jp < i as int {
                        assert(ks[jp] == q);
                        assert(self.vals_v()[jp] == pre.vals_v()[jp]);
                    } else {
                        assert(ks[jp + 1] == q);
                        assert(self.vals_v()[jp + 1] == pre.vals_v()[jp]);
                    }
                }
            }
            true
        }
    }
}

pub proof fn lemma_lex_trans(a: Seq<char>, b: Seq<char>, c: Seq<char>)
    requires
        lex_lt(a, b),
        lex_lt(b, c),
    ensures
        lex_lt(a, c),
    decreases a.len() + b.len() + c.len(),
{
    if c.len() == 0 {
    } else if a.len() == 0 {
    } else if b.len() == 0 {
    } else {
        if (a[0] as u32) < (b[0] as u32) {
            if (b[0] as u32) <= (c[0] as u32) {
            }
        } else if (a[0] as u32) == (b[0] as u32) && (b[0] as u32) == (c[0] as u32) {
            lemma_lex_trans(a.skip(1), b.skip(1), c.skip(1));
        }
    }
}

impl NameSet {
    pub closed spec fn items_v(&self) -> Seq<Seq<char>> {
        self.items.deep_view()
    }

    pub open spec fn wf(&self) -> bool {
        forall|i: int, j: int|
            0 <= i < j < self.items_v().len() ==> lex_lt(
                #[trigger] self.items_v()[i],
                #[trigger] self.items_v()[j],
            )
    }

    pub open spec fn has(&self, k: Seq<char>) -> bool {
        self.items_v().contains(k)
    }

    pub fn new() -> (r: Self)
        ensures
            r.wf(),
            r.items_v().len() == 0,
            forall|k: Seq<char>| !r.has(k),
    {
        let r = NameSet { items: Vec::new() };
        proof {
            assert(r.items_v() =~~= Seq::<Seq<char>>::empty());
        }
        r
    }

    pub fn len(&self) -> (r: usize)
        ensures
            r == self.items_v().len(),
    {
        self.items.len()
    }

    pub fn at(&self, i: usize) -> (r: &String)
        requires
            i < self.items_v().len(),
        ensures
            r@ == self.items_v()[i as int],
    {
        &self.items[i]
    }

    pub fn contains(&self, k: &str) -> (r: bool)
        requires
            self.wf(),
        ensures
            r == self.has(k@),
    {
        let n = self.items.len();
        let mut i: usize = 0;
        while i < n
            invariant
                i <= n,
                n == self.items_v().len(),
                forall|j: int| 0 <= j < i ==> self.items_v()[j] != k@,
            decreases n - i,
        {
            if str_eq(self.items[i].as_str(), k) {
                proof {
                    assert(self.items_v()[i as int] == k@);
                }
                return true;
            }
            i += 1;
        }
        false
    }

    /// Adds the name; adding a present name changes nothing.
    #[verifier::rlimit(100)]
    pub fn insert(&mut self, k: String)
        requires
            old(self).wf(),
        ensures
            final(self).wf(),
            final(self).has(k@),
            forall|q: Seq<char>| #[trigger]
                final(self).has(q) <==> old(self).has(q) || q == k@,
            final(self).items_v().len() == old(self).items_v().len() + (if old(self).has(k@) {
                0int
            } else {
                1int
            }),
    {
        let ghost pre = *self;
        let n = self.items.len();
        let mut i: usize = 0;
        while i < n && str_lex_lt(self.items[i].as_str(), k.as_str())
            invariant
                i <= n,
                n == self.items_v().len(),
                forall|j: int| 0 <= j < i ==> lex_lt(#[trigger] self.items_v()[j], k@),
            decreases n - i,
        {
            i += 1;
        }
        if i < self.items.len() && str_eq(self.items[i].as_str(), k.as_str()) {
            proof {
                assert(self.items_v()[i as int] == k@);
            }
            return ;
        }
        proof {
            lemma_lex_irrefl(k@);
            if pre.has(k@) {
                let j = choose|j: int| 0 <= j < pre.items_v().len() && pre.items_v()[j] == k@;
                if j < i as int {
                    assert(lex_lt(pre.items_v()[j], k@));
                } else if j > i as int {
                    assert(lex_lt(pre.items_v()[i as int], pre.items_v()[j]));
                    lemma_lex_trichotomy(pre.items_v()[i as int], k@);
                } else {
                    lemma_lex_trichotomy(pre.items_v()[i as int], k@);
                }
            }
            assert(!pre.has(k@));
        }
        self.items.insert(i, k);
        proof {
            let ks = self.items_v();
            assert(ks =~~= pre.items_v().insert(i as int, k@));
            pre.items_v().insert_ensures(i as int, k@);
            assert(ks[i as int] == k@);
            assert(forall|j: int| 0 <= j < i ==> #[trigger] ks[j] == pre.items_v()[j]);
            assert(forall|j: int|
                i as int + 1 <= j < ks.len() ==> #[trigger] ks[j] == pre.items_v()[j - 1]);
            assert forall|a: int, b: int| 0 <= a < b < ks.len() implies lex_lt(
                #[trigger] ks[a],
                #[trigger] ks[b],
            ) by {
                if b == i as int {
                    assert(ks[a] == pre.items_v()[a]);
                    assert(lex_lt(pre.items_v()[a], k@));
                } else if a == i as int {
                    assert(ks[b] == pre.items_v()[b - 1]);
                    assert(!lex_lt(pre.items_v()[i as int], k@));
                    lemma_lex_trichotomy(pre.items_v()[i as int], k@);
                    if pre.items_v()[i as int] == k@ {
                        assert(pre.has(k@));
                    }
                    assert(lex_lt(k@, pre.items_v()[i as int]));
                    if b - 1 > i as int {
                        assert(lex_lt(pre.items_v()[i as int], pre.items_v()[b - 1]));
                        lemma_lex_trans(k@, pre.items_v()[i as int], pre.items_v()[b - 1]);
                    }
                } else {
                    let pa: int = if a < i as int { a } else { a - 1 };
                    let pb: int = if b < i as int { b } else { b - 1 };
                    assert(ks[a] == pre.items_v()[pa]);
                    assert(ks[b] == pre.items_v()[pb]);
                    assert(0 <= pa < pb < pre.items_v().len());
                    assert(lex_lt(pre.items_v()[pa], pre.items_v()[pb]));
                }
            }
            assert forall|q: Seq<char>| #[trigger] self.has(q) <==> pre.has(q) || q == k@ by {
                if self.has(q) {
                    let j = choose|j: int| 0 <= j < ks.len() && ks[j] == q;
                    if j != i as int {
                        assert(pre.items_v()[if j < i as int {
                            j
                        } else {
                            j - 1
                        }] == q);
                        assert(pre.has(q));
                    }
                }
                if pre.has(q) {
                    let j = choose|j: int| 0 <= j < pre.items_v().len() && pre.items_v()[j] == q;
                    if j < i as int {
                        assert(ks[j] == q);
                    } else {
                        assert(ks[j + 1] == q);
                    }
                    assert(self.has(q));
                }
                if q == k@ {
                    assert(ks[i as int] == q);
                    assert(self.has(q));
                }
            }
        }
    }
}

impl NameSet {
    /// A strictly sorted set of names all drawn from `files` cannot hold more
    /// names than `files` has entries.
    pub proof fn lemma_card_le(&self, files: Seq<Seq<char>>)
        requires
            self.wf(),
            forall|q: Seq<char>| self.has(q) ==> files.contains(q),
        ensures
            self.items_v().len() <= files.len(),
    {
        let items = self.items_v();
        assert(items.no_duplicates()) by {
            assert forall|i: int, j: int|
                0 <= i < items.len() && 0 <= j < items.len() && i != j implies items[i]
                != items[j] by {
                if i < j {
                    assert(lex_lt(items[i], items[j]));
                    lemma_lex_irrefl(items[i]);
                } else {
                    assert(lex_lt(items[j], items[i]));
                    lemma_lex_irrefl(items[i]);
                }
            }
        }
        items.unique_seq_to_set();
        files.lemma_cardinality_of_set();
        assert forall|x: Seq<char>| items.to_set().contains(x) implies files.to_set().contains(
            x,
        ) by {
            assert(items.contains(x));
            assert(self.has(x));
            assert(files.contains(x));
        }
        assert(items.to_set().subset_of(files.to_set()));
        vstd::set_lib::lemma_len_subset(items.to_set(), files.to_set());
    }
}

} // verus!
