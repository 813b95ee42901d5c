//! Verified text primitives shared by the whole crate: prefix/suffix tests,
//! substring search, splitting, trimming, substring replacement, and
//! lexicographic comparison, all specified over `Seq<char>` views.

use vstd::prelude::*;

verus! {

/// `p` is a prefix of `s`.
pub open spec fn starts_with(s: Seq<char>, p: Seq<char>) -> bool {
    p.len() <= s.len() && s.subrange(0, p.len() as int) == p
}

/// `p` is a suffix of `s`.
pub open spec fn ends_with(s: Seq<char>, p: Seq<char>) -> bool {
    p.len() <= s.len() && s.subrange(s.len() - p.len(), s.len() as int) == p
}

/// `p` occurs in `s` at position `i`.
pub open spec fn occurs_at(s: Seq<char>, p: Seq<char>, i: int) -> bool {
    0 <= i && i + p.len() <= s.len() && s.subrange(i, i + p.len()) == p
}

/// `p` occurs somewhere in `s`.
pub open spec fn contains_seq(s: Seq<char>, p: Seq<char>) -> bool {
    exists|i: int| occurs_at(s, p, i)
}

/// Index of the first occurrence of the character `c` in `s`.
pub open spec fn find_in(s: Seq<char>, c: char) -> Option<int>
    decreases s.len(),
{
    if s.len() == 0 {
        None
    } else if s[0] == c {
        Some(0int)
    } else {
        match find_in(s.skip(1), c) {
            None => None,
            Some(i) => Some(i + 1),
        }
    }
}

pub proof fn lemma_find_in(s: Seq<char>, c: char)
    ensures
        match find_in(s, c) {
            Some(i) => 0 <= i < s.len() && s[i] == c && forall|j: int| 0 <= j < i ==> s[j] != c,
            None => forall|j: int| 0 <= j < s.len() ==> s[j] != c,
        },
    decreases s.len(),
{
    if s.len() == 0 {
    } else if s[0] == c {
    } else {
        let rest = s.skip(1);
        lemma_find_in(rest, c);
        assert(forall|j: int| 0 <= j < rest.len() ==> rest[j] == s[j + 1]);
        match find_in(rest, c) {
            Some(i) => {
                assert(s[i + 1] == rest[i]);
                assert forall|j: int| 1 <= j < i + 1 implies s[j] != c by {
                    assert(rest[j - 1] == s[j]);
                }
            },
            None => {
                assert forall|j: int| 1 <= j < s.len() implies s[j] != c by {
                    assert(rest[j - 1] == s[j]);
                }
            },
        }
    }
}

/// The pieces of `s` between occurrences of the separator `c`.
pub open spec fn split_char(s: Seq<char>, c: char) -> Seq<Seq<char>>
    decreases s.len(),
{
    match find_in(s, c) {
        None => seq![s],
        Some(i) => {
            if 0 <= i < s.len() {
                seq![s.take(i)] + split_char(s.skip(i + 1), c)
            } else {
                seq![s]
            }
        },
    }
}

/// The text before and after the first occurrence of `c`, if `c` occurs.
pub open spec fn split_once_at(s: Seq<char>, c: char) -> Option<(Seq<char>, Seq<char>)> {
    match find_in(s, c) {
        None => None,
        Some(i) => Some((s.take(i), s.skip(i + 1))),
    }
}

pub open spec fn is_space(c: char) -> bool {
    c == ' ' || c == '\t' || c == '\r' || c == '\n'
}

pub open spec fn trim_front(s: Seq<char>) -> Seq<char>
    decreases s.len(),
{
    if s.len() > 0 && is_space(s[0]) {
        trim_front(s.skip(1))
    } else {
        s
    }
}

pub open spec fn trim_back(s: Seq<char>) -> Seq<char>
    decreases s.len(),
{
    if s.len() > 0 && is_space(s[s.len() - 1]) {
        trim_back(s.take(s.len() - 1))
    } else {
        s
    }
}

/// `s` with leading and trailing blanks removed.
pub open spec fn trimmed(s: Seq<char>) -> Seq<char> {
    trim_back(trim_front(s))
}

/// `s` with every occurrence of `pat` replaced by `rep`, scanning left to
/// right without revisiting replaced text.
pub open spec fn replace_all(s: Seq<char>, pat: Seq<char>, rep: Seq<char>) -> Seq<char>
    decreases s.len(),
{
    if pat.len() == 0 || s.len() == 0 {
        s
    } else if starts_with(s, pat) {
        rep + replace_all(s.skip(pat.len() as int), pat, rep)
    } else {
        seq![s[0]] + replace_all(s.skip(1), pat, rep)
    }
}

/// Strict lexicographic order on character sequences by code point, which
/// agrees with byte-wise order on the UTF-8 encodings.
pub open spec fn lex_lt(a: Seq<char>, b: Seq<char>) -> bool
    decreases a.len(),
{
    if b.len() == 0 {
        false
    } else if a.len() == 0 {
        true
    } else if (a[0] as u32) < (b[0] as u32) {
        true
    } else if (a[0] as u32) > (b[0] as u32) {
        false
    } else {
        lex_lt(a.skip(1), b.skip(1))
    }
}

pub fn str_eq(a: &str, b: &str) -> (r: bool)
    ensures
        r == (a@ == b@),
{
    let al = a.unicode_len();
    let bl = b.unicode_len();
    if al != bl {
        return false;
    }
    let mut i: usize = 0;
    while i < al
        invariant
            i <= al,
            al == a@.len(),
            al == b@.len(),
            forall|j: int| 0 <= j < i ==> a@[j] == b@[j],
        decreases al - i,
    {
        if a.get_char(i) != b.get_char(i) {
            return false;
        }
        i += 1;
    }
    proof {
        assert(a@ =~= b@);
    }
    true
}

/// Whether `pat` occurs in `s` starting at position `i`.
pub fn match_at(s: &str, pat: &str, i: usize) -> (r: bool)
    requires
        i <= s@.len(),
    ensures
        r == occurs_at(s@, pat@, i as int),
{
    let sl = s.unicode_len();
    let pl = pat.unicode_len();
    if pl > sl - i {
        return false;
    }
    let mut j: usize = 0;
    while j < pl
        invariant
            j <= pl,
            pl == pat@.len(),
            sl == s@.len(),
            i + pl <= sl,
            forall|k: int| 0 <= k < j ==> s@[i + k] == pat@[k],
        decreases pl - j,
    {
        if s.get_char(i + j) != pat.get_char(j) {
            proof {
                let sub = s@.subrange(i as int, i + pat@.len());
                assert(sub[j as int] == s@[i + j]);
            }
            return false;
        }
        j += 1;
    }
    proof {
        assert(s@.subrange(i as int, i + pat@.len()) =~= pat@);
    }
    true
}

pub fn str_starts_with(s: &str, p: &str) -> (r: bool)
    ensures
        r == starts_with(s@, p@),
{
    if p.unicode_len() > s.unicode_len() {
        return false;
    }
    let r = match_at(s, p, 0);
    proof {
        assert(s@.subrange(0, p@.len() as int) == s@.subrange(0int, 0 + p@.len() as int));
    }
    r
}

pub fn str_ends_with(s: &str, p: &str) -> (r: bool)
    ensures
        r == ends_with(s@, p@),
{
    let sl = s.unicode_len();
    let pl = p.unicode_len();
    if pl > sl {
        return false;
    }
    let r = match_at(s, p, sl - pl);
    proof {
        assert(s@.subrange(sl - pl, sl as int) == s@.subrange(sl - pl, sl - pl + p@.len()));
    }
    r
}

pub fn str_contains(s: &str, pat: &str) -> (r: bool)
    ensures
        r == contains_seq(s@, pat@),
{
    let sl = s.unicode_len();
    let pl = pat.unicode_len();
    if pl > sl {
        proof {
            assert(forall|i: int| !occurs_at(s@, pat@, i));
        }
        return false;
    }
    if pl == 0 {
        proof {
            assert(s@.subrange(0, 0) =~= pat@);
            assert(occurs_at(s@, pat@, 0));
        }
        return true;
    }
    let mut i: usize = 0;
    while i <= sl - pl
        invariant
            sl == s@.len(),
            pl == pat@.len(),
            0 < pl <= sl,
            i <= sl - pl + 1,
            forall|j: int| 0 <= j < i ==> !occurs_at(s@, pat@, j),
        decreases sl - i,
    {
        if match_at(s, pat, i) {
            return true;
        }
        i += 1;
    }
    proof {
        assert(forall|j: int| occurs_at(s@, pat@, j) ==> 0 <= j && j + pl <= sl);
    }
    false
}

/// First position of `c` in `s` at or after `from`.
pub fn find_char_from(s: &str, c: char, from: usize) -> (r: Option<usize>)
    requires
        from <= s@.len(),
    ensures
        match r {
            Some(i) => from <= i < s@.len() && s@[i as int] == c && forall|j: int|
                from <= j < i ==> s@[j] != c,
            None => forall|j: int| from <= j < s@.len() ==> s@[j] != c,
        },
{
    let sl = s.unicode_len();
    let mut i: usize = from;
    while i < sl
        invariant
            from <= i <= sl,
            sl == s@.len(),
            forall|j: int| from <= j < i ==> s@[j] != c,
        decreases sl - i,
    {
        if s.get_char(i) == c {
            return Some(i);
        }
        i += 1;
    }
    None
}

/// Converse direction: the scan results pin down `find_in`.
pub proof fn lemma_find_in_unique(s: Seq<char>, c: char, i: int)
    requires
        0 <= i < s.len(),
        s[i] == c,
        forall|j: int| 0 <= j < i ==> s[j] != c,
    ensures
        find_in(s, c) == Some(i),
    decreases s.len(),
{
    if s[0] == c {
    } else {
        assert(forall|j: int| 0 <= j < i - 1 ==> s.skip(1)[j] == s[j + 1]);
        lemma_find_in_unique(s.skip(1), c, i - 1);
    }
}

pub proof fn lemma_find_in_none(s: Seq<char>, c: char)
    requires
        forall|j: int| 0 <= j < s.len() ==> s[j] != c,
    ensures
        find_in(s, c) is None,
    decreases s.len(),
{
    if s.len() > 0 {
        assert(forall|j: int| 0 <= j < s.skip(1).len() ==> s.skip(1)[j] == s[j + 1]);
        lemma_find_in_none(s.skip(1), c);
    }
}

/// The two halves around the first `c`, when `c` occurs in `s`.
pub fn str_split_once(s: &str, c: char) -> (r: Option<(String, String)>)
    ensures
        match r {
            Some(p) => split_once_at(s@, c) == Some((p.0@, p.1@)),
            None => split_once_at(s@, c) is None,
        },
{
    match find_char_from(s, c, 0) {
        None => {
            proof {
                lemma_find_in_none(s@, c);
            }
            None
        },
        Some(i) => {
            proof {
                lemma_find_in_unique(s@, c, i as int);
            }
            let sl = s.unicode_len();
            let before = s.substring_char(0, i).to_owned();
            let after = s.substring_char(i + 1, sl).to_owned();
            proof {
                assert(before@ =~= s@.take(i as int));
                assert(after@ =~= s@.skip(i as int + 1));
            }
            Some((before, after))
        },
    }
}

/// The pieces of `s` between occurrences of `c`.
pub fn str_split(s: &str, c: char) -> (r: Vec<String>)
    ensures
        r.deep_view() == split_char(s@, c),
{
    let mut out: Vec<String> = Vec::new();
    let mut pos: usize = 0;
    let sl = s.unicode_len();
    proof {
        assert(s@.skip(0) =~= s@);
        assert(out.deep_view() =~~= Seq::<Seq<char>>::empty());
        assert(split_char(s@, c) =~~= out.deep_view() + split_char(s@.skip(0), c));
    }
    loop
        invariant_except_break
            pos <= sl,
            sl == s@.len(),
            split_char(s@, c) == out.deep_view() + split_char(s@.skip(pos as int), c),
        ensures
            split_char(s@, c) == out.deep_view(),
        decreases sl - pos,
    {
        let ghost prev = out.deep_view();
        let ghost rest = s@.skip(pos as int);
        match find_char_from(s, c, pos) {
            None => {
                let piece = s.substring_char(pos, sl).to_owned();
                out.push(piece);
                proof {
                    assert(forall|j: int| 0 <= j < rest.len() ==> rest[j] == s@[pos + j]);
                    lemma_find_in_none(rest, c);
                    assert(piece@ =~= rest);
                    assert(split_char(rest, c) =~~= seq![rest]);
                    assert(out.deep_view() =~~= prev + seq![rest]);
                    assert(split_char(s@, c) =~~= out.deep_view());
                }
                break;
            },
            Some(i) => {
                let piece = s.substring_char(pos, i).to_owned();
                out.push(piece);
                proof {
                    assert(forall|j: int| 0 <= j < rest.len() ==> rest[j] == s@[pos + j]);
                    lemma_find_in_unique(rest, c, i - pos as int);
                    assert(rest.take(i - pos as int) =~= s@.subrange(pos as int, i as int));
                    assert(piece@ =~= rest.take(i - pos as int));
                    assert(rest.skip(i - pos as int + 1) =~= s@.skip(i as int + 1));
                    assert(split_char(rest, c) =~~= seq![piece@] + split_char(
                        s@.skip(i as int + 1),
                        c,
                    ));
                    assert(out.deep_view() =~~= prev + seq![piece@]);
                    assert(split_char(s@, c) =~~= out.deep_view() + split_char(
                        s@.skip(i as int + 1),
                        c,
                    ));
                }
                pos = i + 1;
            },
        }
    }
    out
}

/// `s` without leading or trailing blanks.
pub fn str_trim(s: &str) -> (r: String)
    ensures
        r@ == trimmed(s@),
{
    let sl = s.unicode_len();
    let mut a: usize = 0;
    proof {
        assert(s@.skip(0) =~= s@);
    }
    while a < sl && is_space_x(s.get_char(a))
        invariant
            a <= sl,
            sl == s@.len(),
            trim_front(s@) == trim_front(s@.skip(a as int)),
        decreases sl - a,
    {
        a += 1;
        proof {
            assert(s@.skip(a - 1).skip(1) =~= s@.skip(a as int));
        }
    }
    let mut b: usize = sl;
    proof {
        if a < sl {
            assert(trim_front(s@.skip(a as int)) =~= s@.skip(a as int));
        } else {
            assert(s@.skip(a as int) =~= Seq::<char>::empty());
            assert(trim_front(s@) =~= s@.skip(a as int));
        }
        assert(s@.skip(a as int).take(sl - a) =~= s@.skip(a as int));
    }
    while b > a && is_space_x(s.get_char(b - 1))
        invariant
            a <= b <= sl,
            sl == s@.len(),
            a < sl ==> !is_space(s@[a as int]),
            trim_front(s@) == s@.skip(a as int),
            trim_back(s@.skip(a as int)) == trim_back(s@.skip(a as int).take(b - a)),
        decreases b,
    {
        b -= 1;
        proof {
            let piece = s@.skip(a as int).take(b + 1 - a);
            assert(piece.len() == b + 1 - a);
            assert(piece[piece.len() - 1] == s@[b as int]);
            assert(piece.take(piece.len() - 1) =~= s@.skip(a as int).take(b - a));
        }
    }
    let r = s.substring_char(a, b).to_owned();
    proof {
        let piece = s@.skip(a as int).take(b - a);
        if b > a {
            assert(piece[piece.len() - 1] == s@[b - 1]);
            assert(trim_back(piece) =~= piece);
        } else {
            assert(piece =~= Seq::<char>::empty());
            assert(trim_back(piece) =~= piece);
        }
        assert(r@ =~= piece);
    }
    r
}

pub fn is_space_x(c: char) -> (r: bool)
    ensures
        r == is_space(c),
{
    c == ' ' || c == '\t' || c == '\r' || c == '\n'
}

/// `s` with every occurrence of `pat` replaced by `rep`.
pub fn str_replace_all(s: &str, pat: &str, rep: &str) -> (r: String)
    ensures
        r@ == replace_all(s@, pat@, rep@),
{
    let sl = s.unicode_len();
    let pl = pat.unicode_len();
    if pl == 0 {
        return s.to_owned();
    }
    let mut out = String::new();
    let mut i: usize = 0;
    proof {
        assert(s@.skip(0) =~= s@);
        assert(replace_all(s@, pat@, rep@) =~= out@ + replace_all(s@.skip(0), pat@, rep@));
    }
    while i < sl
        invariant
            i <= sl,
            sl == s@.len(),
            pl == pat@.len(),
            pl > 0,
            replace_all(s@, pat@, rep@) == out@ + replace_all(s@.skip(i as int), pat@, rep@),
        decreases sl - i,
    {
        let ghost rest = s@.skip(i as int);
        let hit = if pl <= sl - i {
            match_at(s, pat, i)
        } else {
            false
        };
        proof {
            assert(forall|k: int| 0 <= k < rest.len() ==> rest[k] == s@[i + k]);
            if pl <= rest.len() {
                assert(rest.subrange(0, pl as int) =~= s@.subrange(i as int, i + pl));
            }
            assert(hit == starts_with(rest, pat@));
        }
        if hit {
            out.append(rep);
            i += pl;
            proof {
                assert(rest.skip(pl as int) =~= s@.skip(i as int));
                assert(replace_all(rest, pat@, rep@) == rep@ + replace_all(
                    s@.skip(i as int),
                    pat@,
                    rep@,
                ));
                assert(replace_all(s@, pat@, rep@) =~= out@ + replace_all(
                    s@.skip(i as int),
                    pat@,
                    rep@,
                ));
            }
        } else {
            let piece = s.substring_char(i, i + 1);
            out.append(piece);
            i += 1;
            proof {
                assert(rest.skip(1) =~= s@.skip(i as int));
                assert(piece@ =~= seq![rest[0]]);
                assert(replace_all(rest, pat@, rep@) == seq![rest[0]] + replace_all(
                    s@.skip(i as int),
                    pat@,
                    rep@,
                ));
                assert(replace_all(s@, pat@, rep@) =~= out@ + replace_all(
                    s@.skip(i as int),
                    pat@,
                    rep@,
                ));
            }
        }
    }
    proof {
        assert(s@.skip(i as int) =~= Seq::<char>::empty());
        assert(replace_all(s@, pat@, rep@) =~= out@);
    }
    out
}

/// Strict lexicographic comparison.
pub fn str_lex_lt(a: &str, b: &str) -> (r: bool)
    ensures
        r == lex_lt(a@, b@),
{
    let al = a.unicode_len();
    let bl = b.unicode_len();
    let mut i: usize = 0;
    proof {
        assert(a@.skip(0) =~= a@);
        assert(b@.skip(0) =~= b@);
    }
    loop
        invariant
            i <= al,
            i <= bl,
            al == a@.len(),
            bl == b@.len(),
            lex_lt(a@, b@) == lex_lt(a@.skip(i as int), b@.skip(i as int)),
        decreases al - i,
    {
        proof {
            if i < al {
                assert(a@.skip(i as int)[0] == a@[i as int]);
            }
            if i < bl {
                assert(b@.skip(i as int)[0] == b@[i as int]);
            }
        }
        if i == bl {
            return false;
        }
        if i == al {
            return true;
        }
        let ca = a.get_char(i) as u32;
        let cb = b.get_char(i) as u32;
        if ca < cb {
            return true;
        }
        if ca > cb {
            return false;
        }
        i += 1;
        proof {
            assert(a@.skip(i - 1).skip(1) =~= a@.skip(i as int));
            assert(b@.skip(i - 1).skip(1) =~= b@.skip(i as int));
        }
    }
}

} // verus!

