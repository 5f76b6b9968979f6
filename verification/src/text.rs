//! Character-level helpers shared by the key codec and the route matcher.

use vstd::prelude::*;

verus! {

/// `String::push` of the standard library: the string grows by exactly the
/// given character, at its end.
pub assume_specification[ String::push ](s: &mut String, c: char)
    ensures
        final(s)@ == old(s)@.push(c),
;

/// `==` on `str` of the standard library: two string slices are equal exactly
/// when they hold the same characters in the same order.
pub assume_specification[ <str as PartialEq>::eq ](a: &str, b: &str) -> (r: bool)
    ensures
        r == (a@ == b@),
;

/// The characters of `s`, in order.
pub fn chars_of(s: &str) -> (v: Vec<char>)
    ensures
        v@ == s@,
{
    let mut v: Vec<char> = Vec::new();
    for c in it: s.chars()
        invariant
            it.seq() == s@,
            v@ == s@.take(it.index()),
    {
        v.push(c);
    }
    v
}

/// The string made of `v[from..to]`.
pub fn text_of(v: &Vec<char>, from: usize, to: usize) -> (s: String)
    requires
        from <= to <= v.len(),
    ensures
        s@ == v@.subrange(from as int, to as int),
{
    let mut s = String::new();
    let mut i: usize = from;
    while i < to
        invariant
            from <= i <= to <= v.len(),
            s@ == v@.subrange(from as int, i as int),
        decreases to - i,
    {
        s.push(v[i]);
        i = i + 1;
    }
    s
}

/// `i` is the position of the only occurrence of `c` in `s`.
pub open spec fn sole_at(s: Seq<char>, c: char, i: int) -> bool {
    &&& 0 <= i < s.len()
    &&& s[i] == c
    &&& forall|j: int| 0 <= j < s.len() && j != i ==> s[j] != c
}

/// The two sides of the only `c` in `s`; `None` where `s` holds no `c` or
/// more than one.
pub open spec fn split_sole(s: Seq<char>, c: char) -> Option<(Seq<char>, Seq<char>)> {
    if exists|i: int| sole_at(s, c, i) {
        let i = choose|i: int| sole_at(s, c, i);
        Some((s.take(i), s.skip(i + 1)))
    } else {
        None
    }
}

/// Wherever the only `c` of `s` stands, `split_sole` cuts there.
pub proof fn lemma_split_sole_at(s: Seq<char>, c: char, i: int)
    requires
        sole_at(s, c, i),
    ensures
        split_sole(s, c) == Some((s.take(i), s.skip(i + 1))),
{
    let k = choose|k: int| sole_at(s, c, k);
    assert(k == i);
}

/// A text without `c`, then `c`, then another text without `c`, splits back
/// into the two texts.
pub proof fn lemma_split_sole_joined(a: Seq<char>, c: char, b: Seq<char>)
    requires
        !a.contains(c),
        !b.contains(c),
    ensures
        split_sole(a + seq![c] + b, c) == Some((a, b)),
{
    let s = a + seq![c] + b;
    let i = a.len() as int;
    assert forall|j: int| 0 <= j < s.len() && j != i implies s[j] != c by {
        if j < i {
            assert(s[j] == a[j]);
            assert(a.contains(a[j]));
        } else {
            assert(s[j] == b[j - i - 1]);
            assert(b.contains(b[j - i - 1]));
        }
    }
    assert(sole_at(s, c, i));
    lemma_split_sole_at(s, c, i);
    assert(s.take(i) =~= a);
    assert(s.skip(i + 1) =~= b);
}

/// Cuts `s` at its only `c`.
pub fn split_at_sole(s: &str, c: char) -> (r: Option<(String, String)>)
    ensures
        match r {
            Some((a, b)) => split_sole(s@, c) == Some((a@, b@)),
            None => split_sole(s@, c) is None,
        },
{
    let v = chars_of(s);
    let n = v.len();
    let mut found: Option<usize> = None;
    let mut i: usize = 0;
    while i < n
        invariant
            i <= n,
            n == v.len(),
            v@ == s@,
            match found {
                Some(k) => k < i && v@[k as int] == c && forall|j: int|
                    0 <= j < i && j != k ==> v@[j] != c,
                None => forall|j: int| 0 <= j < i ==> v@[j] != c,
            },
        decreases n - i,
    {
        if v[i] == c {
            match found {
                Some(k) => {
                    proof {
                        assert forall|p: int| !sole_at(s@, c, p) by {
                            if sole_at(s@, c, p) {
                                if p == k as int {
                                    assert(s@[i as int] == c);
                                } else {
                                    assert(s@[k as int] == c);
                                }
                            }
                        }
                    }
                    return None;
                },
                None => {
                    found = Some(i);
                },
            }
        }
        i = i + 1;
    }
    match found {
        Some(k) => {
            proof {
                lemma_split_sole_at(s@, c, k as int);
            }
            Some((text_of(&v, 0, k), text_of(&v, k + 1, n)))
        },
        None => None,
    }
}

/// How often `c` occurs in `s`.
pub open spec fn occurrences(s: Seq<char>, c: char) -> nat
    decreases s.len(),
{
    if s.len() == 0 {
        0
    } else {
        occurrences(s.drop_last(), c) + if s.last() == c {
            1nat
        } else {
            0nat
        }
    }
}

/// A text holds no `c` exactly when `c` occurs in it zero times.
pub proof fn lemma_occurrences_none(s: Seq<char>, c: char)
    ensures
        occurrences(s, c) == 0 <==> forall|j: int| 0 <= j < s.len() ==> s[j] != c,
    decreases s.len(),
{
    if s.len() > 0 {
        let t = s.drop_last();
        lemma_occurrences_none(t, c);
        if occurrences(s, c) == 0 {
            assert forall|j: int| 0 <= j < s.len() implies s[j] != c by {
                if j < t.len() {
                    assert(t[j] == s[j]);
                }
            }
        }
        if forall|j: int| 0 <= j < s.len() ==> s[j] != c {
            assert forall|j: int| 0 <= j < t.len() implies t[j] != c by {
                assert(t[j] == s[j]);
            }
        }
    }
}

/// A text is cut at its only `c` exactly when `c` occurs in it once: with
/// no `c`, or with two or more, there is no cut.
pub proof fn lemma_split_sole_counts(s: Seq<char>, c: char)
    ensures
        split_sole(s, c) is Some <==> occurrences(s, c) == 1,
    decreases s.len(),
{
    if s.len() > 0 {
        let t = s.drop_last();
        let n = t.len() as int;
        lemma_split_sole_counts(t, c);
        lemma_occurrences_none(t, c);
        if split_sole(s, c) is Some {
            let i = choose|i: int| sole_at(s, c, i);
            if i == n {
                assert forall|j: int| 0 <= j < t.len() implies t[j] != c by {
                    assert(t[j] == s[j]);
                }
            } else {
                assert(sole_at(t, c, i)) by {
                    assert(t[i] == s[i]);
                    assert forall|j: int| 0 <= j < t.len() && j != i implies t[j] != c by {
                        assert(t[j] == s[j]);
                    }
                }
                assert(s[n] != c);
            }
        }
        if occurrences(s, c) == 1 {
            if s.last() == c {
                assert(sole_at(s, c, n)) by {
                    assert forall|j: int| 0 <= j < s.len() && j != n implies s[j] != c by {
                        assert(t[j] == s[j]);
                    }
                }
            } else {
                let i = choose|i: int| sole_at(t, c, i);
                assert(sole_at(s, c, i)) by {
                    assert(t[i] == s[i]);
                    assert forall|j: int| 0 <= j < s.len() && j != i implies s[j] != c by {
                        if j < n {
                            assert(t[j] == s[j]);
                        }
                    }
                }
            }
        }
    }
}

/// What is left of `s` after its prefix `p`; `None` where `s` does not
/// start with `p`.
pub open spec fn without_prefix(s: Seq<char>, p: Seq<char>) -> Option<Seq<char>> {
    if p.len() <= s.len() && s.take(p.len() as int) == p {
        Some(s.skip(p.len() as int))
    } else {
        None
    }
}

/// `s` without its last character where that is `c`, else `s` itself.
pub open spec fn without_last(s: Seq<char>, c: char) -> Seq<char> {
    if s.len() > 0 && s.last() == c {
        s.drop_last()
    } else {
        s
    }
}

/// Takes the prefix `prefix` off `s`.
pub fn strip_prefix(s: &str, prefix: &str) -> (r: Option<String>)
    ensures
        match r {
            Some(rest) => without_prefix(s@, prefix@) == Some(rest@),
            None => without_prefix(s@, prefix@) is None,
        },
{
    let v = chars_of(s);
    let p = chars_of(prefix);
    if p.len() > v.len() {
        return None;
    }
    let mut i: usize = 0;
    while i < p.len()
        invariant
            i <= p.len() <= v.len(),
            v@ == s@,
            p@ == prefix@,
            forall|j: int| 0 <= j < i ==> v@[j] == p@[j],
        decreases p.len() - i,
    {
        if v[i] != p[i] {
            proof {
                assert(s@.take(p@.len() as int)[i as int] == v@[i as int]);
            }
            return None;
        }
        i = i + 1;
    }
    proof {
        assert(s@.take(p@.len() as int) =~= p@);
    }
    Some(text_of(&v, p.len(), v.len()))
}

/// Takes the last character off `s` where it is `c`.
pub fn strip_last(s: &str, c: char) -> (r: String)
    ensures
        r@ == without_last(s@, c),
{
    let v = chars_of(s);
    let n = v.len();
    if n > 0 && v[n - 1] == c {
        let r = text_of(&v, 0, n - 1);
        assert(r@ =~= s@.drop_last());
        r
    } else {
        let r = text_of(&v, 0, n);
        assert(r@ =~= s@);
        r
    }
}

/// Whether `s` holds the character `c`.
pub fn contains_char(s: &str, c: char) -> (r: bool)
    ensures
        r == s@.contains(c),
{
    let mut found = false;
    for x in it: s.chars()
        invariant
            it.seq() == s@,
            found == s@.take(it.index()).contains(c),
    {
        proof {
            let i = it.index();
            let before = s@.take(i);
            let after = s@.take(i + 1);
            assert(after =~= before.push(x));
            if before.contains(c) {
                let j = choose|j: int| 0 <= j < before.len() && before[j] == c;
                assert(after[j] == c);
            }
            if x == c {
                assert(after[i] == c);
            }
            if after.contains(c) && x != c {
                let j = choose|j: int| 0 <= j < after.len() && after[j] == c;
                assert(before[j] == c);
            }
        }
        if x == c {
            found = true;
        }
    }
    proof {
        assert(s@.take(s@.len() as int) =~= s@);
    }
    found
}

} // verus!
