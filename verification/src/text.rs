use vstd::prelude::*;
use vstd::string::StrSliceExecFns;

verus! {

/// Whether the character `c` occurs anywhere in `s`.
pub open spec fn contains_char(s: Seq<char>, c: char) -> bool {
    exists|i: int| 0 <= i < s.len() && s[i] == c
}

/// The index of the first occurrence of `c` in `s`, or `s.len()` when `c`
/// does not occur.
pub open spec fn first_occ(s: Seq<char>, c: char) -> int
    decreases s.len(),
{
    if s.len() == 0 {
        0
    } else if s[0] == c {
        0
    } else {
        1 + first_occ(s.drop_first(), c)
    }
}

pub proof fn lemma_first_occ(s: Seq<char>, c: char)
    ensures
        0 <= first_occ(s, c) <= s.len(),
        contains_char(s, c) <==> first_occ(s, c) < s.len(),
        contains_char(s, c) ==> s[first_occ(s, c)] == c,
        forall|j: int| 0 <= j < first_occ(s, c) ==> s[j] != c,
    decreases s.len(),
{
    if s.len() == 0 {
        assert(!contains_char(s, c));
    } else if s[0] == c {
        assert(contains_char(s, c));
    } else {
        lemma_first_occ(s.drop_first(), c);
        let f = first_occ(s.drop_first(), c);
        if contains_char(s.drop_first(), c) {
            assert(s[1 + f] == c);
            assert(contains_char(s, c));
        } else {
            assert forall|j: int| 0 <= j < s.len() implies s[j] != c by {
                if j > 0 {
                    assert(s.drop_first()[j - 1] == s[j]);
                }
            }
            assert(!contains_char(s, c));
        }
        assert forall|j: int| 0 <= j < first_occ(s, c) implies s[j] != c by {
            if j > 0 {
                assert(s.drop_first()[j - 1] == s[j]);
            }
        }
    }
}

/// The first occurrence index is pinned down by its characterization.
pub proof fn lemma_first_occ_unique(s: Seq<char>, c: char, i: int)
    requires
        0 <= i < s.len(),
        s[i] == c,
        forall|j: int| 0 <= j < i ==> s[j] != c,
    ensures
        contains_char(s, c),
        first_occ(s, c) == i,
{
    lemma_first_occ(s, c);
    assert(contains_char(s, c));
    let f = first_occ(s, c);
    if f < i {
        assert(s[f] == c);
        assert(false);
    }
    if i < f {
        assert(s[i] != c);
        assert(false);
    }
}

/// Splitting `s` on every occurrence of `c`, left to right. Splitting the
/// empty sequence yields one empty part, as splitting a string does.
pub open spec fn spec_split(s: Seq<char>, c: char) -> Seq<Seq<char>>
    decreases s.len(),
{
    if s.len() == 0 {
        seq![Seq::<char>::empty()]
    } else if s[0] == c {
        seq![Seq::<char>::empty()] + spec_split(s.drop_first(), c)
    } else {
        let rest = spec_split(s.drop_first(), c);
        seq![seq![s[0]] + rest[0]] + rest.drop_first()
    }
}

pub proof fn lemma_split_len(s: Seq<char>, c: char)
    ensures
        spec_split(s, c).len() >= 1,
    decreases s.len(),
{
    if s.len() == 0 {
    } else {
        lemma_split_len(s.drop_first(), c);
    }
}

/// Unfolds one splitting step: the first part runs up to the first
/// separator, and the remaining parts split the rest; with no separator
/// the whole sequence is the single part.
pub proof fn lemma_split_step(s: Seq<char>, c: char)
    ensures
        contains_char(s, c) ==> spec_split(s, c) == seq![s.take(first_occ(s, c))] + spec_split(
            s.skip(first_occ(s, c) + 1),
            c,
        ),
        !contains_char(s, c) ==> spec_split(s, c) == seq![s],
    decreases s.len(),
{
    lemma_first_occ(s, c);
    if s.len() == 0 {
        assert(s =~= Seq::<char>::empty());
        assert(spec_split(s, c) =~= seq![s]);
    } else if s[0] == c {
        assert(first_occ(s, c) == 0);
        assert(s.take(0) =~= Seq::<char>::empty());
        assert(s.skip(1) =~= s.drop_first());
        assert(spec_split(s, c) == seq![s.take(0)] + spec_split(s.skip(1), c));
    } else {
        let s1 = s.drop_first();
        lemma_split_step(s1, c);
        lemma_split_len(s1, c);
        lemma_first_occ(s1, c);
        let rest = spec_split(s1, c);
        if contains_char(s1, c) {
            let f1 = first_occ(s1, c);
            assert(s[1 + f1] == c);
            assert(contains_char(s, c));
            let f = first_occ(s, c);
            assert(f == 1 + f1);
            assert(rest == seq![s1.take(f1)] + spec_split(s1.skip(f1 + 1), c));
            assert(rest[0] == s1.take(f1));
            assert(rest.drop_first() =~= spec_split(s1.skip(f1 + 1), c));
            assert(seq![s[0]] + s1.take(f1) =~= s.take(f));
            assert(s1.skip(f1 + 1) =~= s.skip(f + 1));
            assert(spec_split(s, c) =~= seq![s.take(f)] + spec_split(s.skip(f + 1), c));
        } else {
            assert forall|j: int| 0 <= j < s.len() implies s[j] != c by {
                if j > 0 {
                    assert(s1[j - 1] == s[j]);
                }
            }
            assert(!contains_char(s, c));
            assert(rest == seq![s1]);
            assert(rest.drop_first() =~= Seq::<Seq<char>>::empty());
            assert(seq![s[0]] + s1 =~= s);
            assert(spec_split(s, c) =~= seq![s]);
        }
    }
}

/// The lines of a document: the empty document has no lines at all, and
/// any other document splits on the newline character.
pub open spec fn spec_lines(s: Seq<char>) -> Seq<Seq<char>> {
    if s.len() == 0 {
        Seq::<Seq<char>>::empty()
    } else {
        spec_split(s, '\n')
    }
}

/// The views of a sequence of string slices.
pub open spec fn views_of_strs(parts: Seq<&str>) -> Seq<Seq<char>> {
    parts.map_values(|p: &str| p@)
}

/// The index of the first occurrence of `c` in `s` at or after `from`.
pub fn find_char(s: &str, from: usize, c: char) -> (r: Option<usize>)
    requires
        from <= s@.len(),
    ensures
        match r {
            Some(i) => from <= i < s@.len() && s@[i as int] == c && (forall|j: int|
                from <= j < i ==> s@[j] != c),
            None => forall|j: int| from <= j < s@.len() ==> s@[j] != c,
        },
{
    let n = s.unicode_len();
    let mut i: usize = from;
    while i < n
        invariant
            from <= i <= n,
            n == s@.len(),
            forall|j: int| from <= j < i ==> s@[j] != c,
        decreases n - i,
    {
        if s.get_char(i) == c {
            return Some(i);
        }
        i = i + 1;
    }
    None
}

/// Splits at the first occurrence of `c`: the part before it and the part
/// after it, or nothing when `c` does not occur.
pub fn split_once_char<'a>(s: &'a str, c: char) -> (r: Option<(&'a str, &'a str)>)
    ensures
        contains_char(s@, c) ==> (r matches Some(p) && p.0@ == s@.take(first_occ(s@, c)) && p.1@
            == s@.skip(first_occ(s@, c) + 1)),
        !contains_char(s@, c) ==> r is None,
{
    let n = s.unicode_len();
    match find_char(s, 0, c) {
        Some(i) => {
            proof {
                lemma_first_occ_unique(s@, c, i as int);
            }
            let before = s.substring_char(0, i);
            let after = s.substring_char(i + 1, n);
            proof {
                assert(before@ =~= s@.take(i as int));
                assert(after@ =~= s@.skip(i + 1));
            }
            Some((before, after))
        },
        None => {
            proof {
                assert(!contains_char(s@, c));
            }
            None
        },
    }
}

/// Splits `s` on every occurrence of `c`, left to right.
pub fn split_char<'a>(s: &'a str, c: char) -> (parts: Vec<&'a str>)
    ensures
        views_of_strs(parts@) == spec_split(s@, c),
{
    let n = s.unicode_len();
    let mut parts: Vec<&'a str> = Vec::new();
    let mut start: usize = 0;
    let mut done = false;
    proof {
        assert(s@.skip(0) =~= s@);
        assert(views_of_strs(parts@) + spec_split(s@, c) =~= spec_split(s@, c));
    }
    while !done
        invariant
            start <= n,
            n == s@.len(),
            !done ==> spec_split(s@, c) == views_of_strs(parts@) + spec_split(
                s@.skip(start as int),
                c,
            ),
            done ==> spec_split(s@, c) == views_of_strs(parts@),
        decreases n - start + (if done { 0int } else { 1int }),
    {
        match find_char(s, start, c) {
            Some(i) => {
                let part = s.substring_char(start, i);
                proof {
                    let tail = s@.skip(start as int);
                    lemma_first_occ_unique(tail, c, i - start);
                    lemma_split_step(tail, c);
                    assert(tail.take(i - start) =~= part@);
                    assert(tail.skip(i - start + 1) =~= s@.skip(i + 1));
                    assert(views_of_strs(parts@.push(part)) =~= views_of_strs(parts@) + seq![
                        part@,
                    ]);
                    assert(views_of_strs(parts@) + spec_split(tail, c) =~= (views_of_strs(parts@)
                        + seq![part@]) + spec_split(s@.skip(i + 1), c));
                }
                parts.push(part);
                start = i + 1;
            },
            None => {
                let part = s.substring_char(start, n);
                proof {
                    let tail = s@.skip(start as int);
                    assert forall|j: int| 0 <= j < tail.len() implies tail[j] != c by {
                        assert(tail[j] == s@[start + j]);
                    }
                    assert(!contains_char(tail, c));
                    lemma_split_step(tail, c);
                    assert(part@ =~= tail);
                    assert(views_of_strs(parts@.push(part)) =~= views_of_strs(parts@) + seq![
                        part@,
                    ]);
                    assert(views_of_strs(parts@) + spec_split(tail, c) =~= views_of_strs(
                        parts@.push(part),
                    ));
                }
                parts.push(part);
                done = true;
            },
        }
    }
    parts
}

/// Character-exact string equality.
pub fn str_eq(a: &str, b: &str) -> (r: bool)
    ensures
        r <==> a@ == b@,
{
    let na = a.unicode_len();
    let nb = b.unicode_len();
    if na != nb {
        return false;
    }
    let mut i: usize = 0;
    while i < na
        invariant
            i <= na,
            na == a@.len(),
            na == b@.len(),
            forall|j: int| 0 <= j < i ==> a@[j] == b@[j],
        decreases na - i,
    {
        if a.get_char(i) != b.get_char(i) {
            return false;
        }
        i = i + 1;
    }
    proof {
        assert(a@ =~= b@);
    }
    true
}

} // verus!
