use vstd::prelude::*;

use crate::text::str_eq;
use crate::{
    entries_view, spec_parse_log, Cookie, Date, Log, LogEntryView, LogParseError,
};

verus! {

/// How many entries of `entries` fall on `date` and carry the cookie `ck`.
pub open spec fn occ(entries: Seq<LogEntryView>, date: Date, ck: Seq<char>) -> nat
    decreases entries.len(),
{
    if entries.len() == 0 {
        0
    } else {
        occ(entries.drop_last(), date, ck) + (if entries.last().timestamp.date == date
            && entries.last().cookie == ck {
            1nat
        } else {
            0nat
        })
    }
}

/// A cookie's count never exceeds the number of entries.
pub proof fn lemma_occ_le_len(entries: Seq<LogEntryView>, date: Date, ck: Seq<char>)
    ensures
        occ(entries, date, ck) <= entries.len(),
    decreases entries.len(),
{
    if entries.len() > 0 {
        lemma_occ_le_len(entries.drop_last(), date, ck);
    }
}

/// Whether some cookie in `cs` has exactly the characters `ck`.
pub open spec fn in_cookies(cs: Seq<Cookie>, ck: Seq<char>) -> bool {
    exists|i: int| 0 <= i < cs.len() && cs[i]@ == ck
}

/// Whether `ck` occurs on `date` and no cookie occurs more often there.
pub open spec fn is_max_cookie(entries: Seq<LogEntryView>, date: Date, ck: Seq<char>) -> bool {
    occ(entries, date, ck) > 0 && (forall|ck2: Seq<char>| #[trigger] occ(entries, date, ck2)
        <= occ(entries, date, ck))
}

/// Whether some index below `upto` holds the cookie `ck` with count `best`.
pub open spec fn chosen(
    keys: Seq<Cookie>,
    counts: Seq<usize>,
    upto: int,
    best: usize,
    ck: Seq<char>,
) -> bool {
    exists|j2: int| 0 <= j2 < upto && #[trigger] keys[j2]@ == ck && counts[j2] == best
}

proof fn lemma_chosen_mono(
    keys: Seq<Cookie>,
    counts: Seq<usize>,
    j1: int,
    j2: int,
    best: usize,
    ck: Seq<char>,
)
    requires
        chosen(keys, counts, j1, best, ck),
        j1 <= j2,
    ensures
        chosen(keys, counts, j2, best, ck),
{
    let w = choose|w: int| 0 <= w < j1 && #[trigger] keys[w]@ == ck && counts[w] == best;
    assert(0 <= w < j2 && keys[w]@ == ck && counts[w] == best);
}

/// The index of the cookie with the characters of `ck` in `keys`, if any.
fn find_cookie(keys: &Vec<Cookie>, ck: &str) -> (r: Option<usize>)
    ensures
        match r {
            Some(j) => j < keys@.len() && keys@[j as int]@ == ck@,
            None => forall|j: int| 0 <= j < keys@.len() ==> keys@[j]@ != ck@,
        },
{
    let n = keys.len();
    let mut j: usize = 0;
    while j < n
        invariant
            j <= n,
            n == keys@.len(),
            forall|j2: int| 0 <= j2 < j ==> keys@[j2]@ != ck@,
        decreases n - j,
    {
        if str_eq(keys[j].0.as_str(), ck) {
            return Some(j);
        }
        j = j + 1;
    }
    None
}

/// Parses `data` as a cookie log and returns the cookies most often seen
/// on `date`: exactly those cookies that occur on that date at least once
/// and that no other cookie outnumbers there, each once, or an empty
/// collection when no entry falls on the date. A parse failure is handed
/// back unchanged.
pub fn max_occurence_cookies(data: &str, date: Date) -> (r: Result<Vec<Cookie>, LogParseError>)
    ensures
        match r {
            Err(e) => spec_parse_log(data@) == Err::<Seq<LogEntryView>, LogParseError>(e),
            Ok(cs) => spec_parse_log(data@) is Ok && {
                let entries = spec_parse_log(data@)->Ok_0;
                &&& (forall|a: int, b: int| 0 <= a < b < cs@.len() ==> cs@[a]@ != cs@[b]@)
                &&& (forall|ck: Seq<char>|
                    #![trigger in_cookies(cs@, ck)]
                    #![trigger is_max_cookie(entries, date, ck)]
                    in_cookies(cs@, ck) <==> is_max_cookie(entries, date, ck))
            },
        },
{
    let v: Vec<crate::LogEntry> = match Log::from_str(data) {
        Err(e) => {
            return Err(e);
        },
        Ok(Log(v)) => v,
    };
    let ghost ev = entries_view(v@);
    let n = v.len();
    let mut keys: Vec<Cookie> = Vec::new();
    let mut counts: Vec<usize> = Vec::new();
    let mut i: usize = 0;
    proof {
        assert(ev.take(0) =~= Seq::<LogEntryView>::empty());
    }
    while i < n
        invariant
            i <= n,
            n == v@.len(),
            ev == entries_view(v@),
            keys@.len() == counts@.len(),
            forall|a: int, b: int| 0 <= a < b < keys@.len() ==> keys@[a]@ != keys@[b]@,
            forall|j: int| 0 <= j < keys@.len() ==> #[trigger] counts@[j] as nat == occ(
                ev.take(i as int),
                date,
                keys@[j]@,
            ),
            forall|j: int| 0 <= j < counts@.len() ==> counts@[j] >= 1,
            forall|ck: Seq<char>| #[trigger] occ(ev.take(i as int), date, ck) > 0 ==> in_cookies(
                keys@,
                ck,
            ),
        decreases n - i,
    {
        proof {
            assert(ev.take(i + 1).drop_last() =~= ev.take(i as int));
            assert(ev.take(i + 1).last() == ev[i as int]);
            assert(ev[i as int] == v@[i as int]@);
            assert forall|ck: Seq<char>| #[trigger] occ(ev.take(i + 1), date, ck) == occ(
                ev.take(i as int),
                date,
                ck,
            ) + (if v@[i as int]@.timestamp.date == date && v@[i as int]@.cookie == ck {
                1nat
            } else {
                0nat
            }) by {}
        }
        if v[i].timestamp.date == date {
            match find_cookie(&keys, v[i].cookie.0.as_str()) {
                Some(j) => {
                    proof {
                        lemma_occ_le_len(ev.take(i as int), date, keys@[j as int]@);
                    }
                    let c = counts[j];
                    counts[j] = c + 1;
                },
                None => {
                    let ghost keys0 = keys@;
                    keys.push(Cookie(v[i].cookie.0.clone()));
                    counts.push(1);
                    proof {
                        assert(keys@.drop_last() =~= keys0);
                        assert(keys@.last()@ == v@[i as int]@.cookie);
                        if occ(ev.take(i as int), date, v@[i as int]@.cookie) > 0 {
                            let w = choose|a: int|
                                0 <= a < keys0.len() && keys0[a]@ == v@[i as int]@.cookie;
                            assert(false);
                        }
                        assert forall|ck: Seq<char>| #[trigger] occ(ev.take(i + 1), date, ck) > 0
                            implies in_cookies(keys@, ck) by {
                            if occ(ev.take(i as int), date, ck) > 0 {
                                let w = choose|a: int| 0 <= a < keys0.len() && keys0[a]@ == ck;
                                assert(keys@[w]@ == ck);
                            } else {
                                assert(ck == v@[i as int]@.cookie);
                                assert(keys@[keys@.len() - 1]@ == ck);
                            }
                        }
                    }
                },
            }
        }
        i = i + 1;
    }
    proof {
        assert(ev.take(n as int) =~= ev);
    }
    let m = counts.len();
    let mut best: usize = 0;
    let mut j: usize = 0;
    while j < m
        invariant
            j <= m,
            m == counts@.len(),
            forall|j2: int| 0 <= j2 < j ==> counts@[j2] <= best,
            best == 0 || exists|j2: int| 0 <= j2 < j && counts@[j2] == best,
        decreases m - j,
    {
        if counts[j] > best {
            best = counts[j];
        }
        j = j + 1;
    }
    let mut result: Vec<Cookie> = Vec::new();
    j = 0;
    while j < m
        invariant
            j <= m,
            m == counts@.len(),
            m == keys@.len(),
            forall|a: int, b: int| 0 <= a < b < keys@.len() ==> keys@[a]@ != keys@[b]@,
            forall|a: int| 0 <= a < result@.len() ==> chosen(
                keys@,
                counts@,
                j as int,
                best,
                #[trigger] result@[a]@,
            ),
            forall|j2: int| 0 <= j2 < j && counts@[j2] == best ==> in_cookies(
                result@,
                #[trigger] keys@[j2]@,
            ),
            forall|a: int, b: int| 0 <= a < b < result@.len() ==> result@[a]@ != result@[b]@,
        decreases m - j,
    {
        if counts[j] == best {
            let ghost result0 = result@;
            result.push(Cookie(keys[j].0.clone()));
            proof {
                assert(result@.drop_last() =~= result0);
                assert(result@.last()@ == keys@[j as int]@);
                assert(in_cookies(result@, keys@[j as int]@));
                assert forall|a: int| 0 <= a < result@.len() implies chosen(
                    keys@,
                    counts@,
                    j + 1,
                    best,
                    #[trigger] result@[a]@,
                ) by {
                    if a < result@.len() - 1 {
                        assert(result@[a]@ == result0[a]@);
                        lemma_chosen_mono(keys@, counts@, j as int, j + 1, best, result@[a]@);
                    } else {
                        assert(keys@[j as int]@ == result@[a]@ && counts@[j as int] == best);
                    }
                }
                assert forall|j2: int| 0 <= j2 < j + 1 && counts@[j2] == best implies in_cookies(
                    result@,
                    #[trigger] keys@[j2]@,
                ) by {
                    if j2 < j {
                        let w = choose|a: int|
                            0 <= a < result0.len() && result0[a]@ == keys@[j2]@;
                        assert(result@[w]@ == keys@[j2]@);
                    }
                }
            }
        } else {
            proof {
                assert forall|a: int| 0 <= a < result@.len() implies chosen(
                    keys@,
                    counts@,
                    j + 1,
                    best,
                    #[trigger] result@[a]@,
                ) by {
                    lemma_chosen_mono(keys@, counts@, j as int, j + 1, best, result@[a]@);
                }
            }
        }
        j = j + 1;
    }
    proof {
        assert forall|ck: Seq<char>| in_cookies(result@, ck) implies is_max_cookie(
            ev,
            date,
            ck,
        ) by {
            let a = choose|a: int| 0 <= a < result@.len() && result@[a]@ == ck;
            assert(chosen(keys@, counts@, m as int, best, result@[a]@));
            let j2 = choose|j2: int|
                0 <= j2 < m && #[trigger] keys@[j2]@ == result@[a]@ && counts@[j2] == best;
            assert(counts@[j2] as nat == occ(ev, date, keys@[j2]@));
            assert(occ(ev, date, ck) == best);
            assert(occ(ev, date, ck) > 0);
            assert forall|ck2: Seq<char>| #[trigger] occ(ev, date, ck2) <= occ(
                ev,
                date,
                ck,
            ) by {
                if occ(ev, date, ck2) > 0 {
                    let w = choose|w: int| 0 <= w < keys@.len() && keys@[w]@ == ck2;
                    assert(counts@[w] as nat == occ(ev, date, ck2));
                    assert(counts@[w] <= best);
                }
            }
        }
        assert forall|ck: Seq<char>| is_max_cookie(ev, date, ck) implies in_cookies(
            result@,
            ck,
        ) by {
            assert(occ(ev, date, ck) > 0);
            let j2 = choose|j2: int| 0 <= j2 < keys@.len() && keys@[j2]@ == ck;
            assert(counts@[j2] as nat == occ(ev, date, ck));
            assert(counts@[j2] <= best);
            assert(counts@[j2] >= 1);
            assert(best >= 1);
            let jb = choose|jb: int| 0 <= jb < m && counts@[jb] == best;
            assert(counts@[jb] as nat == occ(ev, date, keys@[jb]@));
            assert(occ(ev, date, keys@[jb]@) <= occ(ev, date, ck));
            assert(counts@[j2] == best);
            assert(in_cookies(result@, keys@[j2]@));
        }
    }
    Ok(result)
}

} // verus!
