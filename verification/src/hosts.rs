//! The hosts to search: every host that Nova or Neutron reports, each once,
//! in the order of a sorted set of strings.

use vstd::prelude::*;
use crate::text::chars_of;

verus! {

/// `a` sorts before `b` from index `i` on, the two agreeing before `i`:
/// strings compare character by character (by code point,
/// which is their byte order in UTF-8), a proper prefix first.
pub open spec fn lex_lt_from(a: Seq<char>, b: Seq<char>, i: int) -> bool
    decreases a.len() - i,
{
    if i < 0 || i >= a.len() {
        0 <= i < b.len()
    } else if i >= b.len() {
        false
    } else if a[i] != b[i] {
        a[i] < b[i]
    } else {
        lex_lt_from(a, b, i + 1)
    }
}

/// `a` sorts before `b`, as `String`'s `Ord` orders them.
pub open spec fn str_lt(a: Seq<char>, b: Seq<char>) -> bool {
    lex_lt_from(a, b, 0)
}

proof fn lemma_lex_irreflexive(a: Seq<char>, i: int)
    requires
        0 <= i <= a.len(),
    ensures
        !lex_lt_from(a, a, i),
    decreases a.len() - i,
{
    if i < a.len() {
        lemma_lex_irreflexive(a, i + 1);
    }
}

proof fn lemma_lex_total(a: Seq<char>, b: Seq<char>, i: int)
    requires
        0 <= i <= a.len(),
        i <= b.len(),
        a.take(i) == b.take(i),
        a != b,
    ensures
        lex_lt_from(a, b, i) || lex_lt_from(b, a, i),
    decreases a.len() - i,
{
    if i < a.len() && i < b.len() && a[i] == b[i] {
        assert(a.take(i + 1) =~= a.take(i).push(a[i]));
        assert(b.take(i + 1) =~= b.take(i).push(b[i]));
        lemma_lex_total(a, b, i + 1);
    } else if i >= a.len() && i >= b.len() {
        assert(a =~= a.take(i));
        assert(b =~= b.take(i));
    } else if i < a.len() && i < b.len() {
    }
}

proof fn lemma_lex_asymmetric(a: Seq<char>, b: Seq<char>, i: int)
    requires
        0 <= i,
        lex_lt_from(a, b, i),
    ensures
        !lex_lt_from(b, a, i),
    decreases a.len() - i,
{
    if i < a.len() && i < b.len() && a[i] == b[i] {
        lemma_lex_asymmetric(a, b, i + 1);
    }
}

proof fn lemma_lex_transitive(a: Seq<char>, b: Seq<char>, c: Seq<char>, i: int)
    requires
        0 <= i,
        lex_lt_from(a, b, i),
        lex_lt_from(b, c, i),
    ensures
        lex_lt_from(a, c, i),
    decreases a.len() - i,
{
    if i < a.len() && i < b.len() && i < c.len() && a[i] == b[i] && b[i] == c[i] {
        lemma_lex_transitive(a, b, c, i + 1);
    }
}

/// Whether `a` sorts before `b` (see `str_lt`).
pub fn str_less(a: &Vec<char>, b: &Vec<char>) -> (r: bool)
    ensures
        r == str_lt(a@, b@),
{
    let mut i: usize = 0;
    while i < a.len() && i < b.len() && a[i] == b[i]
        invariant
            i <= a.len(),
            i <= b.len(),
            str_lt(a@, b@) == lex_lt_from(a@, b@, i as int),
        decreases a.len() - i,
    {
        i += 1;
    }
    if i >= a.len() {
        i < b.len()
    } else if i >= b.len() {
        false
    } else {
        a[i] < b[i]
    }
}

/// The views of a list of strings.
pub open spec fn strs_view(v: Seq<String>) -> Seq<Seq<char>> {
    v.map_values(|s: String| s@)
}

/// Every string of `s` sorts before every later one: `s` is sorted and
/// holds no string twice.
pub open spec fn strictly_sorted(s: Seq<Seq<char>>) -> bool {
    forall|i: int, j: int| 0 <= i < j < s.len() ==> str_lt(#[trigger] s[i], #[trigger] s[j])
}

/// `h` is one of the hosts of `lists`.
pub open spec fn listed(lists: Seq<Vec<String>>, h: Seq<char>) -> bool {
    exists|k: int, i: int|
        0 <= k < lists.len() && 0 <= i < lists[k]@.len() && (#[trigger] lists[k]@[i])@ == h
}

fn insert_sorted(out: &mut Vec<String>, h: &String)
    requires
        strictly_sorted(strs_view(old(out)@)),
    ensures
        strictly_sorted(strs_view(final(out)@)),
        forall|x: Seq<char>|
            strs_view(final(out)@).contains(x) <==> (strs_view(old(out)@).contains(x) || x == h@),
{
    let hc = chars_of(h.as_str());
    let ghost s = strs_view(out@);
    let mut p: usize = 0;
    while p < out.len() && str_less(&chars_of(out[p].as_str()), &hc)
        invariant
            p <= out.len(),
            s == strs_view(out@),
            hc@ == h@,
            forall|k: int| 0 <= k < p ==> str_lt(#[trigger] s[k], h@),
        decreases out.len() - p,
    {
        p += 1;
    }
    if p < out.len() && out[p] == *h {
        assert(s[p as int] == h@);
        assert forall|x: Seq<char>| s.contains(x) || x == h@ implies s.contains(x) by {
            if x == h@ {
                assert(s[p as int] == x);
            }
        }
        return;
    }
    proof {
        if p < s.len() {
            assert(!str_lt(s[p as int], h@));
            assert(s[p as int] != h@);
            assert(s[p as int].take(0) =~= h@.take(0));
            lemma_lex_total(s[p as int], h@, 0);
        }
    }
    out.insert(p, h.clone());
    let ghost r = strs_view(out@);
    assert(r =~= s.take(p as int).push(h@) + s.skip(p as int));
    assert forall|i: int, j: int| 0 <= i < j < r.len() implies str_lt(
        #[trigger] r[i],
        #[trigger] r[j],
    ) by {
        if j < p {
            assert(r[i] == s[i] && r[j] == s[j]);
        } else if j == p {
            assert(r[i] == s[i]);
        } else if i < p {
            assert(r[i] == s[i] && r[j] == s[j - 1]);
            assert(str_lt(s[i], h@));
            assert(str_lt(h@, s[p as int]));
            if j - 1 > p {
                assert(str_lt(s[p as int], s[j - 1]));
                lemma_lex_transitive(h@, s[p as int], s[j - 1], 0);
            }
            lemma_lex_transitive(s[i], h@, s[j - 1], 0);
        } else if i == p {
            assert(r[j] == s[j - 1]);
            if j - 1 > p {
                assert(str_lt(s[p as int], s[j - 1]));
                lemma_lex_transitive(h@, s[p as int], s[j - 1], 0);
            }
        } else {
            assert(r[i] == s[i - 1] && r[j] == s[j - 1]);
        }
    }
    assert forall|x: Seq<char>| r.contains(x) <==> (s.contains(x) || x == h@) by {
        if r.contains(x) {
            let k = choose|k: int| 0 <= k < r.len() && r[k] == x;
            if k < p {
                assert(s[k] == x);
            } else if k > p {
                assert(s[k - 1] == x);
            }
        }
        if s.contains(x) {
            let k = choose|k: int| 0 <= k < s.len() && s[k] == x;
            if k < p {
                assert(r[k] == x);
            } else {
                assert(r[k + 1] == x);
            }
        }
        if x == h@ {
            assert(r[p as int] == x);
        }
    }
}

/// The hosts of all `lists`, each once, sorted as strings: the order in
/// which a `BTreeSet<String>` of them iterates.
pub fn collect_hosts(lists: &Vec<Vec<String>>) -> (r: Vec<String>)
    ensures
        strictly_sorted(strs_view(r@)),
        forall|h: Seq<char>| strs_view(r@).contains(h) <==> listed(lists@, h),
{
    let mut out: Vec<String> = Vec::new();
    let mut k: usize = 0;
    while k < lists.len()
        invariant
            k <= lists.len(),
            strictly_sorted(strs_view(out@)),
            forall|h: Seq<char>|
                strs_view(out@).contains(h) <==> listed(lists@.take(k as int), h),
        decreases lists.len() - k,
    {
        let list = &lists[k];
        let mut i: usize = 0;
        while i < list.len()
            invariant
                k < lists.len(),
                list == lists@[k as int],
                i <= list.len(),
                strictly_sorted(strs_view(out@)),
                forall|h: Seq<char>|
                    strs_view(out@).contains(h) <==> (listed(lists@.take(k as int), h) || exists|
                        j: int,
                    | 0 <= j < i && (#[trigger] list@[j])@ == h),
            decreases list.len() - i,
        {
            insert_sorted(&mut out, &list[i]);
            i += 1;
            assert forall|h: Seq<char>| strs_view(out@).contains(h) <==> (listed(
                lists@.take(k as int),
                h,
            ) || exists|j: int| 0 <= j < i && (#[trigger] list@[j])@ == h) by {
                if h == list@[i - 1]@ {
                } else {
                    if exists|j: int| 0 <= j < i && (#[trigger] list@[j])@ == h {
                        let j = choose|j: int| 0 <= j < i && (#[trigger] list@[j])@ == h;
                        assert(j < i - 1);
                    }
                }
            }
        }
        assert forall|h: Seq<char>| strs_view(out@).contains(h) <==> listed(
            lists@.take(k + 1),
            h,
        ) by {
            let t = lists@.take(k + 1);
            if listed(t, h) {
                let (a, b) = choose|a: int, b: int|
                    0 <= a < t.len() && 0 <= b < t[a]@.len() && (#[trigger] t[a]@[b])@ == h;
                if a < k {
                    assert(lists@.take(k as int)[a] == t[a]);
                    assert(listed(lists@.take(k as int), h));
                } else {
                    assert(list@[b]@ == h);
                }
            }
            if listed(lists@.take(k as int), h) {
                let (a, b) = choose|a: int, b: int|
                    0 <= a < k && 0 <= b < lists@.take(k as int)[a]@.len() && (#[trigger] lists@.take(
                        k as int,
                    )[a]@[b])@ == h;
                assert(t[a] == lists@.take(k as int)[a]);
                assert(t[a]@[b]@ == h);
            }
            if exists|j: int| 0 <= j < list.len() && (#[trigger] list@[j])@ == h {
                let j = choose|j: int| 0 <= j < list.len() && (#[trigger] list@[j])@ == h;
                assert(t[k as int] == list);
                assert(t[k as int]@[j]@ == h);
            }
        }
        k += 1;
    }
    assert(lists@.take(k as int) =~= lists@);
    out
}


/// A strictly sorted list is determined by its elements: two such lists
/// that hold the same strings are equal, so `collect_hosts`'s contract pins
/// its result down.
pub proof fn lemma_strictly_sorted_unique(a: Seq<Seq<char>>, b: Seq<Seq<char>>)
    requires
        strictly_sorted(a),
        strictly_sorted(b),
        forall|x: Seq<char>| a.contains(x) <==> b.contains(x),
    ensures
        a == b,
    decreases a.len(),
{
    if a.len() == 0 {
        if b.len() > 0 {
            assert(b.contains(b[0]));
        }
        assert(a =~= b);
    } else {
        assert(a.contains(a[0]));
        assert(b.len() > 0);
        assert(b.contains(b[0]));
        if a[0] != b[0] {
            let k = choose|k: int| 0 <= k < a.len() && a[k] == b[0];
            let m = choose|m: int| 0 <= m < b.len() && b[m] == a[0];
            assert(k > 0 && m > 0);
            assert(str_lt(a[0], a[k]));
            assert(str_lt(b[0], b[m]));
            lemma_lex_asymmetric(a[0], b[0], 0);
            assert(false);
        }
        let ta = a.drop_first();
        let tb = b.drop_first();
        assert forall|x: Seq<char>| ta.contains(x) <==> tb.contains(x) by {
            if ta.contains(x) {
                let k = choose|k: int| 0 <= k < ta.len() && ta[k] == x;
                assert(a[k + 1] == x);
                assert(str_lt(a[0], x));
                lemma_lex_irreflexive(x, 0);
                assert(b.contains(x));
                let m = choose|m: int| 0 <= m < b.len() && b[m] == x;
                assert(m != 0);
                assert(tb[m - 1] == x);
            }
            if tb.contains(x) {
                let k = choose|k: int| 0 <= k < tb.len() && tb[k] == x;
                assert(b[k + 1] == x);
                assert(str_lt(b[0], x));
                lemma_lex_irreflexive(x, 0);
                assert(a.contains(x));
                let m = choose|m: int| 0 <= m < a.len() && a[m] == x;
                assert(m != 0);
                assert(ta[m - 1] == x);
            }
        }
        assert(strictly_sorted(ta)) by {
            assert forall|i: int, j: int| 0 <= i < j < ta.len() implies str_lt(
                #[trigger] ta[i],
                #[trigger] ta[j],
            ) by {
                assert(ta[i] == a[i + 1] && ta[j] == a[j + 1]);
            }
        }
        assert(strictly_sorted(tb)) by {
            assert forall|i: int, j: int| 0 <= i < j < tb.len() implies str_lt(
                #[trigger] tb[i],
                #[trigger] tb[j],
            ) by {
                assert(tb[i] == b[i + 1] && tb[j] == b[j + 1]);
            }
        }
        lemma_strictly_sorted_unique(ta, tb);
        assert(a =~= seq![a[0]] + ta);
        assert(b =~= seq![b[0]] + tb);
    }
}

} // verus!
