//! Sorted lists of distinct texts.
use crate::text;
use crate::text::chars_of;
use vstd::prelude::*;

verus! {

/// Lexicographic order of texts by code point.
pub open spec fn text_lt(a: Seq<char>, b: Seq<char>) -> bool
    decreases a.len(),
{
    if b.len() == 0 {
        false
    } else if a.len() == 0 {
        true
    } else if a[0] != b[0] {
        a[0] < b[0]
    } else {
        text_lt(a.drop_first(), b.drop_first())
    }
}

/// No text precedes itself, and two different texts are ordered one way.
pub proof fn lemma_text_lt_total(a: Seq<char>, b: Seq<char>)
    ensures
        a == b ==> !text_lt(a, b),
        text_lt(a, b) ==> !text_lt(b, a),
        a != b ==> text_lt(a, b) || text_lt(b, a),
    decreases a.len(),
{
    if a.len() > 0 && b.len() > 0 && a[0] == b[0] {
        lemma_text_lt_total(a.drop_first(), b.drop_first());
        if a.drop_first() == b.drop_first() {
            assert(a =~= seq![a[0]] + a.drop_first());
            assert(b =~= seq![b[0]] + b.drop_first());
            assert(a == b);
        }
    } else if a.len() == 0 && b.len() == 0 {
        assert(a =~= b);
    }
}

/// The order of texts is transitive.
pub proof fn lemma_text_lt_transitive(a: Seq<char>, b: Seq<char>, c: Seq<char>)
    requires
        text_lt(a, b),
        text_lt(b, c),
    ensures
        text_lt(a, c),
    decreases a.len(),
{
    if a.len() > 0 && b.len() > 0 && c.len() > 0 && a[0] == b[0] && b[0] == c[0] {
        lemma_text_lt_transitive(a.drop_first(), b.drop_first(), c.drop_first());
    }
}

/// Whether each text precedes the ones after it.
pub open spec fn strictly_sorted(s: Seq<Seq<char>>) -> bool {
    forall|i: int, j: int| 0 <= i < j < s.len() ==> text_lt(#[trigger] s[i], #[trigger] s[j])
}

/// Whether `r` lists the texts of `s`, each once, in order.
pub open spec fn sorted_set_of(r: Seq<Seq<char>>, s: Seq<Seq<char>>) -> bool {
    &&& strictly_sorted(r)
    &&& forall|t: Seq<char>| #[trigger] r.contains(t) <==> s.contains(t)
}

/// A sorted list of the texts of `s` is the only one.
pub proof fn sorted_set_is_unique(r1: Seq<Seq<char>>, r2: Seq<Seq<char>>, s: Seq<Seq<char>>)
    requires
        sorted_set_of(r1, s),
        sorted_set_of(r2, s),
    ensures
        r1 == r2,
    decreases r1.len(),
{
    if r1.len() == 0 {
        if r2.len() > 0 {
            assert(r2.contains(r2[0]));
            assert(r1.contains(r2[0]));
        }
        assert(r1 =~= r2);
    } else if r2.len() == 0 {
        assert(r1.contains(r1[0]));
        assert(r2.contains(r1[0]));
    } else {
        let a = r1.last();
        let b = r2.last();
        assert(r1.contains(a) && r2.contains(b));
        assert(r2.contains(a) && r1.contains(b));
        let i = choose|i: int| 0 <= i < r2.len() && r2[i] == a;
        let j = choose|j: int| 0 <= j < r1.len() && r1[j] == b;
        lemma_text_lt_total(a, b);
        if i < r2.len() - 1 {
            assert(text_lt(r2[i], r2[r2.len() - 1]));
        }
        if j < r1.len() - 1 {
            assert(text_lt(r1[j], r1[r1.len() - 1]));
        }
        assert(a == b);
        let t1 = r1.drop_last();
        let t2 = r2.drop_last();
        assert forall|t: Seq<char>| #[trigger] t1.contains(t) <==> t2.contains(t) by {
            lemma_drop_last_contains(r1, t);
            lemma_drop_last_contains(r2, t);
            assert(r1.contains(t) <==> r2.contains(t));
        }
        assert(strictly_sorted(t1) && strictly_sorted(t2));
        assert(sorted_set_of(t1, t2)) by {
            assert forall|t: Seq<char>| #[trigger] t1.contains(t) <==> t2.contains(t) by {}
        }
        assert(sorted_set_of(t2, t2));
        sorted_set_is_unique(t1, t2, t2);
        assert(r1 =~= t1.push(a));
        assert(r2 =~= t2.push(a));
    }
}

proof fn lemma_drop_last_contains(r: Seq<Seq<char>>, t: Seq<char>)
    requires
        r.len() > 0,
        strictly_sorted(r),
    ensures
        r.drop_last().contains(t) <==> (r.contains(t) && t != r.last()),
{
    let d = r.drop_last();
    if d.contains(t) {
        let i = choose|i: int| 0 <= i < d.len() && d[i] == t;
        assert(r[i] == t);
        assert(text_lt(r[i], r[r.len() - 1]));
        lemma_text_lt_total(r[i], r.last());
    }
    if r.contains(t) && t != r.last() {
        let i = choose|i: int| 0 <= i < r.len() && r[i] == t;
        assert(d[i] == t);
    }
}

/// Whether one text precedes another.
pub fn precedes(a: &[char], b: &[char]) -> (r: bool)
    ensures
        r == text_lt(a@, b@),
{
    let mut i: usize = 0;
    assert(a@.skip(0) =~= a@);
    assert(b@.skip(0) =~= b@);
    while i < a.len() && i < b.len() && a[i] == b[i]
        invariant
            i <= a.len(),
            i <= b.len(),
            text_lt(a@, b@) == text_lt(a@.skip(i as int), b@.skip(i as int)),
        decreases a.len() - i,
    {
        assert(a@.skip(i as int).drop_first() =~= a@.skip(i + 1));
        assert(b@.skip(i as int).drop_first() =~= b@.skip(i + 1));
        i = i + 1;
    }
    if i >= b.len() {
        false
    } else if i >= a.len() {
        true
    } else {
        a[i] < b[i]
    }
}

/// Whether one string precedes another.
pub fn string_precedes(a: &String, b: &String) -> (r: bool)
    ensures
        r == text_lt(a@, b@),
{
    let x = chars_of(a.as_str());
    let y = chars_of(b.as_str());
    precedes(x.as_slice(), y.as_slice())
}

/// Adds a text to a sorted list, unless the list has it.
pub fn insert_sorted(v: &mut Vec<String>, s: String)
    requires
        strictly_sorted(text::strings(old(v)@)),
    ensures
        strictly_sorted(text::strings(final(v)@)),
        forall|t: Seq<char>| #[trigger]
            text::strings(final(v)@).contains(t) <==> text::strings(old(v)@).contains(t) || t == s@,
{
    let ghost before = text::strings(v@);
    let mut i: usize = 0;
    while i < v.len() && string_precedes(&v[i], &s)
        invariant
            i <= v.len(),
            before == text::strings(v@),
            forall|k: int| 0 <= k < i ==> text_lt(#[trigger] before[k], s@),
        decreases v.len() - i,
    {
        assert(before[i as int] == v@[i as int]@);
        i = i + 1;
    }
    if i < v.len() && v[i] == s {
        assert(before[i as int] == s@);
        assert(before.contains(s@));
        return;
    }
    let ghost text = s@;
    v.insert(i, s);
    let ghost after = text::strings(v@);
    assert(after =~= before.insert(i as int, text));
    proof {
        if i < before.len() {
            lemma_text_lt_total(before[i as int], text);
            assert(text_lt(text, before[i as int]));
        }
        assert forall|a: int, b: int| 0 <= a < b < after.len() implies text_lt(
            #[trigger] after[a],
            #[trigger] after[b],
        ) by {
            if a < i && b == i {
                assert(after[a] == before[a]);
            } else if a == i {
                assert(after[b] == before[b - 1]);
                if b - 1 > i {
                    assert(text_lt(before[i as int], before[b - 1]));
                    lemma_text_lt_transitive(text, before[i as int], before[b - 1]);
                }
            } else {
                let x = if a < i { a } else { a - 1 };
                let y = if b < i { b } else { b - 1 };
                assert(after[a] == before[x] && after[b] == before[y]);
            }
        }
        assert forall|t: Seq<char>| #[trigger] after.contains(t) <==> before.contains(t) || t == text by {
            if after.contains(t) {
                let k = choose|k: int| 0 <= k < after.len() && after[k] == t;
                if k < i {
                    assert(before[k] == t);
                } else if k > i {
                    assert(before[k - 1] == t);
                }
            }
            if before.contains(t) {
                let k = choose|k: int| 0 <= k < before.len() && before[k] == t;
                if k < i {
                    assert(after[k] == t);
                } else {
                    assert(after[k + 1] == t);
                }
            }
            assert(after[i as int] == text);
        }
    }
}

/// Sorts a list of strings and drops the duplicates.
pub fn sort_dedup(v: Vec<String>) -> (r: Vec<String>)
    ensures
        sorted_set_of(text::strings(r@), text::strings(v@)),
{
    let mut r: Vec<String> = Vec::new();
    let ghost all = text::strings(v@);
    for i in 0..v.len()
        invariant
            all == text::strings(v@),
            strictly_sorted(text::strings(r@)),
            forall|t: Seq<char>| #[trigger] text::strings(r@).contains(t) <==> all.take(i as int).contains(t),
    {
        let s = v[i].clone();
        let ghost before = text::strings(r@);
        insert_sorted(&mut r, s);
        proof {
            let a = all.take(i as int);
            let b = all.take(i + 1);
            assert(b =~= a.push(s@));
            assert forall|t: Seq<char>| #[trigger] text::strings(r@).contains(t) <==> b.contains(t) by {
                assert(before.contains(t) <==> a.contains(t));
                lemma_push_contains(a, s@, t);
            }
        }
    }
    assert(all.take(v.len() as int) =~= all);
    r
}

/// What a list holds after a text is added at its end.
pub proof fn lemma_push_contains(s: Seq<Seq<char>>, x: Seq<char>, t: Seq<char>)
    ensures
        s.push(x).contains(t) <==> s.contains(t) || t == x,
{
    let p = s.push(x);
    if p.contains(t) {
        let k = choose|k: int| 0 <= k < p.len() && p[k] == t;
        if k < s.len() {
            assert(s[k] == t);
        }
    }
    if s.contains(t) {
        let k = choose|k: int| 0 <= k < s.len() && s[k] == t;
        assert(p[k] == t);
    }
    assert(p[s.len() as int] == x);
}

/// Of two texts the one that has the smaller character at the first place
/// where they differ comes first, and the front of a text comes before it.
pub proof fn the_first_difference_decides(
    p: Seq<char>,
    x: char,
    a: Seq<char>,
    y: char,
    b: Seq<char>,
)
    requires
        x != y,
    ensures
        text_lt(p + seq![x] + a, p + seq![y] + b) <==> x < y,
        text_lt(p, p + seq![x] + a),
        !text_lt(p + seq![x] + a, p),
    decreases p.len(),
{
    let s = p + seq![x] + a;
    let t = p + seq![y] + b;
    if p.len() == 0 {
        assert(s[0] == x && t[0] == y);
    } else {
        let q = p.drop_first();
        the_first_difference_decides(q, x, a, y, b);
        assert(s[0] == p[0] && t[0] == p[0]);
        assert(s.drop_first() =~= q + seq![x] + a);
        assert(t.drop_first() =~= q + seq![y] + b);
    }
}

} // verus!
