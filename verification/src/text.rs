//! Names as texts: equality, the order in which name lists are returned, and
//! lists of names kept in that order.

use vstd::prelude::*;
use vstd::string::*;

verus! {

/// `a` comes before `b`: at the first place where they differ `a` has the
/// smaller character, or `a` ends there and `b` goes on.
pub open spec fn text_lt(a: Seq<char>, b: Seq<char>) -> bool {
    exists|k: int| #[trigger] differ_at(a, b, k)
}

/// `a` and `b` agree before place `k`, and at `k` the text `a` is the smaller.
pub open spec fn differ_at(a: Seq<char>, b: Seq<char>, k: int) -> bool {
    &&& 0 <= k <= a.len()
    &&& k < b.len()
    &&& forall|j: int| 0 <= j < k ==> a[j] == b[j]
    &&& (k < a.len() ==> (a[k] as u32) < (b[k] as u32))
}

/// A list of texts in strictly ascending order: sorted, and nothing twice.
pub open spec fn ascending(s: Seq<Seq<char>>) -> bool {
    forall|i: int, j: int| 0 <= i < j < s.len() ==> text_lt(#[trigger] s[i], #[trigger] s[j])
}

/// No text comes before itself.
pub proof fn lemma_text_lt_irreflexive(a: Seq<char>)
    ensures
        !text_lt(a, a),
{
    if text_lt(a, a) {
        let k = choose|k: int| #[trigger] differ_at(a, a, k);
        assert(false);
    }
}

/// Of two different texts exactly one comes before the other.
pub proof fn lemma_text_lt_asymmetric(a: Seq<char>, b: Seq<char>)
    requires
        text_lt(a, b),
    ensures
        !text_lt(b, a),
        a != b,
{
    let k = choose|k: int| #[trigger] differ_at(a, b, k);
    if text_lt(b, a) {
        let m = choose|m: int| #[trigger] differ_at(b, a, m);
        if m < k {
            assert(a[m] == b[m]);
        } else if k < m {
            assert(b[k] == a[k]);
        }
        assert(false);
    }
}

/// The order is transitive.
pub proof fn lemma_text_lt_transitive(a: Seq<char>, b: Seq<char>, c: Seq<char>)
    requires
        text_lt(a, b),
        text_lt(b, c),
    ensures
        text_lt(a, c),
{
    let k = choose|k: int| #[trigger] differ_at(a, b, k);
    let m = choose|m: int| #[trigger] differ_at(b, c, m);
    let n = if k <= m { k } else { m };
    assert forall|j: int| 0 <= j < n implies a[j] == c[j] by {
        assert(a[j] == b[j]);
        assert(b[j] == c[j]);
    }
    if k < m {
        assert(b[k] == c[k]);
    }
    assert(differ_at(a, c, n));
}

/// Two lists in strictly ascending order that hold the same texts are the
/// same list.
pub proof fn lemma_ascending_unique(s: Seq<Seq<char>>, t: Seq<Seq<char>>)
    requires
        ascending(s),
        ascending(t),
        s.to_set() == t.to_set(),
    ensures
        s == t,
    decreases s.len(),
{
    if s.len() == 0 {
        if t.len() > 0 {
            assert(t.contains(t[0]));
            assert(t.to_set().contains(t[0]));
            assert(s.to_set().contains(t[0]));
        }
        assert(s =~= t);
    } else {
        assert(s.contains(s[0]));
        assert(s.to_set().contains(s[0]));
        assert(t.to_set().contains(s[0]));
        assert(t.len() > 0);
        assert(t.contains(t[0]));
        assert(t.to_set().contains(t[0]));
        assert(s.to_set().contains(t[0]));
        let i = choose|i: int| 0 <= i < s.len() && s[i] == t[0];
        let j = choose|j: int| 0 <= j < t.len() && t[j] == s[0];
        if i > 0 && j > 0 {
            assert(text_lt(s[0], s[i]));
            assert(text_lt(t[0], t[j]));
            lemma_text_lt_asymmetric(s[0], s[i]);
        }
        if i > 0 && j == 0 {
            assert(text_lt(s[0], s[i]));
            lemma_text_lt_irreflexive(s[0]);
        }
        if i == 0 && j > 0 {
            assert(text_lt(t[0], t[j]));
            lemma_text_lt_irreflexive(t[0]);
        }
        assert(s[0] == t[0]);
        let s1 = s.drop_first();
        let t1 = t.drop_first();
        assert(ascending(s1)) by {
            assert forall|p: int, q: int| 0 <= p < q < s1.len() implies text_lt(
                #[trigger] s1[p],
                #[trigger] s1[q],
            ) by {
                assert(text_lt(s[p + 1], s[q + 1]));
            }
        }
        assert(ascending(t1)) by {
            assert forall|p: int, q: int| 0 <= p < q < t1.len() implies text_lt(
                #[trigger] t1[p],
                #[trigger] t1[q],
            ) by {
                assert(text_lt(t[p + 1], t[q + 1]));
            }
        }
        assert forall|x: Seq<char>| s1.contains(x) <==> t1.contains(x) by {
            if s1.contains(x) {
                let p = choose|p: int| 0 <= p < s1.len() && s1[p] == x;
                assert(s[p + 1] == x);
                assert(text_lt(s[0], s[p + 1]));
                lemma_text_lt_asymmetric(s[0], x);
                assert(s.contains(x));
                assert(s.to_set().contains(x));
                assert(t.to_set().contains(x));
                let q = choose|q: int| 0 <= q < t.len() && t[q] == x;
                assert(q > 0);
                assert(t1[q - 1] == x);
            }
            if t1.contains(x) {
                let p = choose|p: int| 0 <= p < t1.len() && t1[p] == x;
                assert(t[p + 1] == x);
                assert(text_lt(t[0], t[p + 1]));
                lemma_text_lt_asymmetric(t[0], x);
                assert(t.contains(x));
                assert(t.to_set().contains(x));
                assert(s.to_set().contains(x));
                let q = choose|q: int| 0 <= q < s.len() && s[q] == x;
                assert(q > 0);
                assert(s1[q - 1] == x);
            }
        }
        assert(s1.to_set() =~= t1.to_set());
        lemma_ascending_unique(s1, t1);
        assert(s =~= t) by {
            assert(s.len() == t.len());
            assert forall|p: int| 0 <= p < s.len() implies s[p] == t[p] by {
                if p > 0 {
                    assert(s1[p - 1] == t1[p - 1]);
                }
            }
        }
    }
}

/// How one text stands to another in the order of `text_lt`.
#[derive(Clone, Copy, Debug, PartialEq, Eq)]
pub enum Rank {
    Before,
    Same,
    After,
}

/// Compares two texts character by character.
pub fn rank(a: &str, b: &str) -> (r: Rank)
    ensures
        (r == Rank::Before) == text_lt(a@, b@),
        (r == Rank::Same) == (a@ == b@),
        (r == Rank::After) == text_lt(b@, a@),
{
    let n = a.unicode_len();
    let m = b.unicode_len();
    let mut i: usize = 0;
    while i < n && i < m
        invariant
            n == a@.len(),
            m == b@.len(),
            i <= n,
            i <= m,
            forall|j: int| 0 <= j < i ==> a@[j] == b@[j],
        decreases n - i,
    {
        let x = a.get_char(i);
        let y = b.get_char(i);
        if x != y {
            if (x as u32) < (y as u32) {
                proof {
                    assert(differ_at(a@, b@, i as int));
                    lemma_text_lt_asymmetric(a@, b@);
                }
                return Rank::Before;
            } else {
                proof {
                    assert(differ_at(b@, a@, i as int));
                    lemma_text_lt_asymmetric(b@, a@);
                }
                return Rank::After;
            }
        }
        i += 1;
    }
    if n < m {
        proof {
            assert(differ_at(a@, b@, i as int));
            lemma_text_lt_asymmetric(a@, b@);
        }
        Rank::Before
    } else if m < n {
        proof {
            assert(differ_at(b@, a@, i as int));
            lemma_text_lt_asymmetric(b@, a@);
        }
        Rank::After
    } else {
        proof {
            assert(a@ =~= b@);
            lemma_text_lt_irreflexive(a@);
        }
        Rank::Same
    }
}

/// Whether two texts are the same.
pub fn same_text(a: &str, b: &str) -> (r: bool)
    ensures
        r == (a@ == b@),
{
    match rank(a, b) {
        Rank::Same => true,
        _ => false,
    }
}

/// The text `a` followed by the text `b`.
pub fn join(a: &str, b: &str) -> (r: String)
    ensures
        r@ == a@ + b@,
{
    String::from_str(a).concat(b)
}

/// Whether `name` is one of `names`.
pub fn has_text(names: &Vec<String>, name: &str) -> (r: bool)
    ensures
        r == names.deep_view().contains(name@),
{
    let mut i: usize = 0;
    while i < names.len()
        invariant
            i <= names.len(),
            forall|k: int| 0 <= k < i ==> names.deep_view()[k] != name@,
        decreases names.len() - i,
    {
        if same_text(names[i].as_str(), name) {
            assert(names.deep_view()[i as int] == name@);
            return true;
        }
        i += 1;
    }
    false
}

/// Puts `name` at its place in a list in strictly ascending order; a name that
/// is in the list already is not added again.
pub fn insert_ascending(names: &mut Vec<String>, name: String)
    requires
        ascending(old(names).deep_view()),
    ensures
        ascending(final(names).deep_view()),
        final(names).deep_view().to_set() == old(names).deep_view().to_set().insert(name@),
{
    let ghost before = names.deep_view();
    let mut i: usize = 0;
    let mut found = false;
    while !found && i < names.len()
        invariant
            i <= names.len(),
            *names == *old(names),
            before == names.deep_view(),
            ascending(before),
            forall|k: int| 0 <= k < i ==> text_lt(#[trigger] before[k], name@),
            found ==> i < names.len() && text_lt(name@, before[i as int]),
        decreases names.len() - i + (if found { 0int } else { 1int }),
    {
        match rank(names[i].as_str(), name.as_str()) {
            Rank::Before => {
                assert(before[i as int] == names@[i as int]@);
                i += 1;
            },
            Rank::Same => {
                proof {
                    assert(before[i as int] == name@);
                    assert(before.contains(name@));
                    assert(before.to_set() =~= before.to_set().insert(name@));
                }
                return ;
            },
            Rank::After => {
                assert(before[i as int] == names@[i as int]@);
                found = true;
            },
        }
    }
    names.insert(i, name);
    proof {
        let after = names.deep_view();
        assert(after =~= before.insert(i as int, name@));
        assert forall|p: int, q: int| 0 <= p < q < after.len() implies text_lt(
            #[trigger] after[p],
            #[trigger] after[q],
        ) by {
            if q < i {
                assert(text_lt(before[p], before[q]));
            } else if q == i {
                assert(text_lt(before[p], name@));
            } else if p == i {
                assert(found);
                if q - 1 > i {
                    assert(text_lt(before[i as int], before[q - 1]));
                    lemma_text_lt_transitive(name@, before[i as int], before[q - 1]);
                }
            } else if p < i {
                assert(text_lt(before[p], before[q - 1]));
            } else {
                assert(text_lt(before[p - 1], before[q - 1]));
            }
        }
        assert forall|x: Seq<char>| after.contains(x) <==> (before.contains(x) || x == name@) by {
            if before.contains(x) {
                let k = choose|k: int| 0 <= k < before.len() && before[k] == x;
                if k < i {
                    assert(after[k] == x);
                } else {
                    assert(after[k + 1] == x);
                }
            }
            if x == name@ {
                assert(after[i as int] == x);
            }
        }
        assert(after.to_set() =~= before.to_set().insert(name@));
    }
}

/// The list in strictly ascending order that holds exactly the texts of `s`.
pub open spec fn sorted_names(s: Set<Seq<char>>) -> Seq<Seq<char>> {
    choose|q: Seq<Seq<char>>| ascending(q) && q.to_set() == s
}

/// A list in strictly ascending order is the sorted list of its own texts.
pub proof fn lemma_sorted_names(q: Seq<Seq<char>>)
    requires
        ascending(q),
    ensures
        sorted_names(q.to_set()) == q,
{
    let t = sorted_names(q.to_set());
    assert(ascending(t) && t.to_set() == q.to_set());
    lemma_ascending_unique(t, q);
}

/// A copy of a list of names.
pub fn copy_names(names: &Vec<String>) -> (r: Vec<String>)
    ensures
        r.deep_view() == names.deep_view(),
{
    let mut r: Vec<String> = Vec::new();
    let mut i: usize = 0;
    while i < names.len()
        invariant
            i <= names.len(),
            r@.len() == i,
            forall|k: int| 0 <= k < i ==> (#[trigger] r@[k])@ == names@[k]@,
        decreases names.len() - i,
    {
        r.push(names[i].clone());
        i += 1;
    }
    assert(r.deep_view() =~= names.deep_view());
    r
}

} // verus!
