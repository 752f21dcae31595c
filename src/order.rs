use vstd::prelude::*;

verus! {

/// Lexicographic order on character sequences, comparing characters by code
/// point. On valid strings this is the order of `String`'s `Ord`, which
/// compares UTF-8 bytes.
pub open spec fn lex_le(a: Seq<char>, b: Seq<char>) -> bool
    decreases a.len(),
{
    if a.len() == 0 {
        true
    } else if b.len() == 0 {
        false
    } else if a[0] != b[0] {
        a[0] < b[0]
    } else {
        lex_le(a.drop_first(), b.drop_first())
    }
}

/// Each element is at most every element after it.
pub open spec fn is_sorted(s: Seq<Seq<char>>) -> bool {
    forall|i: int, j: int| 0 <= i < j < s.len() ==> lex_le(#[trigger] s[i], #[trigger] s[j])
}

/// Any two sequences are comparable.
pub proof fn lemma_lex_total(a: Seq<char>, b: Seq<char>)
    ensures
        lex_le(a, b) || lex_le(b, a),
    decreases a.len(),
{
    if a.len() > 0 && b.len() > 0 && a[0] == b[0] {
        lemma_lex_total(a.drop_first(), b.drop_first());
    }
}

/// The order is transitive.
pub proof fn lemma_lex_trans(a: Seq<char>, b: Seq<char>, c: Seq<char>)
    requires
        lex_le(a, b),
        lex_le(b, c),
    ensures
        lex_le(a, c),
    decreases a.len(),
{
    if a.len() > 0 && b.len() > 0 && c.len() > 0 && a[0] == b[0] && b[0] == c[0] {
        lemma_lex_trans(a.drop_first(), b.drop_first(), c.drop_first());
    }
}

/// Every sequence is at most itself.
pub proof fn lemma_lex_refl(a: Seq<char>)
    ensures
        lex_le(a, a),
    decreases a.len(),
{
    if a.len() > 0 {
        lemma_lex_refl(a.drop_first());
    }
}

/// The order is antisymmetric: sequences that are each at most the other
/// are equal.
pub proof fn lemma_lex_antisym(a: Seq<char>, b: Seq<char>)
    requires
        lex_le(a, b),
        lex_le(b, a),
    ensures
        a == b,
    decreases a.len(),
{
    if a.len() == 0 {
        assert(b.len() == 0);
        assert(a =~= b);
    } else {
        assert(b.len() > 0);
        assert(a[0] == b[0]);
        lemma_lex_antisym(a.drop_first(), b.drop_first());
        assert(a.drop_first().len() == a.len() - 1);
        assert(b.drop_first().len() == b.len() - 1);
        assert(a.drop_first() == b.drop_first());
        assert(a.len() == b.len());
        assert forall|i: int| 0 <= i < a.len() implies a[i] == b[i] by {
            if i > 0 {
                assert(a[i] == a.drop_first()[i - 1]);
                assert(b[i] == b.drop_first()[i - 1]);
            }
        }
        assert(a =~= b);
    }
}

/// Whether `a` comes no later than `b` in lexicographic order.
pub fn text_le(a: &str, b: &str) -> (r: bool)
    ensures
        r == lex_le(a@, b@),
{
    let la = a.unicode_len();
    let lb = b.unicode_len();
    let mut i: usize = 0;
    assert(a@.skip(0) =~= a@);
    assert(b@.skip(0) =~= b@);
    while i < la && i < lb
        invariant
            la == a@.len(),
            lb == b@.len(),
            i <= la,
            i <= lb,
            lex_le(a@, b@) == lex_le(a@.skip(i as int), b@.skip(i as int)),
        decreases la - i,
    {
        let ca = a.get_char(i);
        let cb = b.get_char(i);
        if ca != cb {
            return ca < cb;
        }
        assert(a@.skip(i as int).drop_first() =~= a@.skip(i + 1));
        assert(b@.skip(i as int).drop_first() =~= b@.skip(i + 1));
        i = i + 1;
    }
    i == la
}

/// Whether two texts hold the same characters.
pub fn same_text(a: &str, b: &str) -> (r: bool)
    ensures
        r == (a@ == b@),
{
    let la = a.unicode_len();
    if la != b.unicode_len() {
        return false;
    }
    let mut i: usize = 0;
    while i < la
        invariant
            la == a@.len(),
            la == b@.len(),
            i <= la,
            forall|k: int| 0 <= k < i ==> a@[k] == b@[k],
        decreases la - i,
    {
        if a.get_char(i) != b.get_char(i) {
            return false;
        }
        i = i + 1;
    }
    assert(a@ =~= b@);
    true
}

/// The character sequences that a sequence of strings holds.
pub open spec fn texts(s: Seq<String>) -> Seq<Seq<char>> {
    s.map_values(|t: String| t@)
}

/// `r` holds the elements of `s`, each as often, in lexicographic order.
pub open spec fn is_sorted_arrangement_of(r: Seq<Seq<char>>, s: Seq<Seq<char>>) -> bool {
    is_sorted(r) && r.to_multiset() == s.to_multiset()
}

/// A sequence has one sorted arrangement only: two sorted sequences with
/// the same elements, each as often, are equal.
pub proof fn lemma_sorted_arrangement_unique(r1: Seq<Seq<char>>, r2: Seq<Seq<char>>, s: Seq<Seq<char>>)
    requires
        is_sorted_arrangement_of(r1, s),
        is_sorted_arrangement_of(r2, s),
    ensures
        r1 == r2,
    decreases r1.len(),
{
    broadcast use vstd::seq_lib::group_to_multiset_ensures;

    assert(r1.len() == r1.to_multiset().len());
    assert(r2.len() == r2.to_multiset().len());
    if r1.len() == 0 {
        assert(r1 =~= r2);
    } else {
        let a = r1[0];
        let b = r2[0];
        assert(r1.to_multiset().count(a) > 0);
        assert(r2.contains(a));
        let j = choose|j: int| 0 <= j < r2.len() && r2[j] == a;
        if j > 0 {
            assert(lex_le(r2[0], r2[j]));
        } else {
            lemma_lex_refl(a);
        }
        assert(r2.to_multiset().count(b) > 0);
        assert(r1.contains(b));
        let k = choose|k: int| 0 <= k < r1.len() && r1[k] == b;
        if k > 0 {
            assert(lex_le(r1[0], r1[k]));
        } else {
            lemma_lex_refl(a);
        }
        lemma_lex_antisym(a, b);
        let t1 = r1.drop_first();
        let t2 = r2.drop_first();
        assert(r1.remove(0) =~= t1);
        assert(r2.remove(0) =~= t2);
        assert(t1.to_multiset() == s.to_multiset().remove(a));
        assert(t2.to_multiset() == s.to_multiset().remove(a));
        assert(is_sorted(t1)) by {
            assert forall|x: int, y: int| 0 <= x < y < t1.len() implies lex_le(
                #[trigger] t1[x],
                #[trigger] t1[y],
            ) by {
                assert(lex_le(r1[x + 1], r1[y + 1]));
            }
        }
        assert(is_sorted(t2)) by {
            assert forall|x: int, y: int| 0 <= x < y < t2.len() implies lex_le(
                #[trigger] t2[x],
                #[trigger] t2[y],
            ) by {
                assert(lex_le(r2[x + 1], r2[y + 1]));
            }
        }
        lemma_sorted_arrangement_unique(t1, t2, t1);
        assert(r1 =~= seq![a] + t1);
        assert(r2 =~= seq![b] + t2);
    }
}

/// Sorts strings lexicographically, keeping repeated values.
pub fn sort_texts(v: &Vec<String>) -> (r: Vec<String>)
    ensures
        is_sorted_arrangement_of(texts(r@), texts(v@)),
{
    let mut r: Vec<String> = Vec::new();
    let mut i: usize = 0;
    assert(texts(r@) =~= texts(v@.take(0)));
    while i < v.len()
        invariant
            i <= v.len(),
            is_sorted(texts(r@)),
            texts(r@).to_multiset() == texts(v@.take(i as int)).to_multiset(),
        decreases v.len() - i,
    {
        let x = v[i].clone();
        let mut j: usize = 0;
        while j < r.len() && text_le(r[j].as_str(), x.as_str())
            invariant
                j <= r.len(),
                forall|k: int| 0 <= k < j ==> lex_le(#[trigger] texts(r@)[k], x@),
            decreases r.len() - j,
        {
            j = j + 1;
        }
        let ghost before = texts(r@);
        proof {
            if j < r.len() {
                lemma_lex_total(before[j as int], x@);
            }
        }
        r.insert(j, x);
        assert(texts(r@) =~= before.insert(j as int, x@));
        assert(texts(v@.take(i + 1)) =~= texts(v@.take(i as int)).push(x@));
        proof {
            vstd::seq_lib::to_multiset_insert(before, j as int, x@);
            vstd::seq_lib::to_multiset_build(texts(v@.take(i as int)), x@);
        }
        assert forall|a: int, b: int| 0 <= a < b < texts(r@).len() implies lex_le(
            #[trigger] texts(r@)[a],
            #[trigger] texts(r@)[b],
        ) by {
            let t = texts(r@);
            if b < j {
                assert(t[a] == before[a] && t[b] == before[b]);
            } else if b == j {
                assert(t[a] == before[a]);
            } else if a == j {
                assert(t[b] == before[b - 1]);
                if b - 1 > j {
                    lemma_lex_trans(x@, before[j as int], before[b - 1]);
                }
            } else if a < j {
                assert(t[a] == before[a] && t[b] == before[b - 1]);
            } else {
                assert(t[a] == before[a - 1] && t[b] == before[b - 1]);
            }
        }
        i = i + 1;
    }
    assert(v@.take(v@.len() as int) =~= v@);
    r
}

} // verus!
