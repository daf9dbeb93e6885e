//! Orderings and sorting.
//!
//! Strings are ordered lexicographically by character code, which is the
//! order `String`'s `Ord` gives (UTF-8 byte order and code-point order agree).
use crate::text::{chars_of, owned, str_eq, views};
use vstd::prelude::*;

verus! {

/// Lexicographic "less or equal" on character sequences.
pub open spec fn chars_le(a: Seq<char>, b: Seq<char>) -> bool
    decreases a.len(),
{
    if a.len() == 0 {
        true
    } else if b.len() == 0 {
        false
    } else if a[0] != b[0] {
        a[0] < b[0]
    } else {
        chars_le(a.drop_first(), b.drop_first())
    }
}

/// Lexicographic strict order on character sequences.
pub open spec fn chars_lt(a: Seq<char>, b: Seq<char>) -> bool {
    chars_le(a, b) && a != b
}

pub proof fn lemma_chars_le_refl(a: Seq<char>)
    ensures
        chars_le(a, a),
    decreases a.len(),
{
    if a.len() > 0 {
        lemma_chars_le_refl(a.drop_first());
    }
}

pub proof fn lemma_chars_le_total(a: Seq<char>, b: Seq<char>)
    ensures
        chars_le(a, b) || chars_le(b, a),
    decreases a.len(),
{
    if a.len() > 0 && b.len() > 0 && a[0] == b[0] {
        lemma_chars_le_total(a.drop_first(), b.drop_first());
    }
}

pub proof fn lemma_chars_le_antisym(a: Seq<char>, b: Seq<char>)
    requires
        chars_le(a, b),
        chars_le(b, a),
    ensures
        a == b,
    decreases a.len(),
{
    if a.len() > 0 && b.len() > 0 {
        lemma_chars_le_antisym(a.drop_first(), b.drop_first());
        assert(a =~= seq![a[0]] + a.drop_first());
        assert(b =~= seq![b[0]] + b.drop_first());
    } else {
        assert(a.len() == 0 && b.len() == 0);
        assert(a =~= b);
    }
}

pub proof fn lemma_chars_le_trans(a: Seq<char>, b: Seq<char>, c: Seq<char>)
    requires
        chars_le(a, b),
        chars_le(b, c),
    ensures
        chars_le(a, c),
    decreases a.len(),
{
    if a.len() > 0 && b.len() > 0 && c.len() > 0 && a[0] == b[0] && b[0] == c[0] {
        lemma_chars_le_trans(a.drop_first(), b.drop_first(), c.drop_first());
    }
}

proof fn lemma_chars_le_skip(a: Seq<char>, b: Seq<char>, i: int)
    requires
        0 <= i < a.len(),
        i < b.len(),
        a[i] == b[i],
    ensures
        chars_le(a.skip(i), b.skip(i)) == chars_le(a.skip(i + 1), b.skip(i + 1)),
{
    assert(a.skip(i).drop_first() =~= a.skip(i + 1));
    assert(b.skip(i).drop_first() =~= b.skip(i + 1));
}

/// Executable lexicographic comparison: `a <= b`.
pub fn chars_le_exec(a: &Vec<char>, b: &Vec<char>) -> (r: bool)
    ensures
        r == chars_le(a@, b@),
{
    let mut i: usize = 0;
    assert(a@.skip(0) =~= a@);
    assert(b@.skip(0) =~= b@);
    while i < a.len() && i < b.len() && a[i] == b[i]
        invariant
            i <= a.len(),
            i <= b.len(),
            chars_le(a@, b@) == chars_le(a@.skip(i as int), b@.skip(i as int)),
        decreases a.len() - i,
    {
        proof {
            lemma_chars_le_skip(a@, b@, i as int);
        }
        i = i + 1;
    }
    if i == a.len() {
        assert(a@.skip(i as int).len() == 0);
        true
    } else if i == b.len() {
        assert(b@.skip(i as int).len() == 0);
        false
    } else {
        assert(a@.skip(i as int)[0] == a@[i as int]);
        assert(b@.skip(i as int)[0] == b@[i as int]);
        a[i] < b[i]
    }
}

/// Executable lexicographic comparison of strings: `a <= b`.
pub fn str_le(a: &str, b: &str) -> (r: bool)
    ensures
        r == chars_le(a@, b@),
{
    let x = chars_of(a);
    let y = chars_of(b);
    chars_le_exec(&x, &y)
}

// ─── Total orders and sorting by them ───────────────────────────────────────

/// Values ranked by a total order on their views.
pub trait Ranked: View + Sized {
    /// `a` may come before `b`.
    spec fn ranks_le(a: Self::V, b: Self::V) -> bool;

    proof fn lemma_ranks_total(a: Self::V, b: Self::V)
        ensures
            Self::ranks_le(a, b) || Self::ranks_le(b, a),
    ;

    proof fn lemma_ranks_trans(a: Self::V, b: Self::V, c: Self::V)
        requires
            Self::ranks_le(a, b),
            Self::ranks_le(b, c),
        ensures
            Self::ranks_le(a, c),
    ;

    proof fn lemma_ranks_antisym(a: Self::V, b: Self::V)
        requires
            Self::ranks_le(a, b),
            Self::ranks_le(b, a),
        ensures
            a == b,
    ;

    fn rank_le(&self, other: &Self) -> (r: bool)
        ensures
            r == Self::ranks_le(self@, other@),
    ;
}

/// The ranking of `T` as a relation on views.
pub open spec fn rank_order<T: Ranked>() -> spec_fn(T::V, T::V) -> bool {
    |a: T::V, b: T::V| T::ranks_le(a, b)
}

/// The views of a sequence of values.
pub open spec fn view_seq<T: View>(s: Seq<T>) -> Seq<T::V> {
    s.map_values(|x: T| x@)
}

/// The views after a push.
pub proof fn lemma_view_seq_push<T: View>(s: Seq<T>, x: T)
    ensures
        view_seq(s.push(x)) =~= view_seq(s).push(x@),
{
}

/// `sorted_rank(s)` is `s` sorted by the ranking of `T`.
pub open spec fn sorted_rank<T: Ranked>(s: Seq<T::V>) -> Seq<T::V> {
    s.sort_by(rank_order::<T>())
}

/// The ranking of `T` is a total order.
pub proof fn lemma_rank_total_ordering<T: Ranked>()
    ensures
        vstd::relations::total_ordering(rank_order::<T>()),
{
    let le = rank_order::<T>();
    assert forall|x: T::V| #[trigger] le(x, x) by {
        T::lemma_ranks_total(x, x);
    }
    assert forall|x: T::V, y: T::V| #[trigger] le(x, y) && #[trigger] le(y, x) implies x == y by {
        T::lemma_ranks_antisym(x, y);
    }
    assert forall|x: T::V, y: T::V, z: T::V| #[trigger] le(x, y) && #[trigger] le(y, z) implies le(x, z) by {
        T::lemma_ranks_trans(x, y, z);
    }
    assert forall|x: T::V, y: T::V| #[trigger] le(x, y) || #[trigger] le(y, x) by {
        T::lemma_ranks_total(x, y);
    }
}

/// Sorting nothing gives nothing.
pub proof fn lemma_sorted_empty<T: Ranked>(s: Seq<T::V>)
    requires
        s.len() == 0,
    ensures
        sorted_rank::<T>(s).len() == 0,
{
    lemma_rank_total_ordering::<T>();
    s.lemma_sort_by_ensures(rank_order::<T>());
    if sorted_rank::<T>(s).len() > 0 {
        assert(sorted_rank::<T>(s).contains(sorted_rank::<T>(s)[0]));
    }
}

/// Sorting forgets the order of the input: inputs with the same elements sort alike.
pub proof fn lemma_sorted_rank_perm<T: Ranked>(a: Seq<T::V>, b: Seq<T::V>)
    requires
        a.to_multiset() =~= b.to_multiset(),
    ensures
        sorted_rank::<T>(a) == sorted_rank::<T>(b),
{
    let le = rank_order::<T>();
    lemma_rank_total_ordering::<T>();
    a.lemma_sort_by_ensures(le);
    b.lemma_sort_by_ensures(le);
    lemma_sorted_unique(sorted_rank::<T>(a), sorted_rank::<T>(b), le);
}

/// Mapping both sides keeps equal multisets equal.
pub proof fn lemma_map_multiset<A, B>(s1: Seq<A>, s2: Seq<A>, f: spec_fn(A) -> B)
    requires
        s1.to_multiset() =~= s2.to_multiset(),
    ensures
        s1.map_values(f).to_multiset() =~= s2.map_values(f).to_multiset(),
    decreases s1.len(),
{
    broadcast use vstd::seq_lib::group_to_multiset_ensures;
    broadcast use vstd::multiset::group_multiset_axioms;
    s1.to_multiset_ensures();
    s2.to_multiset_ensures();
    s1.map_values(f).to_multiset_ensures();
    s2.map_values(f).to_multiset_ensures();
    if s1.len() == 0 {
        assert(s2.len() == 0);
        assert(s1.map_values(f) =~= s2.map_values(f));
    } else {
        let x = s1[0];
        assert(s1.contains(x));
        assert(s2.to_multiset().count(x) > 0);
        assert(s2.contains(x));
        let k = choose|k: int| 0 <= k < s2.len() && s2[k] == x;
        let r1 = s1.remove(0);
        let r2 = s2.remove(k);
        assert(r1.to_multiset() =~= s1.to_multiset().remove(x));
        assert(r2.to_multiset() =~= s2.to_multiset().remove(x));
        lemma_map_multiset(r1, r2, f);
        assert(s1.map_values(f).remove(0) =~= r1.map_values(f));
        assert(s2.map_values(f).remove(k) =~= r2.map_values(f));
        let m1 = s1.map_values(f).to_multiset();
        let m2 = s2.map_values(f).to_multiset();
        assert(r1.map_values(f).to_multiset() =~= m1.remove(f(x)));
        assert(r2.map_values(f).to_multiset() =~= m2.remove(f(x)));
        assert(s1.map_values(f).contains(f(x)));
        assert(s2.map_values(f)[k] == f(x));
        assert(s2.map_values(f).contains(f(x)));
        assert forall|y: B| m1.count(y) == m2.count(y) by {
            assert(m1.remove(f(x)).count(y) == m2.remove(f(x)).count(y));
        }
        assert(m1 =~= m2);
    }
}

/// Two sequences sorted by the same total order with the same elements are equal.
pub proof fn lemma_sorted_unique<A>(a: Seq<A>, b: Seq<A>, le: spec_fn(A, A) -> bool)
    requires
        vstd::relations::total_ordering(le),
        vstd::relations::sorted_by(a, le),
        vstd::relations::sorted_by(b, le),
        a.to_multiset() =~= b.to_multiset(),
    ensures
        a == b,
    decreases a.len(),
{
    broadcast use vstd::seq_lib::group_to_multiset_ensures;
    broadcast use vstd::multiset::group_multiset_axioms;
    a.to_multiset_ensures();
    b.to_multiset_ensures();
    if a.len() == 0 {
        assert(b.len() == 0);
        assert(a =~= b);
    } else {
        assert(b.len() == a.len());
        assert(a.contains(a[0]));
        assert(a.to_multiset().count(a[0]) > 0);
        assert(b.to_multiset().count(a[0]) > 0);
        assert(b.contains(a[0]));
        let k = choose|k: int| 0 <= k < b.len() && b[k] == a[0];
        assert(b.contains(b[0]));
        assert(b.to_multiset().count(b[0]) > 0);
        assert(a.to_multiset().count(b[0]) > 0);
        assert(a.contains(b[0]));
        let m = choose|m: int| 0 <= m < a.len() && a[m] == b[0];
        if k > 0 {
            assert(le(b[0], b[k]));
        }
        if m > 0 {
            assert(le(a[0], a[m]));
        }
        assert(le(a[0], a[0]));
        assert(a[0] == b[0]);
        let ra = a.remove(0);
        let rb = b.remove(0);
        assert(ra.to_multiset() =~= a.to_multiset().remove(a[0]));
        assert(rb.to_multiset() =~= b.to_multiset().remove(b[0]));
        assert forall|i: int, j: int| 0 <= i < j < ra.len() implies #[trigger] le(ra[i], ra[j]) by {
            assert(ra[i] == a[i + 1] && ra[j] == a[j + 1]);
        }
        assert forall|i: int, j: int| 0 <= i < j < rb.len() implies #[trigger] le(rb[i], rb[j]) by {
            assert(rb[i] == b[i + 1] && rb[j] == b[j + 1]);
        }
        lemma_sorted_unique(ra, rb, le);
        assert(a =~= seq![a[0]] + ra);
        assert(b =~= seq![b[0]] + rb);
    }
}

proof fn lemma_insert_multiset<T>(s: Seq<T>, j: int, x: T)
    requires
        0 <= j <= s.len(),
    ensures
        s.insert(j, x).to_multiset() =~= s.to_multiset().insert(x),
{
    broadcast use vstd::seq_lib::group_to_multiset_ensures;
    let a = s.subrange(0, j);
    let b = s.subrange(j, s.len() as int);
    assert(s =~= a + b);
    assert(s.insert(j, x) =~= a.push(x) + b);
    vstd::seq_lib::lemma_multiset_commutative(a, b);
    vstd::seq_lib::lemma_multiset_commutative(a.push(x), b);
}

/// Sorts by the ranking of `T` (a stable insertion sort); the views of the
/// result are the views of the input sorted by that ranking.
pub fn sort_ranked<T: Ranked>(v: Vec<T>) -> (r: Vec<T>)
    ensures
        view_seq(r@) == sorted_rank::<T>(view_seq(v@)),
        vstd::relations::sorted_by(view_seq(r@), rank_order::<T>()),
{
    broadcast use vstd::seq_lib::group_to_multiset_ensures;
    broadcast use vstd::multiset::group_multiset_axioms;
    let ghost orig = v@;
    let mut v = v;
    let mut r: Vec<T> = Vec::new();
    while v.len() > 0
        invariant
            vstd::relations::sorted_by(view_seq(r@), rank_order::<T>()),
            orig.to_multiset() =~= v@.to_multiset().add(r@.to_multiset()),
        decreases v.len(),
    {
        let ghost before_v = v@;
        let x = v.pop().unwrap();
        assert(before_v =~= v@.push(x));
        proof {
            v@.to_multiset_ensures();
        }
        assert(before_v.to_multiset() =~= v@.to_multiset().insert(x));
        let mut j: usize = 0;
        while j < r.len() && !x.rank_le(&r[j])
            invariant
                j <= r.len(),
                forall|k: int| 0 <= k < j ==> T::ranks_le(#[trigger] r@[k]@, x@),
            decreases r.len() - j,
        {
            proof {
                T::lemma_ranks_total(x@, r@[j as int]@);
            }
            j = j + 1;
        }
        let ghost old_r = r@;
        r.insert(j, x);
        proof {
            lemma_insert_multiset(old_r, j as int, x);
            let le = rank_order::<T>();
            assert forall|a: int, b: int| 0 <= a < b < view_seq(r@).len() implies #[trigger] le(view_seq(r@)[a], view_seq(r@)[b]) by {
                assert(view_seq(r@)[a] == r@[a]@ && view_seq(r@)[b] == r@[b]@);
                if b < j {
                    assert(le(view_seq(old_r)[a], view_seq(old_r)[b]));
                } else if a < j && b == j {
                } else if a < j && b > j {
                    if j < old_r.len() {
                        T::lemma_ranks_trans(r@[a]@, x@, old_r[j as int]@);
                        if b - 1 > j {
                            assert(le(view_seq(old_r)[j as int], view_seq(old_r)[b - 1]));
                            T::lemma_ranks_trans(r@[a]@, old_r[j as int]@, old_r[b - 1]@);
                        }
                    }
                } else if a == j {
                    if b - 1 > j {
                        assert(le(view_seq(old_r)[j as int], view_seq(old_r)[b - 1]));
                        T::lemma_ranks_trans(x@, old_r[j as int]@, old_r[b - 1]@);
                    }
                } else {
                    assert(le(view_seq(old_r)[a - 1], view_seq(old_r)[b - 1]));
                }
            }
        }
    }
    proof {
        let le = rank_order::<T>();
        lemma_rank_total_ordering::<T>();
        assert(v@.to_multiset() =~= vstd::multiset::Multiset::empty());
        assert(r@.to_multiset() =~= orig.to_multiset());
        lemma_map_multiset(r@, orig, |x: T| x@);
        view_seq(orig).lemma_sort_by_ensures(le);
        lemma_sorted_unique(view_seq(r@), sorted_rank::<T>(view_seq(orig)), le);
    }
    r
}

impl Ranked for String {
    open spec fn ranks_le(a: Seq<char>, b: Seq<char>) -> bool {
        chars_le(a, b)
    }

    proof fn lemma_ranks_total(a: Seq<char>, b: Seq<char>) {
        lemma_chars_le_total(a, b);
    }

    proof fn lemma_ranks_trans(a: Seq<char>, b: Seq<char>, c: Seq<char>) {
        lemma_chars_le_trans(a, b, c);
    }

    proof fn lemma_ranks_antisym(a: Seq<char>, b: Seq<char>) {
        lemma_chars_le_antisym(a, b);
    }

    fn rank_le(&self, other: &String) -> (r: bool) {
        str_le(self.as_str(), other.as_str())
    }
}

impl Ranked for Vec<char> {
    open spec fn ranks_le(a: Seq<char>, b: Seq<char>) -> bool {
        chars_le(a, b)
    }

    proof fn lemma_ranks_total(a: Seq<char>, b: Seq<char>) {
        lemma_chars_le_total(a, b);
    }

    proof fn lemma_ranks_trans(a: Seq<char>, b: Seq<char>, c: Seq<char>) {
        lemma_chars_le_trans(a, b, c);
    }

    proof fn lemma_ranks_antisym(a: Seq<char>, b: Seq<char>) {
        lemma_chars_le_antisym(a, b);
    }

    fn rank_le(&self, other: &Vec<char>) -> (r: bool) {
        chars_le_exec(self, other)
    }
}

impl Ranked for usize {
    open spec fn ranks_le(a: usize, b: usize) -> bool {
        a <= b
    }

    proof fn lemma_ranks_total(a: usize, b: usize) {
    }

    proof fn lemma_ranks_trans(a: usize, b: usize, c: usize) {
    }

    proof fn lemma_ranks_antisym(a: usize, b: usize) {
    }

    fn rank_le(&self, other: &usize) -> (r: bool) {
        *self <= *other
    }
}

/// A position ranked by a weight, heavier first, then by the position.
#[derive(Debug)]
pub struct HeavierFirst {
    pub weight: u128,
    pub ordinal: usize,
}

impl View for HeavierFirst {
    type V = (nat, nat);

    open spec fn view(&self) -> (nat, nat) {
        (self.weight as nat, self.ordinal as nat)
    }
}

impl Ranked for HeavierFirst {
    open spec fn ranks_le(a: (nat, nat), b: (nat, nat)) -> bool {
        a.0 > b.0 || (a.0 == b.0 && a.1 <= b.1)
    }

    proof fn lemma_ranks_total(a: (nat, nat), b: (nat, nat)) {
    }

    proof fn lemma_ranks_trans(a: (nat, nat), b: (nat, nat), c: (nat, nat)) {
    }

    proof fn lemma_ranks_antisym(a: (nat, nat), b: (nat, nat)) {
    }

    fn rank_le(&self, other: &Self) -> (r: bool) {
        self.weight > other.weight || (self.weight == other.weight && self.ordinal <= other.ordinal)
    }
}

/// Pushing an element adds it to the set of elements.
pub proof fn lemma_push_to_set<A>(s: Seq<A>, x: A)
    ensures
        s.push(x).to_set() =~= s.to_set().insert(x),
{
    assert(s.push(x) =~= s + seq![x]);
    Seq::lemma_to_set_insert_commutes(s, x);
}

/// Strictly increasing by character order.
pub open spec fn strictly_sorted(s: Seq<Seq<char>>) -> bool {
    forall|i: int, j: int| 0 <= i < j < s.len() ==> #[trigger] chars_lt(s[i], s[j])
}

/// Sorts strings and drops repeated ones: the result is strictly increasing
/// and holds the same set of texts.
pub fn sorted_unique(v: Vec<String>) -> (r: Vec<String>)
    ensures
        strictly_sorted(views(r@)),
        views(r@).to_set() =~= views(v@).to_set(),
{
    broadcast use vstd::seq_lib::group_to_multiset_ensures;
    let ghost vv = views(v@);
    let s = sort_ranked(v);
    let ghost sv = views(s@);
    proof {
        assert(vv =~= view_seq(v@));
        assert(sv =~= view_seq(s@));
        lemma_rank_total_ordering::<String>();
        vv.lemma_sort_by_ensures(rank_order::<String>());
        assert(sv == vv.sort_by(rank_order::<String>()));
        assert forall|x: Seq<char>| vv.contains(x) <==> sv.contains(x) by {
            vv.to_multiset_ensures();
            sv.to_multiset_ensures();
            assert(vv.contains(x) <==> vv.to_multiset().count(x) > 0);
            assert(sv.contains(x) <==> sv.to_multiset().count(x) > 0);
        }
    }
    let mut r: Vec<String> = Vec::new();
    let mut i: usize = 0;
    while i < s.len()
        invariant
            i <= s.len(),
            sv == views(s@),
            vstd::relations::sorted_by(sv, rank_order::<String>()),
            strictly_sorted(views(r@)),
            views(r@).to_set() =~= sv.take(i as int).to_set(),
            r@.len() > 0 ==> i > 0 && r@.last()@ == sv[i - 1],
        decreases s.len() - i,
    {
        let ghost old_r = r@;
        let keep = if r.len() == 0 {
            true
        } else {
            let last = r.len() - 1;
            !str_eq(r[last].as_str(), s[i].as_str())
        };
        proof {
            assert(sv[i as int] == s@[i as int]@);
            assert(sv.take(i + 1) =~= sv.take(i as int).push(sv[i as int]));
        }
        if keep {
            r.push(owned(s[i].as_str()));
            proof {
                assert(views(r@) =~= views(old_r).push(s@[i as int]@));
                lemma_push_to_set(views(old_r), s@[i as int]@);
                lemma_push_to_set(sv.take(i as int), sv[i as int]);
                if old_r.len() > 0 {
                    assert((rank_order::<String>())(sv[i - 1], sv[i as int]));
                    assert(chars_le(old_r.last()@, s@[i as int]@));
                    assert(old_r.last()@ != s@[i as int]@);
                    assert forall|a: int, b: int| 0 <= a < b < views(r@).len() implies #[trigger] chars_lt(views(r@)[a], views(r@)[b]) by {
                        if b == views(r@).len() - 1 {
                            assert(views(r@)[b] == s@[i as int]@);
                            assert(views(old_r)[views(old_r).len() - 1] == old_r.last()@);
                            if a < b - 1 {
                                assert(chars_lt(views(old_r)[a], views(old_r)[b - 1]));
                                lemma_chars_le_trans(views(r@)[a], views(old_r)[b - 1], views(r@)[b]);
                                if views(r@)[a] == views(r@)[b] {
                                    lemma_chars_le_antisym(views(old_r)[a], views(old_r)[b - 1]);
                                }
                            }
                        } else {
                            assert(views(r@)[a] == views(old_r)[a]);
                            assert(views(r@)[b] == views(old_r)[b]);
                        }
                    }
                }
            }
        } else {
            proof {
                let n = views(old_r).len() - 1;
                assert(views(old_r)[n] == old_r.last()@);
                assert(views(old_r).contains(old_r.last()@));
                assert(views(old_r).to_set().contains(old_r.last()@));
                assert(sv.take(i as int).to_set().contains(sv[i as int]));
                lemma_push_to_set(sv.take(i as int), sv[i as int]);
            }
        }
        i = i + 1;
    }
    proof {
        assert(sv.take(s.len() as int) =~= sv);
        assert forall|t: Seq<char>| vv.to_set().contains(t) <==> sv.to_set().contains(t) by {
        }
    }
    r
}


// ─── Lexicographic combinations ────────────────────────────────────────────

/// A pair ranked by its first part, then by its second.
#[derive(Debug)]
pub struct Lex2<A, B> {
    pub first: A,
    pub second: B,
}

impl<A: View, B: View> View for Lex2<A, B> {
    type V = (A::V, B::V);

    open spec fn view(&self) -> (A::V, B::V) {
        (self.first@, self.second@)
    }
}

impl<A: Ranked, B: Ranked> Ranked for Lex2<A, B> {
    open spec fn ranks_le(x: (A::V, B::V), y: (A::V, B::V)) -> bool {
        (A::ranks_le(x.0, y.0) && x.0 != y.0) || (x.0 == y.0 && B::ranks_le(x.1, y.1))
    }

    proof fn lemma_ranks_total(x: (A::V, B::V), y: (A::V, B::V)) {
        A::lemma_ranks_total(x.0, y.0);
        B::lemma_ranks_total(x.1, y.1);
    }

    proof fn lemma_ranks_trans(x: (A::V, B::V), y: (A::V, B::V), z: (A::V, B::V)) {
        if x.0 != y.0 && y.0 != z.0 {
            A::lemma_ranks_trans(x.0, y.0, z.0);
            if x.0 == z.0 {
                A::lemma_ranks_antisym(x.0, y.0);
            }
        } else if x.0 == y.0 && y.0 == z.0 {
            B::lemma_ranks_trans(x.1, y.1, z.1);
        }
    }

    proof fn lemma_ranks_antisym(x: (A::V, B::V), y: (A::V, B::V)) {
        if x.0 != y.0 {
            A::lemma_ranks_antisym(x.0, y.0);
        } else {
            B::lemma_ranks_antisym(x.1, y.1);
        }
    }

    fn rank_le(&self, other: &Self) -> (r: bool) {
        let le = self.first.rank_le(&other.first);
        let ge = other.first.rank_le(&self.first);
        if le && ge {
            proof {
                A::lemma_ranks_antisym(self.first@, other.first@);
            }
            self.second.rank_le(&other.second)
        } else {
            proof {
                if self.first@ == other.first@ {
                    A::lemma_ranks_total(self.first@, other.first@);
                }
            }
            le
        }
    }
}

/// Lexicographic order on sequences, by the ranking of `T`.
pub open spec fn lex_le<T: Ranked>(x: Seq<T::V>, y: Seq<T::V>) -> bool
    decreases x.len(),
{
    if x.len() == 0 {
        true
    } else if y.len() == 0 {
        false
    } else if x[0] != y[0] {
        T::ranks_le(x[0], y[0])
    } else {
        lex_le::<T>(x.drop_first(), y.drop_first())
    }
}

proof fn lemma_lex_total<T: Ranked>(x: Seq<T::V>, y: Seq<T::V>)
    ensures
        lex_le::<T>(x, y) || lex_le::<T>(y, x),
    decreases x.len(),
{
    if x.len() > 0 && y.len() > 0 {
        if x[0] != y[0] {
            T::lemma_ranks_total(x[0], y[0]);
        } else {
            lemma_lex_total::<T>(x.drop_first(), y.drop_first());
        }
    }
}

proof fn lemma_lex_antisym<T: Ranked>(x: Seq<T::V>, y: Seq<T::V>)
    requires
        lex_le::<T>(x, y),
        lex_le::<T>(y, x),
    ensures
        x == y,
    decreases x.len(),
{
    if x.len() > 0 && y.len() > 0 {
        if x[0] != y[0] {
            T::lemma_ranks_antisym(x[0], y[0]);
        } else {
            lemma_lex_antisym::<T>(x.drop_first(), y.drop_first());
            assert(x =~= seq![x[0]] + x.drop_first());
            assert(y =~= seq![y[0]] + y.drop_first());
        }
    } else {
        assert(x.len() == 0 && y.len() == 0);
        assert(x =~= y);
    }
}

proof fn lemma_lex_trans<T: Ranked>(x: Seq<T::V>, y: Seq<T::V>, z: Seq<T::V>)
    requires
        lex_le::<T>(x, y),
        lex_le::<T>(y, z),
    ensures
        lex_le::<T>(x, z),
    decreases x.len(),
{
    if x.len() > 0 && y.len() > 0 && z.len() > 0 {
        if x[0] == y[0] && y[0] == z[0] {
            lemma_lex_trans::<T>(x.drop_first(), y.drop_first(), z.drop_first());
        } else if x[0] != y[0] && y[0] != z[0] {
            T::lemma_ranks_trans(x[0], y[0], z[0]);
            if x[0] == z[0] {
                T::lemma_ranks_antisym(x[0], y[0]);
            }
        }
    }
}

/// A list ranked lexicographically by its elements.
#[derive(Debug)]
pub struct RankedList<T> {
    pub items: Vec<T>,
}

impl<T: View> View for RankedList<T> {
    type V = Seq<T::V>;

    open spec fn view(&self) -> Seq<T::V> {
        view_seq(self.items@)
    }
}

impl<T: Ranked> Ranked for RankedList<T> {
    open spec fn ranks_le(x: Seq<T::V>, y: Seq<T::V>) -> bool {
        lex_le::<T>(x, y)
    }

    proof fn lemma_ranks_total(x: Seq<T::V>, y: Seq<T::V>) {
        lemma_lex_total::<T>(x, y);
    }

    proof fn lemma_ranks_trans(x: Seq<T::V>, y: Seq<T::V>, z: Seq<T::V>) {
        lemma_lex_trans::<T>(x, y, z);
    }

    proof fn lemma_ranks_antisym(x: Seq<T::V>, y: Seq<T::V>) {
        lemma_lex_antisym::<T>(x, y);
    }

    fn rank_le(&self, other: &Self) -> (r: bool) {
        let ghost x = self@;
        let ghost y = other@;
        let mut i: usize = 0;
        assert(x.skip(0) =~= x);
        assert(y.skip(0) =~= y);
        while i < self.items.len() && i < other.items.len()
            invariant
                i <= self.items.len(),
                i <= other.items.len(),
                x == view_seq(self.items@),
                y == view_seq(other.items@),
                lex_le::<T>(x, y) == lex_le::<T>(x.skip(i as int), y.skip(i as int)),
            decreases self.items.len() - i,
        {
            let le = self.items[i].rank_le(&other.items[i]);
            let ge = other.items[i].rank_le(&self.items[i]);
            assert(x.skip(i as int)[0] == x[i as int]);
            assert(y.skip(i as int)[0] == y[i as int]);
            if !(le && ge) {
                proof {
                    if x[i as int] == y[i as int] {
                        T::lemma_ranks_total(x[i as int], y[i as int]);
                    }
                }
                return le;
            }
            proof {
                T::lemma_ranks_antisym(x[i as int], y[i as int]);
                assert(x.skip(i as int).drop_first() =~= x.skip(i + 1));
                assert(y.skip(i as int).drop_first() =~= y.skip(i + 1));
            }
            i = i + 1;
        }
        if i == self.items.len() {
            assert(x.skip(i as int).len() == 0);
            true
        } else {
            assert(y.skip(i as int).len() == 0);
            false
        }
    }
}

} // verus!
