//! Stable sorting, and the order of byte strings.
use vstd::prelude::*;
use vstd::seq_lib::*;

verus! {

/// Values with a total order, in which distinct values may be equivalent.
pub trait Sortable: Sized {
    /// The value comes before the other, or is equivalent to it.
    spec fn before_eq(&self, other: &Self) -> bool;

    /// Whether the value comes before the other, or is equivalent to it.
    fn comes_before_eq(&self, other: &Self) -> (r: bool)
        ensures
            r == self.before_eq(other),
    ;

    /// Any two values are ordered.
    proof fn lemma_total(&self, other: &Self)
        ensures
            self.before_eq(other) || other.before_eq(self),
    ;

    /// The order is transitive.
    proof fn lemma_transitive(&self, middle: &Self, last: &Self)
        requires
            self.before_eq(middle),
            middle.before_eq(last),
        ensures
            self.before_eq(last),
    ;
}

/// Two values that the order does not tell apart.
pub open spec fn equivalent<T: Sortable>(a: T, b: T) -> bool {
    a.before_eq(&b) && b.before_eq(&a)
}

/// Every value comes before those after it, or is equivalent to them.
pub open spec fn sorted<T: Sortable>(s: Seq<T>) -> bool {
    forall|i: int, j: int|
        #![trigger s[i], s[j]]
        0 <= i < j < s.len() ==> s[i].before_eq(&s[j])
}

/// The values of `s` equivalent to `k`, in their order.
pub open spec fn class_of<T: Sortable>(s: Seq<T>, k: T) -> Seq<T> {
    s.filter(|x: T| equivalent(x, k))
}

/// `output` holds the values of `input` in order, and equivalent values stand as they stood.
pub open spec fn is_stable_sort<T: Sortable>(input: Seq<T>, output: Seq<T>) -> bool {
    &&& sorted(output)
    &&& output.to_multiset() == input.to_multiset()
    &&& forall|k: T| #[trigger] class_of(output, k) == class_of(input, k)
}

/// Every value of `s` stands before `x` or is equivalent to it.
spec fn all_before<T: Sortable>(s: Seq<T>, x: T) -> bool {
    forall|i: int| 0 <= i < s.len() ==> (#[trigger] s[i]).before_eq(&x)
}

/// No value of `s` stands before `x` or is equivalent to it.
spec fn none_before<T: Sortable>(s: Seq<T>, x: T) -> bool {
    forall|i: int| 0 <= i < s.len() ==> !(#[trigger] s[i]).before_eq(&x)
}

/// A list none of whose values is equivalent to `k` has an empty class of `k`.
proof fn lemma_empty_class<T: Sortable>(s: Seq<T>, k: T)
    requires
        forall|i: int| 0 <= i < s.len() ==> !equivalent(#[trigger] s[i], k),
    ensures
        class_of(s, k) == Seq::<T>::empty(),
    decreases s.len(),
{
    reveal(Seq::filter);
    if s.len() > 0 {
        lemma_empty_class(s.drop_last(), k);
        assert(s.last() == s[s.len() - 1]);
    }
}

/// Putting `x` behind all values up to its own and before the others keeps
/// the list sorted and puts `x` last in its class.
proof fn lemma_insert<T: Sortable>(low: Seq<T>, x: T, high: Seq<T>)
    requires
        sorted(low + high),
        all_before(low, x),
        none_before(high, x),
    ensures
        sorted(low + seq![x] + high),
        forall|k: T| #[trigger]
            class_of(low + seq![x] + high, k) == class_of(low + high, k) + class_of(seq![x], k),
{
    let out = low + seq![x] + high;
    assert forall|i: int, j: int|
        #![trigger out[i], out[j]]
        0 <= i < j < out.len() implies out[i].before_eq(&out[j]) by {
        let all = low + high;
        let n = low.len() as int;
        if j < n {
            assert(out[i] == all[i] && out[j] == all[j]);
        } else if j == n {
            assert(out[i] == low[i]);
        } else if i < n {
            assert(out[i] == all[i] && out[j] == all[j - 1]);
        } else if i == n {
            assert(out[j] == high[j - n - 1]);
            x.lemma_total(&out[j]);
        } else {
            assert(out[i] == all[i - 1] && out[j] == all[j - 1]);
        }
    }
    assert forall|k: T| #[trigger]
        class_of(out, k) == class_of(low + high, k) + class_of(seq![x], k) by {
        let pred = |y: T| equivalent(y, k);
        Seq::filter_distributes_over_add(low + seq![x], high, pred);
        Seq::filter_distributes_over_add(low, seq![x], pred);
        Seq::filter_distributes_over_add(low, high, pred);
        if equivalent(x, k) {
            assert forall|i: int| 0 <= i < high.len() implies !equivalent(#[trigger] high[i], k) by {
                if equivalent(high[i], k) {
                    high[i].lemma_transitive(&k, &x);
                }
            }
            lemma_empty_class(high, k);
        } else {
            assert forall|i: int| 0 <= i < seq![x].len() implies !equivalent(
                #[trigger] seq![x][i],
                k,
            ) by {}
            lemma_empty_class(seq![x], k);
        }
        assert(class_of(out, k) =~= class_of(low + high, k) + class_of(seq![x], k));
    }
}

/// Sorts a list, keeping equivalent values in the order they have.
pub fn stable_sort<T: Sortable>(items: Vec<T>) -> (r: Vec<T>)
    ensures
        is_stable_sort(items@, r@),
{
    let mut out: Vec<T> = Vec::new();
    let ghost input = items@;
    let mut rest: Vec<T> = items;
    let n: usize = rest.len();
    let mut i: usize = 0;
    proof {
        assert(input.take(0) =~= out@);
        assert(input.skip(0) =~= input);
    }
    while i < n
        invariant
            i <= n,
            n == input.len(),
            rest@ == input.skip(i as int),
            out@.len() == i,
            is_stable_sort(input.take(i as int), out@),
        decreases n - i,
    {
        let x: T = rest.remove(0);
        let mut k: usize = out.len();
        while k > 0 && !out[k - 1].comes_before_eq(&x)
            invariant
                k <= out.len(),
                sorted(out@),
                none_before(out@.skip(k as int), x),
            decreases k,
        {
            k = k - 1;
            proof {
                assert(out@.skip(k as int) =~= seq![out@[k as int]] + out@.skip(k + 1));
            }
        }
        let ghost low = out@.take(k as int);
        let ghost high = out@.skip(k as int);
        proof {
            assert(low + high =~= out@);
            if k > 0 {
                assert forall|j: int| 0 <= j < low.len() implies (#[trigger] low[j]).before_eq(
                    &x,
                ) by {
                    if j < k - 1 {
                        assert(out@[j].before_eq(&out@[k - 1]));
                        low[j].lemma_transitive(&out@[k - 1], &x);
                    }
                }
            }
            lemma_insert(low, x, high);
        }
        let ghost before = out@;
        out.insert(k, x);
        i = i + 1;
        proof {
            let done = input.take(i - 1);
            assert(rest@ =~= input.skip(i as int));
            assert(x == input[i - 1]);
            assert(out@ =~= low + seq![x] + high);
            assert(input.take(i as int) =~= done + seq![x]);
            assert forall|c: T| #[trigger]
                class_of(out@, c) == class_of(input.take(i as int), c) by {
                Seq::filter_distributes_over_add(done, seq![x], |y: T| equivalent(y, c));
                assert(class_of(before, c) == class_of(done, c));
            }
            assert(out@.to_multiset() =~= input.take(i as int).to_multiset()) by {
                broadcast use vstd::seq_lib::group_to_multiset_ensures;

                assert(done + seq![x] =~= done.push(x));
                assert(out@ =~= before.insert(k as int, x));
            }
        }
    }
    proof {
        assert(input.take(n as int) =~= input);
    }
    out
}

/// Two sorted lists with the same classes are the same list: a stable sort
/// has one result only.
pub proof fn law_stable_sort_is_unique<T: Sortable>(input: Seq<T>, a: Seq<T>, b: Seq<T>)
    requires
        is_stable_sort(input, a),
        is_stable_sort(input, b),
    ensures
        a == b,
{
    lemma_same_classes(a, b);
}

/// The values of a list in order; equivalent ones stand as they stood.
pub open spec fn sort_of<T: Sortable>(s: Seq<T>) -> Seq<T> {
    choose|t: Seq<T>| is_stable_sort(s, t)
}

/// A stable sort of a list is its values in order.
pub proof fn lemma_sort_of<T: Sortable>(s: Seq<T>, t: Seq<T>)
    requires
        is_stable_sort(s, t),
    ensures
        sort_of(s) == t,
        is_stable_sort(s, sort_of(s)),
{
    law_stable_sort_is_unique(s, sort_of(s), t);
}

/// Every list has a stable sort: its values in order are one.
pub proof fn law_sort_exists<T: Sortable>(s: Seq<T>)
    ensures
        is_stable_sort(s, sort_of(s)),
        sorted(sort_of(s)),
        sort_of(s).to_multiset() == s.to_multiset(),
    decreases s.len(),
{
    if s.len() == 0 {
        assert(is_stable_sort(s, s));
    } else {
        let done = s.drop_last();
        let x = s.last();
        law_sort_exists(done);
        let t = sort_of(done);
        let k = lemma_place(t, x, t.len() as int);
        let low = t.take(k);
        let high = t.skip(k);
        let out = low + seq![x] + high;
        assert(low + high =~= t);
        lemma_insert(low, x, high);
        assert(s =~= done + seq![x]);
        assert forall|c: T| #[trigger] class_of(out, c) == class_of(s, c) by {
            Seq::filter_distributes_over_add(done, seq![x], |y: T| equivalent(y, c));
            assert(class_of(t, c) == class_of(done, c));
        }
        assert(out.to_multiset() =~= s.to_multiset()) by {
            broadcast use vstd::seq_lib::group_to_multiset_ensures;

            assert(s =~= done.push(x));
            assert(out =~= t.insert(k, x));
        }
        assert(is_stable_sort(s, out));
    }
}

/// Where a value goes in a sorted list: behind those before it or equivalent to it.
proof fn lemma_place<T: Sortable>(t: Seq<T>, x: T, n: int) -> (k: int)
    requires
        sorted(t),
        0 <= n <= t.len(),
        none_before(t.skip(n), x),
    ensures
        0 <= k <= n,
        all_before(t.take(k), x),
        none_before(t.skip(k), x),
    decreases n,
{
    if n == 0 {
        0
    } else if t[n - 1].before_eq(&x) {
        assert forall|j: int| 0 <= j < t.take(n).len() implies (#[trigger] t.take(n)[j]).before_eq(
            &x,
        ) by {
            if j < n - 1 {
                assert(t[j].before_eq(&t[n - 1]));
                t[j].lemma_transitive(&t[n - 1], &x);
            }
        }
        n
    } else {
        assert forall|j: int| 0 <= j < t.skip(n - 1).len() implies !(#[trigger] t.skip(
            n - 1,
        )[j]).before_eq(&x) by {
            if j > 0 {
                assert(t.skip(n - 1)[j] == t.skip(n)[j - 1]);
            }
        }
        lemma_place(t, x, n - 1)
    }
}

/// Values that come before each other are the same.
pub open spec fn antisymmetric<T: Sortable>() -> bool {
    forall|a: T, b: T| #[trigger] a.before_eq(&b) && b.before_eq(&a) ==> a == b
}

/// The list holds the members of the set, each once, in order.
pub open spec fn lists<T: Sortable>(members: Set<T>, s: Seq<T>) -> bool {
    &&& forall|i: int, j: int|
        #![trigger s[i], s[j]]
        0 <= i < j < s.len() ==> s[i].before_eq(&s[j]) && s[i] != s[j]
    &&& forall|x: T| #[trigger] s.contains(x) <==> members.contains(x)
}

/// The members of a set in order.
pub open spec fn listing_of<T: Sortable>(members: Set<T>) -> Seq<T> {
    choose|s: Seq<T>| lists(members, s)
}

/// A set has one listing at most.
proof fn lemma_listing_is_unique<T: Sortable>(members: Set<T>, s: Seq<T>, t: Seq<T>)
    requires
        antisymmetric::<T>(),
        lists(members, s),
        lists(members, t),
    ensures
        s == t,
    decreases s.len(),
{
    if s.len() == 0 {
        if t.len() > 0 {
            assert(t.contains(t[0]));
            assert(s.contains(t[0]));
        }
        assert(s =~= t);
    } else {
        let a = s.last();
        assert(s.contains(a));
        assert(t.contains(a));
        let j = choose|j: int| 0 <= j < t.len() && t[j] == a;
        let b = t.last();
        assert(t.contains(b));
        assert(s.contains(b));
        let i = choose|i: int| 0 <= i < s.len() && s[i] == b;
        a.lemma_total(&a);
        assert(a.before_eq(&b));
        assert(b.before_eq(&a));
        assert(a == b);
        let rest = members.remove(a);
        assert forall|x: T| #[trigger] s.drop_last().contains(x) <==> rest.contains(x) by {
            lemma_listing_without_last(members, s, x);
        }
        assert forall|x: T| #[trigger] t.drop_last().contains(x) <==> rest.contains(x) by {
            lemma_listing_without_last(members, t, x);
        }
        lemma_listing_is_unique(rest, s.drop_last(), t.drop_last());
        assert(s =~= s.drop_last().push(a));
        assert(t =~= t.drop_last().push(a));
    }
}

/// A listing without its last member.
proof fn lemma_listing_without_last<T: Sortable>(members: Set<T>, s: Seq<T>, x: T)
    requires
        lists(members, s),
        s.len() > 0,
    ensures
        s.drop_last().contains(x) <==> members.contains(x) && x != s.last(),
{
    if s.drop_last().contains(x) {
        let i = choose|i: int| 0 <= i < s.len() - 1 && s.drop_last()[i] == x;
        assert(s[i] == x);
        assert(s.contains(x));
    }
    if members.contains(x) && x != s.last() {
        assert(s.contains(x));
        let i = choose|i: int| 0 <= i < s.len() && s[i] == x;
        assert(s.drop_last()[i] == x);
    }
}

/// Distinct values in order are the listing of their set.
pub proof fn lemma_sorted_listing<T: Sortable>(members: Set<T>, input: Seq<T>, output: Seq<T>)
    requires
        antisymmetric::<T>(),
        is_stable_sort(input, output),
        input.no_duplicates(),
        forall|x: T| #[trigger] input.contains(x) <==> members.contains(x),
    ensures
        lists(members, output),
        listing_of(members) == output,
{
    lemma_permutation(input, output);
    assert forall|i: int, j: int|
        #![trigger output[i], output[j]]
        0 <= i < j < output.len() implies output[i].before_eq(&output[j]) && output[i]
        != output[j] by {
        lemma_distinct_keys_stay(input, output, |x: T| x, i, j);
    }
    assert forall|x: T| #[trigger] output.contains(x) <==> members.contains(x) by {
        if output.contains(x) {
            let i = choose|i: int| 0 <= i < output.len() && output[i] == x;
            assert(input.contains(output[i]));
        }
        if members.contains(x) {
            assert(input.contains(x));
            let i = choose|i: int| 0 <= i < input.len() && input[i] == x;
            assert(output.contains(input[i]));
        }
    }
    assert(lists(members, output));
    lemma_listing_is_unique(members, output, listing_of(members));
}

/// Every finite set has a listing: its members in order are one.
pub proof fn law_listing_exists<T: Sortable>(members: Set<T>)
    requires
        antisymmetric::<T>(),
        members.finite(),
    ensures
        lists(members, listing_of(members)),
{
    let input = lemma_members(members);
    law_sort_exists(input);
    lemma_sorted_listing(members, input, sort_of(input));
}

/// The members of a finite set can be listed, each once.
proof fn lemma_members<T>(members: Set<T>) -> (s: Seq<T>)
    requires
        members.finite(),
    ensures
        s.no_duplicates(),
        forall|x: T| #[trigger] s.contains(x) <==> members.contains(x),
    decreases members.len(),
{
    if members.len() == 0 {
        let s = Seq::<T>::empty();
        assert forall|x: T| #[trigger] s.contains(x) <==> members.contains(x) by {
            assert(members =~= Set::<T>::empty());
        }
        s
    } else {
        let a = members.choose();
        let rest = lemma_members(members.remove(a));
        let s = rest.push(a);
        assert(!rest.contains(a));
        assert forall|x: T| #[trigger] s.contains(x) <==> members.contains(x) by {
            if s.contains(x) {
                let i = choose|i: int| 0 <= i < s.len() && s[i] == x;
                if i < rest.len() {
                    assert(rest[i] == x);
                    assert(rest.contains(x));
                }
            }
            if members.contains(x) {
                if x == a {
                    assert(s[rest.len() as int] == a);
                } else {
                    assert(rest.contains(x));
                    let i = choose|i: int| 0 <= i < rest.len() && rest[i] == x;
                    assert(s[i] == x);
                }
            }
        }
        s
    }
}

/// Sorted lists with the same classes are equal.
proof fn lemma_same_classes<T: Sortable>(a: Seq<T>, b: Seq<T>)
    requires
        sorted(a),
        sorted(b),
        forall|k: T| #[trigger] class_of(a, k) == class_of(b, k),
    ensures
        a == b,
    decreases a.len() + b.len(),
{
    reveal(Seq::filter);
    if a.len() == 0 || b.len() == 0 {
        if a.len() > 0 {
            a.last().lemma_total(&a.last());
            assert(class_of(a, a.last()).len() > 0);
            assert(class_of(b, a.last()).len() == 0);
        }
        if b.len() > 0 {
            b.last().lemma_total(&b.last());
            assert(class_of(b, b.last()).len() > 0);
            assert(class_of(a, b.last()).len() == 0);
        }
        assert(a =~= b);
    } else {
        let x = a.last();
        let y = b.last();
        x.lemma_total(&x);
        y.lemma_total(&y);
        // The last value of each list occurs in the other, so the two are equivalent.
        lemma_class_member(a, b, x);
        lemma_class_member(b, a, y);
        let i = choose|i: int| 0 <= i < b.len() && equivalent(b[i], x);
        let j = choose|j: int| 0 <= j < a.len() && equivalent(a[j], y);
        if i < b.len() - 1 {
            assert(b[i].before_eq(&b[b.len() - 1]));
            x.lemma_transitive(&b[i], &y);
        }
        if j < a.len() - 1 {
            assert(a[j].before_eq(&a[a.len() - 1]));
            y.lemma_transitive(&a[j], &x);
        }
        assert(equivalent(y, x));
        assert(class_of(a, x).last() == x);
        assert(class_of(b, x).last() == y);
        assert(x == y);
        let a1 = a.drop_last();
        let b1 = b.drop_last();
        assert forall|k: T| #[trigger] class_of(a1, k) == class_of(b1, k) by {
            assert(class_of(a, k) == class_of(b, k));
            if equivalent(x, k) {
                assert(class_of(a, k).drop_last() =~= class_of(a1, k));
                assert(class_of(b, k).drop_last() =~= class_of(b1, k));
            }
        }
        assert forall|p: int, q: int|
            #![trigger a1[p], a1[q]]
            0 <= p < q < a1.len() implies a1[p].before_eq(&a1[q]) by {
            assert(a[p].before_eq(&a[q]));
        }
        assert forall|p: int, q: int|
            #![trigger b1[p], b1[q]]
            0 <= p < q < b1.len() implies b1[p].before_eq(&b1[q]) by {
            assert(b[p].before_eq(&b[q]));
        }
        lemma_same_classes(a1, b1);
        assert(a =~= a1.push(x));
        assert(b =~= b1.push(y));
    }
}

/// A value of one list has an equivalent one in the other.
proof fn lemma_class_member<T: Sortable>(a: Seq<T>, b: Seq<T>, x: T)
    requires
        a.len() > 0,
        x == a.last(),
        equivalent(x, x),
        class_of(a, x) == class_of(b, x),
    ensures
        exists|i: int| 0 <= i < b.len() && equivalent(b[i], x),
{
    reveal(Seq::filter);
    assert(class_of(a, x).len() > 0);
    if forall|i: int| 0 <= i < b.len() ==> !equivalent(#[trigger] b[i], x) {
        lemma_empty_class(b, x);
        assert(false);
    }
}

/// A sorted list has the members of the list it came from.
pub proof fn lemma_permutation<T: Sortable>(input: Seq<T>, output: Seq<T>)
    requires
        is_stable_sort(input, output),
    ensures
        input.len() == output.len(),
        forall|i: int| 0 <= i < output.len() ==> input.contains(#[trigger] output[i]),
        forall|i: int| 0 <= i < input.len() ==> output.contains(#[trigger] input[i]),
{
    input.to_multiset_ensures();
    output.to_multiset_ensures();
    assert forall|i: int| 0 <= i < output.len() implies input.contains(#[trigger] output[i]) by {
        assert(output.contains(output[i]));
        assert(output.to_multiset().count(output[i]) > 0);
    }
    assert forall|i: int| 0 <= i < input.len() implies output.contains(#[trigger] input[i]) by {
        assert(input.contains(input[i]));
        assert(input.to_multiset().count(input[i]) > 0);
    }
}

/// Where no two values of a list share a key, no two values of it sorted do.
pub proof fn lemma_distinct_keys_stay<T: Sortable, K>(
    input: Seq<T>,
    output: Seq<T>,
    key: spec_fn(T) -> K,
    a: int,
    b: int,
)
    requires
        is_stable_sort(input, output),
        forall|i: int, j: int|
            #![trigger input[i], input[j]]
            0 <= i < j < input.len() ==> key(input[i]) != key(input[j]),
        0 <= a < b < output.len(),
    ensures
        key(output[a]) != key(output[b]),
{
    lemma_permutation(input, output);
    assert(input.contains(output[a]));
    assert(input.contains(output[b]));
    let i = choose|i: int| 0 <= i < input.len() && input[i] == output[a];
    let j = choose|j: int| 0 <= j < input.len() && input[j] == output[b];
    if i == j {
        // One value of the input cannot stand twice in the output.
        let x = output[a];
        assert forall|p: int, q: int| 0 <= p < q < input.len() implies input[p] != input[q] by {
            assert(key(input[p]) != key(input[q]));
        }
        assert(input.no_duplicates());
        input.lemma_multiset_has_no_duplicates();
        input.to_multiset_ensures();
        output.to_multiset_ensures();
        assert(output.to_multiset().count(x) <= 1);
        lemma_two_occurrences(output, a, b);
    } else if i < j {
        assert(key(input[i]) != key(input[j]));
    } else {
        assert(key(input[j]) != key(input[i]));
    }
}

/// A value that stands at two places is counted at least twice.
proof fn lemma_two_occurrences<T>(s: Seq<T>, a: int, b: int)
    requires
        0 <= a < b < s.len(),
        s[a] == s[b],
    ensures
        s.to_multiset().count(s[a]) >= 2,
{
    broadcast use vstd::seq_lib::group_to_multiset_ensures;

    let t = s.remove(b);
    assert(t[a] == s[a]);
    assert(t.contains(s[a]));
    assert(t.to_multiset().count(s[a]) > 0);
    assert(t.to_multiset() =~= s.to_multiset().remove(s[b]));
    assert(s.contains(s[b]));
}

/// Lexicographic order of equally long byte strings.
pub open spec fn lex_le(a: Seq<u8>, b: Seq<u8>) -> bool
    decreases a.len(),
{
    if a.len() == 0 || b.len() == 0 {
        true
    } else if a[0] != b[0] {
        a[0] < b[0]
    } else {
        lex_le(a.drop_first(), b.drop_first())
    }
}

/// Of two byte strings one comes first.
pub proof fn lemma_lex_total(a: Seq<u8>, b: Seq<u8>)
    ensures
        lex_le(a, b) || lex_le(b, a),
    decreases a.len(),
{
    if a.len() > 0 && b.len() > 0 && a[0] == b[0] {
        lemma_lex_total(a.drop_first(), b.drop_first());
    }
}

/// The lexicographic order is transitive on byte strings of one length.
pub proof fn lemma_lex_transitive(a: Seq<u8>, b: Seq<u8>, c: Seq<u8>)
    requires
        a.len() == b.len(),
        b.len() == c.len(),
        lex_le(a, b),
        lex_le(b, c),
    ensures
        lex_le(a, c),
    decreases a.len(),
{
    if a.len() > 0 && a[0] == b[0] && b[0] == c[0] {
        lemma_lex_transitive(a.drop_first(), b.drop_first(), c.drop_first());
    }
}

/// Byte strings of one length that come before each other are equal.
pub proof fn lemma_lex_antisymmetric(a: Seq<u8>, b: Seq<u8>)
    requires
        a.len() == b.len(),
        lex_le(a, b),
        lex_le(b, a),
    ensures
        a == b,
    decreases a.len(),
{
    if a.len() > 0 {
        lemma_lex_antisymmetric(a.drop_first(), b.drop_first());
        assert(a =~= seq![a[0]] + a.drop_first());
        assert(b =~= seq![b[0]] + b.drop_first());
    } else {
        assert(a =~= b);
    }
}

/// Whether one 32-byte address comes before another, or is the same.
pub fn pubkey_le(a: &[u8; 32], b: &[u8; 32]) -> (r: bool)
    ensures
        r == lex_le(a@, b@),
{
    let mut i: usize = 0;
    proof {
        assert(a@.skip(0) =~= a@);
        assert(b@.skip(0) =~= b@);
    }
    while i < 32
        invariant
            i <= 32,
            lex_le(a@, b@) == lex_le(a@.skip(i as int), b@.skip(i as int)),
        decreases 32 - i,
    {
        proof {
            assert(a@.skip(i as int).drop_first() =~= a@.skip(i + 1));
            assert(b@.skip(i as int).drop_first() =~= b@.skip(i + 1));
            assert(a@.skip(i as int)[0] == a[i as int]);
            assert(b@.skip(i as int)[0] == b[i as int]);
        }
        if a[i] != b[i] {
            return a[i] < b[i];
        }
        i = i + 1;
    }
    true
}

impl Sortable for u32 {
    open spec fn before_eq(&self, other: &Self) -> bool {
        *self <= *other
    }

    fn comes_before_eq(&self, other: &Self) -> (r: bool) {
        *self <= *other
    }

    proof fn lemma_total(&self, other: &Self) {
    }

    proof fn lemma_transitive(&self, middle: &Self, last: &Self) {
    }
}

impl Sortable for i64 {
    open spec fn before_eq(&self, other: &Self) -> bool {
        *self <= *other
    }

    fn comes_before_eq(&self, other: &Self) -> (r: bool) {
        *self <= *other
    }

    proof fn lemma_total(&self, other: &Self) {
    }

    proof fn lemma_transitive(&self, middle: &Self, last: &Self) {
    }
}

impl Sortable for [u8; 32] {
    open spec fn before_eq(&self, other: &Self) -> bool {
        lex_le(self@, other@)
    }

    fn comes_before_eq(&self, other: &Self) -> (r: bool) {
        pubkey_le(self, other)
    }

    proof fn lemma_total(&self, other: &Self) {
        lemma_lex_total(self@, other@);
    }

    proof fn lemma_transitive(&self, middle: &Self, last: &Self) {
        lemma_lex_transitive(self@, middle@, last@);
    }
}

impl Sortable for ([u8; 32], Vec<u8>) {
    open spec fn before_eq(&self, other: &Self) -> bool {
        lex_le(self.0@, other.0@)
    }

    fn comes_before_eq(&self, other: &Self) -> (r: bool) {
        pubkey_le(&self.0, &other.0)
    }

    proof fn lemma_total(&self, other: &Self) {
        lemma_lex_total(self.0@, other.0@);
    }

    proof fn lemma_transitive(&self, middle: &Self, last: &Self) {
        lemma_lex_transitive(self.0@, middle.0@, last.0@);
    }
}

} // verus!
