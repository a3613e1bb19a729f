//! What holds of the statistics of whole numbers, in ordinary arithmetic,
//! and what holds of every sample with a single element.

use vstd::prelude::*;
use vstd::std_specs::ops::AddSpec;
use vstd::std_specs::ops::DivSpec;
use crate::maths::frequency::is_first_most_frequent;
use crate::maths::frequency::occurrences;
use crate::maths::frequency::texts;
use crate::maths::kinds::WholeKind;
use crate::maths::kinds::WidensTo;
use crate::maths::kinds::truncated_quotient;
use crate::maths::numeric::are_texts_of;
use crate::maths::numeric::count_defined;
use crate::maths::numeric::count_from;
use crate::maths::numeric::is_converted;
use crate::maths::numeric::is_literal;
use crate::maths::numeric::is_text_of;
use crate::maths::numeric::is_zero;
use crate::maths::numeric::sum_defined;
use crate::maths::numeric::sum_from;
use crate::maths::order::order_separates;
use crate::maths::order::order_specified;
use crate::maths::order::total_le;
use crate::maths::sorting::is_sorted_copy;
use crate::maths::stats::is_mean;
use crate::maths::stats::is_median;
use crate::maths::stats::is_middle;
use crate::maths::stats::is_mode;
use crate::maths::stats::is_mode_key;
use crate::maths::stats::is_parsed_from;
use crate::maths::stats::mean_defined;
use crate::maths::stats::median_defined;
use crate::maths::stats::middle_defined;
use crate::maths::stats::upper_place;

verus! {

/// The sum of the numbers that the elements of `s` stand for.
pub open spec fn total<I: WholeKind>(s: Seq<I>) -> int {
    s.fold_left(0int, |sum: int, x: I| sum + x.number())
}

/// The sum of every non-empty prefix of `s` is a number of the kind.
pub open spec fn sums_fit<I: WholeKind>(s: Seq<I>) -> bool {
    forall|k: int| 0 < k <= s.len() ==> I::least() <= #[trigger] total(s.take(k)) <= I::greatest()
}

/// The total order of a kind of whole numbers is specified, and sets any
/// two different values apart.
pub proof fn lemma_whole_numbers_are_ordered<I: WholeKind>()
    ensures
        order_specified::<I>(),
        order_separates::<I>(),
{
    assert forall|a: I, b: I| #[trigger] total_le(a, b) || total_le(b, a) by {
        I::lemma_order(a, b);
        I::lemma_order(b, a);
    }
    assert forall|a: I, b: I, c: I| #[trigger] total_le(a, b) && #[trigger] total_le(b, c) implies total_le(
        a,
        c,
    ) by {
        I::lemma_order(a, b);
        I::lemma_order(b, c);
        I::lemma_order(a, c);
    }
    assert forall|a: I, b: I| #[trigger] total_le(a, b) && total_le(b, a) implies a == b by {
        I::lemma_order(a, b);
        I::lemma_order(b, a);
        I::lemma_same_number(a, b);
    }
    let any: I = arbitrary();
    I::lemma_order(any, any);
}

/// The running sum of whole numbers can be computed exactly where every
/// prefix sum is a number of the kind, and is then the sum of the numbers.
pub proof fn lemma_sum_of_whole_numbers<I: WholeKind>(zero: I, s: Seq<I>)
    requires
        is_zero(zero),
    ensures
        sum_defined(zero, s) <==> sums_fit(s),
        sum_defined(zero, s) ==> sum_from(zero, s).number() == total(s),
    decreases s.len(),
{
    I::lemma_number(zero);
    if s.len() == 0 {
    } else {
        let front = s.drop_last();
        lemma_sum_of_whole_numbers(zero, front);
        assert(s.take(s.len() as int) =~= s);
        assert forall|k: int| 0 < k <= front.len() implies front.take(k) == s.take(k) by {
            assert(front.take(k) =~= s.take(k));
        }
        I::lemma_number(s.last());
        if sum_defined(zero, front) {
            I::lemma_add(sum_from(zero, front), s.last());
        }
        if sums_fit(s) {
            assert forall|k: int| 0 < k <= front.len() implies I::least() <= #[trigger] total(
                front.take(k),
            ) <= I::greatest() by {
                assert(front.take(k) == s.take(k));
            }
            assert(I::least() <= total(s.take(s.len() as int)) <= I::greatest());
        }
        if sum_defined(zero, s) {
            assert forall|k: int| 0 < k <= s.len() implies I::least() <= #[trigger] total(
                s.take(k),
            ) <= I::greatest() by {
                if k < s.len() {
                    assert(front.take(k) == s.take(k));
                    assert(I::least() <= total(front.take(k)) <= I::greatest());
                }
            }
        }
    }
}

/// Counting in a kind of whole numbers can be carried out up to the kind's
/// greatest number, and gives the number counted.
pub proof fn lemma_count_of_whole_numbers<O: WholeKind>(zero: O, one: O, n: nat)
    requires
        is_zero(zero),
        is_literal(1u8, one),
    ensures
        count_defined(zero, one, n) <==> n <= O::greatest(),
        count_defined(zero, one, n) ==> count_from(zero, one, n).number() == n,
    decreases n,
{
    O::lemma_number(zero);
    O::lemma_number(one);
    if n > 0 {
        lemma_count_of_whole_numbers(zero, one, (n - 1) as nat);
        if count_defined(zero, one, (n - 1) as nat) {
            O::lemma_add(count_from(zero, one, (n - 1) as nat), one);
        }
    }
}

/// The mean of whole numbers can be computed where every prefix sum is a
/// number of the input kind and the number of elements is one of the output
/// kind.
pub proof fn lemma_mean_of_whole_numbers_defined<I: WidensTo<O>, O: WholeKind>(s: Seq<I>)
    requires
        sums_fit(s),
        s.len() <= O::greatest(),
    ensures
        mean_defined::<I, O>(s),
{
    if s.len() > 0 {
        I::lemma_add(s[0], s[0]);
        let any: O = arbitrary();
        O::lemma_add(any, any);
        O::lemma_div(any, any);
        assert forall|zero: I| #[trigger] is_zero(zero) implies sum_defined(zero, s) by {
            lemma_sum_of_whole_numbers(zero, s);
        }
        assert forall|zero: O, one: O| #[trigger]
            is_zero(zero) && #[trigger] is_literal(1u8, one) implies count_defined(
            zero,
            one,
            s.len(),
        ) by {
            lemma_count_of_whole_numbers(zero, one, s.len());
        }
        assert forall|zi: I, zero: O, one: O, sum: O|
            #![trigger is_converted(sum_from(zi, s), sum), count_from(zero, one, s.len())]
            is_zero(zi) && is_zero(zero) && is_literal(1u8, one) && is_converted(
                sum_from(zi, s),
                sum,
            ) implies sum.div_req(count_from(zero, one, s.len())) by {
            lemma_count_of_whole_numbers(zero, one, s.len());
            O::lemma_div(sum, count_from(zero, one, s.len()));
        }
    }
}

/// The mean of whole numbers is the sum of the numbers divided by how many
/// they are, rounded towards zero.
pub proof fn lemma_mean_of_whole_numbers<I: WidensTo<O>, O: WholeKind>(s: Seq<I>, m: O)
    requires
        s.len() > 0,
        mean_defined::<I, O>(s),
        is_mean::<I, O>(s, m),
    ensures
        m.number() == truncated_quotient(total(s), s.len() as int),
{
    let (zi, zero, one, sum) = choose|zi: I, zero: O, one: O, sum: O|
        #![trigger is_converted(sum_from(zi, s), sum), count_from(zero, one, s.len())]
        {
            &&& is_zero(zi)
            &&& is_zero(zero)
            &&& is_literal(1u8, one)
            &&& is_converted(sum_from(zi, s), sum)
            &&& m == sum.div_spec(count_from(zero, one, s.len()))
        };
    lemma_sum_of_whole_numbers(zi, s);
    lemma_count_of_whole_numbers(zero, one, s.len());
    I::lemma_widens(sum_from(zi, s), sum);
    O::lemma_div(sum, count_from(zero, one, s.len()));
}

/// The mean of whole numbers does not depend on the order of the sample,
/// wherever both orders can be summed within the input kind and the number
/// of elements is one of the output kind.
pub proof fn lemma_mean_ignores_order<I: WidensTo<O>, O: WholeKind>(
    a: Seq<I>,
    b: Seq<I>,
    mean_a: O,
    mean_b: O,
)
    requires
        a.to_multiset() == b.to_multiset(),
        a.len() > 0,
        sums_fit(a),
        sums_fit(b),
        a.len() <= O::greatest(),
        is_mean::<I, O>(a, mean_a),
        is_mean::<I, O>(b, mean_b),
    ensures
        mean_a == mean_b,
{
    vstd::seq_lib::to_multiset_len(a);
    vstd::seq_lib::to_multiset_len(b);
    lemma_mean_of_whole_numbers_defined::<I, O>(a);
    lemma_mean_of_whole_numbers_defined::<I, O>(b);
    lemma_mean_of_whole_numbers(a, mean_a);
    lemma_mean_of_whole_numbers(b, mean_b);
    vstd::seq_lib::lemma_fold_left_permutation(a, b, |sum: int, x: I| sum + x.number(), 0int);
    O::lemma_same_number(mean_a, mean_b);
}

/// The number in the middle of the sorted whole numbers `t`: the element half
/// way for an odd number of elements, and for an even number the sum of the
/// two elements that are averaged, halved and rounded towards zero.
pub open spec fn middle_number<I: WholeKind>(t: Seq<I>) -> int {
    let mid = (t.len() / 2) as int;
    if t.len() % 2 == 1 {
        t[mid].number()
    } else {
        truncated_quotient(t[mid - 1].number() + t[upper_place(t.len())].number(), 2)
    }
}

/// Every element of a sorted copy is an element of the sample.
proof fn lemma_sorted_copy_holds_elements<I: PartialOrd>(s: Seq<I>, t: Seq<I>, i: int) -> (j: int)
    requires
        is_sorted_copy(s, t),
        0 <= i < t.len(),
    ensures
        0 <= j < s.len(),
        s[j] == t[i],
{
    vstd::seq_lib::to_multiset_contains(t, t[i]);
    vstd::seq_lib::to_multiset_contains(s, t[i]);
    assert(t.contains(t[i]));
    s.index_of(t[i])
}

/// A sample of a kind whose total order is specified and sets different
/// values apart has one sorted arrangement only.
pub proof fn lemma_sorted_copy_is_unique<I: PartialOrd>(a: Seq<I>, b: Seq<I>, ta: Seq<I>, tb: Seq<I>)
    requires
        order_specified::<I>(),
        order_separates::<I>(),
        a.to_multiset() == b.to_multiset(),
        is_sorted_copy(a, ta),
        is_sorted_copy(b, tb),
    ensures
        ta == tb,
{
    let le = |x: I, y: I| total_le(x, y);
    assert(vstd::relations::sorted_by(ta, le)) by {
        assert forall|i: int, j: int| 0 <= i < j < ta.len() implies #[trigger] le(ta[i], ta[j]) by {
            assert(total_le(ta[i], ta[j]));
        }
    }
    assert(vstd::relations::sorted_by(tb, le)) by {
        assert forall|i: int, j: int| 0 <= i < j < tb.len() implies #[trigger] le(tb[i], tb[j]) by {
            assert(total_le(tb[i], tb[j]));
        }
    }
    assert(vstd::relations::total_ordering(le)) by {
        assert forall|x: I| #[trigger] le(x, x) by {
            assert(total_le(x, x) || total_le(x, x));
        }
        assert forall|x: I, y: I| #[trigger] le(x, y) && #[trigger] le(y, x) implies x == y by {
            assert(total_le(x, y) && total_le(y, x));
        }
        assert forall|x: I, y: I, z: I| #[trigger] le(x, y) && #[trigger] le(y, z) implies le(
            x,
            z,
        ) by {
            assert(total_le(x, y) && total_le(y, z));
        }
        assert forall|x: I, y: I| #[trigger] le(x, y) || #[trigger] le(y, x) by {
            assert(total_le(x, y) || total_le(y, x));
        }
    }
    vstd::seq_lib::lemma_sorted_unique(ta, tb, le);
}

/// The middle of sorted whole numbers is the number in their middle.
pub proof fn lemma_middle_of_whole_numbers<I: WidensTo<O>, O: WholeKind>(t: Seq<I>, m: O)
    requires
        t.len() > 0,
        middle_defined::<I, O>(t),
        is_middle::<I, O>(t, m),
    ensures
        m.number() == middle_number(t),
{
    let mid = (t.len() / 2) as int;
    if t.len() % 2 == 1 {
        I::lemma_widens(t[mid], m);
    } else {
        let low = t[mid - 1];
        let high = t[upper_place(t.len())];
        let (two, sum) = choose|two: O, sum: O|
            #![trigger is_literal(2u8, two), is_converted(low.add_spec(high), sum)]
            {
                &&& is_literal(2u8, two)
                &&& is_converted(low.add_spec(high), sum)
                &&& m == sum.div_spec(two)
            };
        I::lemma_add(low, high);
        I::lemma_widens(low.add_spec(high), sum);
        O::lemma_number(two);
        O::lemma_div(sum, two);
    }
}

/// The median of whole numbers can be computed where any two elements of
/// the sample add up to a number of the kind.
pub proof fn lemma_median_of_whole_numbers_defined<I: WidensTo<O>, O: WholeKind>(s: Seq<I>)
    requires
        forall|i: int, j: int|
            0 <= i < s.len() && 0 <= j < s.len() ==> I::least() <= #[trigger] s[i].number()
                + #[trigger] s[j].number() <= I::greatest(),
    ensures
        median_defined::<I, O>(s),
{
    assert forall|t: Seq<I>| #[trigger] is_sorted_copy(s, t) implies middle_defined::<I, O>(t) by {
        let mid = (t.len() / 2) as int;
        if t.len() > 0 && t.len() % 2 == 0 {
            let low = t[mid - 1];
            let high = t[upper_place(t.len())];
            let i = lemma_sorted_copy_holds_elements(s, t, mid - 1);
            let j = lemma_sorted_copy_holds_elements(s, t, upper_place(t.len()));
            assert(I::least() <= s[i].number() + s[j].number() <= I::greatest());
            I::lemma_add(low, high);
            let any: O = arbitrary();
            O::lemma_div(any, any);
            assert forall|two: O, sum: O|
                #![trigger is_literal(2u8, two), is_converted(low.add_spec(high), sum)]
                is_literal(2u8, two) && is_converted(low.add_spec(high), sum) implies sum.div_req(
                two,
            ) by {
                O::lemma_number(two);
                O::lemma_div(sum, two);
            }
        }
    }
}

/// The median of whole numbers is the number in the middle of the sorted
/// sample.
pub proof fn lemma_median_of_whole_numbers<I: WidensTo<O>, O: WholeKind>(
    s: Seq<I>,
    t: Seq<I>,
    m: O,
)
    requires
        s.len() > 0,
        is_sorted_copy(s, t),
        median_defined::<I, O>(s),
        is_median::<I, O>(s, m),
    ensures
        m.number() == middle_number(t),
{
    let found = choose|found: Seq<I>| #[trigger]
        is_sorted_copy(s, found) && is_middle::<I, O>(found, m);
    lemma_whole_numbers_are_ordered::<I>();
    lemma_sorted_copy_is_unique(s, s, found, t);
    vstd::seq_lib::to_multiset_len(s);
    vstd::seq_lib::to_multiset_len(t);
    lemma_middle_of_whole_numbers(t, m);
}

/// The median of whole numbers can be computed where the two elements that
/// an even count averages add up to a number of the kind. `t` is the sample
/// sorted.
pub proof fn lemma_median_defined_by_sorted_copy<I: WidensTo<O>, O: WholeKind>(
    s: Seq<I>,
    t: Seq<I>,
)
    requires
        is_sorted_copy(s, t),
        s.len() > 0 && s.len() % 2 == 0 ==> I::least() <= t[s.len() / 2 - 1].number() + t[upper_place(
            s.len(),
        )].number() <= I::greatest(),
    ensures
        median_defined::<I, O>(s),
{
    vstd::seq_lib::to_multiset_len(s);
    vstd::seq_lib::to_multiset_len(t);
    assert forall|other: Seq<I>| #[trigger] is_sorted_copy(s, other) implies middle_defined::<I, O>(
        other,
    ) by {
        lemma_whole_numbers_are_ordered::<I>();
        lemma_sorted_copy_is_unique(s, s, other, t);
        if t.len() > 0 && t.len() % 2 == 0 {
            let low = t[t.len() / 2 - 1];
            let high = t[upper_place(t.len())];
            I::lemma_add(low, high);
            let any: O = arbitrary();
            O::lemma_div(any, any);
            assert forall|two: O, sum: O|
                #![trigger is_literal(2u8, two), is_converted(low.add_spec(high), sum)]
                is_literal(2u8, two) && is_converted(low.add_spec(high), sum) implies sum.div_req(
                two,
            ) by {
                O::lemma_number(two);
                O::lemma_div(sum, two);
            }
        }
    }
}

/// The median of an even count of whole numbers lies between the two
/// elements that are averaged. `t` is the sample sorted.
pub proof fn lemma_median_lies_between<I: WidensTo<O>, O: WholeKind>(s: Seq<I>, t: Seq<I>, m: O)
    requires
        s.len() > 0,
        s.len() % 2 == 0,
        is_sorted_copy(s, t),
        median_defined::<I, O>(s),
        is_median::<I, O>(s, m),
    ensures
        t[s.len() / 2 - 1].number() <= m.number() <= t[upper_place(s.len())].number(),
{
    vstd::seq_lib::to_multiset_len(s);
    vstd::seq_lib::to_multiset_len(t);
    lemma_median_of_whole_numbers(s, t, m);
    lemma_whole_numbers_are_ordered::<I>();
    let low = t[t.len() / 2 - 1];
    let high = t[upper_place(t.len())];
    assert(total_le(low, high));
    I::lemma_order(low, high);
}

/// Converting a value into the output kind, and a small literal into it,
/// gives one value only.
pub open spec fn conversion_fixed<I: Into<O>, O: From<u8>>() -> bool {
    &&& forall|x: I, y: O, z: O| #[trigger] is_converted(x, y) && #[trigger] is_converted(x, z) ==> y == z
    &&& forall|n: u8, y: O, z: O| #[trigger] is_literal(n, y) && #[trigger] is_literal(n, z) ==> y == z
}

/// Whole numbers convert in one way only.
pub proof fn lemma_whole_numbers_convert_one_way<I: WidensTo<O>, O: WholeKind>()
    ensures
        conversion_fixed::<I, O>(),
{
    assert forall|x: I, y: O, z: O| #[trigger] is_converted(x, y) && #[trigger] is_converted(
        x,
        z,
    ) implies y == z by {
        I::lemma_widens(x, y);
        I::lemma_widens(x, z);
        O::lemma_same_number(y, z);
    }
    assert forall|n: u8, y: O, z: O| #[trigger] is_literal(n, y) && #[trigger] is_literal(
        n,
        z,
    ) implies y == z by {
        O::lemma_number(y);
        O::lemma_number(z);
        O::lemma_same_number(y, z);
    }
}

/// The median does not depend on the order of the sample, for every kind
/// whose total order is specified and sets different values apart, and
/// whose conversion into the output kind gives one value only.
pub proof fn lemma_median_ignores_order<I, O>(a: Seq<I>, b: Seq<I>, median_a: O, median_b: O) where
    I: PartialOrd + core::ops::Add<Output = I> + Into<O>,
    O: From<u8> + core::ops::Div<Output = O>,

    requires
        order_specified::<I>(),
        order_separates::<I>(),
        conversion_fixed::<I, O>(),
        a.to_multiset() == b.to_multiset(),
        is_median::<I, O>(a, median_a),
        is_median::<I, O>(b, median_b),
    ensures
        median_a == median_b,
{
    let ta = choose|t: Seq<I>| #[trigger] is_sorted_copy(a, t) && is_middle::<I, O>(t, median_a);
    let tb = choose|t: Seq<I>| #[trigger] is_sorted_copy(b, t) && is_middle::<I, O>(t, median_b);
    lemma_sorted_copy_is_unique(a, b, ta, tb);
    let t = ta;
    if t.len() % 2 == 1 {
        assert(is_converted(t[(t.len() / 2) as int], median_a));
        assert(is_converted(t[(t.len() / 2) as int], median_b));
    } else {
        let low = t[(t.len() / 2 - 1) as int];
        let high = t[upper_place(t.len())];
        let (two_a, sum_a) = choose|two: O, sum: O|
            #![trigger is_literal(2u8, two), is_converted(low.add_spec(high), sum)]
            {
                &&& is_literal(2u8, two)
                &&& is_converted(low.add_spec(high), sum)
                &&& median_a == sum.div_spec(two)
            };
        let (two_b, sum_b) = choose|two: O, sum: O|
            #![trigger is_literal(2u8, two), is_converted(low.add_spec(high), sum)]
            {
                &&& is_literal(2u8, two)
                &&& is_converted(low.add_spec(high), sum)
                &&& median_b == sum.div_spec(two)
            };
        assert(two_a == two_b);
        assert(sum_a == sum_b);
    }
}

/// The median of whole numbers does not depend on the order of the sample.
pub proof fn lemma_median_of_whole_numbers_ignores_order<I: WidensTo<O>, O: WholeKind>(
    a: Seq<I>,
    b: Seq<I>,
    median_a: O,
    median_b: O,
)
    requires
        a.to_multiset() == b.to_multiset(),
        is_median::<I, O>(a, median_a),
        is_median::<I, O>(b, median_b),
    ensures
        median_a == median_b,
{
    lemma_whole_numbers_are_ordered::<I>();
    lemma_whole_numbers_convert_one_way::<I, O>();
    lemma_median_ignores_order::<I, O>(a, b, median_a, median_b);
}

/// The most frequent key does not depend on the order of the keys, as far
/// as the count decides: whatever the order, the winning keys are equally
/// frequent, and where one key is more frequent than every other, it wins.
/// Among equally frequent keys the one that appears first wins, and that
/// does depend on the order.
pub proof fn lemma_most_frequent_ignores_order(
    a: Seq<Seq<char>>,
    b: Seq<Seq<char>>,
    wa: int,
    wb: int,
)
    requires
        a.to_multiset() == b.to_multiset(),
        is_first_most_frequent(a, wa),
        is_first_most_frequent(b, wb),
    ensures
        occurrences(a, b[wb]) == occurrences(a, a[wa]),
        occurrences(b, a[wa]) == occurrences(b, b[wb]),
        (forall|j: int|
            0 <= j < a.len() && a[j] != a[wa] ==> occurrences(a, #[trigger] a[j]) < occurrences(
                a,
                a[wa],
            )) ==> a[wa] == b[wb],
{
    vstd::seq_lib::to_multiset_contains(a, a[wa]);
    vstd::seq_lib::to_multiset_contains(b, a[wa]);
    vstd::seq_lib::to_multiset_contains(a, b[wb]);
    vstd::seq_lib::to_multiset_contains(b, b[wb]);
    assert(a.contains(a[wa]));
    assert(b.contains(b[wb]));
    let ja = a.index_of(b[wb]);
    let jb = b.index_of(a[wa]);
    assert(occurrences(a, a[ja]) <= occurrences(a, a[wa]));
    assert(occurrences(b, b[jb]) <= occurrences(b, b[wb]));
}

/// The mean of a single whole number is that number.
pub proof fn lemma_mean_of_one<I: WidensTo<O>, O: WholeKind>(x: I, m: O)
    requires
        is_mean::<I, O>(seq![x], m),
    ensures
        m.number() == x.number(),
{
    let s = seq![x];
    reveal_with_fuel(Seq::fold_left, 2);
    assert(s.drop_last() =~= Seq::<I>::empty());
    assert(total(s) == x.number());
    assert forall|k: int| 0 < k <= s.len() implies I::least() <= #[trigger] total(s.take(k))
        <= I::greatest() by {
        assert(s.take(k) =~= s);
        I::lemma_number(x);
    }
    let any: O = arbitrary();
    O::lemma_number(any);
    lemma_mean_of_whole_numbers_defined::<I, O>(s);
    lemma_mean_of_whole_numbers(s, m);
}

/// The median of a single element is that element, converted into the
/// output kind.
pub proof fn lemma_median_of_one<I, O>(x: I, m: O) where
    I: PartialOrd + core::ops::Add<Output = I> + Into<O>,
    O: From<u8> + core::ops::Div<Output = O>,

    requires
        is_median::<I, O>(seq![x], m),
    ensures
        is_converted(x, m),
{
    let s = seq![x];
    let t = choose|t: Seq<I>| #[trigger] is_sorted_copy(s, t) && is_middle::<I, O>(t, m);
    vstd::seq_lib::to_multiset_len(s);
    vstd::seq_lib::to_multiset_len(t);
    vstd::seq_lib::to_multiset_contains(t, t[0]);
    vstd::seq_lib::to_multiset_contains(s, t[0]);
    assert(t.contains(t[0]));
}

/// The text that wins the count over a single element is a text of that
/// element.
pub proof fn lemma_mode_of_one<I: core::fmt::Display>(x: I, key: String)
    requires
        is_mode_key(seq![x], key),
    ensures
        is_text_of(x, key),
{
    let s = seq![x];
    let (keys, w) = choose|keys: Seq<String>, w: int|
        #![trigger are_texts_of(s, keys), is_first_most_frequent(texts(keys), w)]
        {
            &&& are_texts_of(s, keys)
            &&& is_first_most_frequent(texts(keys), w)
            &&& key == keys[w]
        };
    assert(is_text_of(s[0], keys[0]));
}

/// The mode of a single element is what the output kind's parser makes of
/// a text of that element.
pub proof fn lemma_mode_of_one_is_read_from_its_text<I: core::fmt::Display, O: core::str::FromStr>(
    x: I,
    parsed: Option<O>,
)
    requires
        is_mode::<I, O>(seq![x], parsed),
    ensures
        exists|key: String| #[trigger] is_text_of(x, key) && is_parsed_from::<O>(key, parsed),
{
    let key = choose|key: String| #[trigger]
        is_mode_key(seq![x], key) && is_parsed_from::<O>(key, parsed);
    lemma_mode_of_one(x, key);
}

/// The text of a value names the value: formatting gives each value one
/// text only, and values with the same text are the same value.
pub open spec fn text_names_value<I: core::fmt::Display>() -> bool {
    &&& forall|x: I, k1: String, k2: String| #[trigger]
        is_text_of(x, k1) && #[trigger] is_text_of(x, k2) ==> k1 == k2
    &&& forall|x: I, y: I, k1: String, k2: String| #[trigger]
        is_text_of(x, k1) && #[trigger] is_text_of(y, k2) && k1@ == k2@ ==> x == y
}

/// The output kind's parser makes one thing only of each text.
pub open spec fn parser_is_fixed<O: core::str::FromStr>() -> bool {
    forall|k: String, p: Option<O>, q: Option<O>| #[trigger]
        is_parsed_from::<O>(k, p) && #[trigger] is_parsed_from::<O>(k, q) ==> p == q
}

/// The text of a value of the input kind reads back, in the output kind, as
/// that value converted.
pub open spec fn text_reads_back<I: core::fmt::Display + Into<O>, O: core::str::FromStr>() -> bool {
    forall|x: I, k: String, p: Option<O>| #[trigger]
        is_text_of(x, k) && #[trigger] is_parsed_from::<O>(k, p) ==> p is Some && is_converted(
            x,
            p.unwrap(),
        )
}

/// Where the text names the value, a text occurs among the texts of a sample
/// as often as its value occurs in the sample.
proof fn lemma_counted_by_text<I: core::fmt::Display>(s: Seq<I>, keys: Seq<String>, x: I, k: String)
    requires
        text_names_value::<I>(),
        are_texts_of(s, keys),
        is_text_of(x, k),
    ensures
        occurrences(texts(keys), k@) == s.to_multiset().count(x),
    decreases s.len(),
{
    broadcast use vstd::multiset::group_multiset_axioms;

    if s.len() == 0 {
        vstd::seq_lib::to_multiset_len(s);
        vstd::seq_lib::to_multiset_len(texts(keys));
        vstd::multiset::lemma_multiset_empty_len(s.to_multiset());
        vstd::multiset::lemma_multiset_empty_len(texts(keys).to_multiset());
    } else {
        let front = s.drop_last();
        let front_keys = keys.drop_last();
        assert(are_texts_of(front, front_keys)) by {
            assert forall|i: int| 0 <= i < front.len() implies is_text_of(
                front[i],
                #[trigger] front_keys[i],
            ) by {
                assert(is_text_of(s[i], keys[i]));
            }
        }
        lemma_counted_by_text(front, front_keys, x, k);
        assert(s =~= front.push(s.last()));
        assert(texts(keys) =~= texts(front_keys).push(keys.last()@));
        vstd::seq_lib::to_multiset_build(front, s.last());
        vstd::seq_lib::to_multiset_build(texts(front_keys), keys.last()@);
        assert(is_text_of(s.last(), keys.last()));
        assert((keys.last()@ == k@) <==> (s.last() == x));
    }
}

/// Where the text names the value and one value occurs more often in the
/// sample than every other, the text that wins the count is a text of that
/// value.
proof fn lemma_mode_key_of_the_most_frequent<I: core::fmt::Display>(s: Seq<I>, key: String, most: I)
    requires
        text_names_value::<I>(),
        forall|x: I| x != most ==> #[trigger] s.to_multiset().count(x) < s.to_multiset().count(most),
        is_mode_key(s, key),
    ensures
        is_text_of(most, key),
{
    let (keys, w) = choose|keys: Seq<String>, w: int|
        #![trigger are_texts_of(s, keys), is_first_most_frequent(texts(keys), w)]
        {
            &&& are_texts_of(s, keys)
            &&& is_first_most_frequent(texts(keys), w)
            &&& key == keys[w]
        };
    assert(is_text_of(s[w], keys[w]));
    if s[w] != most {
        assert(s.to_multiset().count(s[w]) < s.to_multiset().count(most));
        vstd::seq_lib::to_multiset_contains(s, most);
        let j = s.index_of(most);
        assert(is_text_of(s[j], keys[j]));
        lemma_counted_by_text(s, keys, s[w], keys[w]);
        lemma_counted_by_text(s, keys, s[j], keys[j]);
        assert(texts(keys)[j] == keys[j]@);
        assert(texts(keys)[w] == keys[w]@);
        assert(occurrences(texts(keys), texts(keys)[j]) <= occurrences(
            texts(keys),
            texts(keys)[w],
        ));
    }
}

/// The mode does not depend on the order of the sample where one value
/// occurs more often than every other, for every kind whose text names the
/// value and whose parser makes one thing only of each text.
pub proof fn lemma_mode_ignores_order<I: core::fmt::Display, O: core::str::FromStr>(
    a: Seq<I>,
    b: Seq<I>,
    most: I,
    mode_a: Option<O>,
    mode_b: Option<O>,
)
    requires
        text_names_value::<I>(),
        parser_is_fixed::<O>(),
        a.to_multiset() == b.to_multiset(),
        forall|x: I| x != most ==> #[trigger] a.to_multiset().count(x) < a.to_multiset().count(most),
        is_mode::<I, O>(a, mode_a),
        is_mode::<I, O>(b, mode_b),
    ensures
        mode_a == mode_b,
{
    let key_a = choose|key: String| #[trigger]
        is_mode_key(a, key) && is_parsed_from::<O>(key, mode_a);
    let key_b = choose|key: String| #[trigger]
        is_mode_key(b, key) && is_parsed_from::<O>(key, mode_b);
    lemma_mode_key_of_the_most_frequent(a, key_a, most);
    lemma_mode_key_of_the_most_frequent(b, key_b, most);
    assert(key_a == key_b);
}

/// The mode of a single element is that element, converted into the output
/// kind, for every kind whose text reads back.
pub proof fn lemma_mode_of_one_reads_back<I: core::fmt::Display + Into<O>, O: core::str::FromStr>(
    x: I,
    mode: Option<O>,
)
    requires
        text_reads_back::<I, O>(),
        is_mode::<I, O>(seq![x], mode),
    ensures
        mode is Some,
        is_converted(x, mode.unwrap()),
{
    let key = choose|key: String| #[trigger]
        is_mode_key(seq![x], key) && is_parsed_from::<O>(key, mode);
    lemma_mode_of_one(x, key);
}

} // verus!
