//! Mean, median and mode of a vector of numbers.

use vstd::prelude::*;
use vstd::std_specs::ops::AddSpec;
use vstd::std_specs::ops::DivSpec;
use vstd::string::StringExecFns;
use crate::maths::frequency::is_first_most_frequent;
use crate::maths::frequency::most_frequent;
use crate::maths::frequency::texts;
use crate::maths::numeric::are_texts_of;
use crate::maths::numeric::count_defined;
use crate::maths::numeric::count_from;
use crate::maths::numeric::is_converted;
use crate::maths::numeric::is_literal;
use crate::maths::numeric::is_zero;
use crate::maths::numeric::lemma_count_defined_below;
use crate::maths::numeric::lemma_sum_defined_prefix;
use crate::maths::numeric::sum_defined;
use crate::maths::numeric::sum_from;
use crate::maths::order::comparison_specified;
use crate::maths::order::numbers_only;
use crate::maths::order::without_nan;
use crate::maths::sorting::is_sorted_copy;
use crate::maths::sorting::sorted_copy;

verus! {

/// The mean of a non-empty sample can be computed: the kinds' addition and
/// division follow their specifications, no addition of the running sum or
/// of the running count leaves the kind, and the final division is one the
/// output kind can carry out.
pub open spec fn mean_defined<I, O>(s: Seq<I>) -> bool where
    I: Default + core::ops::Add<Output = I> + Into<O>,
    O: Default + From<u8> + core::ops::Add<Output = O> + core::ops::Div<Output = O>,
 {
    s.len() > 0 ==> {
        &&& I::obeys_add_spec()
        &&& O::obeys_add_spec()
        &&& O::obeys_div_spec()
        &&& forall|zero: I| #[trigger] is_zero(zero) ==> sum_defined(zero, s)
        &&& forall|zero: O, one: O| #[trigger]
            is_zero(zero) && #[trigger] is_literal(1u8, one) ==> count_defined(zero, one, s.len())
        &&& forall|zi: I, zero: O, one: O, total: O|
            #![trigger is_converted(sum_from(zi, s), total), count_from(zero, one, s.len())]
            is_zero(zi) && is_zero(zero) && is_literal(1u8, one) && is_converted(
                sum_from(zi, s),
                total,
            ) ==> total.div_req(count_from(zero, one, s.len()))
    }
}

/// `m` is the mean of the non-empty sample `s`: the sum of its elements,
/// taken in the input kind and converted once into the output kind, divided
/// by the number of elements counted in the output kind.
pub open spec fn is_mean<I, O>(s: Seq<I>, m: O) -> bool where
    I: Default + core::ops::Add<Output = I> + Into<O>,
    O: Default + From<u8> + core::ops::Add<Output = O> + core::ops::Div<Output = O>,
 {
    exists|zi: I, zero: O, one: O, total: O|
        #![trigger is_converted(sum_from(zi, s), total), count_from(zero, one, s.len())]
        {
            &&& is_zero(zi)
            &&& is_zero(zero)
            &&& is_literal(1u8, one)
            &&& is_converted(sum_from(zi, s), total)
            &&& m == total.div_spec(count_from(zero, one, s.len()))
        }
}

/// The place of the upper of the two elements that are averaged for an even
/// count `n`: one past the middle, so that the averaged elements lie on
/// either side of place `n / 2`, and the second place where there are two
/// elements only.
pub open spec fn upper_place(n: nat) -> int {
    if n == 2 {
        1
    } else {
        (n / 2 + 1) as int
    }
}

/// The middle of the sorted sample `t` can be computed. For an odd number of
/// elements nothing is asked. For an even number the two elements that are
/// averaged are added and the sum is halved: the kinds' addition and
/// division follow their specifications, and both are operations that the
/// kinds can carry out on these values.
pub open spec fn middle_defined<I, O>(t: Seq<I>) -> bool where
    I: core::ops::Add<Output = I> + Into<O>,
    O: From<u8> + core::ops::Div<Output = O>,
 {
    let low = t[(t.len() / 2 - 1) as int];
    let high = t[upper_place(t.len())];
    t.len() > 0 && t.len() % 2 == 0 ==> {
        &&& I::obeys_add_spec()
        &&& O::obeys_div_spec()
        &&& low.add_req(high)
        &&& forall|two: O, total: O|
            #![trigger is_literal(2u8, two), is_converted(low.add_spec(high), total)]
            is_literal(2u8, two) && is_converted(low.add_spec(high), total) ==> total.div_req(two)
    }
}

/// `m` is the middle of the sorted sample `t` of `n` elements. For an odd
/// `n` it is the element at place `n / 2`, converted into the output kind.
/// For an even `n` of four or more it is the sum of the elements at places
/// `n / 2 - 1` and `n / 2 + 1`, converted into the output kind and divided
/// by two. For two elements it is their sum, converted and divided by two.
pub open spec fn is_middle<I, O>(t: Seq<I>, m: O) -> bool where
    I: core::ops::Add<Output = I> + Into<O>,
    O: From<u8> + core::ops::Div<Output = O>,
 {
    let low = t[(t.len() / 2 - 1) as int];
    let high = t[upper_place(t.len())];
    if t.len() % 2 == 1 {
        is_converted(t[(t.len() / 2) as int], m)
    } else {
        exists|two: O, total: O|
            #![trigger is_literal(2u8, two), is_converted(low.add_spec(high), total)]
            {
                &&& is_literal(2u8, two)
                &&& is_converted(low.add_spec(high), total)
                &&& m == total.div_spec(two)
            }
    }
}

/// The median of the sample `s` can be computed. For an odd number of
/// elements nothing is asked. For an even number the middle of the sorted
/// sample can be computed, however the sort arranges its level elements.
pub open spec fn median_defined<I, O>(s: Seq<I>) -> bool where
    I: PartialOrd + core::ops::Add<Output = I> + Into<O>,
    O: From<u8> + core::ops::Div<Output = O>,
 {
    s.len() % 2 == 0 ==> forall|t: Seq<I>| #[trigger]
        is_sorted_copy(s, t) ==> middle_defined::<I, O>(t)
}

/// `m` is the median of the non-empty sample `s`: the middle of its elements
/// once they are sorted.
pub open spec fn is_median<I, O>(s: Seq<I>, m: O) -> bool where
    I: PartialOrd + core::ops::Add<Output = I> + Into<O>,
    O: From<u8> + core::ops::Div<Output = O>,
 {
    exists|t: Seq<I>| #[trigger] is_sorted_copy(s, t) && is_middle::<I, O>(t, m)
}

/// `key` is the text that wins the count over the sample `s`: the text of
/// its most frequent element, and of the earliest one among equally frequent
/// elements. Elements count as the same where their texts are the same.
pub open spec fn is_mode_key<I: core::fmt::Display>(s: Seq<I>, key: String) -> bool {
    exists|keys: Seq<String>, w: int|
        #![trigger are_texts_of(s, keys), is_first_most_frequent(texts(keys), w)]
        {
            &&& are_texts_of(s, keys)
            &&& is_first_most_frequent(texts(keys), w)
            &&& key == keys[w]
        }
}

/// Calls `str::parse` on `text`, as a value of kind `O`. Nothing is claimed
/// of the value. `None` stands for the error of the kind's parser, whatever
/// it was.
#[verifier::external_body]
fn parse_from_text<O: core::str::FromStr>(text: &String) -> (r: Option<O>) {
    match text.parse::<O>() {
        Ok(value) => Some(value),
        Err(_) => None,
    }
}

/// `parsed` is what the output kind's parser may make of `text`: the value
/// that it read, or nothing where it refused the text. This names the
/// outcome of the call and says nothing of what the parser accepts.
pub closed spec fn is_parsed_from<O: core::str::FromStr>(text: String, parsed: Option<O>) -> bool {
    call_ensures(parse_from_text::<O>, (&text,), parsed)
}

/// `parsed` is what the output kind's parser may make of the text that wins
/// the count over the sample `s`.
pub open spec fn is_mode<I: core::fmt::Display, O: core::str::FromStr>(
    s: Seq<I>,
    parsed: Option<O>,
) -> bool {
    exists|key: String| #[trigger] is_mode_key(s, key) && is_parsed_from::<O>(key, parsed)
}

/// The text of the most frequent element was not a number of the output
/// kind.
#[derive(Debug, Clone, PartialEq, Eq)]
pub struct ParseError {
    /// The text that the output kind's parser refused.
    pub text: String,
}

impl ParseError {
    /// What went wrong, in words.
    pub fn message(&self) -> (r: String)
        ensures
            r@ == "cannot read `"@ + self.text@ + "` as a number of the output kind"@,
    {
        let start = String::from_str("cannot read `");
        let quoted = start.concat(self.text.as_str());
        quoted.concat("` as a number of the output kind")
    }
}

/// The text of the most frequent element of the sample, and of the one that
/// appears first where several are equally frequent. Elements are told
/// apart by their text. There is no such text only where the sample is
/// empty.
pub fn mode_text<I: Copy + core::fmt::Display>(sample: &Vec<I>) -> (r: Option<String>)
    ensures
        sample@.len() == 0 <==> r is None,
        r matches Some(key) ==> is_mode_key(sample@, key),
{
    let n = sample.len();
    let mut keys: Vec<String> = Vec::new();
    for i in 0..n
        invariant
            n == sample@.len(),
            are_texts_of(sample@.take(i as int), keys@),
    {
        let text = sample[i].to_string();
        keys.push(text);
    }
    proof {
        assert(sample@.take(n as int) =~= sample@);
    }
    match most_frequent(&keys) {
        None => None,
        Some(w) => Some(keys[w].clone()),
    }
}

/// The mode, given the winning text and what the output kind's parser made
/// of it: the value that was read, or the text as an error where the parser
/// refused it.
pub fn mode_from_text<O>(text: String, parsed: Option<O>) -> (r: Result<Option<O>, ParseError>)
    ensures
        match parsed {
            Some(value) => r == Ok::<Option<O>, ParseError>(Some(value)),
            None => r == Err::<Option<O>, ParseError>(ParseError { text }),
        },
{
    match parsed {
        Some(value) => Ok(Some(value)),
        None => Err(ParseError { text }),
    }
}

/// Statistics of a sample whose elements are of kind `I`, with results of
/// kind `O`. A result is present exactly when the sample is not empty.
pub trait Stats<I, O>: Sized where
    I: Copy + Default + core::ops::Add<Output = I> + Into<O> + PartialOrd + core::fmt::Display,
    O: Copy + Default + From<u8> + core::ops::Add<Output = O> + core::ops::Div<Output = O>,
 {
    /// The elements of the sample, in their order.
    spec fn sample(&self) -> Seq<I>;

    /// The arithmetic mean: the sum of the elements divided by their number.
    fn mean(&self) -> (r: Option<O>)
        requires
            mean_defined::<I, O>(self.sample()),
        ensures
            self.sample().len() == 0 ==> r is None,
            self.sample().len() > 0 ==> r is Some && is_mean::<I, O>(self.sample(), r.unwrap()),
    ;

    /// The median: the middle element of the sorted sample. Where the
    /// number of elements is even it is half the sum of the two elements on
    /// either side of place `n / 2`, and of the two elements themselves
    /// where there are no more. Takes the sample by value; clone it first to
    /// keep it.
    fn median(self) -> (r: Option<O>)
        requires
            median_defined::<I, O>(self.sample()),
        ensures
            self.sample().len() == 0 ==> r is None,
            self.sample().len() > 0 ==> r is Some && is_median::<I, O>(
                self.sample(),
                r.unwrap(),
            ),
    ;

    /// The mode: the most frequent element, read back from its text as a
    /// value of the output kind. Where that text is not a number of the
    /// output kind there is no result; `try_mode` tells that case apart.
    ///
    /// Elements are counted by their text. Of several that are equally
    /// frequent the one that appears first in the sample wins.
    fn mode(&self) -> (r: Option<O>) where O: core::str::FromStr
        ensures
            self.sample().len() == 0 ==> r is None,
            self.sample().len() > 0 ==> is_mode::<I, O>(self.sample(), r),
    ;

    /// The mode as `mode` gives it, or the winning text as an error where
    /// the output kind could not read it.
    fn try_mode(&self) -> (r: Result<Option<O>, ParseError>) where O: core::str::FromStr
        ensures
            self.sample().len() == 0 ==> r == Ok::<Option<O>, ParseError>(None),
            self.sample().len() > 0 ==> match r {
                Ok(found) => found is Some && is_mode::<I, O>(self.sample(), found),
                Err(e) => is_mode_key(self.sample(), e.text) && is_parsed_from::<O>(
                    e.text,
                    None,
                ),
            },
    ;

    /// The mean of the elements that are numbers: what `mean` gives for the
    /// sample once every element that is not a number is taken out.
    fn nan_mean(&self) -> (r: Option<O>)
        requires
            comparison_specified::<I>(),
            mean_defined::<I, O>(numbers_only(self.sample())),
        ensures
            numbers_only(self.sample()).len() == 0 ==> r is None,
            numbers_only(self.sample()).len() > 0 ==> r is Some && is_mean::<I, O>(
                numbers_only(self.sample()),
                r.unwrap(),
            ),
    ;

    /// The median of the elements that are numbers: what `median` gives for
    /// the sample once every element that is not a number is taken out.
    fn nan_median(&self) -> (r: Option<O>)
        requires
            comparison_specified::<I>(),
            median_defined::<I, O>(numbers_only(self.sample())),
        ensures
            numbers_only(self.sample()).len() == 0 ==> r is None,
            numbers_only(self.sample()).len() > 0 ==> r is Some && is_median::<I, O>(
                numbers_only(self.sample()),
                r.unwrap(),
            ),
    ;

    /// The mode of the elements that are numbers: what `mode` gives for the
    /// sample once every element that is not a number is taken out.
    fn nan_mode(&self) -> (r: Option<O>) where O: core::str::FromStr
        ensures
            self.sample().len() == 0 ==> r is None,
            comparison_specified::<I>() && numbers_only(self.sample()).len() == 0 ==> r is None,
            comparison_specified::<I>() && numbers_only(self.sample()).len() > 0 ==> is_mode::<
                I,
                O,
            >(numbers_only(self.sample()), r),
    ;
}

impl<I, O> Stats<I, O> for Vec<I> where
    I: Copy + Default + core::ops::Add<Output = I> + Into<O> + PartialOrd + core::fmt::Display,
    O: Copy + Default + From<u8> + core::ops::Add<Output = O> + core::ops::Div<Output = O>,
 {
    open spec fn sample(&self) -> Seq<I> {
        self@
    }

    fn mean(&self) -> (r: Option<O>) {
        let n = self.len();
        if n == 0 {
            return None;
        }
        let zero: O = O::default();
        let zi: I = I::default();
        let one: O = O::from(1u8);
        let mut count: O = zero;
        let mut sum: I = zi;
        proof {
            assert(is_zero(zi));
            assert(is_zero(zero));
            assert(is_literal(1u8, one));
        }
        for i in 0..n
            invariant
                n == self@.len(),
                I::obeys_add_spec(),
                O::obeys_add_spec(),
                sum_defined(zi, self@),
                count_defined(zero, one, n as nat),
                sum == sum_from(zi, self@.take(i as int)),
                count == count_from(zero, one, i as nat),
        {
            proof {
                lemma_sum_defined_prefix(zi, self@, i + 1);
                assert(self@.take(i + 1).drop_last() =~= self@.take(i as int));
                lemma_count_defined_below(zero, one, n as nat, (i + 1) as nat);
            }
            sum = sum + self[i];
            count = count + one;
        }
        proof {
            assert(self@.take(n as int) =~= self@);
        }
        let total: O = sum.into();
        proof {
            assert(is_converted(sum_from(zi, self@), total));
        }
        Some(total / count)
    }

    fn median(self) -> (r: Option<O>) {
        let n = self.len();
        if n == 0 {
            return None;
        }
        let sorted = sorted_copy(&self);
        let mid = n / 2;
        if n % 2 == 1 {
            let m: O = sorted[mid].into();
            Some(m)
        } else {
            let upper = if n == 2 {
                mid
            } else {
                mid + 1
            };
            let two: O = O::from(2u8);
            let sum: I = sorted[mid - 1] + sorted[upper];
            let total: O = sum.into();
            proof {
                assert(upper == upper_place(sorted@.len()));
                assert(is_literal(2u8, two));
                assert(is_converted(sorted@[mid - 1].add_spec(sorted@[upper as int]), total));
            }
            Some(total / two)
        }
    }

    fn mode(&self) -> (r: Option<O>) where O: core::str::FromStr {
        match self.try_mode() {
            Ok(found) => found,
            Err(_) => None,
        }
    }

    fn try_mode(&self) -> (r: Result<Option<O>, ParseError>) where O: core::str::FromStr {
        match mode_text(self) {
            None => Ok(None),
            Some(key) => {
                let parsed = parse_from_text::<O>(&key);
                mode_from_text(key, parsed)
            },
        }
    }

    fn nan_mean(&self) -> (r: Option<O>) {
        let numbers = without_nan(self);
        numbers.mean()
    }

    fn nan_median(&self) -> (r: Option<O>) {
        let numbers = without_nan(self);
        numbers.median()
    }

    fn nan_mode(&self) -> (r: Option<O>) where O: core::str::FromStr {
        let numbers = without_nan(self);
        numbers.mode()
    }
}

} // verus!
