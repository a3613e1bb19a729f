use std::cmp::Ordering;
use std::ops::Add;
use std::ops::Div;
use std::str::FromStr;

use vec_utilities::maths::frequency::most_frequent;
use vec_utilities::maths::order::comes_after;
use vec_utilities::maths::sorting::sorted_copy;
use vec_utilities::without_nan;
use vec_utilities::Operations;
use vec_utilities::ParseError;
use vec_utilities::Stats;

/// An output kind that counts and divides like a byte but reads no text.
#[derive(Clone, Copy, Debug, Default, PartialEq)]
struct Unread(u8);

impl From<u8> for Unread {
    fn from(n: u8) -> Self {
        Unread(n)
    }
}

impl Add for Unread {
    type Output = Unread;

    fn add(self, other: Unread) -> Unread {
        Unread(self.0 + other.0)
    }
}

impl Div for Unread {
    type Output = Unread;

    fn div(self, other: Unread) -> Unread {
        Unread(self.0 / other.0)
    }
}

impl FromStr for Unread {
    type Err = ();

    fn from_str(_text: &str) -> Result<Self, Self::Err> {
        Err(())
    }
}

#[test]
fn empty_samples_have_no_statistics() {
    let none: Option<i64> = Vec::<i32>::new().mean();
    assert_eq!(none, None);
    let none: Option<i64> = Vec::<i64>::new().median();
    assert_eq!(none, None);
    let none: Option<u64> = Vec::<u64>::new().mode();
    assert_eq!(none, None);
    let none: Option<f64> = Vec::<f32>::new().mean();
    assert_eq!(none, None);
    let none: Option<f64> = Vec::<f64>::new().median();
    assert_eq!(none, None);
    let none: Option<f64> = Vec::<f32>::new().mode();
    assert_eq!(none, None);
    let none: Option<f64> = Vec::<f64>::new().nan_mean();
    assert_eq!(none, None);
    let none: Option<f64> = Vec::<f64>::new().nan_median();
    assert_eq!(none, None);
    let none: Option<f64> = Vec::<f64>::new().nan_mode();
    assert_eq!(none, None);
    let none: Result<Option<u32>, ParseError> = Vec::<u32>::new().try_mode();
    assert_eq!(none, Ok(None));
}

#[test]
fn samples_of_nothing_but_nan_have_no_nan_statistics() {
    let sample: Vec<f64> = vec![f64::NAN, f64::NAN];
    let none: Option<f64> = sample.nan_mean();
    assert_eq!(none, None);
    let none: Option<f64> = sample.nan_median();
    assert_eq!(none, None);
    let none: Option<f64> = sample.nan_mode();
    assert_eq!(none, None);
}

#[test]
fn single_elements_are_their_own_statistics() {
    let mean: Option<i64> = vec![-41i64].mean();
    assert_eq!(mean, Some(-41));
    let median: Option<i64> = vec![-41i64].median();
    assert_eq!(median, Some(-41));
    let mode: Option<i64> = vec![-41i64].mode();
    assert_eq!(mode, Some(-41));
    let mean: Option<f64> = vec![0.25f32].mean();
    assert_eq!(mean, Some(0.25));
    let median: Option<f64> = vec![0.25f32].median();
    assert_eq!(median, Some(0.25));
    let mode: Option<f64> = vec![0.25f32].mode();
    assert_eq!(mode, Some(0.25));
}

#[test]
fn integer_mean_rounds_towards_zero() {
    let mean: Option<i64> = vec![-7i64, 2].mean();
    assert_eq!(mean, Some(-2));
    let mean: Option<i32> = vec![1i32, 2].mean();
    assert_eq!(mean, Some(1));
    let mean: Option<u64> = vec![10u64, 20, 31].mean();
    assert_eq!(mean, Some(20));
}

#[test]
fn mean_converts_the_sum_into_the_output_kind() {
    let mean: Option<i64> = vec![3_000_000_000u32, 1_000_000_000].mean();
    assert_eq!(mean, Some(2_000_000_000));
    let mean: Option<u64> = vec![4_000_000_000u32, 2].mean();
    assert_eq!(mean, Some(2_000_000_001));
    let mean: Option<i64> = vec![-5i32, -6].mean();
    assert_eq!(mean, Some(-5));
    let mean: Option<f64> = vec![1.5f32, 2.5].mean();
    assert_eq!(mean, Some(2.0));
}

#[test]
fn median_of_an_even_count_halves_the_elements_on_either_side_of_the_middle() {
    let median: Option<i64> = vec![4i64, 1, 3, 2].median();
    assert_eq!(median, Some(3));
    let median: Option<f64> = vec![4.0f64, 1.0, 3.0, 2.0].median();
    assert_eq!(median, Some(3.0));
    let median: Option<i64> = vec![1i64, 2, 3, 4].median();
    assert_eq!(median, Some(3));
    let median: Option<u64> = vec![60u32, 10, 50, 20, 40, 30].median();
    assert_eq!(median, Some(40));
    let median: Option<f64> = vec![1.0f32, 2.0, 4.0, 8.0, 16.0, 32.0].median();
    assert_eq!(median, Some(10.0));
    let median: Option<i64> = vec![i64::MIN, 0, i64::MIN, i64::MIN].median();
    assert_eq!(median, Some(i64::MIN / 2));
}

#[test]
fn median_of_two_elements_halves_their_sum() {
    let median: Option<u32> = vec![10u32, 20].median();
    assert_eq!(median, Some(15));
    let median: Option<i32> = vec![-3i32, -4].median();
    assert_eq!(median, Some(-3));
    let median: Option<f64> = vec![2.5f64, 1.0].median();
    assert_eq!(median, Some(1.75));
}

#[test]
fn median_sorts_before_it_picks() {
    let median: Option<i64> = vec![5i32, 1, 4, 2, 3].median();
    assert_eq!(median, Some(3));
    let median: Option<u64> = vec![9u32, 7, 8].median();
    assert_eq!(median, Some(8));
}

#[test]
fn median_places_nan_after_every_number() {
    let median: Option<f64> = vec![f64::NAN, 1.0, 2.0].median();
    assert_eq!(median, Some(2.0));
    let median: Option<f64> = vec![f64::NAN, 1.0, f64::INFINITY].median();
    assert_eq!(median, Some(f64::INFINITY));
}

#[test]
fn mode_counts_by_text() {
    let mode: Option<f64> = vec![0.5f32, 1.5, 0.5].mode();
    assert_eq!(mode, Some(0.5));
    let mode: Option<i64> = vec![-3i32, 7, 7, -3, -3].mode();
    assert_eq!(mode, Some(-3));
    let mode: Option<u64> = vec![8u64, 9, 9].mode();
    assert_eq!(mode, Some(9));
}

#[test]
fn mode_reads_the_text_in_the_output_kind() {
    let mode: Option<f64> = vec![0.1f32, 0.1, 0.3].mode();
    assert_eq!(mode, Some(0.1f64));
}

#[test]
fn mode_takes_the_first_of_equally_frequent_elements() {
    let mode: Option<i32> = vec![2, 1, 1, 2].mode();
    assert_eq!(mode, Some(2));
    let mode: Option<i32> = vec![1, 2, 2, 1].mode();
    assert_eq!(mode, Some(1));
    let mode: Option<i32> = vec![3, 4, 5].mode();
    assert_eq!(mode, Some(3));
}

#[test]
fn try_mode_reports_the_text_it_could_not_read() {
    let sample: Vec<u8> = vec![7, 9, 7];
    let found: Result<Option<Unread>, ParseError> = sample.try_mode();
    assert_eq!(found, Err(ParseError { text: "7".to_string() }));
    let none: Option<Unread> = sample.mode();
    assert_eq!(none, None);
    let none: Option<Unread> = sample.nan_mode();
    assert_eq!(none, None);
}

#[test]
fn try_mode_gives_the_mode_where_the_text_reads() {
    let found: Result<Option<u64>, ParseError> = vec![8u32, 9, 9].try_mode();
    assert_eq!(found, Ok(Some(9)));
}

#[test]
fn parse_error_says_what_it_could_not_read() {
    let error = ParseError { text: "7".to_string() };
    assert_eq!(error.message(), "cannot read `7` as a number of the output kind");
}

#[test]
fn nan_mean_leaves_nan_out() {
    let test_vec = vec![2.0, 2.0, 2.0, f64::NAN];
    let mean: Option<f64> = test_vec.nan_mean();
    assert_eq!(mean.unwrap(), 2.0);
    let plain: Option<f64> = test_vec.mean();
    assert!(plain.unwrap().is_nan());
}

#[test]
fn nan_median_leaves_nan_out() {
    let test_vec = vec![1.0, 2.0, 3.0, 4.0, 5.0, f64::NAN];
    let median: Option<f64> = test_vec.nan_median();
    assert_eq!(median.unwrap(), 3.0);
}

#[test]
fn nan_mode_leaves_nan_out() {
    let test_vec = vec![
        1.0,
        2.0,
        3.0,
        4.0,
        5.0,
        5.0,
        5.0,
        f64::NAN,
        f64::NAN,
        f64::NAN,
        f64::NAN,
    ];
    let mode: Option<f64> = test_vec.nan_mode();
    assert_eq!(mode.unwrap(), 5.0);
    let plain: Option<f64> = test_vec.mode();
    assert!(plain.unwrap().is_nan());
}

#[test]
fn nan_statistics_are_the_statistics_without_nan() {
    let sample: Vec<f64> = vec![f64::NAN, 4.0, 1.0, f64::NAN, 4.0, 3.0];
    let numbers = without_nan(&sample);
    assert_eq!(numbers, vec![4.0, 1.0, 4.0, 3.0]);
    let mean: Option<f64> = sample.nan_mean();
    assert_eq!(mean, numbers.mean());
    assert_eq!(mean, Some(3.0));
    let median: Option<f64> = sample.nan_median();
    assert_eq!(median, numbers.clone().median());
    assert_eq!(median, Some(3.5));
    let mode: Option<f64> = sample.nan_mode();
    assert_eq!(mode, numbers.mode());
    assert_eq!(mode, Some(4.0));
}

#[test]
fn nan_statistics_of_integers_are_the_plain_ones() {
    let sample: Vec<i64> = vec![6, 2, 2, 9];
    assert_eq!(without_nan(&sample), sample);
    let mean: Option<i64> = sample.nan_mean();
    assert_eq!(mean, Some(4));
    let median: Option<i64> = sample.nan_median();
    assert_eq!(median, Some(5));
    let mode: Option<i64> = sample.nan_mode();
    assert_eq!(mode, Some(2));
}

#[test]
fn integer_statistics_ignore_the_order_of_the_sample() {
    let one: Vec<i64> = vec![9, -4, 7, 7, 0, 12];
    let other: Vec<i64> = vec![7, 12, 0, 9, 7, -4];
    let mean_one: Option<i64> = one.mean();
    let mean_other: Option<i64> = other.mean();
    assert_eq!(mean_one, mean_other);
    assert_eq!(mean_one, Some(5));
    let mode_one: Option<i64> = one.mode();
    let mode_other: Option<i64> = other.mode();
    assert_eq!(mode_one, mode_other);
    assert_eq!(mode_one, Some(7));
    let median_one: Option<i64> = one.median();
    let median_other: Option<i64> = other.median();
    assert_eq!(median_one, median_other);
    assert_eq!(median_one, Some(8));
}

#[test]
fn only_floats_can_be_nan() {
    assert!(f64::NAN._is_nan());
    assert!(f32::NAN._is_nan());
    assert!(!1.5f64._is_nan());
    assert!(!f64::INFINITY._is_nan());
    assert!(!0i32._is_nan());
    assert!(!u64::MAX._is_nan());
}

#[test]
fn total_order_places_nan_last() {
    assert_eq!(1i64._total_cmp(&2), Ordering::Less);
    assert_eq!(2u32._total_cmp(&2), Ordering::Equal);
    assert_eq!(3i32._total_cmp(&-3), Ordering::Greater);
    assert_eq!(1.0f64._total_cmp(&2.0), Ordering::Less);
    assert_eq!(f64::NAN._total_cmp(&f64::INFINITY), Ordering::Greater);
    assert_eq!(f64::NEG_INFINITY._total_cmp(&f64::NAN), Ordering::Less);
    assert_eq!(f64::NAN._total_cmp(&f64::NAN), Ordering::Equal);
    assert!(comes_after(&f32::NAN, &1.0));
    assert!(!comes_after(&1.0, &f32::NAN));
    assert!(!comes_after(&2, &2));
}

#[test]
fn sorted_copy_sorts_and_keeps_every_element() {
    assert_eq!(sorted_copy(&vec![3, 1, 2, 1, 3, 3]), vec![1, 1, 2, 3, 3, 3]);
    assert_eq!(sorted_copy(&vec![5u64, 4, 3, 2, 1, 0]), vec![0, 1, 2, 3, 4, 5]);
    assert_eq!(sorted_copy(&Vec::<i32>::new()), Vec::<i32>::new());
    let sorted = sorted_copy(&vec![2.0, f64::NAN, -1.0, f64::INFINITY]);
    assert_eq!(sorted[0], -1.0);
    assert_eq!(sorted[1], 2.0);
    assert_eq!(sorted[2], f64::INFINITY);
    assert!(sorted[3].is_nan());
}

#[test]
fn most_frequent_finds_the_first_of_the_most_frequent_texts() {
    let keys: Vec<String> = ["b", "a", "c", "a", "b"].iter().map(|k| k.to_string()).collect();
    assert_eq!(most_frequent(&keys), Some(0));
    let keys: Vec<String> = ["c", "a", "c", "a", "a"].iter().map(|k| k.to_string()).collect();
    assert_eq!(most_frequent(&keys), Some(1));
    assert_eq!(most_frequent(&Vec::new()), None);
}
