use vec_utilities::arange;

#[test]
fn arange_counts_up_in_steps() {
    assert_eq!(arange(0, 10, 3), vec![0, 3, 6, 9]);
    assert_eq!(arange(0, 5, 1), vec![0, 1, 2, 3, 4]);
    assert_eq!(arange(-4, 4, 2), vec![-4, -2, 0, 2]);
}

#[test]
fn arange_leaves_the_end_out() {
    assert_eq!(arange(0, 9, 3), vec![0, 3, 6]);
    assert_eq!(arange(2, 3, 1), vec![2]);
}

#[test]
fn arange_is_empty_where_start_is_not_below_end() {
    assert_eq!(arange(5, 5, 1), Vec::<i64>::new());
    assert_eq!(arange(5, 0, 1), Vec::<i64>::new());
    assert_eq!(arange(i64::MAX, i64::MIN, 7), Vec::<i64>::new());
}

#[test]
fn arange_holds_start_alone_where_one_step_passes_the_end() {
    assert_eq!(arange(0, 3, 10), vec![0]);
    assert_eq!(arange(-1, 0, 1), vec![-1]);
}

#[test]
fn arange_takes_a_negative_step_only_on_an_empty_interval() {
    assert_eq!(arange(0, -5, -1), Vec::<i64>::new());
    assert_eq!(arange(10, 10, -10), Vec::<i64>::new());
}

#[test]
fn arange_stops_at_the_top_of_the_integers() {
    assert_eq!(arange(i64::MAX - 1, i64::MAX, 5), vec![i64::MAX - 1]);
    assert_eq!(arange(i64::MAX - 4, i64::MAX, 2), vec![i64::MAX - 4, i64::MAX - 2]);
    assert_eq!(arange(i64::MIN, i64::MIN + 3, 2), vec![i64::MIN, i64::MIN + 2]);
}

#[test]
fn arange_has_as_many_values_as_steps_fit() {
    let values = arange(7, 1000, 13);
    assert_eq!(values.len(), 77);
    for (k, v) in values.iter().enumerate() {
        assert_eq!(*v, 7 + 13 * (k as i64));
    }
    assert!(values[76] < 1000);
    assert!(values[76] + 13 >= 1000);
}
