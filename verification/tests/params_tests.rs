use electrack::params::get_durations;

#[test]
fn comma_separated_numbers() {
    assert_eq!(get_durations(b"1,2,3"), vec![1, 2, 3]);
    assert_eq!(get_durations(b"24"), vec![24]);
    assert_eq!(get_durations(b"007"), vec![7]);
}

#[test]
fn signs_are_accepted() {
    assert_eq!(get_durations(b"+5,-3"), vec![5, -3]);
    assert_eq!(get_durations(b"-0"), vec![0]);
}

#[test]
fn invalid_pieces_are_dropped() {
    assert_eq!(get_durations(b""), Vec::<i32>::new());
    assert_eq!(get_durations(b"1,,2"), vec![1, 2]);
    assert_eq!(get_durations(b"a,2"), vec![2]);
    assert_eq!(get_durations(b"1a,2"), vec![2]);
    assert_eq!(get_durations(b" 1"), Vec::<i32>::new());
    assert_eq!(get_durations(b"+,-"), Vec::<i32>::new());
    assert_eq!(get_durations(b"3,"), vec![3]);
}

#[test]
fn range_limits_are_exact() {
    assert_eq!(get_durations(b"2147483647"), vec![2147483647]);
    assert_eq!(get_durations(b"2147483648"), Vec::<i32>::new());
    assert_eq!(get_durations(b"-2147483648"), vec![-2147483648]);
    assert_eq!(get_durations(b"-2147483649"), Vec::<i32>::new());
    assert_eq!(get_durations(b"99999999999999999999,8"), vec![8]);
}
