use lotto_guess::lotto::{args_contain_negative, first_malformed, format_lotto_results, keep_if_new, run, Lotto};
use std::collections::HashSet;

fn strings(args: &[&str]) -> Vec<String> {
    args.iter().map(|a| a.to_string()).collect()
}

fn assert_valid(lotto: &Lotto, take: usize, from: usize) {
    assert_eq!(lotto.take, take);
    assert_eq!(lotto.from, from);
    assert_eq!(lotto.numbers.len(), take);
    let set: HashSet<usize> = lotto.numbers.iter().cloned().collect();
    assert_eq!(set.len(), take);
    assert!(lotto.numbers.iter().all(|n| *n <= from));
}

#[test]
fn test_lost_nums() {
    let lotto1 = Lotto::new(4, 8);
    let lotto2 = Lotto::new(15, 16);
    let lotto3 = Lotto::new(23, 42);

    assert_eq!(lotto1.numbers.len(), 4);
    assert_eq!(lotto2.numbers.len(), 15);
    assert_eq!(lotto3.numbers.len(), 23);
}

#[test]
fn test_format_lotto_results() {
    let lotto = Lotto {
        take: 6,
        from: 45,
        numbers: vec![2, 3, 10, 25, 30, 40],
    };

    assert_eq!(
        "6 of 45: [2, 3, 10, 25, 30, 40]",
        format_lotto_results(&lotto)
    );
}

#[test]
fn test_lotto_constructor() {
    let lotto = Lotto::new(6, 45);

    let numbers = lotto.numbers;

    assert_eq!(numbers.len(), 6);
}

#[test]
fn test_lotto_constructor_uniques() {
    let lotto = Lotto::new(6, 45);

    let numbers = lotto.numbers;
    let set: HashSet<usize> = numbers.into_iter().collect();

    assert_eq!(set.len(), 6);
}

#[test]
fn draws_are_distinct_and_in_range() {
    for (take, from) in [(1, 0), (6, 45), (7, 69), (10, 10), (50, 60), (1, 1000)] {
        for _ in 0..20 {
            assert_valid(&Lotto::new(take, from), take, from);
        }
    }
}

#[test]
fn draw_of_none_is_empty() {
    for n in [0, 1, 45, 1000] {
        let lotto = Lotto::new(0, n);
        assert!(lotto.numbers.is_empty());
    }
}

#[test]
fn draw_of_whole_range_is_a_permutation() {
    for _ in 0..20 {
        let lotto = Lotto::new(3, 2);
        let mut numbers = lotto.numbers.clone();
        numbers.sort();
        assert_eq!(numbers, vec![0, 1, 2]);
    }
    for from in [30, 199, 400] {
        let mut numbers = Lotto::new(from + 1, from).numbers;
        numbers.sort();
        assert_eq!(numbers, (0..from + 1).collect::<Vec<usize>>());
    }
}

#[test]
fn draw_from_largest_range() {
    let lotto = Lotto::new(3, usize::MAX);
    assert_valid(&lotto, 3, usize::MAX);
}

#[test]
fn format_shows_empty_and_single_draws() {
    let empty = Lotto { take: 0, from: 9, numbers: vec![] };
    assert_eq!(format_lotto_results(&empty), "0 of 9: []");
    let one = Lotto { take: 1, from: 100, numbers: vec![100] };
    assert_eq!(format_lotto_results(&one), "1 of 100: [100]");
    let zero = Lotto { take: 2, from: 1, numbers: vec![1, 0] };
    assert_eq!(format_lotto_results(&zero), "2 of 1: [1, 0]");
}

#[test]
fn negative_or_malformed_arguments_are_found() {
    assert!(!args_contain_negative(&strings(&["lotto", "6", "45"])));
    assert!(!args_contain_negative(&strings(&["lotto", "0", "0"])));
    assert!(args_contain_negative(&strings(&["lotto", "6", "-45"])));
    assert!(args_contain_negative(&strings(&["lotto", "-6", "45"])));
    assert!(args_contain_negative(&strings(&["lotto", "six", "45"])));
    assert!(args_contain_negative(&strings(&["lotto", "6", ""])));
    assert!(!args_contain_negative(&strings(&["lotto"])));
}

#[test]
fn run_draws_each_game() {
    let lines = run(&strings(&["lotto", "6", "45", "7", "69"])).unwrap();
    assert_eq!(lines.len(), 2);
    assert!(lines[0].starts_with("6 of 45: ["));
    assert!(lines[1].starts_with("7 of 69: ["));
    let inner = &lines[0]["6 of 45: [".len()..lines[0].len() - 1];
    let nums: Vec<usize> = inner.split(", ").map(|t| t.parse().unwrap()).collect();
    assert_eq!(nums.len(), 6);
    let set: HashSet<usize> = nums.iter().cloned().collect();
    assert_eq!(set.len(), 6);
    assert!(nums.iter().all(|n| *n <= 45));
}

#[test]
fn run_rejects_invalid_arguments() {
    assert!(run(&strings(&["lotto"])).is_none());
    assert!(run(&strings(&["lotto", "6"])).is_none());
    assert!(run(&strings(&["lotto", "6", "45", "7"])).is_none());
    assert!(run(&strings(&["lotto", "6", "-45"])).is_none());
    assert!(run(&strings(&["lotto", "6", "x"])).is_none());
    assert!(run(&strings(&["lotto", "6", "45", "10", "2"])).is_none());
    assert!(run(&strings(&["lotto", "3", "2"])).is_none());
    assert_eq!(run(&strings(&["lotto", "2", "2"])).unwrap().len(), 1);
}

#[test]
fn draws_vary() {
    let firsts: HashSet<usize> = (0..50).map(|_| Lotto::new(1, 1_000_000).numbers[0]).collect();
    assert!(firsts.len() > 1);
}

#[test]
fn plus_signed_arguments_are_numbers() {
    assert!(!args_contain_negative(&strings(&["prog", "+5"])));
    assert!(args_contain_negative(&strings(&["prog", "+"])));
    assert!(args_contain_negative(&strings(&["prog", "++5"])));
    assert_eq!(run(&strings(&["lotto", "+2", "+2"])).unwrap().len(), 1);
}

#[test]
fn first_malformed_names_the_token() {
    assert_eq!(first_malformed(&strings(&["lotto", "6", "45"])), None);
    assert_eq!(first_malformed(&strings(&["lotto", "6", "x", "-1"])), Some(2));
    assert_eq!(first_malformed(&strings(&["lotto", "-6", "45"])), Some(1));
    assert_eq!(first_malformed(&strings(&["lotto"])), None);
}

#[test]
fn drawn_values_are_kept_only_when_new() {
    let mut numbers = vec![4, 9];
    assert!(keep_if_new(&mut numbers, 7));
    assert_eq!(numbers, vec![4, 9, 7]);
    assert!(!keep_if_new(&mut numbers, 9));
    assert_eq!(numbers, vec![4, 9, 7]);
    let mut empty: Vec<usize> = vec![];
    assert!(keep_if_new(&mut empty, 0));
    assert_eq!(empty, vec![0]);
}
