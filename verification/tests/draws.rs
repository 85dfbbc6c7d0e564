//! Seeded draws agree with the generator they come from.
use rand::rngs::StdRng;
use rand::{Rng, SeedableRng};
use vllm_bench::datasets::config::FRACTION_ONE;
use vllm_bench::datasets::draws::{
    draw_len_rows, draw_lens, draw_tokens, draw_turn_counts, LengthBounds,
};
use vllm_bench::rng::{draw_choices, draw_many, draw_rows};

#[test]
fn draws_are_those_of_half_open_ranges() {
    for n in [1usize, 2, 3, 1000, 99_999, 1 << 31, usize::MAX] {
        let mut a = StdRng::seed_from_u64(n as u64);
        let mut b = StdRng::seed_from_u64(n as u64);
        let drawn = draw_many(&mut a, 0, n - 1, 50);
        let expected: Vec<usize> = (0..50).map(|_| b.gen_range(0..n)).collect();
        assert_eq!(drawn, expected);
        assert_eq!(a, b);
    }
}

#[test]
fn rows_are_drawn_one_after_the_other() {
    let mut a = StdRng::seed_from_u64(3);
    let mut b = StdRng::seed_from_u64(3);
    let rows = draw_rows(&mut a, 10, 20, &vec![2, 0, 3]);
    for (row, count) in rows.iter().zip([2usize, 0, 3]) {
        assert_eq!(*row, (0..count).map(|_| b.gen_range(10..=20)).collect::<Vec<usize>>());
    }
    assert_eq!(a, b);
}

#[test]
fn choices_are_those_of_floating_point_draws() {
    for fraction in [0.0, 1e-300, 0.1, 0.3, 0.5, 0.8, 0.999_999, 1.0] {
        let mut a = StdRng::seed_from_u64(99);
        let mut b = StdRng::seed_from_u64(99);
        let threshold = (fraction * FRACTION_ONE as f64).ceil() as u64;
        let choices = draw_choices(&mut a, threshold, 500);
        let expected: Vec<bool> = (0..500).map(|_| b.gen::<f64>() < fraction).collect();
        assert_eq!(choices, expected);
        assert_eq!(a, b);
    }
}

#[test]
fn fixed_turn_counts_draw_nothing() {
    let mut a = StdRng::seed_from_u64(5);
    let b = StdRng::seed_from_u64(5);
    assert_eq!(draw_turn_counts(&mut a, 4, 4, 3), vec![4, 4, 4]);
    assert_eq!(a, b);
}

#[test]
fn turn_counts_are_drawn_from_the_whole_range() {
    let mut a = StdRng::seed_from_u64(5);
    let mut b = StdRng::seed_from_u64(5);
    let counts = draw_turn_counts(&mut a, 2, 5, 100);
    assert_eq!(counts, (0..100).map(|_| b.gen_range(2..=5)).collect::<Vec<usize>>());
    for n in 2..=5 {
        assert!(counts.contains(&n));
    }
}

#[test]
fn tokens_are_drawn_from_the_allowed_ones() {
    let allowed = [3u32, 30, 300];
    let mut a = StdRng::seed_from_u64(8);
    let mut b = StdRng::seed_from_u64(8);
    let tokens = draw_tokens(&mut a, &allowed, 40);
    let expected: Vec<u32> = (0..40).map(|_| allowed[b.gen_range(0..3)]).collect();
    assert_eq!(tokens, expected);
    assert_eq!(a, b);
}

#[test]
fn turn_lengths_are_drawn_only_where_there_is_a_choice() {
    let choice = LengthBounds { low: 3, high: 9 };
    let fixed = LengthBounds { low: 4, high: 4 };
    let mut a = StdRng::seed_from_u64(6);
    let mut b = StdRng::seed_from_u64(6);
    let lens = draw_lens(&mut a, choice, fixed, 3);
    assert_eq!(lens, vec![b.gen_range(3..=9), 4, 4]);
    assert_eq!(a, b);
    let rows = draw_len_rows(&mut a, fixed, choice, &vec![1, 3]);
    assert_eq!(rows, vec![vec![4], vec![4, b.gen_range(3..=9), b.gen_range(3..=9)]]);
    assert_eq!(a, b);
}
