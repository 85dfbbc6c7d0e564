//! Text operations and the choice of a kind of run.
use vllm_bench::run_mode::{open_file_limit_notice, run_mode, RunMode};
use vllm_bench::text::{append_decimal, text_order, TextOrder};

#[test]
fn numbers_are_written_in_decimal() {
    for n in [0u64, 7, 10, 99, 100, 1024, u64::MAX] {
        let mut text = "n=".to_string();
        append_decimal(&mut text, n);
        assert_eq!(text, format!("n={n}"));
    }
}

#[test]
fn texts_are_ordered_by_code_points() {
    let texts = ["", "a", "aa", "b", "B", "z", "\u{7f}", "\u{e9}", "\u{ffff}", "\u{10000}"];
    for a in texts {
        for b in texts {
            let expected = if a < b {
                TextOrder::Before
            } else if a == b {
                TextOrder::Same
            } else {
                TextOrder::After
            };
            assert_eq!(text_order(a, b), expected);
        }
    }
}

#[test]
fn options_choose_the_kind_of_run() {
    assert_eq!(run_mode(true, true, false, 1), RunMode::MultiTurnConcurrencySweep);
    assert_eq!(run_mode(true, true, true, 5), RunMode::MultiTurnConcurrencySweep);
    assert_eq!(run_mode(true, false, true, 5), RunMode::MultiTurn);
    assert_eq!(run_mode(false, true, true, 5), RunMode::ConcurrencySweep);
    assert_eq!(run_mode(false, false, true, 5), RunMode::RateSweep);
    assert_eq!(run_mode(false, false, false, 2), RunMode::MultiRun);
    assert_eq!(run_mode(false, false, false, 1), RunMode::Single);
    assert_eq!(run_mode(false, false, false, 0), RunMode::Single);
}

#[test]
fn only_high_limits_are_worth_a_notice() {
    assert_eq!(open_file_limit_notice(1024), None);
    assert_eq!(open_file_limit_notice(0), None);
    assert_eq!(open_file_limit_notice(1025).as_deref(), Some("Open-file limit: 1025"));
    assert_eq!(
        open_file_limit_notice(u64::MAX).as_deref(),
        Some("Open-file limit: 18446744073709551615")
    );
}
