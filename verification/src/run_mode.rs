//! What a run of the program is to do.
use vstd::prelude::*;
use crate::text::{append_decimal, decimal};

verus! {

/// The kinds of run, once two result files are not just to be compared.
#[derive(Debug, Clone, Copy, PartialEq, Eq)]
pub enum RunMode {
    /// Sweep over concurrency in multi-turn mode.
    MultiTurnConcurrencySweep,
    /// Single multi-turn conversation benchmark.
    MultiTurn,
    /// Sweep over max-concurrency.
    ConcurrencySweep,
    /// Sweep over request-rate.
    RateSweep,
    /// Multi-run with statistical aggregation.
    MultiRun,
    /// Normal single benchmark.
    Single,
}

/// Which kind of run the options ask for: a sweep over concurrency goes before one over the
/// request rate, and either goes before repeated runs; in multi-turn mode only the former counts.
pub fn run_mode(
    multi_turn: bool,
    sweep_max_concurrency: bool,
    sweep_request_rate: bool,
    num_runs: usize,
) -> (mode: RunMode)
    ensures
        mode is MultiTurnConcurrencySweep <==> multi_turn && sweep_max_concurrency,
        mode is MultiTurn <==> multi_turn && !sweep_max_concurrency,
        mode is ConcurrencySweep <==> !multi_turn && sweep_max_concurrency,
        mode is RateSweep <==> !multi_turn && !sweep_max_concurrency && sweep_request_rate,
        mode is MultiRun <==> !multi_turn && !sweep_max_concurrency && !sweep_request_rate
            && num_runs > 1,
        mode is Single <==> !multi_turn && !sweep_max_concurrency && !sweep_request_rate
            && num_runs <= 1,
{
    if multi_turn {
        if sweep_max_concurrency {
            RunMode::MultiTurnConcurrencySweep
        } else {
            RunMode::MultiTurn
        }
    } else if sweep_max_concurrency {
        RunMode::ConcurrencySweep
    } else if sweep_request_rate {
        RunMode::RateSweep
    } else if num_runs > 1 {
        RunMode::MultiRun
    } else {
        RunMode::Single
    }
}

/// The notice about a raised open-file limit; a limit of 1024 or less is not worth one.
pub fn open_file_limit_notice(limit: u64) -> (notice: Option<String>)
    ensures
        match notice {
            Some(text) => limit > 1024 && text@ == "Open-file limit: "@ + decimal(limit as nat),
            None => limit <= 1024,
        },
{
    if limit > 1024 {
        let mut text: String = "Open-file limit: ".to_string();
        append_decimal(&mut text, limit);
        Some(text)
    } else {
        None
    }
}

/// Multi-turn mode is kept whatever else is asked for; a sweep over concurrency is kept whatever
/// rate sweep or repetition is asked for, and a rate sweep whatever repetition is; and only more
/// than one run is a repetition.
pub proof fn law_modes_go_before_each_other(
    multi_turn: bool,
    sweep_max_concurrency: bool,
    sweep_request_rate: bool,
    num_runs: usize,
    mode: RunMode,
)
    requires
        call_ensures(
            run_mode,
            (multi_turn, sweep_max_concurrency, sweep_request_rate, num_runs),
            mode,
        ),
    ensures
        multi_turn ==> mode == if sweep_max_concurrency {
            RunMode::MultiTurnConcurrencySweep
        } else {
            RunMode::MultiTurn
        },
        !multi_turn && sweep_max_concurrency ==> mode == RunMode::ConcurrencySweep,
        !multi_turn && !sweep_max_concurrency && sweep_request_rate ==> mode == RunMode::RateSweep,
        !multi_turn && !sweep_max_concurrency && !sweep_request_rate ==> mode == if num_runs > 1 {
            RunMode::MultiRun
        } else {
            RunMode::Single
        },
{
}

/// A limit above 1024 is told, number and all, and no other is.
pub proof fn law_large_limits_are_told(limit: u64, notice: Option<String>)
    requires
        call_ensures(open_file_limit_notice, (limit,), notice),
    ensures
        notice is Some <==> limit > 1024,
        notice matches Some(text) ==> text@ == "Open-file limit: "@ + decimal(limit as nat),
{
}

} // verus!
