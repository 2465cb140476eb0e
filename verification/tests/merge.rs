use prismdmx::fixture::MergeMode;
use prismdmx::ids::ExecutorId;
use prismdmx::merge::{apply_master, merge_htp, merge_ltp, merge_playbacks, merge_programmer, SourceValue, FULL};

fn source(activation: u64, executor: u32, master: u16, value: u16) -> SourceValue {
    SourceValue {
        activation,
        executor: ExecutorId::new(executor),
        master,
        value,
    }
}

#[test]
fn htp_takes_the_larger_of_two_contributions() {
    assert_eq!(merge_htp(10, 20), 20);
    assert_eq!(merge_htp(20, 10), 20);
    assert_eq!(merge_htp(7, 7), 7);
    assert_eq!(merge_htp(0, 9), 9);
    assert_eq!(merge_htp(0, 0), 0);
    assert_eq!(merge_htp(100, 200), 200);
    assert_eq!(merge_htp(200, 100), 200);
    assert_eq!(merge_htp(FULL, 0), FULL);
}

#[test]
fn ltp_takes_the_later_contribution_even_when_it_is_darker() {
    assert_eq!(merge_ltp(60_000, 5), 5);
    assert_ne!(merge_ltp(1, 2), merge_ltp(2, 1));
    assert_eq!(merge_ltp(FULL, 0), 0);
    assert_eq!(merge_ltp(0, FULL), FULL);
}

#[test]
fn a_master_at_full_is_the_identity_and_at_zero_a_blackout() {
    for value in [0u16, 1, 32_768, FULL] {
        assert_eq!(apply_master(value, FULL), value);
        assert_eq!(apply_master(value, 0), 0);
    }
    assert_eq!(apply_master(FULL, 32_767), 32_767);
    assert_eq!(apply_master(40_000, 32_767), 19_999);
}

#[test]
fn an_empty_source_set_falls_back_to_home_in_both_modes() {
    assert_eq!(merge_playbacks(MergeMode::Htp, 123, &[]), 123);
    assert_eq!(merge_playbacks(MergeMode::Ltp, 123, &[]), 123);
    assert_eq!(merge_playbacks(MergeMode::Htp, 4_242, &[]), 4_242);
    assert_eq!(merge_playbacks(MergeMode::Ltp, 32_768, &[]), 32_768);
}

#[test]
fn htp_applies_the_master_before_the_maximum_and_ignores_the_order() {
    let a = source(1, 1, 32_767, FULL);
    let b = source(2, 2, FULL, 20_000);
    assert_eq!(merge_playbacks(MergeMode::Htp, 0, &[a, b]), 32_767);
    assert_eq!(merge_playbacks(MergeMode::Htp, 0, &[b, a]), 32_767);
}

#[test]
fn ltp_is_the_most_recently_activated_source_and_ignores_the_master() {
    let early = source(1, 9, FULL, 10_000);
    let late = source(5, 2, 0, 20_000);
    assert_eq!(merge_playbacks(MergeMode::Ltp, 0, &[early, late]), 20_000);
    assert_eq!(merge_playbacks(MergeMode::Ltp, 0, &[late, early]), 20_000);
    assert_eq!(merge_playbacks(MergeMode::Ltp, 0, &[early]), 10_000);
    let tie = source(5, 3, FULL, 30_000);
    assert_eq!(merge_playbacks(MergeMode::Ltp, 0, &[tie, late]), 30_000, "the executor number breaks a tie");
}

#[test]
fn the_programmer_overrides_the_playbacks_and_absence_leaves_them_alone() {
    assert_eq!(merge_programmer(40_000, Some(0)), 0);
    assert_eq!(merge_programmer(40_000, None), 40_000);
    assert_eq!(merge_programmer(45_000, Some(50_000)), 50_000);
    assert_eq!(merge_programmer(45_000, None), 45_000);
    assert_eq!(merge_programmer(45_000, Some(0)), 0);
}

fn stamped(activation: u64, value: u16, master: u16) -> SourceValue {
    source(activation, activation as u32, master, value)
}

#[test]
fn a_master_at_full_is_the_identity_and_a_master_at_zero_is_a_blackout() {
    for value in [0u16, 1, 12_345, 32_767, 32_768, 65_534, FULL] {
        assert_eq!(apply_master(value, FULL), value, "value {value}");
        assert_eq!(apply_master(value, 0), 0, "value {value}");
    }
}

#[test]
fn a_master_at_half_halves_the_value() {
    assert_eq!(apply_master(FULL, 32_767), 32_767);
    assert_eq!(apply_master(30_000, 32_767), 14_999);
}

#[test]
fn htp_applies_the_master_before_the_maximum_not_after() {
    let sources = [stamped(1, FULL, 32_767), stamped(2, 40_000, FULL)];
    assert_eq!(merge_playbacks(MergeMode::Htp, 0, &sources), 40_000);
}

#[test]
fn ltp_ignores_the_master_entirely() {
    let sources = [stamped(1, 20_000, 0), stamped(2, 45_000, 1)];
    assert_eq!(merge_playbacks(MergeMode::Ltp, 0, &sources), 45_000);
    let single = [stamped(1, 45_000, 0)];
    assert_eq!(merge_playbacks(MergeMode::Ltp, 0, &single), 45_000);
}

#[test]
fn ltp_orders_by_activation_stamp_not_by_executor_number() {
    let sources = [
        SourceValue {
            activation: 3,
            executor: ExecutorId::new(99),
            master: FULL,
            value: 20_000,
        },
        SourceValue {
            activation: 9,
            executor: ExecutorId::new(1),
            master: FULL,
            value: 45_000,
        },
    ];
    assert_eq!(merge_playbacks(MergeMode::Ltp, 0, &sources), 45_000);
}
