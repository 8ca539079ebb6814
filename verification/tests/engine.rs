use lcs_engine::engine::compute_lcs_length;
use lcs_engine::engine::lcs_dynamic;
use lcs_engine::engine::lcs_for;
use lcs_engine::engine::lcs_rec;
use lcs_engine::engine::Algorithm;

fn rec(a: &String, b: &String) -> i32 {
    lcs_rec(a, b, a.chars().count() as i32 - 1, b.chars().count() as i32 - 1)
}

#[test]
fn scenario_mixed_repeats() {
    let a = String::from("ABCBDAB");
    let b = String::from("BDCABA");
    assert_eq!(lcs_dynamic(&a, &b), 4);
    assert_eq!(rec(&a, &b), 4);
    // The greedy heuristic falls short of the true length here.
    assert_eq!(lcs_for(&a, &b), 2);
}

#[test]
fn scenario_empty_first_input() {
    let a = String::from("");
    let b = String::from("anything");
    assert_eq!(lcs_dynamic(&a, &b), 0);
    assert_eq!(rec(&a, &b), 0);
    assert_eq!(lcs_for(&a, &b), 0);
}

#[test]
fn scenario_empty_second_input() {
    let a = String::from("anything");
    let b = String::from("");
    assert_eq!(lcs_dynamic(&a, &b), 0);
    assert_eq!(rec(&a, &b), 0);
    assert_eq!(lcs_for(&a, &b), 0);
}

#[test]
fn scenario_both_inputs_empty() {
    let a = String::from("");
    let b = String::from("");
    assert_eq!(lcs_dynamic(&a, &b), 0);
    assert_eq!(rec(&a, &b), 0);
    assert_eq!(lcs_for(&a, &b), 0);
}

#[test]
fn scenario_repeated_symbol() {
    let a = String::from("AA");
    let b = String::from("AA");
    assert_eq!(lcs_dynamic(&a, &b), 2);
    assert_eq!(rec(&a, &b), 2);
    // Greedy: the first 'A' matches only at index 1 (the cursor starts at
    // 0 and a match needs a strictly larger index); the second 'A' is then
    // skipped as already matched.
    assert_eq!(lcs_for(&a, &b), 1);
}

#[test]
fn scenario_identical_distinct_symbols() {
    let a = String::from("ABC");
    let b = String::from("ABC");
    assert_eq!(lcs_dynamic(&a, &b), 3);
    assert_eq!(rec(&a, &b), 3);
    // Greedy: 'A' finds no position beyond the starting cursor, so only
    // 'B' and 'C' are counted.
    assert_eq!(lcs_for(&a, &b), 2);
}

#[test]
fn greedy_single_symbol_at_index_zero() {
    let a = String::from("A");
    let b = String::from("A");
    assert_eq!(lcs_dynamic(&a, &b), 1);
    assert_eq!(rec(&a, &b), 1);
    assert_eq!(lcs_for(&a, &b), 0);
}

#[test]
fn dynamic_is_symmetric() {
    let a = String::from("ABCBDAB");
    let b = String::from("BDCABA");
    assert_eq!(lcs_dynamic(&a, &b), lcs_dynamic(&b, &a));
    let c = String::from("XMJYAUZ");
    let d = String::from("MZJAWXU");
    assert_eq!(lcs_dynamic(&c, &d), lcs_dynamic(&d, &c));
    assert_eq!(lcs_dynamic(&c, &d), 4);
}

#[test]
fn dynamic_on_equal_inputs_is_the_length() {
    let a = String::from("BDCABA");
    assert_eq!(lcs_dynamic(&a, &a), 6);
    let b = String::from("Z");
    assert_eq!(lcs_dynamic(&b, &b), 1);
}

#[test]
fn dynamic_and_recursive_agree() {
    let pairs = [
        ("ABCBDAB", "BDCABA"),
        ("XMJYAUZ", "MZJAWXU"),
        ("AGGTAB", "GXTXAYB"),
        ("AAAA", "AA"),
        ("ABC", "DEF"),
    ];
    for (s, t) in pairs {
        let a = String::from(s);
        let b = String::from(t);
        assert_eq!(lcs_dynamic(&a, &b), rec(&a, &b));
    }
}

#[test]
fn dynamic_with_no_common_symbol() {
    let a = String::from("ABC");
    let b = String::from("DEF");
    assert_eq!(lcs_dynamic(&a, &b), 0);
    assert_eq!(lcs_for(&a, &b), 0);
}

#[test]
fn dispatch_selects_each_strategy() {
    let a = String::from("ABCBDAB");
    let b = String::from("BDCABA");
    assert_eq!(compute_lcs_length(&a, &b, Algorithm::DynamicProgramming), 4);
    assert_eq!(compute_lcs_length(&a, &b, Algorithm::Recursive), 4);
    assert_eq!(compute_lcs_length(&a, &b, Algorithm::GreedyScan), 2);
}

#[test]
fn dispatch_on_empty_inputs() {
    let a = String::from("");
    let b = String::from("anything");
    assert_eq!(compute_lcs_length(&a, &b, Algorithm::DynamicProgramming), 0);
    assert_eq!(compute_lcs_length(&a, &b, Algorithm::Recursive), 0);
    assert_eq!(compute_lcs_length(&a, &b, Algorithm::GreedyScan), 0);
}

#[test]
fn non_ascii_symbols_are_single_units() {
    let a = String::from("caf\u{e9}");
    let b = String::from("fa\u{e9}");
    assert_eq!(lcs_dynamic(&a, &b), 2);
    assert_eq!(rec(&a, &b), 2);
}
