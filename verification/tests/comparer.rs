use gh_gl_sync::repo::comparer::{collect_commits_func, compare_commits, partition_diffs, reverse_vec, CommitDiff};

fn ids(list: &[&str]) -> Vec<String> {
    list.iter().map(|s| s.to_string()).collect()
}

fn left(id: &str) -> CommitDiff {
    CommitDiff::LEFT(id.to_string())
}

fn right(id: &str) -> CommitDiff {
    CommitDiff::RIGHT(id.to_string())
}

fn same(id: &str) -> CommitDiff {
    CommitDiff::SAME(id.to_string())
}

fn check(commits_left: &[&str], commits_right: &[&str], expected: Vec<CommitDiff>) {
    let mut l = ids(commits_left);
    let mut r = ids(commits_right);
    let result = compare_commits(&mut l, &mut r);
    assert_eq!(expected.len(), result.len());
    for (i, er) in expected.iter().enumerate() {
        assert_eq!(er, &result[i]);
    }
}

#[test]
fn smaller_left_three_same_and_one_right() {
    check(
        &["333", "222", "111"],
        &["444", "333", "222", "111"],
        vec![right("444"), same("333"), same("222"), same("111")],
    );
}

#[test]
fn smaller_left_three_same_and_one_right_as_root() {
    check(
        &["333", "222", "111"],
        &["333", "222", "111", "444"],
        vec![same("333"), same("222"), same("111"), right("444")],
    );
}

#[test]
fn smaller_left_three_same_and_both_sides() {
    check(
        &["333", "222", "111"],
        &["555", "333", "222", "444"],
        vec![right("555"), same("333"), same("222"), left("111"), right("444")],
    );
}

#[test]
fn smaller_left_three_same_and_two_right() {
    check(
        &["333", "222", "111"],
        &["333", "222", "111", "444", "555"],
        vec![same("333"), same("222"), right("444"), same("111"), right("555")],
    );
}

#[test]
fn smaller_left_three_same_and_one_right_in_center() {
    check(
        &["333", "222", "111"],
        &["333", "222", "444", "111"],
        vec![same("333"), same("222"), right("444"), same("111")],
    );
}

#[test]
fn smaller_left_three_same_and_two_right_in_center() {
    check(
        &["333", "222", "111"],
        &["333", "222", "555", "444", "111"],
        vec![same("333"), right("555"), same("222"), right("444"), same("111")],
    );
}

#[test]
fn smaller_left_three_same_and_three_right() {
    check(
        &["333", "222", "111"],
        &["666", "333", "555", "222", "444", "111"],
        vec![right("666"), right("555"), same("333"), same("222"), right("444"), same("111")],
    );
}

#[test]
fn smaller_right_three_same_and_one_left() {
    check(
        &["444", "333", "222", "111"],
        &["333", "222", "111"],
        vec![left("444"), same("333"), same("222"), same("111")],
    );
}

#[test]
fn smaller_right_three_same_and_one_left_as_root() {
    check(
        &["333", "222", "111", "444"],
        &["333", "222", "111"],
        vec![same("333"), same("222"), same("111"), left("444")],
    );
}

#[test]
fn smaller_right_three_same_and_two_left_one_root() {
    check(
        &["333", "222", "111", "444", "555"],
        &["333", "222", "111"],
        vec![same("333"), same("222"), left("444"), same("111"), left("555")],
    );
}

#[test]
fn smaller_right_three_same_and_one_left_in_center() {
    check(
        &["333", "222", "444", "111"],
        &["333", "222", "111"],
        vec![same("333"), same("222"), left("444"), same("111")],
    );
}

#[test]
fn smaller_right_three_same_and_two_left() {
    check(
        &["333", "222", "555", "444", "111"],
        &["333", "222", "111"],
        vec![same("333"), left("555"), same("222"), left("444"), same("111")],
    );
}

#[test]
fn smaller_right_three_same_and_three_left() {
    check(
        &["666", "333", "555", "222", "444", "111"],
        &["333", "222", "111"],
        vec![left("666"), left("555"), same("333"), same("222"), left("444"), same("111")],
    );
}

#[test]
fn same_size_three_same() {
    check(&["333", "222", "111"], &["333", "222", "111"], vec![same("333"), same("222"), same("111")]);
}

#[test]
fn same_size_all_kinds() {
    check(
        &["333", "222", "111"],
        &["444", "333", "222"],
        vec![same("333"), right("444"), same("222"), left("111")],
    );
}

#[test]
fn compare_leaves_inputs_reversed() {
    let mut l = ids(&["c", "b", "a"]);
    let mut r = ids(&["d", "c"]);
    let _ = compare_commits(&mut l, &mut r);
    assert_eq!(l, ids(&["a", "b", "c"]));
    assert_eq!(r, ids(&["c", "d"]));
}

#[test]
fn compare_empty_histories() {
    check(&[], &[], vec![]);
    check(&[], &["b", "a"], vec![right("b"), right("a")]);
    check(&["b", "a"], &[], vec![left("b"), left("a")]);
}

#[test]
fn compare_disjoint_histories() {
    check(&["x2", "x1"], &["y2", "y1"], vec![left("x2"), right("y2"), left("x1"), right("y1")]);
}

#[test]
fn collect_walks_oldest_first() {
    let mut l = ids(&["a", "b"]);
    let mut r = ids(&["a", "c", "b"]);
    let result = collect_commits_func(&mut l, &mut r, false);
    assert_eq!(result, vec![same("b"), right("c"), same("a")]);
    let switched = collect_commits_func(&mut l, &mut r, true);
    assert_eq!(l, ids(&["a", "b"]));
    assert_eq!(switched, vec![same("b"), left("c"), same("a")]);
}

#[test]
fn self_comparison_keeps_order() {
    let history = ["e", "d", "c", "b", "a"];
    check(&history, &history, history.iter().map(|id| same(id)).collect());
}

#[test]
fn each_commit_classified_once() {
    let l = ["f", "d", "b", "a"];
    let r = ["g", "e", "c", "b", "a"];
    let mut lv = ids(&l);
    let mut rv = ids(&r);
    let result = compare_commits(&mut lv, &mut rv);
    assert_eq!(result.len(), 7);
    for id in ["f", "d"] {
        assert_eq!(result.iter().filter(|d| **d == left(id)).count(), 1);
    }
    for id in ["g", "e", "c"] {
        assert_eq!(result.iter().filter(|d| **d == right(id)).count(), 1);
    }
    for id in ["b", "a"] {
        assert_eq!(result.iter().filter(|d| **d == same(id)).count(), 1);
    }
}

fn swap(d: &CommitDiff) -> CommitDiff {
    match d {
        CommitDiff::LEFT(id) => CommitDiff::RIGHT(id.clone()),
        CommitDiff::RIGHT(id) => CommitDiff::LEFT(id.clone()),
        CommitDiff::SAME(id) => CommitDiff::SAME(id.clone()),
    }
}

#[test]
fn exchanging_unequal_histories_exchanges_sides() {
    let a = ["333", "222", "555", "444", "111"];
    let b = ["333", "222", "111"];
    let forward = compare_commits(&mut ids(&a), &mut ids(&b));
    let backward = compare_commits(&mut ids(&b), &mut ids(&a));
    let swapped: Vec<CommitDiff> = forward.iter().map(swap).collect();
    assert_eq!(backward, swapped);
}

#[test]
fn exchanging_equal_length_histories_can_reorder() {
    let a = ["333", "222", "111"];
    let b = ["444", "333", "222"];
    let forward = compare_commits(&mut ids(&a), &mut ids(&b));
    let backward = compare_commits(&mut ids(&b), &mut ids(&a));
    assert_eq!(backward, vec![left("444"), same("333"), same("222"), right("111")]);
    let swapped: Vec<CommitDiff> = forward.iter().map(swap).collect();
    assert_ne!(backward, swapped);
}

#[test]
fn partition_splits_one_sided_commits() {
    let diffs = vec![right("555"), same("333"), same("222"), left("111"), right("444")];
    let (lefts, rights) = partition_diffs(&diffs);
    assert_eq!(lefts, ids(&["111"]));
    assert_eq!(rights, ids(&["555", "444"]));
}

#[test]
fn partition_of_comparison_lists_missing_commits() {
    let mut l = ids(&["666", "333", "555", "222", "444", "111"]);
    let mut r = ids(&["777", "333", "222", "111"]);
    let diffs = compare_commits(&mut l, &mut r);
    let (lefts, rights) = partition_diffs(&diffs);
    assert_eq!(lefts, ids(&["666", "555", "444"]));
    assert_eq!(rights, ids(&["777"]));
}

#[test]
fn partition_of_empty_diff() {
    let (lefts, rights) = partition_diffs(&vec![]);
    assert!(lefts.is_empty());
    assert!(rights.is_empty());
}

#[test]
fn reverse_vec_reverses() {
    let mut v = vec![1, 2, 3, 4];
    reverse_vec(&mut v);
    assert_eq!(v, vec![4, 3, 2, 1]);
    let mut e: Vec<u8> = vec![];
    reverse_vec(&mut e);
    assert!(e.is_empty());
}
