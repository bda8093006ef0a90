use sims4modorganizer::set_diff::{contains, difference, index_of, intersection, set_diff};
use sims4modorganizer::tag_diff::{apply_tag_diff, tag_diff};
use sims4modorganizer::set_diff::{is_distinct, push_once};
use sims4modorganizer::tag_diff::{selected_positions, selection_summary};

fn sorted(mut ids: Vec<i32>) -> Vec<i32> {
    ids.sort();
    ids
}

#[test]
fn body_tag_links_four_and_unlinks_one() {
    let diff = tag_diff(&vec![1, 2, 3], &vec![2, 3, 4]);
    assert_eq!(diff.to_link, vec![4]);
    assert_eq!(diff.to_unlink, vec![1]);
    assert!(!diff.is_empty());
}

#[test]
fn equal_sets_need_no_change() {
    let diff = tag_diff(&vec![3, 1, 2], &vec![1, 2, 3]);
    assert!(diff.to_link.is_empty());
    assert!(diff.to_unlink.is_empty());
    assert!(diff.is_empty());
}

#[test]
fn empty_sets() {
    let nothing = tag_diff(&vec![], &vec![]);
    assert!(nothing.is_empty());
    let all_new = tag_diff(&vec![], &vec![5, 6]);
    assert_eq!(sorted(all_new.to_link), vec![5, 6]);
    assert!(all_new.to_unlink.is_empty());
    let all_gone = tag_diff(&vec![5, 6], &vec![]);
    assert!(all_gone.to_link.is_empty());
    assert_eq!(sorted(all_gone.to_unlink), vec![5, 6]);
}

#[test]
fn disjoint_sets_swap_all_members() {
    let diff = tag_diff(&vec![1, 2], &vec![3, 4]);
    assert_eq!(sorted(diff.to_link.clone()), vec![3, 4]);
    assert_eq!(sorted(diff.to_unlink.clone()), vec![1, 2]);
}

#[test]
fn link_and_unlink_never_overlap_and_reach_the_target() {
    let current = vec![1, 2, 3, 7, 9];
    let target = vec![2, 3, 4, 9, 11, 12];
    let diff = tag_diff(&current, &target);
    for id in diff.to_link.iter() {
        assert!(!diff.to_unlink.contains(id));
    }
    let after = apply_tag_diff(&current, &diff);
    assert_eq!(sorted(after), sorted(target));
}

#[test]
fn repeated_ids_are_named_once() {
    let diff = tag_diff(&vec![1, 1, 2], &vec![3, 3, 2, 2]);
    assert_eq!(diff.to_link, vec![3]);
    assert_eq!(diff.to_unlink, vec![1]);
}

#[test]
fn set_diff_gives_added_removed_and_common() {
    let old = vec!["a".to_string(), "b".to_string(), "c".to_string()];
    let new = vec!["b".to_string(), "d".to_string()];
    let diff = set_diff(&old, &new);
    assert_eq!(diff.added, vec!["d".to_string()]);
    assert_eq!(diff.removed, vec!["a".to_string(), "c".to_string()]);
    assert_eq!(diff.common, vec!["b".to_string()]);
}

#[test]
fn set_operations_on_ids() {
    let a = vec![1, 2, 3, 2];
    let b = vec![3, 4];
    assert_eq!(difference(&a, &b), vec![1, 2]);
    assert_eq!(intersection(&a, &b), vec![3]);
    assert!(contains(&a, &2));
    assert!(!contains(&a, &4));
    assert_eq!(index_of(&a, &2), Some(1));
    assert_eq!(index_of(&a, &9), None);
    let positions: Vec<usize> = vec![0, 5];
    assert!(contains(&positions, &5));
}

#[test]
fn the_order_of_a_difference_is_the_order_of_first_occurrence() {
    let old = vec![5, 1, 5, 3, 2, 1];
    let new = vec![9, 3, 8, 9, 7];
    let diff = set_diff(&old, &new);
    assert_eq!(diff.added, vec![9, 8, 7]);
    assert_eq!(diff.removed, vec![5, 1, 2]);
    assert_eq!(diff.common, vec![3]);
    let changes = tag_diff(&old, &new);
    assert_eq!(changes.to_link, vec![9, 8, 7]);
    assert_eq!(changes.to_unlink, vec![5, 1, 2]);
    assert_eq!(apply_tag_diff(&old, &changes), vec![3, 9, 8, 7]);
}

#[test]
fn summary_of_a_selection() {
    assert_eq!(selection_summary(&vec![0, 2], &vec![2, 3, 5]), "Tagged 2 mods, untagged 1 mods");
    assert_eq!(selection_summary(&vec![], &vec![]), "Tagged 0 mods, untagged 0 mods");
    assert_eq!(selection_summary(&vec![1, 2, 3], &vec![3, 2, 1]), "Tagged 0 mods, untagged 0 mods");
    let many: Vec<usize> = (0..12).collect();
    assert_eq!(selection_summary(&vec![], &many), "Tagged 12 mods, untagged 0 mods");
    assert_eq!(selection_summary(&many, &vec![]), "Tagged 0 mods, untagged 12 mods");
}

#[test]
fn positions_of_the_chosen_mods() {
    assert_eq!(selected_positions(&vec![10, 20, 30, 40], &vec![40, 20]), vec![1, 3]);
    assert_eq!(selected_positions(&vec![10, 20, 30], &vec![]), Vec::<usize>::new());
    assert_eq!(selected_positions(&vec![], &vec![1]), Vec::<usize>::new());
    assert_eq!(selected_positions(&vec![7, 7, 8], &vec![7, 99]), vec![0, 1]);
}

#[test]
fn push_once_keeps_a_list_without_repetition() {
    let mut list = vec![3, 1];
    push_once(&mut list, 1);
    assert_eq!(list, vec![3, 1]);
    push_once(&mut list, 2);
    assert_eq!(list, vec![3, 1, 2]);
}

#[test]
fn lists_without_repetition_are_recognised() {
    assert!(is_distinct(&Vec::<i32>::new()));
    assert!(is_distinct(&vec![3]));
    assert!(is_distinct(&vec![3, 1, 2]));
    assert!(!is_distinct(&vec![3, 1, 3]));
    assert!(!is_distinct(&vec!["a".to_string(), "a".to_string()]));
    assert!(is_distinct(&vec!["a".to_string(), "A".to_string()]));
}
