use gomoku::training::accepted_mutations;

#[test]
fn mutations_with_enough_wins_are_kept() {
    assert_eq!(accepted_mutations(&vec![40, 3, 0, 55, 39, 40]), vec![0, 3, 5]);
    assert_eq!(accepted_mutations(&vec![]), Vec::<usize>::new());
    assert_eq!(accepted_mutations(&vec![1, 2, 3]), Vec::<usize>::new());
}
