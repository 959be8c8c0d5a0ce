use row4::move_list::MoveList;
use row4::COLUMNS;

#[test]
fn test_full_move_list() {
    let full = MoveList::full();
    assert_eq!(full.moves.to_vec(), COLUMNS.iter().map(|&x| Some(x)).collect::<Vec<_>>());
    assert_eq!(full.moves(), COLUMNS.to_vec());
    assert_eq!(full.len(), 7);
}

#[test]
fn test_empty_move_list() {
    let empty = MoveList::from(&[]);
    assert_eq!(empty.moves, [None; 7]);
    assert_eq!(empty.moves(), vec!());
    assert_eq!(empty.len(), 0);
}

#[test]
fn test_partial_move_list() {
    let moves = MoveList::from(&[3, 1, 6]);
    assert_eq!(moves.moves, [Some(3), Some(1), Some(6), None, None, None, None]);
    assert_eq!(moves.moves(), vec!(3, 1, 6));
    assert_eq!(moves.len(), 3);
}

#[test]
fn move_list_at_gives_each_move() {
    let moves = MoveList::from(&[3, 1, 6]);
    assert_eq!(moves.at(0), 3);
    assert_eq!(moves.at(1), 1);
    assert_eq!(moves.at(2), 6);
    let full = MoveList::full();
    assert_eq!(full.at(0), 3);
    assert_eq!(full.at(6), 6);
}

#[test]
fn columns_run_from_the_centre_outward() {
    assert_eq!(COLUMNS, [3, 2, 4, 1, 5, 0, 6]);
}
