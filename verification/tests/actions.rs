use tile_match::action::{apply_action, apply_inverse_action, Action, CycleDirection};
use tile_match::column::{check_columns_match, nature_count, TileData, TileNature, TileSide};

fn column_of(natures: &[usize]) -> Vec<TileData> {
    let mut col = Vec::new();
    for (i, n) in natures.iter().enumerate() {
        col.push(TileData { id: 100 + i as u64, nature: TileNature(*n) });
    }
    col
}

fn natures_in(col: &Vec<TileData>) -> Vec<usize> {
    let mut out = Vec::new();
    for t in col.iter() {
        out.push(t.nature.0);
    }
    out
}

#[test]
fn nature_count_matches_tile_art() {
    assert_eq!(nature_count(), 8);
}

#[test]
fn swap_adjacent_top_zero() {
    // [A, B, C, D] with top 0 becomes [B, A, C, D].
    let mut left = column_of(&[0, 1, 2, 3]);
    let mut right = column_of(&[0, 1, 2, 3]);
    let action = Action::SwapTwoAdjacent { top: 0, side: TileSide::Left };
    apply_action(&action, &mut left, &mut right);
    assert_eq!(natures_in(&left), vec![1, 0, 2, 3]);
    assert_eq!(natures_in(&right), vec![0, 1, 2, 3]);
    // The inverse applied on top restores the original order.
    apply_inverse_action(&action, &mut left, &mut right);
    assert_eq!(natures_in(&left), vec![0, 1, 2, 3]);
    assert_eq!(natures_in(&right), vec![0, 1, 2, 3]);
}

#[test]
fn swap_adjacent_carries_handles() {
    let mut left = column_of(&[0, 1, 2, 3]);
    let mut right = column_of(&[0, 1, 2, 3]);
    let action = Action::SwapTwoAdjacent { top: 2, side: TileSide::Right };
    apply_action(&action, &mut left, &mut right);
    // The handles move together with their natures.
    assert_eq!(right[2].id, 103);
    assert_eq!(right[3].id, 102);
    assert_eq!(natures_in(&right), vec![0, 1, 3, 2]);
}

#[test]
fn cycle_up_once() {
    // Up rotates toward index 0: [A, B, C, D] becomes [B, C, D, A].
    let mut left = column_of(&[0, 1, 2, 3]);
    let mut right = column_of(&[0, 1, 2, 3]);
    let action = Action::Cycle { times: 1, direction: CycleDirection::Up, side: TileSide::Left };
    apply_action(&action, &mut left, &mut right);
    assert_eq!(natures_in(&left), vec![1, 2, 3, 0]);
    // Down by one is its exact inverse.
    let inverse = Action::Cycle { times: 1, direction: CycleDirection::Down, side: TileSide::Left };
    apply_action(&inverse, &mut left, &mut right);
    assert_eq!(natures_in(&left), vec![0, 1, 2, 3]);
}

#[test]
fn cycle_down_once() {
    let mut left = column_of(&[0, 1, 2, 3]);
    let mut right = column_of(&[0, 1, 2, 3]);
    let action = Action::Cycle { times: 1, direction: CycleDirection::Down, side: TileSide::Right };
    apply_action(&action, &mut left, &mut right);
    assert_eq!(natures_in(&right), vec![3, 0, 1, 2]);
    apply_inverse_action(&action, &mut left, &mut right);
    assert_eq!(natures_in(&right), vec![0, 1, 2, 3]);
}

#[test]
fn cycle_wraps_past_full_turns() {
    // Rotating by length + 1 equals rotating by one.
    let mut left = column_of(&[0, 1, 2, 3]);
    let mut right = column_of(&[0, 1, 2, 3]);
    let action = Action::Cycle { times: 5, direction: CycleDirection::Up, side: TileSide::Left };
    apply_action(&action, &mut left, &mut right);
    assert_eq!(natures_in(&left), vec![1, 2, 3, 0]);
}

#[test]
fn swap_first_and_last_round_trip() {
    let mut left = column_of(&[4, 5, 6, 7]);
    let mut right = column_of(&[4, 5, 6, 7]);
    let action = Action::SwapFirstAndLast { side: TileSide::Left };
    apply_action(&action, &mut left, &mut right);
    assert_eq!(natures_in(&left), vec![7, 5, 6, 4]);
    apply_inverse_action(&action, &mut left, &mut right);
    assert_eq!(natures_in(&left), vec![4, 5, 6, 7]);
}

#[test]
fn swap_two_natures_finds_positions() {
    // The swap is identity-based: it searches the column for the natures.
    let mut left = column_of(&[3, 1, 0, 2]);
    let mut right = column_of(&[0, 1, 2, 3]);
    let action = Action::SwapTwoNatures {
        nature_a: TileNature(3),
        nature_b: TileNature(0),
        side: TileSide::Left,
    };
    apply_action(&action, &mut left, &mut right);
    assert_eq!(natures_in(&left), vec![0, 1, 3, 2]);
    apply_inverse_action(&action, &mut left, &mut right);
    assert_eq!(natures_in(&left), vec![3, 1, 0, 2]);
}

#[test]
fn every_action_preserves_nature_multiset() {
    let actions = vec![
        Action::SwapFirstAndLast { side: TileSide::Left },
        Action::SwapTwoAdjacent { top: 1, side: TileSide::Left },
        Action::SwapTwoNatures {
            nature_a: TileNature(2),
            nature_b: TileNature(5),
            side: TileSide::Left,
        },
        Action::Cycle { times: 3, direction: CycleDirection::Up, side: TileSide::Left },
        Action::Cycle { times: 2, direction: CycleDirection::Down, side: TileSide::Left },
    ];
    for action in actions.iter() {
        let mut left = column_of(&[5, 0, 2, 7]);
        let mut right = column_of(&[5, 0, 2, 7]);
        apply_action(action, &mut left, &mut right);
        let mut sorted = natures_in(&left);
        sorted.sort();
        assert_eq!(sorted, vec![0, 2, 5, 7]);
    }
}

#[test]
fn untouched_column_stays_as_it_was() {
    let mut left = column_of(&[0, 1, 2, 3]);
    let mut right = column_of(&[3, 2, 1, 0]);
    let action = Action::SwapFirstAndLast { side: TileSide::Right };
    apply_action(&action, &mut left, &mut right);
    assert_eq!(natures_in(&left), vec![0, 1, 2, 3]);
    assert_eq!(natures_in(&right), vec![0, 2, 1, 3]);
}

#[test]
fn columns_match_is_position_wise() {
    let left = column_of(&[0, 1, 2, 3]);
    let same = column_of(&[0, 1, 2, 3]);
    let permuted = column_of(&[1, 0, 2, 3]);
    assert!(check_columns_match(&left, &same));
    assert!(!check_columns_match(&left, &permuted));
}

#[test]
fn swap_ends_on_single_entry_column_is_a_no_op() {
    // Degenerate but must not crash: entry 0 is swapped with itself.
    let mut left = column_of(&[2]);
    let mut right = column_of(&[2]);
    let action = Action::SwapFirstAndLast { side: TileSide::Left };
    apply_action(&action, &mut left, &mut right);
    assert_eq!(natures_in(&left), vec![2]);
}
