use tile_match::action::apply_action;
use tile_match::column::{check_columns_match, TileData};
use tile_match::controller::{CardData, MatchState, MatchStatePlaying};
use tile_match::generator::{generate, ConfigError};

fn sorted_natures(col: &Vec<TileData>) -> Vec<usize> {
    let mut out: Vec<usize> = col.iter().map(|t| t.nature.0).collect();
    out.sort();
    out
}

/// Depth-first search over every ordering of every subset of the unused
/// cards, looking for a sequence whose forward application matches the
/// columns.
fn winnable(
    cards: &Vec<CardData>,
    left: &Vec<TileData>,
    right: &Vec<TileData>,
    used: &mut Vec<bool>,
) -> bool {
    if check_columns_match(left, right) {
        return true;
    }
    for i in 0..cards.len() {
        if !used[i] {
            used[i] = true;
            let mut l = left.clone();
            let mut r = right.clone();
            apply_action(&cards[i].action, &mut l, &mut r);
            if winnable(cards, &l, &r, used) {
                return true;
            }
            used[i] = false;
        }
    }
    false
}

fn assert_well_formed_deal(st: &MatchStatePlaying, tile_count: usize, card_count: usize, pool_size: usize) {
    assert_eq!(st.left_col.len(), tile_count);
    assert_eq!(st.right_col.len(), tile_count);
    assert_eq!(st.cards.len(), card_count);
    assert_eq!(st.hovered_card, Some(0));

    // Both columns hold the same natures, each nature once, all drawn from
    // the pool.
    let left_natures = sorted_natures(&st.left_col);
    let right_natures = sorted_natures(&st.right_col);
    assert_eq!(left_natures, right_natures);
    for w in left_natures.windows(2) {
        assert!(w[0] != w[1]);
    }
    for n in left_natures.iter() {
        assert!(*n < pool_size);
    }
    for card in st.cards.iter() {
        assert_eq!(card.used, None);
    }
}

#[test]
fn generated_deal_is_well_formed_and_winnable() {
    // Pool of 6, four tiles, five cards of which three were applied
    // inversely: the deal must be winnable with the dealt hand.
    let st = generate(4, 5, 3, 6).unwrap();
    assert_well_formed_deal(&st, 4, 5, 6);
    let mut used = vec![false; st.cards.len()];
    assert!(winnable(&st.cards, &st.left_col, &st.right_col, &mut used));
}

#[test]
fn generated_deals_are_winnable_repeatedly() {
    for _ in 0..20 {
        let st = generate(4, 5, 3, 8).unwrap();
        assert_well_formed_deal(&st, 4, 5, 8);
        let mut used = vec![false; st.cards.len()];
        assert!(winnable(&st.cards, &st.left_col, &st.right_col, &mut used));
    }
}

#[test]
fn generation_with_all_cards_applied() {
    let st = generate(3, 4, 4, 5).unwrap();
    assert_well_formed_deal(&st, 3, 4, 5);
    let mut used = vec![false; st.cards.len()];
    assert!(winnable(&st.cards, &st.left_col, &st.right_col, &mut used));
}

#[test]
fn generation_with_nothing_applied_starts_solved() {
    let st = generate(4, 3, 0, 6).unwrap();
    assert_well_formed_deal(&st, 4, 3, 6);
    assert!(check_columns_match(&st.left_col, &st.right_col));
}

#[test]
fn empty_hand_leaves_nothing_to_hover() {
    let st = generate(4, 0, 0, 6).unwrap();
    assert_eq!(st.cards.len(), 0);
    assert_eq!(st.hovered_card, None);
    // With nothing hovered, every input is a no-op.
    let mut state = MatchState::Playing(st);
    assert_eq!(state.handle_input(tile_match::controller::PlayerInput::HoverPrevious), None);
    assert_eq!(state.handle_input(tile_match::controller::PlayerInput::HoverNext), None);
    assert_eq!(state.handle_input(tile_match::controller::PlayerInput::Activate), None);
    match &state {
        MatchState::Playing(st) => assert_eq!(st.hovered_card, None),
        MatchState::Ready => panic!("the match should still be running"),
    }
}

#[test]
fn too_few_tiles_is_rejected() {
    match generate(1, 5, 3, 6) {
        Err(e) => assert_eq!(e, ConfigError::TileCountTooSmall),
        Ok(_) => panic!("one tile leaves the swap actions meaningless"),
    }
}

#[test]
fn tile_count_beyond_pool_is_rejected() {
    match generate(7, 5, 3, 6) {
        Err(e) => assert_eq!(e, ConfigError::TileCountExceedsPool),
        Ok(_) => panic!("a pool of 6 cannot yield 7 distinct natures"),
    }
}

#[test]
fn applied_count_beyond_hand_is_rejected() {
    match generate(4, 2, 3, 6) {
        Err(e) => assert_eq!(e, ConfigError::AppliedCountExceedsCardCount),
        Ok(_) => panic!("cannot apply more cards than are dealt"),
    }
}

#[test]
fn start_match_deals_and_redeal_replaces() {
    let mut state = MatchState::Ready;
    assert!(state.start_match(4, 5, 3, 8).is_ok());
    match &state {
        MatchState::Playing(st) => assert_well_formed_deal(st, 4, 5, 8),
        MatchState::Ready => panic!("the match should have started"),
    }
    // Starting again while playing deals a fresh puzzle.
    assert!(state.start_match(5, 6, 2, 8).is_ok());
    match &state {
        MatchState::Playing(st) => assert_well_formed_deal(st, 5, 6, 8),
        MatchState::Ready => panic!("the match should have restarted"),
    }
}

#[test]
fn start_match_keeps_state_on_bad_config() {
    let mut state = MatchState::Ready;
    let result = state.start_match(9, 5, 3, 8);
    match result {
        Err(e) => assert_eq!(e, ConfigError::TileCountExceedsPool),
        Ok(()) => panic!("a pool of 8 cannot yield 9 distinct natures"),
    }
    assert!(matches!(state, MatchState::Ready));
}
