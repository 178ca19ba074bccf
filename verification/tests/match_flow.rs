use tile_match::action::{Action, CycleDirection};
use tile_match::column::{TileData, TileNature, TileSide};
use tile_match::controller::{CardData, MatchState, MatchStatePlaying, PlayerInput};

fn fresh_card(action: Action) -> CardData {
    CardData { action, used: None, id: 0 }
}

fn playing_state() -> MatchStatePlaying {
    let natures = [0usize, 1, 2, 3];
    let mut left = Vec::new();
    let mut right = Vec::new();
    for (i, n) in natures.iter().enumerate() {
        left.push(TileData { id: i as u64, nature: TileNature(*n) });
        right.push(TileData { id: 10 + i as u64, nature: TileNature(*n) });
    }
    let cards = vec![
        fresh_card(Action::SwapFirstAndLast { side: TileSide::Left }),
        fresh_card(Action::SwapTwoAdjacent { top: 1, side: TileSide::Right }),
        fresh_card(Action::Cycle { times: 1, direction: CycleDirection::Up, side: TileSide::Left }),
        fresh_card(
            Action::SwapTwoNatures {
                nature_a: TileNature(0),
                nature_b: TileNature(2),
                side: TileSide::Right,
            },
        ),
    ];
    MatchStatePlaying { left_col: left, right_col: right, cards, hovered_card: Some(0) }
}

#[test]
fn hover_previous_wraps_from_first_to_last() {
    let mut st = playing_state();
    st.hover_previous();
    assert_eq!(st.hovered_card, Some(3));
}

#[test]
fn hover_next_wraps_from_last_to_first() {
    let mut st = playing_state();
    st.hovered_card = Some(3);
    st.hover_next();
    assert_eq!(st.hovered_card, Some(0));
}

#[test]
fn hover_walks_both_ways() {
    let mut st = playing_state();
    st.hover_next();
    assert_eq!(st.hovered_card, Some(1));
    st.hover_next();
    assert_eq!(st.hovered_card, Some(2));
    st.hover_previous();
    assert_eq!(st.hovered_card, Some(1));
}

#[test]
fn activation_assigns_sequential_orders() {
    let mut st = playing_state();
    // Activate card 0, then card 2, then card 1: orders 0, 1, 2.
    let first = st.activate();
    assert!(first.is_some());
    assert_eq!(st.cards[0].used, Some(0));

    st.hovered_card = Some(2);
    st.activate();
    assert_eq!(st.cards[2].used, Some(1));

    st.hovered_card = Some(1);
    st.activate();
    assert_eq!(st.cards[1].used, Some(2));
    assert_eq!(st.cards[3].used, None);
}

#[test]
fn used_card_is_immune_to_reactivation() {
    let mut st = playing_state();
    st.activate();
    assert_eq!(st.cards[0].used, Some(0));
    let left_before: Vec<usize> = st.left_col.iter().map(|t| t.nature.0).collect();

    // A second activation of the same card changes nothing and reports
    // nothing.
    let outcome = st.activate();
    assert_eq!(outcome, None);
    assert_eq!(st.cards[0].used, Some(0));
    let left_after: Vec<usize> = st.left_col.iter().map(|t| t.nature.0).collect();
    assert_eq!(left_before, left_after);
}

#[test]
fn activation_applies_the_card_action() {
    let mut st = playing_state();
    // Card 0 swaps the ends of the left column.
    let outcome = st.activate();
    let left: Vec<usize> = st.left_col.iter().map(|t| t.nature.0).collect();
    let right: Vec<usize> = st.right_col.iter().map(|t| t.nature.0).collect();
    assert_eq!(left, vec![3, 1, 2, 0]);
    assert_eq!(right, vec![0, 1, 2, 3]);
    // The columns no longer match, and the outcome says so.
    assert_eq!(outcome, Some(false));
}

#[test]
fn undoing_the_only_move_wins() {
    let mut st = playing_state();
    // Swap the left ends, then swap them back by a second card with the same
    // effect: the columns match again.
    st.cards[1] = fresh_card(Action::SwapFirstAndLast { side: TileSide::Left });
    let first = st.activate();
    assert_eq!(first, Some(false));
    st.hover_next();
    let second = st.activate();
    assert_eq!(second, Some(true));
}

#[test]
fn ready_match_ignores_input() {
    let mut state = MatchState::Ready;
    let outcome = state.handle_input(PlayerInput::Activate);
    assert_eq!(outcome, None);
    assert!(matches!(state, MatchState::Ready));
}

#[test]
fn handle_input_drives_a_running_match() {
    let mut state = MatchState::Playing(playing_state());
    assert_eq!(state.handle_input(PlayerInput::HoverNext), None);
    assert_eq!(state.handle_input(PlayerInput::HoverPrevious), None);
    let outcome = state.handle_input(PlayerInput::Activate);
    assert_eq!(outcome, Some(false));
    match &state {
        MatchState::Playing(st) => {
            assert_eq!(st.cards[0].used, Some(0));
            assert_eq!(st.hovered_card, Some(0));
        },
        MatchState::Ready => panic!("the match should still be running"),
    }
}
