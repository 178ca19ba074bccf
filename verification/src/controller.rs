//! The match state machine: a match is `Ready` until a puzzle is dealt, then
//! `Playing`. While playing, the player moves a hover cursor over the dealt
//! cards and activates one at a time; activating an unused card applies its
//! action to the columns, stamps the card with the next usage order, and
//! reports whether the columns now match.

use vstd::prelude::*;
use vstd::set_lib::set_int_range;
use crate::action::Action;
use crate::action::action_applicable;
use crate::action::apply_action;
use crate::action::lemma_apply_preserves_natures;
use crate::action::round_trip_safe_cols;
use crate::action::step;
use crate::column::TileData;
use crate::column::TileSide;
use crate::column::check_columns_match;
use crate::column::columns_match;
use crate::column::distinct_natures;
use crate::column::has_nature;
use crate::column::lemma_same_multiset_distinct;
use crate::column::lemma_same_multiset_same_has_nature;
use crate::column::natures_of;
use crate::generator::ConfigError;
use crate::generator::config_error_of;
use crate::generator::config_ok;
use crate::generator::generate;
use crate::generator::generated_ok;

verus! {

/// A dealt card: its action, the order in which it was used (`None` while
/// unused), and an opaque handle for its visual representation.
#[derive(Clone, Copy, Debug)]
pub struct CardData {
    pub action: Action,
    pub used: Option<usize>,
    pub id: u64,
}

/// The three inputs a player can feed to a running match.
#[derive(Clone, Copy, PartialEq, Eq, Structural, Debug)]
pub enum PlayerInput {
    HoverPrevious,
    HoverNext,
    Activate,
}

/// How many cards of the hand have been used.
pub open spec fn used_count(cards: Seq<CardData>) -> nat
    decreases cards.len(),
{
    if cards.len() == 0 {
        0
    } else {
        used_count(cards.drop_last()) + (if cards.last().used is Some {
            1nat
        } else {
            0nat
        })
    }
}

/// The set of usage orders assigned to cards of the hand.
pub open spec fn assigned_orders(cards: Seq<CardData>) -> Set<int> {
    Set::new(
        |o: int| exists|i: int|
            0 <= i < cards.len() && (#[trigger] cards[i]).used is Some && cards[i].used->0 as int
                == o,
    )
}

/// Usage bookkeeping is sound: no two cards share an order, and the assigned
/// orders are exactly 0, 1, … up to the number of used cards.
pub open spec fn used_orders_wf(cards: Seq<CardData>) -> bool {
    &&& forall|i: int, j: int|
        0 <= i < j < cards.len() && (#[trigger] cards[i]).used is Some && (
        #[trigger] cards[j]).used is Some ==> cards[i].used != cards[j].used
    &&& assigned_orders(cards) == set_int_range(0, used_count(cards) as int)
}

/// No hand has more used cards than cards.
pub proof fn lemma_used_count_le_len(cards: Seq<CardData>)
    ensures
        used_count(cards) <= cards.len(),
    decreases cards.len(),
{
    if cards.len() > 0 {
        lemma_used_count_le_len(cards.drop_last());
    }
}

/// A hand with no used card has a used count of zero.
pub proof fn lemma_used_count_zero(cards: Seq<CardData>)
    requires
        forall|i: int| 0 <= i < cards.len() ==> (#[trigger] cards[i]).used is None,
    ensures
        used_count(cards) == 0,
    decreases cards.len(),
{
    if cards.len() > 0 {
        lemma_used_count_zero(cards.drop_last());
    }
}

/// Marking one unused card as used raises the used count by exactly one.
pub proof fn lemma_used_count_update(cards: Seq<CardData>, i: int, c: CardData)
    requires
        0 <= i < cards.len(),
        cards[i].used is None,
        c.used is Some,
    ensures
        used_count(cards.update(i, c)) == used_count(cards) + 1,
    decreases cards.len(),
{
    let updated = cards.update(i, c);
    if i == cards.len() - 1 {
        assert(updated.drop_last() =~= cards.drop_last());
    } else {
        assert(updated.drop_last() =~= cards.drop_last().update(i, c));
        lemma_used_count_update(cards.drop_last(), i, c);
    }
}

/// Law: the usage orders ever assigned form the initial segment 0, 1, 2, …
/// of the naturals — every assigned order is below the used count, and every
/// order below the used count was assigned to exactly one card.
pub proof fn lemma_used_orders_are_initial_segment(cards: Seq<CardData>)
    requires
        used_orders_wf(cards),
    ensures
        forall|i: int|
            0 <= i < cards.len() && (#[trigger] cards[i]).used is Some ==> cards[i].used->0
                < used_count(cards),
        forall|o: int| 0 <= o < used_count(cards) ==> #[trigger] assigned_orders(cards).contains(
            o,
        ),
{
    assert forall|i: int|
        0 <= i < cards.len() && (#[trigger] cards[i]).used is Some implies cards[i].used->0
        < used_count(cards) by {
        let o = cards[i].used->0 as int;
        assert(assigned_orders(cards).contains(o));
    }
    assert forall|o: int| 0 <= o < used_count(cards) implies #[trigger] assigned_orders(
        cards,
    ).contains(o) by {
        assert(set_int_range(0, used_count(cards) as int).contains(o));
    }
}

/// The highest usage order assigned so far, if any card has been used.
fn highest_used_order(cards: &Vec<CardData>) -> (m: Option<usize>)
    ensures
        m is None ==> forall|j: int| 0 <= j < cards@.len() ==> (#[trigger] cards@[j]).used is None,
        m matches Some(x) ==> (exists|j: int|
            0 <= j < cards@.len() && (#[trigger] cards@[j]).used == Some(x)) && (forall|j: int|
            0 <= j < cards@.len() && (#[trigger] cards@[j]).used is Some ==> cards@[j].used->0
                <= x),
{
    let mut m: Option<usize> = None;
    let mut j: usize = 0;
    let len = cards.len();
    while j < len
        invariant
            0 <= j <= len,
            len == cards@.len(),
            m is None ==> forall|k: int| 0 <= k < j ==> (#[trigger] cards@[k]).used is None,
            m matches Some(x) ==> (exists|k: int|
                0 <= k < j && (#[trigger] cards@[k]).used == Some(x)) && (forall|k: int|
                0 <= k < j && (#[trigger] cards@[k]).used is Some ==> cards@[k].used->0 <= x),
        decreases len - j,
    {
        match cards[j].used {
            Some(u) => {
                m = match m {
                    None => Some(u),
                    Some(x) => Some(
                        if u > x {
                            u
                        } else {
                            x
                        },
                    ),
                };
            },
            None => {},
        }
        j = j + 1;
    }
    m
}

/// Validity of one card's action against the columns. The left column serves
/// as the nature reference; a well-formed state keeps both columns over the
/// same natures, so the distinction does not matter.
pub open spec fn card_action_ok(a: Action, l: Seq<TileData>) -> bool {
    match a {
        Action::SwapFirstAndLast { .. } => true,
        Action::SwapTwoAdjacent { top, .. } => top + 1 < l.len(),
        Action::SwapTwoNatures { nature_a, nature_b, .. } => has_nature(l, nature_a)
            && has_nature(l, nature_b),
        Action::Cycle { times, .. } => times >= 0,
    }
}

/// A running match: the two columns, the dealt hand in display order, and the
/// hover cursor over the hand.
pub struct MatchStatePlaying {
    pub left_col: Vec<TileData>,
    pub right_col: Vec<TileData>,
    pub cards: Vec<CardData>,
    pub hovered_card: Option<usize>,
}

impl MatchStatePlaying {
    /// The internal invariant of a running match: equally long columns over
    /// the same duplicate-free natures, a cursor inside the hand, every dealt
    /// action meaningful for the columns, and sound usage bookkeeping.
    pub open spec fn wf(self) -> bool {
        &&& self.left_col@.len() == self.right_col@.len()
        &&& self.left_col@.len() >= 1
        &&& natures_of(self.left_col@).to_multiset() == natures_of(self.right_col@).to_multiset()
        &&& distinct_natures(self.left_col@)
        &&& distinct_natures(self.right_col@)
        &&& (self.hovered_card matches Some(i) ==> i < self.cards@.len())
        &&& (forall|k: int|
            0 <= k < self.cards@.len() ==> card_action_ok(
                (#[trigger] self.cards@[k]).action,
                self.left_col@,
            ))
        &&& used_orders_wf(self.cards@)
    }

    /// Whether an activation would do anything: a card is hovered and it has
    /// not been used yet.
    pub open spec fn can_activate(self) -> bool {
        self.hovered_card matches Some(i) && self.cards@[i as int].used is None
    }
}

/// In a well-formed state every dealt action is applicable to the columns and
/// round-trips with its inverse.
pub proof fn lemma_wf_action_applicable(st: MatchStatePlaying, k: int)
    requires
        st.wf(),
        0 <= k < st.cards@.len(),
    ensures
        action_applicable(st.cards@[k].action, st.left_col@, st.right_col@),
        round_trip_safe_cols(st.cards@[k].action, st.left_col@, st.right_col@),
{
    let a = st.cards@[k].action;
    let l = st.left_col@;
    let r = st.right_col@;
    match a.side() {
        TileSide::Left => {
        },
        TileSide::Right => {
            match a {
                Action::SwapTwoNatures { nature_a, nature_b, .. } => {
                    lemma_same_multiset_same_has_nature(l, r, nature_a);
                    lemma_same_multiset_same_has_nature(l, r, nature_b);
                },
                _ => {},
            }
        },
    }
}

/// Where the hover cursor lands after a step toward the previous card,
/// wrapping from the first card to the last.
pub open spec fn hover_prev_spec(st: MatchStatePlaying) -> Option<usize> {
    match st.hovered_card {
        None => None,
        Some(i) => Some(
            if i == 0 {
                (st.cards@.len() - 1) as usize
            } else {
                (i - 1) as usize
            },
        ),
    }
}

/// Where the hover cursor lands after a step toward the next card, wrapping
/// from the last card to the first.
pub open spec fn hover_next_spec(st: MatchStatePlaying) -> Option<usize> {
    match st.hovered_card {
        None => None,
        Some(i) => Some(
            if i + 1 == st.cards@.len() {
                0usize
            } else {
                (i + 1) as usize
            },
        ),
    }
}

/// How a state before an activation relates to the state after it: with no
/// hovered card or an already-used one nothing changes; otherwise the card's
/// action is applied to the columns, the card is stamped with the next usage
/// order, and the outcome reports whether the columns now match.
pub open spec fn activate_rel(
    st: MatchStatePlaying,
    st2: MatchStatePlaying,
    outcome: Option<bool>,
) -> bool {
    if !st.can_activate() {
        st2 == st && outcome is None
    } else {
        st.hovered_card matches Some(i) && {
            let a = st.cards@[i as int].action;
            let cols = step(a, st.left_col@, st.right_col@);
            &&& st2.left_col@ == cols.0
            &&& st2.right_col@ == cols.1
            &&& st2.cards@ == st.cards@.update(
                i as int,
                (CardData { used: Some(used_count(st.cards@) as usize), ..st.cards@[i as int] }),
            )
            &&& st2.hovered_card == st.hovered_card
            &&& outcome == Some(columns_match(cols.0, cols.1))
        }
    }
}

impl MatchStatePlaying {
    /// Move the hover cursor one card toward the start of the hand, wrapping
    /// around to the last card.
    pub fn hover_previous(&mut self)
        requires
            old(self).wf(),
        ensures
            final(self).wf(),
            *final(self) == (MatchStatePlaying {
                hovered_card: hover_prev_spec(*old(self)),
                ..*old(self)
            }),
    {
        match self.hovered_card {
            Some(i) => {
                let n = self.cards.len();
                self.hovered_card = Some(
                    if i == 0 {
                        n - 1
                    } else {
                        i - 1
                    },
                );
            },
            None => {},
        }
    }

    /// Move the hover cursor one card toward the end of the hand, wrapping
    /// around to the first card.
    pub fn hover_next(&mut self)
        requires
            old(self).wf(),
        ensures
            final(self).wf(),
            *final(self) == (MatchStatePlaying {
                hovered_card: hover_next_spec(*old(self)),
                ..*old(self)
            }),
    {
        match self.hovered_card {
            Some(i) => {
                let n = self.cards.len();
                self.hovered_card = Some(
                    if i == n - 1 {
                        0
                    } else {
                        i + 1
                    },
                );
            },
            None => {},
        }
    }

    /// Activate the hovered card: apply its action to the columns, stamp the
    /// card with the next usage order, and report whether the columns match.
    /// Activating an already-used card, or with no card hovered, is a no-op.
    pub fn activate(&mut self) -> (outcome: Option<bool>)
        requires
            old(self).wf(),
        ensures
            final(self).wf(),
            activate_rel(*old(self), *final(self), outcome),
    {
        let hovered = self.hovered_card;
        match hovered {
            None => None,
            Some(i) => {
                if self.cards[i].used.is_some() {
                    return None;
                }
                let ghost st0 = *old(self);
                let ghost cards0 = self.cards@;
                let ghost uc0 = used_count(cards0);
                let n_cards = self.cards.len();
                proof {
                    lemma_used_count_le_len(cards0);
                    lemma_used_orders_are_initial_segment(cards0);
                    assert(uc0 <= n_cards);
                }
                let m = highest_used_order(&self.cards);
                let order: usize = match m {
                    None => {
                        proof {
                            lemma_used_count_zero(cards0);
                        }
                        0
                    },
                    Some(x) => {
                        proof {
                            let jx = choose|j: int|
                                0 <= j < cards0.len() && (#[trigger] cards0[j]).used == Some(x);
                            assert(cards0[jx].used is Some && cards0[jx].used->0 as int
                                == x as int);
                            assert(assigned_orders(cards0).contains(x as int));
                            assert(x < uc0);
                            assert(uc0 >= 1);
                            assert(set_int_range(0, uc0 as int).contains(uc0 - 1));
                            assert(assigned_orders(cards0).contains(uc0 - 1));
                            let w = choose|w: int|
                                0 <= w < cards0.len() && (#[trigger] cards0[w]).used is Some
                                    && cards0[w].used->0 as int == uc0 - 1;
                            assert(cards0[w].used->0 <= x);
                            assert(x == uc0 - 1);
                        }
                        x + 1
                    },
                };
                assert(order == uc0);
                let action = self.cards[i].action;
                proof {
                    lemma_wf_action_applicable(st0, i as int);
                }
                apply_action(&action, &mut self.left_col, &mut self.right_col);
                let mut card = self.cards[i];
                card.used = Some(order);
                self.cards.set(i, card);
                proof {
                    lemma_activate_preserves_wf(st0, *self, i as int, order);
                }
                let won = check_columns_match(&self.left_col, &self.right_col);
                Some(won)
            },
        }
    }
}

/// The whole match lifecycle: `Ready` until a puzzle is dealt, `Playing`
/// afterwards.
pub enum MatchState {
    Ready,
    Playing(MatchStatePlaying),
}

impl MatchState {
    /// A ready match is always well-formed; a running one must satisfy the
    /// playing-state invariant.
    pub open spec fn wf(self) -> bool {
        match self {
            MatchState::Ready => true,
            MatchState::Playing(st) => st.wf(),
        }
    }

    /// Deal a fresh puzzle and enter play (or replace the running puzzle),
    /// with the hover cursor on the first card and every card unused. On an
    /// invalid configuration nothing changes: a ready match stays ready, a
    /// running one keeps its puzzle.
    pub fn start_match(
        &mut self,
        tile_count: usize,
        card_count: usize,
        applied_card_count: usize,
        pool_size: usize,
    ) -> (result: Result<(), ConfigError>)
        requires
            old(self).wf(),
        ensures
            final(self).wf(),
            match result {
                Ok(()) => config_ok(tile_count, card_count, applied_card_count, pool_size) && (
                *final(self) matches MatchState::Playing(st) && generated_ok(
                    st,
                    tile_count,
                    card_count,
                    pool_size,
                )),
                Err(e) => {
                    &&& *final(self) == *old(self)
                    &&& !config_ok(tile_count, card_count, applied_card_count, pool_size)
                    &&& e == config_error_of(tile_count, card_count, applied_card_count, pool_size)
                },
            },
    {
        match generate(tile_count, card_count, applied_card_count, pool_size) {
            Ok(st) => {
                *self = MatchState::Playing(st);
                Ok(())
            },
            Err(e) => Err(e),
        }
    }

    /// Feed one player input to the match; inputs are ignored while no match
    /// is running. The outcome is `Some(won)` exactly when a card was
    /// applied, `won` reporting whether the columns now match.
    pub fn handle_input(&mut self, input: PlayerInput) -> (outcome: Option<bool>)
        requires
            old(self).wf(),
        ensures
            final(self).wf(),
            *old(self) is Ready ==> *final(self) == *old(self) && outcome is None,
            *old(self) matches MatchState::Playing(st) ==> (*final(self)
                matches MatchState::Playing(st2) && (match input {
                PlayerInput::HoverPrevious => st2 == (MatchStatePlaying {
                    hovered_card: hover_prev_spec(st),
                    ..st
                }) && outcome is None,
                PlayerInput::HoverNext => st2 == (MatchStatePlaying {
                    hovered_card: hover_next_spec(st),
                    ..st
                }) && outcome is None,
                PlayerInput::Activate => activate_rel(st, st2, outcome),
            })),
    {
        match self {
            MatchState::Ready => None,
            MatchState::Playing(st) => {
                match input {
                    PlayerInput::HoverPrevious => {
                        st.hover_previous();
                        None
                    },
                    PlayerInput::HoverNext => {
                        st.hover_next();
                        None
                    },
                    PlayerInput::Activate => st.activate(),
                }
            },
        }
    }
}

/// The state reached by an activation is well-formed again.
proof fn lemma_activate_preserves_wf(
    st0: MatchStatePlaying,
    st: MatchStatePlaying,
    i: int,
    order: usize,
)
    requires
        st0.wf(),
        0 <= i < st0.cards@.len(),
        st0.cards@[i].used is None,
        order == used_count(st0.cards@),
        ({
            let cols = step(st0.cards@[i].action, st0.left_col@, st0.right_col@);
            st.left_col@ == cols.0 && st.right_col@ == cols.1
        }),
        st.cards@ == st0.cards@.update(
            i,
            (CardData { used: Some(order), ..st0.cards@[i] }),
        ),
        st.hovered_card == st0.hovered_card,
    ensures
        st.wf(),
        st.left_col@.len() == st0.left_col@.len(),
        st.right_col@.len() == st0.right_col@.len(),
{
    let a = st0.cards@[i].action;
    let l0 = st0.left_col@;
    let r0 = st0.right_col@;
    lemma_wf_action_applicable(st0, i);
    match a.side() {
        TileSide::Left => {
            lemma_apply_preserves_natures(a, l0);
            lemma_same_multiset_distinct(l0, st.left_col@);
        },
        TileSide::Right => {
            lemma_apply_preserves_natures(a, r0);
            lemma_same_multiset_distinct(r0, st.right_col@);
        },
    }
    assert forall|k: int| 0 <= k < st.cards@.len() implies card_action_ok(
        (#[trigger] st.cards@[k]).action,
        st.left_col@,
    ) by {
        assert(st.cards@[k].action == st0.cards@[k].action);
        assert(card_action_ok(st0.cards@[k].action, l0));
        match st0.cards@[k].action {
            Action::SwapTwoNatures { nature_a, nature_b, .. } => {
                lemma_same_multiset_same_has_nature(l0, st.left_col@, nature_a);
                lemma_same_multiset_same_has_nature(l0, st.left_col@, nature_b);
            },
            _ => {},
        }
    }
    lemma_activate_preserves_used_orders(st0.cards@, st.cards@, i, order);
}

/// Stamping one unused card with the next order keeps the usage bookkeeping
/// sound.
proof fn lemma_activate_preserves_used_orders(
    cards0: Seq<CardData>,
    cards: Seq<CardData>,
    i: int,
    order: usize,
)
    requires
        used_orders_wf(cards0),
        0 <= i < cards0.len(),
        cards0[i].used is None,
        order == used_count(cards0),
        cards == cards0.update(i, (CardData { used: Some(order), ..cards0[i] })),
    ensures
        used_orders_wf(cards),
{
    let uc0 = used_count(cards0) as int;
    lemma_used_count_update(cards0, i, (CardData { used: Some(order), ..cards0[i] }));
    assert(used_count(cards) == uc0 + 1);
    assert forall|p: int, q: int|
        0 <= p < q < cards.len() && (#[trigger] cards[p]).used is Some && (
        #[trigger] cards[q]).used is Some implies cards[p].used != cards[q].used by {
        if p != i && q != i {
            assert(cards[p] == cards0[p]);
            assert(cards[q] == cards0[q]);
        } else if p == i {
            assert(cards[q] == cards0[q]);
            assert(assigned_orders(cards0).contains(cards0[q].used->0 as int));
            assert(cards0[q].used->0 < uc0);
        } else {
            assert(cards[p] == cards0[p]);
            assert(assigned_orders(cards0).contains(cards0[p].used->0 as int));
            assert(cards0[p].used->0 < uc0);
        }
    }
    assert(assigned_orders(cards) =~= set_int_range(0, uc0 + 1)) by {
        assert forall|o: int| assigned_orders(cards).contains(o) implies set_int_range(
            0,
            uc0 + 1,
        ).contains(o) by {
            let j = choose|j: int|
                0 <= j < cards.len() && (#[trigger] cards[j]).used is Some && cards[j].used->0
                    as int == o;
            if j == i {
                assert(o == uc0);
            } else {
                assert(cards[j] == cards0[j]);
                assert(assigned_orders(cards0).contains(o));
            }
        }
        assert forall|o: int| set_int_range(0, uc0 + 1).contains(o) implies assigned_orders(
            cards,
        ).contains(o) by {
            if o == uc0 {
                assert(cards[i].used is Some && cards[i].used->0 as int == o);
            } else {
                assert(set_int_range(0, uc0).contains(o));
                assert(assigned_orders(cards0).contains(o));
                let j = choose|j: int|
                    0 <= j < cards0.len() && (#[trigger] cards0[j]).used is Some && cards0[j].used
                        ->0 as int == o;
                assert(j != i);
                assert(cards[j] == cards0[j]);
                assert(cards[j].used is Some && cards[j].used->0 as int == o);
            }
        }
    }
}

} // verus!
