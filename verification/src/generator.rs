//! The puzzle generator. A puzzle is built backwards: both columns start in
//! the solved state over freshly drawn natures, a hand of random actions is
//! dealt, and the inverses of a random subset of the hand are applied to
//! scramble the columns. Replaying that subset forwards, newest first,
//! restores the solved state, so every generated puzzle is solvable with the
//! dealt hand.

use vstd::prelude::*;
use rand::Rng;
use crate::action::Action;
use crate::action::apply_inverse_action;
use crate::action::column_applicable;
use crate::action::lemma_action_round_trip;
use crate::action::lemma_apply_entries_from;
use crate::action::lemma_apply_preserves_natures;
use crate::action::lemma_inverse_applicable;
use crate::action::run;
use crate::action::step;
use crate::column::TileData;
use crate::column::TileNature;
use crate::column::TileSide;
use crate::column::columns_match;
use crate::column::distinct_natures;
use crate::column::has_nature;
use crate::column::natures_of;
use crate::controller::CardData;
use crate::controller::MatchStatePlaying;
use crate::controller::card_action_ok;
use crate::controller::lemma_used_count_zero;
use crate::controller::assigned_orders;

verus! {

/// An invalid parameter combination, reported before any random draw.
#[derive(Clone, Copy, PartialEq, Eq, Structural, Debug)]
pub enum ConfigError {
    /// Fewer than two tiles were requested; the swap actions would be
    /// meaningless.
    TileCountTooSmall,
    /// More tiles were requested than the symbol pool offers.
    TileCountExceedsPool,
    /// More cards were requested to be applied than are dealt.
    AppliedCountExceedsCardCount,
}

/// The parameter combinations the generator accepts.
pub open spec fn config_ok(
    tile_count: usize,
    card_count: usize,
    applied_card_count: usize,
    pool_size: usize,
) -> bool {
    tile_count >= 2 && tile_count <= pool_size && applied_card_count <= card_count
}

/// Which error a rejected parameter combination is reported with.
pub open spec fn config_error_of(
    tile_count: usize,
    card_count: usize,
    applied_card_count: usize,
    pool_size: usize,
) -> ConfigError {
    if tile_count < 2 {
        ConfigError::TileCountTooSmall
    } else if tile_count > pool_size {
        ConfigError::TileCountExceedsPool
    } else {
        ConfigError::AppliedCountExceedsCardCount
    }
}

/// Relies on rand's `Rng::gen_range` on the thread-local generator: the
/// sample is drawn from the given half-open range, so it is below `n`; the
/// call panics only on an empty range, which `n > 0` rules out.
#[verifier::external_body]
fn rand_below(n: usize) -> (r: usize)
    requires
        n > 0,
    ensures
        r < n,
{
    rand::thread_rng().gen_range(0..n)
}

/// Draw a column side at random.
fn rand_tile_side() -> TileSide {
    if rand_below(2) == 0 {
        TileSide::Left
    } else {
        TileSide::Right
    }
}

/// The actions of a hand, in display order.
pub open spec fn cards_actions(cards: Seq<CardData>) -> Seq<Action> {
    cards.map_values(|c: CardData| c.action)
}

/// The actions a plan of card indices selects, in play order.
pub open spec fn plan_actions(plan: Seq<int>, actions: Seq<Action>) -> Seq<Action> {
    plan.map_values(|j: int| actions[j])
}

/// The plan plays distinct cards of the hand and its forward application
/// brings the columns to the matched state.
pub open spec fn plan_wins(
    plan: Seq<int>,
    cards: Seq<CardData>,
    l: Seq<TileData>,
    r: Seq<TileData>,
) -> bool {
    &&& plan.no_duplicates()
    &&& forall|i: int| 0 <= i < plan.len() ==> 0 <= #[trigger] plan[i] < cards.len()
    &&& ({
        let end = run(plan_actions(plan, cards_actions(cards)), l, r);
        columns_match(end.0, end.1)
    })
}

/// Law: some subset of the dealt hand, played in some order, wins.
pub open spec fn solvable(cards: Seq<CardData>, l: Seq<TileData>, r: Seq<TileData>) -> bool {
    exists|plan: Seq<int>| plan_wins(plan, cards, l, r)
}

/// Validity of an action's parameters against the chosen natures: positions
/// exist in a column of `n` tiles and the searched-for natures were chosen.
pub open spec fn action_ok_chosen(a: Action, n: int, chosen: Seq<TileNature>) -> bool {
    match a {
        Action::SwapFirstAndLast { .. } => true,
        Action::SwapTwoAdjacent { top, .. } => top + 1 < n,
        Action::SwapTwoNatures { nature_a, nature_b, .. } => chosen.contains(nature_a)
            && chosen.contains(nature_b),
        Action::Cycle { times, .. } => times >= 0,
    }
}

/// Everything the generator guarantees of a freshly dealt match: a
/// well-formed state, columns of the requested size over natures drawn from
/// the pool, a hand of the requested size with every card unused, the cursor
/// on the first card, blank rendering handles, and solvability.
pub open spec fn generated_ok(
    st: MatchStatePlaying,
    tile_count: usize,
    card_count: usize,
    pool_size: usize,
) -> bool {
    &&& st.wf()
    &&& st.left_col@.len() == tile_count
    &&& st.right_col@.len() == tile_count
    &&& st.cards@.len() == card_count
    &&& forall|k: int| 0 <= k < card_count ==> (#[trigger] st.cards@[k]).used is None
    &&& forall|k: int| 0 <= k < card_count ==> (#[trigger] st.cards@[k]).id == 0
    &&& forall|k: int|
        0 <= k < tile_count ==> (#[trigger] st.left_col@[k]).id == 0 && st.right_col@[k].id == 0
    &&& forall|k: int|
        0 <= k < tile_count ==> (#[trigger] st.left_col@[k]).nature.0 < pool_size
            && st.right_col@[k].nature.0 < pool_size
    &&& st.hovered_card == (if card_count == 0 {
        Option::<usize>::None
    } else {
        Option::<usize>::Some(0usize)
    })
    &&& solvable(st.cards@, st.left_col@, st.right_col@)
}

/// What `Vec::swap_remove` leaves of a duplicate-free sequence: still
/// duplicate-free, drawn from the original elements, and without the removed
/// one.
proof fn lemma_swap_remove_distinct<A>(s: Seq<A>, k: int)
    requires
        s.no_duplicates(),
        0 <= k < s.len(),
    ensures
        s.update(k, s.last()).drop_last().no_duplicates(),
        forall|j: int|
            0 <= j < s.update(k, s.last()).drop_last().len() ==> s.contains(
                #[trigger] s.update(k, s.last()).drop_last()[j],
            ),
        !s.update(k, s.last()).drop_last().contains(s[k]),
{
    let res = s.update(k, s.last()).drop_last();
    assert forall|p: int, q: int| 0 <= p < q < res.len() implies res[p] != res[q] by {
        assert(res[p] == if p == k {
            s.last()
        } else {
            s[p]
        });
        assert(res[q] == if q == k {
            s.last()
        } else {
            s[q]
        });
    }
    assert forall|j: int| 0 <= j < res.len() implies s.contains(#[trigger] res[j]) by {
        if j == k {
            assert(res[j] == s[s.len() - 1]);
        } else {
            assert(res[j] == s[j]);
        }
    }
    if res.contains(s[k]) {
        let j = choose|j: int| 0 <= j < res.len() && res[j] == s[k];
        if j == k {
            assert(s[s.len() - 1] == s[k]);
            assert(k < s.len() - 1);
            assert(false);
        } else {
            assert(s[j] == s[k]);
            assert(false);
        }
    }
}

/// A nature counted by the column's nature multiset occurs in the column.
proof fn lemma_nature_in_multiset(l: Seq<TileData>, chosen: Seq<TileNature>, n: TileNature)
    requires
        natures_of(l).to_multiset() == chosen.to_multiset(),
        chosen.contains(n),
    ensures
        has_nature(l, n),
{
    broadcast use vstd::seq_lib::group_to_multiset_ensures;

    assert(chosen.to_multiset().count(n) > 0);
    assert(natures_of(l).to_multiset().count(n) > 0);
    assert(natures_of(l).contains(n));
    let j = choose|j: int| 0 <= j < natures_of(l).len() && natures_of(l)[j] == n;
    assert(l[j].nature == n);
}

/// A column over the same nature multiset as the duplicate-free chosen
/// sequence has no repeated natures.
proof fn lemma_distinct_from_chosen(l: Seq<TileData>, chosen: Seq<TileNature>)
    requires
        natures_of(l).to_multiset() == chosen.to_multiset(),
        chosen.no_duplicates(),
    ensures
        distinct_natures(l),
{
    chosen.lemma_multiset_has_no_duplicates();
    natures_of(l).lemma_multiset_has_no_duplicates_conv();
}

/// A chosen-valid action applies to any column of the right length over the
/// chosen natures.
proof fn lemma_ok_chosen_applicable(a: Action, col: Seq<TileData>, chosen: Seq<TileNature>)
    requires
        action_ok_chosen(a, col.len() as int, chosen),
        natures_of(col).to_multiset() == chosen.to_multiset(),
        col.len() >= 1,
    ensures
        column_applicable(a, col),
{
    match a {
        Action::SwapTwoNatures { nature_a, nature_b, .. } => {
            lemma_nature_in_multiset(col, chosen, nature_a);
            lemma_nature_in_multiset(col, chosen, nature_b);
        },
        _ => {},
    }
}

/// Deal one random action: a uniformly drawn kind with uniformly drawn valid
/// parameters. A swap-by-nature draws two distinct chosen natures.
fn random_action(tile_count: usize, chosen: &Vec<TileNature>) -> (a: Action)
    requires
        chosen@.len() == tile_count,
        chosen@.no_duplicates(),
        tile_count >= 2,
    ensures
        action_ok_chosen(a, tile_count as int, chosen@),
        a matches Action::SwapTwoNatures { nature_a, nature_b, .. } ==> nature_a != nature_b,
{
    let kind = rand_below(4);
    if kind == 0 {
        Action::SwapFirstAndLast { side: rand_tile_side() }
    } else if kind == 1 {
        Action::SwapTwoAdjacent { top: rand_below(tile_count - 1), side: rand_tile_side() }
    } else if kind == 2 {
        let mut p: Vec<TileNature> = Vec::new();
        let mut z: usize = 0;
        while z < tile_count
            invariant
                0 <= z <= tile_count,
                chosen@.len() == tile_count,
                p@ =~= chosen@.subrange(0, z as int),
            decreases tile_count - z,
        {
            p.push(chosen[z]);
            z = z + 1;
        }
        assert(p@ =~= chosen@);
        let ghost p0 = p@;
        let ka = rand_below(p.len());
        let nature_a = p.swap_remove(ka);
        proof {
            lemma_swap_remove_distinct(p0, ka as int);
        }
        let ghost p1 = p@;
        let kb = rand_below(p.len());
        let nature_b = p.swap_remove(kb);
        proof {
            lemma_swap_remove_distinct(p1, kb as int);
            assert(p1.contains(nature_b));
            assert(chosen@.contains(nature_a));
            assert(chosen@.contains(nature_b));
            assert(!p1.contains(nature_a));
        }
        Action::SwapTwoNatures { nature_a, nature_b, side: rand_tile_side() }
    } else {
        let direction = if rand_below(2) == 0 {
            crate::action::CycleDirection::Up
        } else {
            crate::action::CycleDirection::Down
        };
        Action::Cycle { times: 1, direction, side: rand_tile_side() }
    }
}

/// Generate a solvable puzzle: draw `tile_count` distinct natures from a pool
/// of `pool_size`, set both columns to them in the same order, deal
/// `card_count` random actions, and scramble the columns by applying the
/// inverses of `applied_card_count` of them, drawn without replacement.
/// Replaying exactly those cards forwards, newest scramble first, wins; the
/// remaining cards are decoys. Invalid parameter combinations are rejected
/// before any random draw.
pub fn generate(
    tile_count: usize,
    card_count: usize,
    applied_card_count: usize,
    pool_size: usize,
) -> (result: Result<MatchStatePlaying, ConfigError>)
    ensures
        match result {
            Ok(st) => config_ok(tile_count, card_count, applied_card_count, pool_size)
                && generated_ok(st, tile_count, card_count, pool_size),
            Err(e) => !config_ok(tile_count, card_count, applied_card_count, pool_size) && e
                == config_error_of(tile_count, card_count, applied_card_count, pool_size),
        },
{
    if tile_count < 2 {
        return Err(ConfigError::TileCountTooSmall);
    }
    if tile_count > pool_size {
        return Err(ConfigError::TileCountExceedsPool);
    }
    if applied_card_count > card_count {
        return Err(ConfigError::AppliedCountExceedsCardCount);
    }
    // Draw tile_count distinct natures from the pool, without replacement.
    let mut pool: Vec<usize> = Vec::new();
    let mut i: usize = 0;
    while i < pool_size
        invariant
            0 <= i <= pool_size,
            pool@.len() == i,
            forall|k: int| 0 <= k < i ==> #[trigger] pool@[k] == k,
        decreases pool_size - i,
    {
        pool.push(i);
        i = i + 1;
    }
    assert(pool@.no_duplicates());
    let mut chosen: Vec<TileNature> = Vec::new();
    let mut t: usize = 0;
    while t < tile_count
        invariant
            0 <= t <= tile_count,
            tile_count <= pool_size,
            pool@.len() == pool_size - t,
            chosen@.len() == t,
            forall|k: int| 0 <= k < pool@.len() ==> #[trigger] pool@[k] < pool_size,
            forall|k: int| 0 <= k < chosen@.len() ==> (#[trigger] chosen@[k]).0 < pool_size,
            pool@.no_duplicates(),
            chosen@.no_duplicates(),
            forall|k1: int, k2: int|
                0 <= k1 < chosen@.len() && 0 <= k2 < pool@.len() ==> (#[trigger] chosen@[k1]).0
                    != #[trigger] pool@[k2],
        decreases tile_count - t,
    {
        let ghost pool0 = pool@;
        let k = rand_below(pool.len());
        let v = pool.swap_remove(k);
        proof {
            lemma_swap_remove_distinct(pool0, k as int);
        }
        chosen.push(TileNature(v));
        t = t + 1;
        proof {
            assert forall|k1: int, k2: int|
                0 <= k1 < chosen@.len() && 0 <= k2 < pool@.len() implies (
            #[trigger] chosen@[k1]).0 != #[trigger] pool@[k2] by {
                assert(pool0.contains(pool@[k2]));
                if k1 == chosen@.len() - 1 {
                    assert(!pool@.contains(v));
                    assert(pool@[k2] != v);
                }
            }
            assert(chosen@.no_duplicates()) by {
                assert forall|k1: int, k2: int|
                    0 <= k1 < k2 < chosen@.len() implies chosen@[k1] != chosen@[k2] by {
                    if k2 == chosen@.len() - 1 {
                        assert(pool0.contains(v));
                        assert(chosen@[k1].0 != v);
                    }
                }
            }
        }
    }
    // Both columns over the chosen natures, in the same order: the solved
    // state.
    let mut build_left: Vec<TileData> = Vec::new();
    let mut build_right: Vec<TileData> = Vec::new();
    let mut b: usize = 0;
    while b < tile_count
        invariant
            0 <= b <= tile_count,
            chosen@.len() == tile_count,
            build_left@.len() == b,
            build_right@.len() == b,
            forall|k: int|
                0 <= k < b ==> #[trigger] build_left@[k] == (TileData {
                    id: 0,
                    nature: chosen@[k],
                }),
            forall|k: int|
                0 <= k < b ==> #[trigger] build_right@[k] == (TileData {
                    id: 0,
                    nature: chosen@[k],
                }),
        decreases tile_count - b,
    {
        build_left.push(TileData { id: 0, nature: chosen[b] });
        build_right.push(TileData { id: 0, nature: chosen[b] });
        b = b + 1;
    }
    assert(natures_of(build_left@) =~= chosen@);
    assert(natures_of(build_right@) =~= chosen@);
    assert(columns_match(build_left@, build_right@));
    // Deal the hand.
    let mut card_actions: Vec<Action> = Vec::new();
    let mut c: usize = 0;
    while c < card_count
        invariant
            0 <= c <= card_count,
            card_actions@.len() == c,
            chosen@.len() == tile_count,
            chosen@.no_duplicates(),
            tile_count >= 2,
            forall|k: int|
                0 <= k < c ==> action_ok_chosen(
                    #[trigger] card_actions@[k],
                    tile_count as int,
                    chosen@,
                ),
        decreases card_count - c,
    {
        let a = random_action(tile_count, &chosen);
        card_actions.push(a);
        c = c + 1;
    }
    // Scramble: apply the inverses of a random subset of the hand, drawn
    // without replacement, and remember the replay plan that undoes them.
    let ghost solved_left = build_left@;
    let ghost solved_right = build_right@;
    let ghost mut plan: Seq<int> = Seq::empty();
    let mut idx_pool: Vec<usize> = Vec::new();
    let mut f: usize = 0;
    while f < card_count
        invariant
            0 <= f <= card_count,
            idx_pool@.len() == f,
            forall|k: int| 0 <= k < f ==> #[trigger] idx_pool@[k] == k,
        decreases card_count - f,
    {
        idx_pool.push(f);
        f = f + 1;
    }
    assert(idx_pool@.no_duplicates());
    let mut s: usize = 0;
    while s < applied_card_count
        invariant
            0 <= s <= applied_card_count <= card_count,
            tile_count >= 2,
            idx_pool@.len() == card_count - s,
            idx_pool@.no_duplicates(),
            forall|k: int| 0 <= k < idx_pool@.len() ==> #[trigger] idx_pool@[k] < card_count,
            card_actions@.len() == card_count,
            forall|k: int|
                0 <= k < card_count ==> action_ok_chosen(
                    #[trigger] card_actions@[k],
                    tile_count as int,
                    chosen@,
                ),
            chosen@.len() == tile_count,
            chosen@.no_duplicates(),
            build_left@.len() == tile_count,
            build_right@.len() == tile_count,
            natures_of(build_left@).to_multiset() == chosen@.to_multiset(),
            natures_of(build_right@).to_multiset() == chosen@.to_multiset(),
            forall|k: int|
                0 <= k < tile_count ==> (#[trigger] build_left@[k]).id == 0
                    && build_left@[k].nature.0 < pool_size,
            forall|k: int|
                0 <= k < tile_count ==> (#[trigger] build_right@[k]).id == 0
                    && build_right@[k].nature.0 < pool_size,
            plan.no_duplicates(),
            forall|k: int| 0 <= k < plan.len() ==> 0 <= #[trigger] plan[k] < card_count,
            forall|k1: int, k2: int|
                0 <= k1 < plan.len() && 0 <= k2 < idx_pool@.len() ==> #[trigger] plan[k1]
                    != #[trigger] idx_pool@[k2] as int,
            run(plan_actions(plan, card_actions@), build_left@, build_right@) == (
            solved_left,
            solved_right,
            ),
            columns_match(solved_left, solved_right),
        decreases applied_card_count - s,
    {
        let ghost ipool0 = idx_pool@;
        let k = rand_below(idx_pool.len());
        let idx = idx_pool.swap_remove(k);
        proof {
            lemma_swap_remove_distinct(ipool0, k as int);
        }
        let a = card_actions[idx];
        let ghost l0 = build_left@;
        let ghost r0 = build_right@;
        proof {
            lemma_ok_chosen_applicable(a, l0, chosen@);
            lemma_ok_chosen_applicable(a, r0, chosen@);
            lemma_distinct_from_chosen(l0, chosen@);
            lemma_distinct_from_chosen(r0, chosen@);
        }
        apply_inverse_action(&a, &mut build_left, &mut build_right);
        proof {
            lemma_inverse_applicable(a, l0);
            lemma_inverse_applicable(a, r0);
            match a.side() {
                TileSide::Left => {
                    lemma_apply_preserves_natures(a.inverse(), l0);
                    lemma_apply_entries_from(a.inverse(), l0);
                },
                TileSide::Right => {
                    lemma_apply_preserves_natures(a.inverse(), r0);
                    lemma_apply_entries_from(a.inverse(), r0);
                },
            }
            assert forall|k: int| 0 <= k < tile_count implies (#[trigger] build_left@[k]).id == 0
                && build_left@[k].nature.0 < pool_size by {
                assert(l0.contains(build_left@[k]) || build_left@[k] == l0[k]);
            }
            assert forall|k: int| 0 <= k < tile_count implies (#[trigger] build_right@[k]).id == 0
                && build_right@[k].nature.0 < pool_size by {
                assert(r0.contains(build_right@[k]) || build_right@[k] == r0[k]);
            }
            lemma_action_round_trip(a, l0, r0);
            let old_plan = plan;
            plan = seq![idx as int] + plan;
            assert(plan_actions(plan, card_actions@) =~= seq![a] + plan_actions(
                old_plan,
                card_actions@,
            ));
            let pa = plan_actions(plan, card_actions@);
            assert(pa.drop_first() =~= plan_actions(old_plan, card_actions@));
            assert(pa[0] == a);
            assert(step(a, build_left@, build_right@) == (l0, r0));
            assert(run(pa, build_left@, build_right@) == run(
                plan_actions(old_plan, card_actions@),
                l0,
                r0,
            ));
            assert forall|k1: int, k2: int|
                0 <= k1 < plan.len() && 0 <= k2 < idx_pool@.len() implies #[trigger] plan[k1]
                != #[trigger] idx_pool@[k2] as int by {
                assert(ipool0.contains(idx_pool@[k2]));
                if k1 == 0 {
                    assert(!idx_pool@.contains(idx));
                }
            }
            assert(plan.no_duplicates()) by {
                assert forall|k1: int, k2: int|
                    0 <= k1 < k2 < plan.len() implies plan[k1] != plan[k2] by {
                    if k1 == 0 {
                        assert(ipool0.contains(idx));
                        assert(old_plan[k2 - 1] != idx as int);
                    }
                }
            }
        }
        s = s + 1;
    }
    // Wrap the hand into cards, all unused, in generation order.
    let mut cards: Vec<CardData> = Vec::new();
    let mut q: usize = 0;
    while q < card_count
        invariant
            0 <= q <= card_count,
            card_actions@.len() == card_count,
            cards@.len() == q,
            forall|k: int|
                0 <= k < q ==> #[trigger] cards@[k] == (CardData {
                    action: card_actions@[k],
                    used: None,
                    id: 0,
                }),
        decreases card_count - q,
    {
        cards.push(CardData { action: card_actions[q], used: None, id: 0 });
        q = q + 1;
    }
    let hovered_card: Option<usize> = if card_count == 0 {
        None
    } else {
        Some(0)
    };
    let st = MatchStatePlaying { left_col: build_left, right_col: build_right, cards, hovered_card };
    proof {
        lemma_distinct_from_chosen(st.left_col@, chosen@);
        lemma_distinct_from_chosen(st.right_col@, chosen@);
        assert forall|k: int| 0 <= k < st.cards@.len() implies card_action_ok(
            (#[trigger] st.cards@[k]).action,
            st.left_col@,
        ) by {
            match st.cards@[k].action {
                Action::SwapTwoNatures { nature_a, nature_b, .. } => {
                    lemma_nature_in_multiset(st.left_col@, chosen@, nature_a);
                    lemma_nature_in_multiset(st.left_col@, chosen@, nature_b);
                },
                _ => {},
            }
        }
        lemma_used_count_zero(st.cards@);
        assert(assigned_orders(st.cards@) =~= vstd::set_lib::set_int_range(0, 0));
        assert(st.wf());
        assert(cards_actions(st.cards@) =~= card_actions@);
        assert(plan_actions(plan, cards_actions(st.cards@)) =~= plan_actions(
            plan,
            card_actions@,
        ));
        assert(plan_wins(plan, st.cards@, st.left_col@, st.right_col@));
        assert(solvable(st.cards@, st.left_col@, st.right_col@));
    }
    Ok(st)
}

} // verus!
