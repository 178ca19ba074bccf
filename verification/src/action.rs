//! The action algebra: four kinds of reversible column transformations, their
//! forward and inverse application, and the laws that make puzzle generation
//! sound — every action round-trips with its inverse, and no action changes
//! the multiset of natures in a column.

use vstd::prelude::*;
use crate::column::TileData;
use crate::column::TileNature;
use crate::column::TileSide;
use crate::column::distinct_natures;
use crate::column::find_nature;
use crate::column::find_nature_index;
use crate::column::has_nature;
use crate::column::lemma_find_nature_present;
use crate::column::lemma_find_nature_unique;
use crate::column::lemma_rotate_down_multiset;
use crate::column::lemma_rotate_down_up;
use crate::column::lemma_rotate_up_down;
use crate::column::lemma_rotate_up_multiset;
use crate::column::lemma_same_multiset_distinct;
use crate::column::lemma_same_multiset_same_has_nature;
use crate::column::lemma_seq_swap_involutive;
use crate::column::lemma_seq_swap_multiset;
use crate::column::natures_of;
use crate::column::rotate_col_down;
use crate::column::rotate_col_up;
use crate::column::rotate_down;
use crate::column::rotate_up;
use crate::column::seq_swap;
use crate::column::swap_entries;

verus! {

/// Direction of a cyclic rotation: `Up` moves every entry toward index 0,
/// `Down` toward the last index.
#[derive(Clone, Copy, PartialEq, Eq, Structural, Debug)]
pub enum CycleDirection {
    Up,
    Down,
}

impl CycleDirection {
    /// The opposite direction.
    pub open spec fn flip(self) -> CycleDirection {
        match self {
            CycleDirection::Up => CycleDirection::Down,
            CycleDirection::Down => CycleDirection::Up,
        }
    }
}

/// A reversible transformation of one column, the payload of a card.
#[derive(Clone, Copy, PartialEq, Eq, Structural, Debug)]
pub enum Action {
    /// Exchange the first and the last entry of the column.
    SwapFirstAndLast { side: TileSide },
    /// Exchange the entries at positions `top` and `top + 1`.
    SwapTwoAdjacent { top: usize, side: TileSide },
    /// Exchange the two entries currently holding `nature_a` and `nature_b`,
    /// wherever they sit.
    SwapTwoNatures { nature_a: TileNature, nature_b: TileNature, side: TileSide },
    /// Rotate the column circularly by `times` positions.
    Cycle { times: i32, direction: CycleDirection, side: TileSide },
}

impl Action {
    /// The column the action targets.
    pub open spec fn side(self) -> TileSide {
        match self {
            Action::SwapFirstAndLast { side } => side,
            Action::SwapTwoAdjacent { side, .. } => side,
            Action::SwapTwoNatures { side, .. } => side,
            Action::Cycle { side, .. } => side,
        }
    }

    /// The action that undoes this one: swaps are their own inverse, a cycle
    /// inverts by flipping its direction.
    pub open spec fn inverse(self) -> Action {
        match self {
            Action::Cycle { times, direction, side } => (Action::Cycle {
                times,
                direction: direction.flip(),
                side,
            }),
            _ => self,
        }
    }

    /// The column the action targets, as executable code.
    pub fn target_side(&self) -> (s: TileSide)
        ensures
            s == self.side(),
    {
        match self {
            Action::SwapFirstAndLast { side } => *side,
            Action::SwapTwoAdjacent { side, .. } => *side,
            Action::SwapTwoNatures { side, .. } => *side,
            Action::Cycle { side, .. } => *side,
        }
    }
}

/// Whether the action's parameters refer to positions and natures that the
/// column actually has. The generator only produces applicable actions; an
/// inapplicable one indicates a broken generation invariant.
pub open spec fn column_applicable(a: Action, col: Seq<TileData>) -> bool {
    match a {
        Action::SwapFirstAndLast { .. } => col.len() >= 1,
        Action::SwapTwoAdjacent { top, .. } => top + 1 < col.len(),
        Action::SwapTwoNatures { nature_a, nature_b, .. } => has_nature(col, nature_a)
            && has_nature(col, nature_b),
        Action::Cycle { times, .. } => col.len() >= 1 && times >= 0,
    }
}

/// The targeted column after applying the action forward.
pub open spec fn apply_to_column(a: Action, col: Seq<TileData>) -> Seq<TileData>
    recommends
        column_applicable(a, col),
{
    match a {
        Action::SwapFirstAndLast { .. } => seq_swap(col, 0, col.len() - 1),
        Action::SwapTwoAdjacent { top, .. } => seq_swap(col, top as int, top + 1),
        Action::SwapTwoNatures { nature_a, nature_b, .. } => seq_swap(
            col,
            find_nature(col, nature_a),
            find_nature(col, nature_b),
        ),
        Action::Cycle { times, direction, .. } => match direction {
            CycleDirection::Up => rotate_up(col, times as int),
            CycleDirection::Down => rotate_down(col, times as int),
        },
    }
}

/// The targeted column after applying the action's inverse.
pub open spec fn apply_inverse_to_column(a: Action, col: Seq<TileData>) -> Seq<TileData>
    recommends
        column_applicable(a, col),
{
    apply_to_column(a.inverse(), col)
}

/// Whether the action can be applied to the pair of columns.
pub open spec fn action_applicable(a: Action, l: Seq<TileData>, r: Seq<TileData>) -> bool {
    match a.side() {
        TileSide::Left => column_applicable(a, l),
        TileSide::Right => column_applicable(a, r),
    }
}

/// Both columns after applying the action forward.
pub open spec fn step(a: Action, l: Seq<TileData>, r: Seq<TileData>) -> (Seq<TileData>, Seq<
    TileData,
>)
    recommends
        action_applicable(a, l, r),
{
    match a.side() {
        TileSide::Left => (apply_to_column(a, l), r),
        TileSide::Right => (l, apply_to_column(a, r)),
    }
}

/// Both columns after applying the action's inverse.
pub open spec fn step_inverse(a: Action, l: Seq<TileData>, r: Seq<TileData>) -> (Seq<TileData>, Seq<
    TileData,
>)
    recommends
        action_applicable(a, l, r),
{
    step(a.inverse(), l, r)
}

/// Both columns after applying a sequence of actions forward, first first.
pub open spec fn run(actions: Seq<Action>, l: Seq<TileData>, r: Seq<TileData>) -> (Seq<TileData>,
    Seq<TileData>,
)
    decreases actions.len(),
{
    if actions.len() == 0 {
        (l, r)
    } else {
        let next = step(actions[0], l, r);
        run(actions.drop_first(), next.0, next.1)
    }
}

/// Inverting does not change which column is targeted nor whether the action
/// is applicable.
pub proof fn lemma_inverse_applicable(a: Action, col: Seq<TileData>)
    ensures
        a.inverse().side() == a.side(),
        column_applicable(a.inverse(), col) == column_applicable(a, col),
{
}

/// Inverting twice yields the original action.
pub proof fn lemma_inverse_involutive(a: Action)
    ensures
        a.inverse().inverse() == a,
{
}

/// Law: no action changes the length of the column it is applied to, nor the
/// multiset of natures the column holds — only their positions.
pub proof fn lemma_apply_preserves_natures(a: Action, col: Seq<TileData>)
    requires
        column_applicable(a, col),
    ensures
        apply_to_column(a, col).len() == col.len(),
        natures_of(apply_to_column(a, col)).to_multiset() == natures_of(col).to_multiset(),
{
    let nats = natures_of(col);
    match a {
        Action::SwapFirstAndLast { .. } => {
            let res = seq_swap(col, 0, col.len() - 1);
            assert(natures_of(res) =~= seq_swap(nats, 0, col.len() - 1));
            lemma_seq_swap_multiset(nats, 0, col.len() - 1);
        },
        Action::SwapTwoAdjacent { top, .. } => {
            let res = seq_swap(col, top as int, top + 1);
            assert(natures_of(res) =~= seq_swap(nats, top as int, top + 1));
            lemma_seq_swap_multiset(nats, top as int, top + 1);
        },
        Action::SwapTwoNatures { nature_a, nature_b, .. } => {
            lemma_find_nature_present(col, nature_a);
            lemma_find_nature_present(col, nature_b);
            let ia = find_nature(col, nature_a);
            let ib = find_nature(col, nature_b);
            let res = seq_swap(col, ia, ib);
            assert(natures_of(res) =~= seq_swap(nats, ia, ib));
            lemma_seq_swap_multiset(nats, ia, ib);
        },
        Action::Cycle { times, direction, .. } => {
            match direction {
                CycleDirection::Up => {
                    assert(natures_of(rotate_up(col, times as int)) =~= rotate_up(
                        nats,
                        times as int,
                    ));
                    lemma_rotate_up_multiset(nats, times as int);
                },
                CycleDirection::Down => {
                    assert(natures_of(rotate_down(col, times as int)) =~= rotate_down(
                        nats,
                        times as int,
                    ));
                    lemma_rotate_down_multiset(nats, times as int);
                },
            }
        },
    }
}

/// Every entry of the transformed column was an entry of the original one:
/// actions move entries, they never invent them.
pub proof fn lemma_apply_entries_from(a: Action, col: Seq<TileData>)
    requires
        column_applicable(a, col),
    ensures
        forall|k: int|
            0 <= k < apply_to_column(a, col).len() ==> col.contains(
                #[trigger] apply_to_column(a, col)[k],
            ),
{
    let res = apply_to_column(a, col);
    match a {
        Action::SwapFirstAndLast { .. } => {
            assert forall|k: int| 0 <= k < res.len() implies col.contains(#[trigger] res[k]) by {
                if k == 0 {
                    assert(res[k] == col[col.len() - 1]);
                } else if k == col.len() - 1 {
                    assert(res[k] == col[0]);
                } else {
                    assert(res[k] == col[k]);
                }
            }
        },
        Action::SwapTwoAdjacent { top, .. } => {
            assert forall|k: int| 0 <= k < res.len() implies col.contains(#[trigger] res[k]) by {
                if k == top {
                    assert(res[k] == col[top + 1]);
                } else if k == top + 1 {
                    assert(res[k] == col[top as int]);
                } else {
                    assert(res[k] == col[k]);
                }
            }
        },
        Action::SwapTwoNatures { nature_a, nature_b, .. } => {
            lemma_find_nature_present(col, nature_a);
            lemma_find_nature_present(col, nature_b);
            let ia = find_nature(col, nature_a);
            let ib = find_nature(col, nature_b);
            assert forall|k: int| 0 <= k < res.len() implies col.contains(#[trigger] res[k]) by {
                if k == ia {
                    assert(res[k] == col[ib]);
                } else if k == ib {
                    assert(res[k] == col[ia]);
                } else {
                    assert(res[k] == col[k]);
                }
            }
        },
        Action::Cycle { times, direction, .. } => {
            let n = col.len() as int;
            let k0 = (times as int) % n;
            match direction {
                CycleDirection::Up => {
                    assert forall|k: int| 0 <= k < res.len() implies col.contains(
                        #[trigger] res[k],
                    ) by {
                        if k < n - k0 {
                            assert(res[k] == col[k + k0]);
                        } else {
                            assert(res[k] == col[k - (n - k0)]);
                        }
                    }
                },
                CycleDirection::Down => {
                    assert forall|k: int| 0 <= k < res.len() implies col.contains(
                        #[trigger] res[k],
                    ) by {
                        if k < k0 {
                            assert(res[k] == col[n - k0 + k]);
                        } else {
                            assert(res[k] == col[k - k0]);
                        }
                    }
                },
            }
        },
    }
}

/// An action stays applicable after any transformation that keeps the column
/// length and the multiset of natures.
pub proof fn lemma_applicable_after_permutation(a: Action, col: Seq<TileData>, col2: Seq<TileData>)
    requires
        column_applicable(a, col),
        col2.len() == col.len(),
        natures_of(col2).to_multiset() == natures_of(col).to_multiset(),
    ensures
        column_applicable(a, col2),
{
    match a {
        Action::SwapTwoNatures { nature_a, nature_b, .. } => {
            lemma_same_multiset_same_has_nature(col, col2, nature_a);
            lemma_same_multiset_same_has_nature(col, col2, nature_b);
        },
        _ => {},
    }
}

/// The conditions under which an action round-trips with its inverse: it must
/// be applicable, and a swap-by-nature needs a column without repeated
/// natures (with a repeated nature, the searched-for positions after the
/// first swap need not be the swapped ones).
pub open spec fn round_trip_safe(a: Action, col: Seq<TileData>) -> bool {
    column_applicable(a, col) && (a matches Action::SwapTwoNatures { .. }
        ==> distinct_natures(col))
}

/// Law: applying an action forward and then its inverse restores the column.
pub proof fn lemma_apply_round_trip(a: Action, col: Seq<TileData>)
    requires
        round_trip_safe(a, col),
    ensures
        column_applicable(a, apply_to_column(a, col)),
        apply_inverse_to_column(a, apply_to_column(a, col)) == col,
{
    lemma_apply_preserves_natures(a, col);
    lemma_applicable_after_permutation(a, col, apply_to_column(a, col));
    let res = apply_to_column(a, col);
    match a {
        Action::SwapFirstAndLast { .. } => {
            lemma_seq_swap_involutive(col, 0, col.len() - 1);
        },
        Action::SwapTwoAdjacent { top, .. } => {
            lemma_seq_swap_involutive(col, top as int, top + 1);
        },
        Action::SwapTwoNatures { nature_a, nature_b, .. } => {
            lemma_find_nature_present(col, nature_a);
            lemma_find_nature_present(col, nature_b);
            let ia = find_nature(col, nature_a);
            let ib = find_nature(col, nature_b);
            lemma_same_multiset_distinct(col, res);
            if nature_a == nature_b {
                assert(res =~= col);
                assert(apply_inverse_to_column(a, res) =~= col);
            } else {
                assert(res[ib].nature == nature_a);
                assert(res[ia].nature == nature_b);
                lemma_find_nature_unique(res, nature_a, ib);
                lemma_find_nature_unique(res, nature_b, ia);
                assert(seq_swap(res, ib, ia) =~= seq_swap(res, ia, ib));
                lemma_seq_swap_involutive(col, ia, ib);
            }
        },
        Action::Cycle { times, direction, .. } => {
            match direction {
                CycleDirection::Up => {
                    lemma_rotate_up_down(col, times as int);
                },
                CycleDirection::Down => {
                    lemma_rotate_down_up(col, times as int);
                },
            }
        },
    }
}

/// Round-trip safety does not depend on the cycle direction, so it carries
/// over to the inverse action.
pub proof fn lemma_round_trip_safe_inverse(a: Action, col: Seq<TileData>)
    requires
        round_trip_safe(a, col),
    ensures
        round_trip_safe(a.inverse(), col),
{
    lemma_inverse_applicable(a, col);
}

/// Law: applying an action's inverse and then the action itself restores the
/// column.
pub proof fn lemma_inverse_round_trip(a: Action, col: Seq<TileData>)
    requires
        round_trip_safe(a, col),
    ensures
        column_applicable(a, apply_inverse_to_column(a, col)),
        apply_to_column(a, apply_inverse_to_column(a, col)) == col,
{
    lemma_round_trip_safe_inverse(a, col);
    lemma_apply_round_trip(a.inverse(), col);
    lemma_inverse_involutive(a);
    lemma_inverse_applicable(a, apply_inverse_to_column(a, col));
}

/// The conditions under which an action on a pair of columns round-trips:
/// applicability, plus no repeated natures in the targeted column for a
/// swap-by-nature.
pub open spec fn round_trip_safe_cols(a: Action, l: Seq<TileData>, r: Seq<TileData>) -> bool {
    match a.side() {
        TileSide::Left => round_trip_safe(a, l),
        TileSide::Right => round_trip_safe(a, r),
    }
}

/// Law: on a pair of columns, an action and its inverse undo each other in
/// either order.
pub proof fn lemma_action_round_trip(a: Action, l: Seq<TileData>, r: Seq<TileData>)
    requires
        round_trip_safe_cols(a, l, r),
    ensures
        step_inverse(a, step(a, l, r).0, step(a, l, r).1) == (l, r),
        step(a, step_inverse(a, l, r).0, step_inverse(a, l, r).1) == (l, r),
{
    lemma_inverse_applicable(a, l);
    match a.side() {
        TileSide::Left => {
            lemma_apply_round_trip(a, l);
            lemma_inverse_round_trip(a, l);
        },
        TileSide::Right => {
            lemma_apply_round_trip(a, r);
            lemma_inverse_round_trip(a, r);
        },
    }
}

/// Apply the action forward to the column it targets.
fn apply_forward_to_column(action: &Action, col: &mut Vec<TileData>)
    requires
        column_applicable(*action, old(col)@),
    ensures
        final(col)@ == apply_to_column(*action, old(col)@),
{
    match action {
        Action::SwapFirstAndLast { .. } => {
            let n = col.len();
            swap_entries(col, 0, n - 1);
        },
        Action::SwapTwoAdjacent { top, .. } => {
            let n = col.len();
            assert(*top + 1 < n);
            swap_entries(col, *top, *top + 1);
        },
        Action::SwapTwoNatures { nature_a, nature_b, .. } => {
            let ia = find_nature_index(col, *nature_a);
            let ib = find_nature_index(col, *nature_b);
            swap_entries(col, ia, ib);
        },
        Action::Cycle { times, direction, .. } => {
            match direction {
                CycleDirection::Up => rotate_col_up(col, *times as usize),
                CycleDirection::Down => rotate_col_down(col, *times as usize),
            }
        },
    }
}

/// Apply the action's inverse to the column it targets.
fn apply_inverse_to_column_exec(action: &Action, col: &mut Vec<TileData>)
    requires
        column_applicable(*action, old(col)@),
    ensures
        final(col)@ == apply_inverse_to_column(*action, old(col)@),
{
    match action {
        Action::SwapFirstAndLast { .. } => {
            let n = col.len();
            swap_entries(col, 0, n - 1);
        },
        Action::SwapTwoAdjacent { top, .. } => {
            let n = col.len();
            assert(*top + 1 < n);
            swap_entries(col, *top, *top + 1);
        },
        Action::SwapTwoNatures { nature_a, nature_b, .. } => {
            let ia = find_nature_index(col, *nature_a);
            let ib = find_nature_index(col, *nature_b);
            swap_entries(col, ia, ib);
        },
        Action::Cycle { times, direction, .. } => {
            match direction {
                CycleDirection::Up => rotate_col_down(col, *times as usize),
                CycleDirection::Down => rotate_col_up(col, *times as usize),
            }
        },
    }
}

/// Apply the action forward, mutating the column it targets in place.
pub fn apply_action(action: &Action, left_col: &mut Vec<TileData>, right_col: &mut Vec<TileData>)
    requires
        action_applicable(*action, old(left_col)@, old(right_col)@),
    ensures
        final(left_col)@ == step(*action, old(left_col)@, old(right_col)@).0,
        final(right_col)@ == step(*action, old(left_col)@, old(right_col)@).1,
{
    match action.target_side() {
        TileSide::Left => apply_forward_to_column(action, left_col),
        TileSide::Right => apply_forward_to_column(action, right_col),
    }
}

/// Apply the action's inverse, mutating the column it targets in place.
pub fn apply_inverse_action(
    action: &Action,
    left_col: &mut Vec<TileData>,
    right_col: &mut Vec<TileData>,
)
    requires
        action_applicable(*action, old(left_col)@, old(right_col)@),
    ensures
        final(left_col)@ == step_inverse(*action, old(left_col)@, old(right_col)@).0,
        final(right_col)@ == step_inverse(*action, old(left_col)@, old(right_col)@).1,
{
    proof {
        lemma_inverse_applicable(*action, old(left_col)@);
        lemma_inverse_applicable(*action, old(right_col)@);
    }
    match action.target_side() {
        TileSide::Left => apply_inverse_to_column_exec(action, left_col),
        TileSide::Right => apply_inverse_to_column_exec(action, right_col),
    }
}

} // verus!
