//! Columns of tiles and the sequence transforms that the action algebra is
//! built from: swapping two positions and rotating the whole column.

use vstd::prelude::*;
use vstd::seq_lib::group_to_multiset_ensures;

verus! {

/// The hidden matching attribute of a tile, an index into the tile art set.
#[derive(Clone, Copy, PartialEq, Eq, Structural, Debug)]
pub struct TileNature(pub usize);

/// Which of the two columns a tile or an action belongs to.
#[derive(Clone, Copy, PartialEq, Eq, Structural, Debug)]
pub enum TileSide {
    Left,
    Right,
}

/// One column entry: a nature plus an opaque handle that the rendering layer
/// uses to find the tile's visual representation. The engine never reads the
/// handle; it only moves it around together with its nature.
#[derive(Clone, Copy, PartialEq, Eq, Structural, Debug)]
pub struct TileData {
    pub id: u64,
    pub nature: TileNature,
}

/// Number of distinct tile natures that artwork exists for.
pub fn nature_count() -> (n: usize)
    ensures
        n == 8,
{
    8
}

/// The natures of a column, in column order.
pub open spec fn natures_of(s: Seq<TileData>) -> Seq<TileNature> {
    s.map_values(|t: TileData| t.nature)
}

/// No nature occurs twice in the column.
pub open spec fn distinct_natures(s: Seq<TileData>) -> bool {
    natures_of(s).no_duplicates()
}

/// Some position of the column holds nature `n`.
pub open spec fn has_nature(s: Seq<TileData>, n: TileNature) -> bool {
    exists|i: int| 0 <= i < s.len() && s[i].nature == n
}

/// The win condition: the two columns agree position by position.
pub open spec fn columns_match(l: Seq<TileData>, r: Seq<TileData>) -> bool {
    l.len() == r.len() && forall|k: int| 0 <= k < l.len() ==> l[k].nature == r[k].nature
}

/// First position at or after `i` whose nature is `n` (`s.len()` if none).
pub open spec fn find_nature_from(s: Seq<TileData>, n: TileNature, i: int) -> int
    decreases s.len() - i,
{
    if i < 0 || i >= s.len() {
        s.len() as int
    } else if s[i].nature == n {
        i
    } else {
        find_nature_from(s, n, i + 1)
    }
}

/// First position of the column whose nature is `n` (`s.len()` if none).
pub open spec fn find_nature(s: Seq<TileData>, n: TileNature) -> int {
    find_nature_from(s, n, 0)
}

/// The column with positions `i` and `j` exchanged.
pub open spec fn seq_swap<A>(s: Seq<A>, i: int, j: int) -> Seq<A>
    recommends
        0 <= i < s.len(),
        0 <= j < s.len(),
{
    s.update(i, s[j]).update(j, s[i])
}

/// The column rotated by `t` positions toward index 0: the entry at position
/// `t mod len` becomes the first entry.
pub open spec fn rotate_up<A>(s: Seq<A>, t: int) -> Seq<A>
    recommends
        s.len() > 0,
        t >= 0,
{
    let k = t % (s.len() as int);
    s.subrange(k, s.len() as int) + s.subrange(0, k)
}

/// The column rotated by `t` positions toward the last index.
pub open spec fn rotate_down<A>(s: Seq<A>, t: int) -> Seq<A>
    recommends
        s.len() > 0,
        t >= 0,
{
    let k = t % (s.len() as int);
    s.subrange(s.len() - k, s.len() as int) + s.subrange(0, s.len() - k)
}

pub proof fn lemma_find_nature_from_properties(s: Seq<TileData>, n: TileNature, i: int)
    requires
        0 <= i <= s.len(),
    ensures
        i <= find_nature_from(s, n, i) <= s.len(),
        find_nature_from(s, n, i) < s.len() ==> s[find_nature_from(s, n, i)].nature == n,
        forall|k: int| i <= k < find_nature_from(s, n, i) ==> s[k].nature != n,
        find_nature_from(s, n, i) == s.len() ==> forall|k: int| i <= k < s.len() ==> s[k].nature
            != n,
    decreases s.len() - i,
{
    if i < s.len() && s[i].nature != n {
        lemma_find_nature_from_properties(s, n, i + 1);
    }
}

/// When nature `n` occurs somewhere, `find_nature` points at its first
/// occurrence.
pub proof fn lemma_find_nature_present(s: Seq<TileData>, n: TileNature)
    requires
        has_nature(s, n),
    ensures
        0 <= find_nature(s, n) < s.len(),
        s[find_nature(s, n)].nature == n,
        forall|k: int| 0 <= k < find_nature(s, n) ==> s[k].nature != n,
{
    lemma_find_nature_from_properties(s, n, 0);
}

/// In a column without repeated natures, any position holding nature `n` is
/// the one `find_nature` returns.
pub proof fn lemma_find_nature_unique(s: Seq<TileData>, n: TileNature, i: int)
    requires
        distinct_natures(s),
        0 <= i < s.len(),
        s[i].nature == n,
    ensures
        find_nature(s, n) == i,
{
    assert(has_nature(s, n));
    lemma_find_nature_present(s, n);
    let f = find_nature(s, n);
    if f != i {
        assert(natures_of(s)[f] == natures_of(s)[i]);
    }
}

/// Exchanging two positions twice restores the column.
pub proof fn lemma_seq_swap_involutive<A>(s: Seq<A>, i: int, j: int)
    requires
        0 <= i < s.len(),
        0 <= j < s.len(),
    ensures
        seq_swap(seq_swap(s, i, j), i, j) == s,
{
    assert(seq_swap(seq_swap(s, i, j), i, j) =~= s);
}

/// Exchanging two positions keeps the multiset of entries.
pub proof fn lemma_seq_swap_multiset<A>(s: Seq<A>, i: int, j: int)
    requires
        0 <= i < s.len(),
        0 <= j < s.len(),
    ensures
        seq_swap(s, i, j).to_multiset() == s.to_multiset(),
{
    broadcast use group_to_multiset_ensures;

    let s1 = s.update(i, s[j]);
    let s2 = s1.update(j, s[i]);
    assert(s1.to_multiset() == s.to_multiset().remove(s[i]).insert(s[j]));
    assert(s2.to_multiset() == s1.to_multiset().remove(s1[j]).insert(s[i]));
    if i == j {
        assert(s2.to_multiset() =~= s.to_multiset());
    } else {
        assert(s1[j] == s[j]);
        assert(s2.to_multiset() =~= s.to_multiset());
    }
}

/// Rotating keeps the multiset of entries.
pub proof fn lemma_rotate_up_multiset<A>(s: Seq<A>, t: int)
    requires
        s.len() > 0,
        t >= 0,
    ensures
        rotate_up(s, t).to_multiset() == s.to_multiset(),
{
    let k = t % (s.len() as int);
    let front = s.subrange(0, k);
    let back = s.subrange(k, s.len() as int);
    vstd::seq_lib::lemma_multiset_commutative(front, back);
    vstd::seq_lib::lemma_multiset_commutative(back, front);
    assert(front + back =~= s);
}

/// Rotating down keeps the multiset of entries.
pub proof fn lemma_rotate_down_multiset<A>(s: Seq<A>, t: int)
    requires
        s.len() > 0,
        t >= 0,
    ensures
        rotate_down(s, t).to_multiset() == s.to_multiset(),
{
    let k = t % (s.len() as int);
    let front = s.subrange(0, s.len() - k);
    let back = s.subrange(s.len() - k, s.len() as int);
    vstd::seq_lib::lemma_multiset_commutative(front, back);
    vstd::seq_lib::lemma_multiset_commutative(back, front);
    assert(front + back =~= s);
}

/// Rotating up by `t` and then down by `t` restores the column.
pub proof fn lemma_rotate_up_down<A>(s: Seq<A>, t: int)
    requires
        s.len() > 0,
        t >= 0,
    ensures
        rotate_down(rotate_up(s, t), t) == s,
{
    let n = s.len() as int;
    let k = t % n;
    let u = rotate_up(s, t);
    assert(u.len() == n);
    assert(rotate_down(u, t) =~= s) by {
        assert forall|i: int| 0 <= i < n implies rotate_down(u, t)[i] == s[i] by {
            if i < k {
                assert(rotate_down(u, t)[i] == u[n - k + i]);
                assert(u[n - k + i] == s.subrange(0, k)[i]);
            } else {
                assert(rotate_down(u, t)[i] == u[i - k]);
                assert(u[i - k] == s.subrange(k, n)[i - k]);
            }
        }
    }
}

/// Rotating down by `t` and then up by `t` restores the column.
pub proof fn lemma_rotate_down_up<A>(s: Seq<A>, t: int)
    requires
        s.len() > 0,
        t >= 0,
    ensures
        rotate_up(rotate_down(s, t), t) == s,
{
    let n = s.len() as int;
    let k = t % n;
    let d = rotate_down(s, t);
    assert(d.len() == n);
    assert(rotate_up(d, t) =~= s) by {
        assert forall|i: int| 0 <= i < n implies rotate_up(d, t)[i] == s[i] by {
            if i < n - k {
                assert(rotate_up(d, t)[i] == d[i + k]);
                assert(d[i + k] == s.subrange(0, n - k)[i]);
            } else {
                assert(rotate_up(d, t)[i] == d[i - (n - k)]);
                assert(d[i - (n - k)] == s.subrange(n - k, n)[i - (n - k)]);
            }
        }
    }
}

/// Two columns with the same nature multiset hold the same natures.
pub proof fn lemma_same_multiset_same_has_nature(
    a: Seq<TileData>,
    b: Seq<TileData>,
    n: TileNature,
)
    requires
        natures_of(a).to_multiset() == natures_of(b).to_multiset(),
        has_nature(a, n),
    ensures
        has_nature(b, n),
{
    broadcast use group_to_multiset_ensures;

    let i = choose|i: int| 0 <= i < a.len() && a[i].nature == n;
    assert(natures_of(a)[i] == n);
    assert(natures_of(a).contains(n));
    assert(natures_of(a).to_multiset().count(n) > 0);
    assert(natures_of(b).to_multiset().count(n) > 0);
    assert(natures_of(b).contains(n));
    let j = choose|j: int| 0 <= j < natures_of(b).len() && natures_of(b)[j] == n;
    assert(b[j].nature == n);
}

/// A column whose nature multiset equals that of a duplicate-free column is
/// itself duplicate-free.
pub proof fn lemma_same_multiset_distinct(a: Seq<TileData>, b: Seq<TileData>)
    requires
        natures_of(a).to_multiset() == natures_of(b).to_multiset(),
        distinct_natures(a),
    ensures
        distinct_natures(b),
{
    natures_of(a).lemma_multiset_has_no_duplicates();
    natures_of(b).lemma_multiset_has_no_duplicates_conv();
}

/// Exchange the entries at positions `i` and `j`.
pub fn swap_entries(col: &mut Vec<TileData>, i: usize, j: usize)
    requires
        i < old(col).len(),
        j < old(col).len(),
    ensures
        final(col)@ == seq_swap(old(col)@, i as int, j as int),
{
    let a = col[i];
    let b = col[j];
    col.set(i, b);
    col.set(j, a);
}

/// First position of the column holding nature `n`.
pub fn find_nature_index(col: &Vec<TileData>, n: TileNature) -> (idx: usize)
    requires
        has_nature(col@, n),
    ensures
        idx == find_nature(col@, n),
        idx < col.len(),
        col@[idx as int].nature == n,
{
    proof {
        lemma_find_nature_present(col@, n);
    }
    let len = col.len();
    let mut i: usize = 0;
    while i < len
        invariant
            0 <= i <= len,
            len == col@.len(),
            has_nature(col@, n),
            find_nature(col@, n) == find_nature_from(col@, n, i as int),
        decreases len - i,
    {
        if col[i].nature == n {
            return i;
        }
        i = i + 1;
    }
    proof {
        lemma_find_nature_present(col@, n);
        lemma_find_nature_from_properties(col@, n, len as int);
        assert(false);
    }
    0
}

/// Rotate the column by `t` positions toward index 0.
pub fn rotate_col_up(col: &mut Vec<TileData>, t: usize)
    requires
        old(col).len() > 0,
    ensures
        final(col)@ == rotate_up(old(col)@, t as int),
{
    let len = col.len();
    let k = t % len;
    let mut rotated: Vec<TileData> = Vec::new();
    let mut i: usize = k;
    while i < len
        invariant
            k <= i <= len,
            len == col@.len(),
            rotated@ =~= col@.subrange(k as int, i as int),
        decreases len - i,
    {
        rotated.push(col[i]);
        i = i + 1;
    }
    let mut j: usize = 0;
    while j < k
        invariant
            0 <= j <= k < len,
            len == col@.len(),
            rotated@ =~= col@.subrange(k as int, len as int) + col@.subrange(0, j as int),
        decreases k - j,
    {
        rotated.push(col[j]);
        j = j + 1;
    }
    *col = rotated;
}

/// Rotate the column by `t` positions toward the last index.
pub fn rotate_col_down(col: &mut Vec<TileData>, t: usize)
    requires
        old(col).len() > 0,
    ensures
        final(col)@ == rotate_down(old(col)@, t as int),
{
    let len = col.len();
    let k = t % len;
    rotate_col_up(col, len - k);
    proof {
        lemma_rotate_up_as_down(old(col)@, t as int, (len - k) as int);
    }
}

/// Rotating up by the complement of `t` is the same as rotating down by `t`.
proof fn lemma_rotate_up_as_down<A>(s: Seq<A>, t: int, c: int)
    requires
        s.len() > 0,
        t >= 0,
        c == s.len() - t % (s.len() as int),
    ensures
        rotate_up(s, c) == rotate_down(s, t),
{
    let n = s.len() as int;
    let k = t % n;
    if k == 0 {
        assert(c == n);
        vstd::arithmetic::div_mod::lemma_mod_self_0(n);
        assert(rotate_up(s, c) =~= rotate_down(s, t));
    } else {
        vstd::arithmetic::div_mod::lemma_small_mod(c as nat, n as nat);
        assert(rotate_up(s, c) =~= rotate_down(s, t));
    }
}

/// Report whether the two columns agree position by position.
pub fn check_columns_match(left: &Vec<TileData>, right: &Vec<TileData>) -> (m: bool)
    requires
        left@.len() == right@.len(),
    ensures
        m == columns_match(left@, right@),
{
    let len = left.len();
    let mut i: usize = 0;
    while i < len
        invariant
            0 <= i <= len,
            len == left@.len() == right@.len(),
            forall|k: int| 0 <= k < i ==> left@[k].nature == right@[k].nature,
        decreases len - i,
    {
        if left[i].nature != right[i].nature {
            return false;
        }
        i = i + 1;
    }
    true
}

} // verus!
