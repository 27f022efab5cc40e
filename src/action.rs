use vstd::prelude::*;
use crate::geometry::{
    at, coord, index_of, is_plane, lemma_index_of_point, lemma_point_of_index, lemma_rot_back,
    lemma_rot_facelet, lemma_rot_four, locate, point, pt, rot, rotate, LEN, OFFSET_SMALL,
};

verus! {

/// Number of slots of the action table: one per packed key `k * 64 + a * 16 + b * 4 + c`.
pub const TABLE_LEN: usize = 256;

/// Flags `k` below 4 and three distinct axes below 4 name an action: the axis `a` selects
/// the layer, and `b`, `c` span the plane of the turn.
pub open spec fn valid(k: int, a: int, b: int, c: int) -> bool {
    &&& 0 <= k < 4
    &&& 0 <= a < 4
    &&& is_plane(b, c)
    &&& a != b
    &&& a != c
}

/// A key `[k, a, b, c]` names an action.
pub open spec fn valid_key(key: [usize; 4]) -> bool {
    valid(key[0] as int, key[1] as int, key[2] as int, key[3] as int)
}

/// Slot of a key in the action table.
pub open spec fn slot(k: int, a: int, b: int, c: int) -> int {
    k * 64 + a * 16 + b * 4 + c
}

/// Flags below 2 select the negative half-space of the layer axis.
pub open spec fn negative(k: int) -> bool {
    k < 2
}

/// Whether the flags select the inner shell of the half-space.
pub open spec fn shell(k: int) -> bool {
    (k % 2 == 1) == negative(k)
}

/// Whether the layer of flags `k` on axis `a` holds facelet `i`: its coordinate on `a`,
/// turned toward the selected half-space, is positive, and lies in the selected shell.
pub open spec fn affected(k: int, a: int, i: int) -> bool {
    let v = if negative(k) { -coord(i, a) } else { coord(i, a) };
    v > 0 && shell(k) != (v > OFFSET_SMALL)
}

/// Where the action of `[k, a, b, c]` takes facelet `i`.
pub open spec fn perm(k: int, a: int, b: int, c: int, i: int) -> int {
    if affected(k, a, i) {
        index_of(rot(point(i), b, c))
    } else {
        i
    }
}

/// The permutation of an action, as a sequence.
pub open spec fn perm_seq(k: int, a: int, b: int, c: int) -> Seq<usize> {
    Seq::new(LEN as nat, |i: int| perm(k, a, b, c, i) as usize)
}

/// The action table holds, in the slot of each valid key, that key's permutation.
pub open spec fn table_wf(t: Seq<Vec<usize>>) -> bool {
    &&& t.len() == TABLE_LEN
    &&& forall|k: int, a: int, b: int, c: int|
        valid(k, a, b, c) ==> #[trigger] t[slot(k, a, b, c)]@ == perm_seq(k, a, b, c)
}

/// Where an action takes a facelet: onto a facelet of the same layer, turned a quarter
/// turn.
pub proof fn lemma_perm_point(k: int, a: int, b: int, c: int, i: int)
    requires
        valid(k, a, b, c),
        0 <= i < LEN,
    ensures
        0 <= perm(k, a, b, c, i) < LEN,
        point(perm(k, a, b, c, i)) == if affected(k, a, i) {
            rot(point(i), b, c)
        } else {
            point(i)
        },
        affected(k, a, perm(k, a, b, c, i)) == affected(k, a, i),
{
    lemma_index_of_point(i);
    if affected(k, a, i) {
        lemma_rot_facelet(point(i), b, c);
        lemma_point_of_index(rot(point(i), b, c));
        let j = perm(k, a, b, c, i);
        assert(coord(j, a) == at(point(j), a));
        assert(coord(i, a) == at(point(i), a));
    }
}

/// The action with the plane's axes swapped undoes an action.
pub proof fn lemma_perm_inverse(k: int, a: int, b: int, c: int, i: int)
    requires
        valid(k, a, b, c),
        0 <= i < LEN,
    ensures
        perm(k, a, c, b, perm(k, a, b, c, i)) == i,
{
    lemma_perm_point(k, a, b, c, i);
    lemma_index_of_point(i);
    if affected(k, a, i) {
        lemma_rot_back(point(i), b, c);
    }
}

/// An action applied four times leaves every facelet where it was.
pub proof fn lemma_perm_four(k: int, a: int, b: int, c: int, i: int)
    requires
        valid(k, a, b, c),
        0 <= i < LEN,
    ensures
        perm(k, a, b, c, perm(k, a, b, c, perm(k, a, b, c, perm(k, a, b, c, i)))) == i,
{
    let i1 = perm(k, a, b, c, i);
    let i2 = perm(k, a, b, c, i1);
    let i3 = perm(k, a, b, c, i2);
    let i4 = perm(k, a, b, c, i3);
    lemma_perm_point(k, a, b, c, i);
    lemma_perm_point(k, a, b, c, i1);
    lemma_perm_point(k, a, b, c, i2);
    lemma_perm_point(k, a, b, c, i3);
    lemma_index_of_point(i);
    lemma_index_of_point(i4);
    if affected(k, a, i) {
        lemma_rot_four(point(i), b, c);
    }
}

/// Some facelet goes to `j` under the action of `[k, a, b, c]`.
pub open spec fn has_source(k: int, a: int, b: int, c: int, j: int) -> bool {
    exists|i: int| 0 <= i < LEN && #[trigger] perm(k, a, b, c, i) == j
}

/// Every action is a bijection of the facelet indices: each index is the image of exactly
/// one index.
pub proof fn lemma_perm_bijective(k: int, a: int, b: int, c: int)
    requires
        valid(k, a, b, c),
    ensures
        forall|i: int| 0 <= i < LEN ==> 0 <= #[trigger] perm(k, a, b, c, i) < LEN,
        forall|i: int, j: int|
            0 <= i < LEN && 0 <= j < LEN && #[trigger] perm(k, a, b, c, i) == #[trigger] perm(
                k,
                a,
                b,
                c,
                j,
            ) ==> i == j,
        forall|j: int| 0 <= j < LEN ==> #[trigger] has_source(k, a, b, c, j),
{
    assert forall|i: int| 0 <= i < LEN implies 0 <= #[trigger] perm(k, a, b, c, i) < LEN by {
        lemma_perm_point(k, a, b, c, i);
    }
    assert forall|i: int, j: int|
        0 <= i < LEN && 0 <= j < LEN && #[trigger] perm(k, a, b, c, i) == #[trigger] perm(
            k,
            a,
            b,
            c,
            j,
        ) implies i == j by {
        lemma_perm_inverse(k, a, b, c, i);
        lemma_perm_inverse(k, a, b, c, j);
    }
    assert forall|j: int| 0 <= j < LEN implies #[trigger] has_source(k, a, b, c, j) by {
        let i = perm(k, a, c, b, j);
        lemma_perm_point(k, a, c, b, j);
        lemma_perm_inverse(k, a, c, b, j);
        assert(0 <= i < LEN && perm(k, a, b, c, i) == j);
    }
}

/// The facelet positions of the puzzle, in index order.
pub open spec fn points_wf(points: Seq<[isize; 4]>) -> bool {
    &&& points.len() == LEN
    &&& forall|i: int| 0 <= i < LEN ==> pt(#[trigger] points[i]) == point(i)
}

/// The permutation of the action `[k, a, b, c]`: entry `i` is the index of the facelet
/// position that facelet `i` is turned onto, or `i` where the layer does not hold it.
pub fn build_action(points: &Vec<[isize; 4]>, k: usize, a: usize, b: usize, c: usize) -> (r: Vec<
    usize,
>)
    requires
        points_wf(points@),
        valid(k as int, a as int, b as int, c as int),
    ensures
        r@ == perm_seq(k as int, a as int, b as int, c as int),
{
    let negative = k < 2;
    let shell = (k % 2 == 1) == negative;
    let mut action: Vec<usize> = Vec::new();
    let mut i: usize = 0;
    while i < LEN
        invariant
            points_wf(points@),
            valid(k as int, a as int, b as int, c as int),
            negative == (k < 2),
            shell == ((k % 2 == 1) == negative),
            i <= LEN,
            action@.len() == i,
            forall|j: int| 0 <= j < i ==> #[trigger] action@[j] == perm(k as int, a as int, b as int, c as int, j) as usize,
        decreases LEN - i,
    {
        let p = points[i];
        proof {
            lemma_index_of_point(i as int);
            assert(p[a as int] as int == coord(i as int, a as int));
        }
        let v: isize = if negative { -p[a] } else { p[a] };
        if v > 0 && shell != (v > OFFSET_SMALL) {
            proof {
                lemma_rot_facelet(point(i as int), b as int, c as int);
            }
            let q = rotate(&p, b, c);
            action.push(locate(&q));
        } else {
            action.push(i);
        }
        i += 1;
    }
    assert(action@ =~= perm_seq(k as int, a as int, b as int, c as int));
    action
}

/// The action table: in the slot of each valid key its permutation, elsewhere nothing.
pub fn build_table(points: &Vec<[isize; 4]>) -> (r: Vec<Vec<usize>>)
    requires
        points_wf(points@),
    ensures
        table_wf(r@),
{
    let mut table: Vec<Vec<usize>> = Vec::new();
    let mut s: usize = 0;
    while s < TABLE_LEN
        invariant
            points_wf(points@),
            s <= TABLE_LEN,
            table@.len() == s,
            forall|k: int, a: int, b: int, c: int|
                valid(k, a, b, c) && slot(k, a, b, c) < s ==> #[trigger] table@[slot(k, a, b, c)]@
                    == perm_seq(k, a, b, c),
        decreases TABLE_LEN - s,
    {
        let k = s / 64;
        let a = (s / 16) % 4;
        let b = (s / 4) % 4;
        let c = s % 4;
        proof {
            let u = s as u64;
            assert(u < 256 ==> u == (u / 64) * 64 + ((u / 16) % 4) * 16 + ((u / 4) % 4) * 4 + u % 4)
                by (bit_vector);
            assert forall|k2: int, a2: int, b2: int, c2: int|
                valid(k2, a2, b2, c2) && slot(k2, a2, b2, c2) == s implies k2 == k && a2 == a && b2
                == b && c2 == c by {
                assert(k2 * 64 + a2 * 16 + b2 * 4 + c2 == k * 64 + a * 16 + b * 4 + c);
            }
        }
        if a != b && b != c && c != a {
            table.push(build_action(points, k, a, b, c));
        } else {
            table.push(Vec::new());
        }
        s += 1;
    }
    table
}

/// Whether a key names an action.
pub fn known_key(key: &[usize; 4]) -> (r: bool)
    ensures
        r == valid_key(*key),
{
    key[0] < 4 && key[1] < 4 && key[2] < 4 && key[3] < 4 && key[1] != key[2] && key[2] != key[3]
        && key[3] != key[1]
}

/// Slot of a valid key in the action table.
pub fn slot_of(key: &[usize; 4]) -> (r: usize)
    requires
        valid_key(*key),
    ensures
        r as int == slot(key[0] as int, key[1] as int, key[2] as int, key[3] as int),
        r < TABLE_LEN,
{
    key[0] * 64 + key[1] * 16 + key[2] * 4 + key[3]
}

} // verus!
