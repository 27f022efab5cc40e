use vstd::prelude::*;
use crate::action::{perm, valid_key};
use crate::geometry::{coord, home_face, point, pt, Point, LEN, SPAN};
use crate::projection::{drawing_order, in_box, render, screen, tdiv, Entry, FOCUS};
use crate::puzzle::{SimView, ANIMATION_FRAMES};

verus! {

/// The value `step / ANIMATION_FRAMES` of the way from `a` to `b`, rounded toward zero.
pub open spec fn between(a: int, b: int, step: int) -> int {
    tdiv((ANIMATION_FRAMES - step) * a + step * b, ANIMATION_FRAMES as int)
}

/// Coordinate `d` of facelet `p` as displayed: while a move is in flight, the facelet has
/// gone `step / ANIMATION_FRAMES` of the way toward where the move takes it, rounded toward
/// zero.
pub open spec fn shown(v: SimView, p: int, d: int) -> int {
    if v.pending.len() > 0 && valid_key(v.pending[0]) {
        let key = v.pending[0];
        let t = perm(key[0] as int, key[1] as int, key[2] as int, key[3] as int, p);
        between(coord(p, d), coord(t, d), v.step as int)
    } else {
        coord(p, d)
    }
}

/// The displayed position of facelet `p`.
pub open spec fn shown_point(v: SimView, p: int) -> Point {
    (shown(v, p, 0), shown(v, p, 1), shown(v, p, 2), shown(v, p, 3))
}

/// Facelet `p` is drawn when seen along axis `b` from side `s`: it is not on the far face,
/// and it is in front of the eye.
pub open spec fn visible(v: SimView, b: int, s: int, p: int) -> bool {
    s * shown(v, p, b) < SPAN && screen(shown_point(v, p), b, s).0 < FOCUS
}

/// The drawing entry of facelet `p`: its depth, screen y and screen x, and the face whose
/// colour it shows.
pub open spec fn entry(v: SimView, b: int, s: int, p: int) -> Entry {
    let e = screen(shown_point(v, p), b, s);
    (e.0 as isize, e.1 as isize, e.2 as isize, home_face(v.state[p] as int) as usize)
}

/// The entries of the drawn facelets among the first `n`, in index order.
pub open spec fn entries(v: SimView, b: int, s: int, n: nat) -> Seq<Entry>
    decreases n,
{
    if n == 0 {
        Seq::empty()
    } else {
        let prev = entries(v, b, s, (n - 1) as nat);
        if visible(v, b, s, n - 1) {
            prev.push(entry(v, b, s, n - 1))
        } else {
            prev
        }
    }
}

/// The drawing list seen along axis `b` from side `s`: the entries of all drawn facelets,
/// farthest first, as text.
pub open spec fn projection(v: SimView, b: int, s: int) -> Seq<char> {
    render(drawing_order(entries(v, b, s, LEN as nat)))
}

/// The point `step / ANIMATION_FRAMES` of the way from `a` to `b`.
pub fn blend_point(a: &[isize; 4], b: &[isize; 4], step: isize) -> (r: [isize; 4])
    requires
        in_box(pt(*a)),
        in_box(pt(*b)),
        0 <= step < ANIMATION_FRAMES,
    ensures
        pt(r) == (
            between(a[0] as int, b[0] as int, step as int),
            between(a[1] as int, b[1] as int, step as int),
            between(a[2] as int, b[2] as int, step as int),
            between(a[3] as int, b[3] as int, step as int),
        ),
        in_box(pt(r)),
{
    [
        blend(a[0], b[0], step),
        blend(a[1], b[1], step),
        blend(a[2], b[2], step),
        blend(a[3], b[3], step),
    ]
}

/// Every facelet lies within the faces.
pub proof fn lemma_point_in_box(i: int)
    ensures
        in_box(point(i)),
        forall|d: int| -SPAN <= #[trigger] coord(i, d) <= SPAN,
{
    assert forall|d: int| -SPAN <= #[trigger] coord(i, d) <= SPAN by {
    }
}

/// Moves `step` thirtieths of the way from `a` to `b`, rounding toward zero.
pub fn blend(a: isize, b: isize, step: isize) -> (r: isize)
    requires
        -SPAN <= a <= SPAN,
        -SPAN <= b <= SPAN,
        0 <= step < ANIMATION_FRAMES,
    ensures
        r as int == between(a as int, b as int, step as int),
        -SPAN <= r <= SPAN,
{
    let frames = ANIMATION_FRAMES as isize;
    assert(-6000 <= (30 - step) * a <= 6000 && -6000 <= step * b <= 6000
        && -6000 <= (30 - step) * a + step * b <= 6000) by (nonlinear_arith)
        requires
            -200 <= a <= 200,
            -200 <= b <= 200,
            0 <= step < 30,
    ;
    ((frames - step) * a + step * b) / frames
}

} // verus!
