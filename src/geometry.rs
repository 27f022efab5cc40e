use vstd::prelude::*;

verus! {

/// Number of axes of the puzzle's space.
pub const DIMENSIONS: usize = 4;

/// Number of facelets on one face of the hypercube.
pub const LEN_FACE: usize = 64;

/// Number of facelets on the whole boundary of the hypercube.
pub const LEN: usize = 512;

/// Distance of a face from the centre, along its own axis.
pub const SPAN: isize = 200;

/// Coordinate of the inner layers.
pub const OFFSET_SMALL: isize = 15;

/// Coordinate of the outer layers.
pub const OFFSET_LARGE: isize = 45;

/// A point of 4-dimensional integer space.
pub type Point = (int, int, int, int);

/// Coordinate `d` of a point.
pub open spec fn at(q: Point, d: int) -> int {
    if d == 0 {
        q.0
    } else if d == 1 {
        q.1
    } else if d == 2 {
        q.2
    } else {
        q.3
    }
}

/// The layer values, in increasing order.
pub open spec fn edge(e: int) -> int {
    if e == 0 {
        -OFFSET_LARGE as int
    } else if e == 1 {
        -OFFSET_SMALL as int
    } else if e == 2 {
        OFFSET_SMALL as int
    } else {
        OFFSET_LARGE as int
    }
}

pub open spec fn is_edge(v: int) -> bool {
    v == -OFFSET_LARGE || v == -OFFSET_SMALL || v == OFFSET_SMALL || v == OFFSET_LARGE
}

/// Position of a layer value in the ordered layer values.
pub open spec fn edge_index(v: int) -> int {
    if v == -OFFSET_LARGE {
        0
    } else if v == -OFFSET_SMALL {
        1
    } else if v == OFFSET_SMALL {
        2
    } else {
        3
    }
}

/// Coordinate `d` of facelet `i`. Facelets come face by face: axis `i / 128` carries the
/// face, at `-SPAN` for the first half of the block and `+SPAN` for the second, and the
/// following axes (cyclically) carry the layer values of the base-4 digits of `i % 64`.
pub open spec fn coord(i: int, d: int) -> int {
    let f = i / 128;
    let r = (d - f + 4) % 4;
    if r == 0 {
        if (i / 64) % 2 == 0 { -SPAN as int } else { SPAN as int }
    } else if r == 1 {
        edge((i / 16) % 4)
    } else if r == 2 {
        edge((i / 4) % 4)
    } else {
        edge(i % 4)
    }
}

/// The position of facelet `i`.
pub open spec fn point(i: int) -> Point {
    (coord(i, 0), coord(i, 1), coord(i, 2), coord(i, 3))
}

/// Home face of facelet `i`.
pub open spec fn home_face(i: int) -> int {
    i / LEN_FACE as int
}

/// The first axis whose coordinate lies on a face.
pub open spec fn face_axis(q: Point) -> int {
    if q.0 == SPAN || q.0 == -SPAN {
        0
    } else if q.1 == SPAN || q.1 == -SPAN {
        1
    } else if q.2 == SPAN || q.2 == -SPAN {
        2
    } else {
        3
    }
}

/// A point on the boundary of the hypercube where a facelet may sit: one coordinate on a
/// face, the three others layer values.
pub open spec fn is_facelet(q: Point) -> bool {
    let f = face_axis(q);
    &&& (at(q, f) == SPAN || at(q, f) == -SPAN)
    &&& is_edge(at(q, (f + 1) % 4))
    &&& is_edge(at(q, (f + 2) % 4))
    &&& is_edge(at(q, (f + 3) % 4))
}

/// Index of the facelet at a position.
pub open spec fn index_of(q: Point) -> int {
    let f = face_axis(q);
    f * 128 + (if at(q, f) > 0 { 64int } else { 0int }) + edge_index(at(q, (f + 1) % 4)) * 16
        + edge_index(at(q, (f + 2) % 4)) * 4 + edge_index(at(q, (f + 3) % 4))
}

/// Coordinate `d` after a quarter turn in the plane of axes `b` and `c`.
pub open spec fn rot_at(q: Point, b: int, c: int, d: int) -> int {
    if d == c {
        at(q, b)
    } else if d == b {
        -at(q, c)
    } else {
        at(q, d)
    }
}

/// A quarter turn in the plane of axes `b` and `c`: `b` goes to `c`, `c` to `-b`.
pub open spec fn rot(q: Point, b: int, c: int) -> Point {
    (rot_at(q, b, c, 0), rot_at(q, b, c, 1), rot_at(q, b, c, 2), rot_at(q, b, c, 3))
}

/// Splits a facelet index into its face axis, side and three layer digits.
proof fn lemma_digits(i: int)
    requires
        0 <= i < LEN,
    ensures
        0 <= i / 128 < 4,
        i == (i / 128) * 128 + ((i / 64) % 2) * 64 + ((i / 16) % 4) * 16 + ((i / 4) % 4) * 4 + i % 4,
{
    let u = i as u64;
    assert(u < 512 ==> u == (u / 128) * 128 + ((u / 64) % 2) * 64 + ((u / 16) % 4) * 16 + ((u / 4)
        % 4) * 4 + u % 4) by (bit_vector);
}

/// Every facelet lies on the boundary, and its position gives its index back.
pub proof fn lemma_index_of_point(i: int)
    requires
        0 <= i < LEN,
    ensures
        is_facelet(point(i)),
        index_of(point(i)) == i,
{
    lemma_digits(i);
}

/// No two facelets share a position.
pub proof fn lemma_points_distinct(i: int, j: int)
    requires
        0 <= i < LEN,
        0 <= j < LEN,
        i != j,
    ensures
        point(i) != point(j),
{
    lemma_index_of_point(i);
    lemma_index_of_point(j);
}

/// Every point where a facelet may sit is the position of the facelet that `index_of` names.
pub proof fn lemma_point_of_index(q: Point)
    requires
        is_facelet(q),
    ensures
        0 <= index_of(q) < LEN,
        point(index_of(q)) == q,
{
    let f = face_axis(q);
    let s: int = if at(q, f) > 0 { 1 } else { 0 };
    let e0 = edge_index(at(q, (f + 1) % 4));
    let e1 = edge_index(at(q, (f + 2) % 4));
    let e2 = edge_index(at(q, (f + 3) % 4));
    let i = index_of(q);
    assert(i == f * 128 + s * 64 + e0 * 16 + e1 * 4 + e2);
    assert(i / 128 == f);
    assert((i / 64) % 2 == s);
    assert((i / 16) % 4 == e0);
    assert((i / 4) % 4 == e1);
    assert(i % 4 == e2);
}

/// Two distinct axes.
pub open spec fn is_plane(b: int, c: int) -> bool {
    0 <= b < 4 && 0 <= c < 4 && b != c
}

/// A quarter turn takes a point where a facelet may sit to another such point.
pub proof fn lemma_rot_facelet(q: Point, b: int, c: int)
    requires
        is_facelet(q),
        is_plane(b, c),
    ensures
        is_facelet(rot(q, b, c)),
{
}

/// Turning back in the same plane undoes a quarter turn.
pub proof fn lemma_rot_back(q: Point, b: int, c: int)
    requires
        is_plane(b, c),
    ensures
        rot(rot(q, b, c), c, b) == q,
{
}

/// Four quarter turns in one plane are the identity.
pub proof fn lemma_rot_four(q: Point, b: int, c: int)
    requires
        is_plane(b, c),
    ensures
        rot(rot(rot(rot(q, b, c), b, c), b, c), b, c) == q,
{
}

/// The point that a coordinate array holds.
pub open spec fn pt(q: [isize; 4]) -> Point {
    (q[0] as int, q[1] as int, q[2] as int, q[3] as int)
}

/// The layer value of digit `e`.
fn edge_value(e: usize) -> (r: isize)
    requires
        e < 4,
    ensures
        r as int == edge(e as int),
{
    if e == 0 {
        -OFFSET_LARGE
    } else if e == 1 {
        -OFFSET_SMALL
    } else if e == 2 {
        OFFSET_SMALL
    } else {
        OFFSET_LARGE
    }
}

/// Coordinate `d` of facelet `i`.
fn coordinate(i: usize, d: usize) -> (r: isize)
    requires
        i < LEN,
        d < DIMENSIONS,
    ensures
        r as int == coord(i as int, d as int),
{
    let f = i / 128;
    let r = (d + 4 - f) % 4;
    if r == 0 {
        if (i / 64) % 2 == 0 { -SPAN } else { SPAN }
    } else if r == 1 {
        edge_value((i / 16) % 4)
    } else if r == 2 {
        edge_value((i / 4) % 4)
    } else {
        edge_value(i % 4)
    }
}

/// The position of facelet `i`.
pub fn facelet(i: usize) -> (r: [isize; 4])
    requires
        i < LEN,
    ensures
        pt(r) == point(i as int),
{
    [coordinate(i, 0), coordinate(i, 1), coordinate(i, 2), coordinate(i, 3)]
}

/// All facelet positions, face by face: the position of facelet `i` stands at `i`.
pub fn generate() -> (r: Vec<[isize; 4]>)
    ensures
        r@.len() == LEN,
        forall|i: int| 0 <= i < LEN ==> pt(#[trigger] r@[i]) == point(i),
{
    let mut points: Vec<[isize; 4]> = Vec::new();
    let mut i: usize = 0;
    while i < LEN
        invariant
            i <= LEN,
            points@.len() == i,
            forall|j: int| 0 <= j < i ==> pt(#[trigger] points@[j]) == point(j),
        decreases LEN - i,
    {
        points.push(facelet(i));
        i += 1;
    }
    points
}

fn layer_digit(v: isize) -> (r: usize)
    ensures
        r as int == edge_index(v as int),
{
    if v == -OFFSET_LARGE {
        0
    } else if v == -OFFSET_SMALL {
        1
    } else if v == OFFSET_SMALL {
        2
    } else {
        3
    }
}

/// The index of the facelet at a position.
pub fn locate(q: &[isize; 4]) -> (r: usize)
    requires
        is_facelet(pt(*q)),
    ensures
        r as int == index_of(pt(*q)),
        r < LEN,
        point(r as int) == pt(*q),
{
    proof {
        lemma_point_of_index(pt(*q));
    }
    let f: usize = if q[0] == SPAN || q[0] == -SPAN {
        0
    } else if q[1] == SPAN || q[1] == -SPAN {
        1
    } else if q[2] == SPAN || q[2] == -SPAN {
        2
    } else {
        3
    };
    let side: usize = if q[f] > 0 { 64 } else { 0 };
    f * 128 + side + layer_digit(q[(f + 1) % 4]) * 16 + layer_digit(q[(f + 2) % 4]) * 4
        + layer_digit(q[(f + 3) % 4])
}

/// A quarter turn of a position in the plane of axes `b` and `c`.
pub fn rotate(q: &[isize; 4], b: usize, c: usize) -> (r: [isize; 4])
    requires
        is_plane(b as int, c as int),
        is_facelet(pt(*q)),
    ensures
        pt(r) == rot(pt(*q), b as int, c as int),
{
    let mut r = *q;
    r[c] = q[b];
    r[b] = -q[c];
    r
}

} // verus!
