use vstd::prelude::*;
use vstd::relations::{sorted_by, total_ordering};
use vstd::string::*;
use crate::geometry::{at, pt, Point, SPAN};

verus! {

broadcast use vstd::seq_lib::to_multiset_update, vstd::multiset::group_multiset_axioms;

/// Base size of a facelet's drawn circle.
pub const RADIUS: isize = 7;

/// Distance along the depth axis of the eye that sizes the circles.
pub const FOCUS: isize = 1600;

/// Division that rounds toward zero, as machine division does.
pub open spec fn tdiv(x: int, y: int) -> int {
    if x >= 0 {
        x / y
    } else {
        -((-x) / y)
    }
}

/// A drawing entry: depth, screen y, screen x and face colour.
pub type Entry = (isize, isize, isize, usize);

/// Perspective, then two fixed turns by the angle whose cosine is 4/5: the depth, the screen
/// y and the screen x of a point seen along axis `b` from side `s`.
pub open spec fn screen(q: Point, b: int, s: int) -> (int, int, int) {
    let den = SPAN - s * at(q, b);
    let x = tdiv(SPAN * at(q, (b + 1) % 4), den);
    let y = tdiv(SPAN * at(q, (b + 2) % 4), den);
    let z = tdiv(SPAN * at(q, (b + 3) % 4), den);
    let xr0 = tdiv(4 * x - 3 * z, 5);
    let zr0 = tdiv(3 * x + 4 * z, 5);
    let zr1 = tdiv(4 * zr0 - 3 * y, 5);
    let yr1 = tdiv(3 * zr0 + 4 * y, 5);
    (zr1, yr1, xr0)
}

/// Every coordinate of a point lies within the faces.
pub open spec fn in_box(q: Point) -> bool {
    &&& -SPAN <= q.0 <= SPAN
    &&& -SPAN <= q.1 <= SPAN
    &&& -SPAN <= q.2 <= SPAN
    &&& -SPAN <= q.3 <= SPAN
}

/// A viewing axis and a viewing side.
pub open spec fn view_ok(b: int, s: int) -> bool {
    0 <= b < 4 && (s == 1 || s == -1)
}

/// Lexicographic order of entries: by depth, then y, then x, then colour.
pub open spec fn entry_leq(e: Entry, f: Entry) -> bool {
    e.0 < f.0 || (e.0 == f.0 && (e.1 < f.1 || (e.1 == f.1 && (e.2 < f.2 || (e.2 == f.2 && e.3
        <= f.3)))))
}

/// The circle size of an entry at depth `z`.
pub open spec fn radius(z: int) -> int {
    let d = FOCUS - z;
    tdiv(FOCUS * RADIUS, if d < 0 { -d } else { d })
}

/// Text of one decimal digit.
pub open spec fn digit_text(d: int) -> Seq<char> {
    if d == 0 {
        "0"@
    } else if d == 1 {
        "1"@
    } else if d == 2 {
        "2"@
    } else if d == 3 {
        "3"@
    } else if d == 4 {
        "4"@
    } else if d == 5 {
        "5"@
    } else if d == 6 {
        "6"@
    } else if d == 7 {
        "7"@
    } else if d == 8 {
        "8"@
    } else {
        "9"@
    }
}

/// Decimal digits of a natural number, most significant first, without leading zeros.
pub open spec fn digits(n: nat) -> Seq<char>
    decreases n,
{
    if n < 10 {
        digit_text(n as int)
    } else {
        digits(n / 10) + digit_text((n % 10) as int)
    }
}

/// Decimal text of an integer, with a minus sign when negative.
pub open spec fn decimal(n: int) -> Seq<char> {
    if n < 0 {
        "-"@ + digits((-n) as nat)
    } else {
        digits(n as nat)
    }
}

/// Name of a face colour.
pub open spec fn color_name(c: int) -> Seq<char> {
    if c == 0 {
        "RED"@
    } else if c == 1 {
        "GREEN"@
    } else if c == 2 {
        "BLUE"@
    } else if c == 3 {
        "CYAN"@
    } else if c == 4 {
        "MAGENTA"@
    } else if c == 5 {
        "YELLOW"@
    } else if c == 6 {
        "WHITE"@
    } else {
        "PURPLE"@
    }
}

/// Text of one entry: `x,y,radius,COLOUR`.
pub open spec fn entry_text(e: Entry) -> Seq<char> {
    decimal(e.2 as int) + ","@ + decimal(e.1 as int) + ","@ + decimal(radius(e.0 as int)) + ","@
        + color_name(e.3 as int)
}

/// Texts of the entries, joined by `|`.
pub open spec fn render(es: Seq<Entry>) -> Seq<char>
    decreases es.len(),
{
    if es.len() == 0 {
        Seq::empty()
    } else if es.len() == 1 {
        entry_text(es[0])
    } else {
        render(es.drop_last()) + "|"@ + entry_text(es.last())
    }
}

/// The drawing order of entries: sorted, farthest first.
pub open spec fn drawing_order(es: Seq<Entry>) -> Seq<Entry> {
    es.sort_by(|e: Entry, f: Entry| entry_leq(e, f))
}

/// Rounding toward zero never grows a value when the divisor is at least 1.
proof fn lemma_tdiv_bound(x: int, y: int)
    requires
        y >= 1,
    ensures
        -(if x < 0 { -x } else { x }) <= tdiv(x, y) <= (if x < 0 { -x } else { x }),
{
    if x >= 0 {
        assert(x / y <= x) by (nonlinear_arith)
            requires
                x >= 0,
                y >= 1,
        ;
        assert(x / y >= 0) by (nonlinear_arith)
            requires
                x >= 0,
                y >= 1,
        ;
    } else {
        assert((-x) / y <= -x) by (nonlinear_arith)
            requires
                -x >= 0,
                y >= 1,
        ;
        assert((-x) / y >= 0) by (nonlinear_arith)
            requires
                -x >= 0,
                y >= 1,
        ;
    }
}

/// Bound on the magnitude of all screen values.
pub const SCREEN_BOUND: isize = 100000;

/// Perspective divide of a coordinate by the distance `den` from the eye.
fn perspective(v: isize, den: isize) -> (r: isize)
    requires
        -SPAN <= v <= SPAN,
        1 <= den,
    ensures
        r as int == tdiv(SPAN * v, den as int),
        -40000 <= r <= 40000,
{
    proof {
        lemma_tdiv_bound(SPAN * v, den as int);
    }
    (SPAN * v) / den
}

/// A fixed turn by the angle whose cosine is 4/5.
fn turn(x: isize, z: isize) -> (r: (isize, isize))
    requires
        -56000 <= x <= 56000,
        -56000 <= z <= 56000,
    ensures
        r.0 as int == tdiv(4 * x - 3 * z, 5),
        r.1 as int == tdiv(3 * x + 4 * z, 5),
        -78400 <= r.0 <= 78400,
        -78400 <= r.1 <= 78400,
{
    ((4 * x - 3 * z) / 5, (3 * x + 4 * z) / 5)
}

/// The depth, screen y and screen x of a point inside the faces, seen along axis `b` from
/// side `s`, where the point is on the viewer's side of the far face.
pub fn screen_of(q: &[isize; 4], b: usize, s: isize) -> (r: (isize, isize, isize))
    requires
        in_box(pt(*q)),
        view_ok(b as int, s as int),
        s * q[b as int] < SPAN,
    ensures
        (r.0 as int, r.1 as int, r.2 as int) == screen(pt(*q), b as int, s as int),
        -SCREEN_BOUND <= r.0 <= SCREEN_BOUND,
        -SCREEN_BOUND <= r.1 <= SCREEN_BOUND,
        -SCREEN_BOUND <= r.2 <= SCREEN_BOUND,
{
    let ghost g = pt(*q);
    assert(at(g, b as int) == q[b as int] as int);
    assert(at(g, ((b + 1) % 4) as int) == q[((b + 1) % 4) as int] as int);
    assert(at(g, ((b + 2) % 4) as int) == q[((b + 2) % 4) as int] as int);
    assert(at(g, ((b + 3) % 4) as int) == q[((b + 3) % 4) as int] as int);
    let depth = if s > 0 { q[b] } else { -q[b] };
    assert(depth == s * q[b as int]) by (nonlinear_arith)
        requires
            s == 1 || s == -1,
            depth == if s > 0 { q[b as int] as int } else { -q[b as int] },
    ;
    let den = SPAN - depth;
    let x = perspective(q[(b + 1) % 4], den);
    let y = perspective(q[(b + 2) % 4], den);
    let z = perspective(q[(b + 3) % 4], den);
    let (xr0, zr0) = turn(x, z);
    let (zr1, yr1) = turn(zr0, y);
    (zr1, yr1, xr0)
}

/// The circle size of an entry in front of the eye.
fn radius_of(z: isize) -> (r: isize)
    requires
        -SCREEN_BOUND <= z < FOCUS,
    ensures
        r as int == radius(z as int),
        0 <= r <= FOCUS * RADIUS,
{
    let d = FOCUS - z;
    proof {
        lemma_tdiv_bound(FOCUS * RADIUS, d as int);
    }
    (FOCUS * RADIUS) / d
}

fn digit_str(d: usize) -> (r: &'static str)
    requires
        d < 10,
    ensures
        r@ == digit_text(d as int),
{
    if d == 0 {
        "0"
    } else if d == 1 {
        "1"
    } else if d == 2 {
        "2"
    } else if d == 3 {
        "3"
    } else if d == 4 {
        "4"
    } else if d == 5 {
        "5"
    } else if d == 6 {
        "6"
    } else if d == 7 {
        "7"
    } else if d == 8 {
        "8"
    } else {
        "9"
    }
}

/// Appends the decimal digits of `n`.
fn push_digits(out: &mut String, n: usize)
    ensures
        final(out)@ == old(out)@ + digits(n as nat),
    decreases n,
{
    if n >= 10 {
        push_digits(out, n / 10);
    }
    out.append(digit_str(n % 10));
    assert(final(out)@ =~= old(out)@ + digits(n as nat));
}

/// Appends the decimal text of `n`.
pub fn push_decimal(out: &mut String, n: isize)
    requires
        -SCREEN_BOUND <= n <= SCREEN_BOUND,
    ensures
        final(out)@ == old(out)@ + decimal(n as int),
{
    if n < 0 {
        out.append("-");
        push_digits(out, (-n) as usize);
        assert(final(out)@ =~= old(out)@ + decimal(n as int));
    } else {
        push_digits(out, n as usize);
    }
}

fn color_str(c: usize) -> (r: &'static str)
    ensures
        r@ == color_name(c as int),
{
    if c == 0 {
        "RED"
    } else if c == 1 {
        "GREEN"
    } else if c == 2 {
        "BLUE"
    } else if c == 3 {
        "CYAN"
    } else if c == 4 {
        "MAGENTA"
    } else if c == 5 {
        "YELLOW"
    } else if c == 6 {
        "WHITE"
    } else {
        "PURPLE"
    }
}

/// An entry that a projection may hold: its values are bounded and it lies in front of
/// the eye.
pub open spec fn entry_ok(e: Entry) -> bool {
    &&& -SCREEN_BOUND <= e.0 < FOCUS
    &&& -SCREEN_BOUND <= e.1 <= SCREEN_BOUND
    &&& -SCREEN_BOUND <= e.2 <= SCREEN_BOUND
}

/// Appends the text of one entry.
fn push_entry(out: &mut String, e: Entry)
    requires
        entry_ok(e),
    ensures
        final(out)@ == old(out)@ + entry_text(e),
{
    push_decimal(out, e.2);
    out.append(",");
    push_decimal(out, e.1);
    out.append(",");
    push_decimal(out, radius_of(e.0));
    out.append(",");
    out.append(color_str(e.3));
    assert(final(out)@ =~= old(out)@ + entry_text(e));
}

/// The texts of the entries, joined by `|`.
pub fn render_entries(es: &Vec<Entry>) -> (r: String)
    requires
        forall|i: int| 0 <= i < es@.len() ==> entry_ok(#[trigger] es@[i]),
    ensures
        r@ == render(es@),
{
    let mut out = String::new();
    let mut i: usize = 0;
    while i < es.len()
        invariant
            i <= es@.len(),
            forall|i: int| 0 <= i < es@.len() ==> entry_ok(#[trigger] es@[i]),
            out@ == render(es@.take(i as int)),
        decreases es@.len() - i,
    {
        let ghost before = out@;
        if i > 0 {
            out.append("|");
        }
        push_entry(&mut out, es[i]);
        assert(es@.take(i + 1).drop_last() =~= es@.take(i as int));
        i += 1;
    }
    assert(es@.take(es@.len() as int) =~= es@);
    out
}

fn entry_le(e: &Entry, f: &Entry) -> (r: bool)
    ensures
        r == entry_leq(*e, *f),
{
    e.0 < f.0 || (e.0 == f.0 && (e.1 < f.1 || (e.1 == f.1 && (e.2 < f.2 || (e.2 == f.2 && e.3
        <= f.3)))))
}

/// The order of entries is total.
pub proof fn lemma_entry_order_total()
    ensures
        total_ordering(|e: Entry, f: Entry| entry_leq(e, f)),
{
}

/// Exchanging two elements keeps the multiset of a sequence.
proof fn lemma_swap_multiset(s: Seq<Entry>, i: int, j: int)
    requires
        0 <= i < s.len(),
        0 <= j < s.len(),
        i != j,
    ensures
        s.update(i, s[j]).update(j, s[i]).to_multiset() == s.to_multiset(),
{
    let s1 = s.update(i, s[j]);
    vstd::seq_lib::to_multiset_update(s, i, s[j]);
    vstd::seq_lib::to_multiset_update(s1, j, s[i]);
    vstd::seq_lib::to_multiset_contains(s, s[i]);
    assert(s.update(i, s[j]).update(j, s[i]).to_multiset() =~= s.to_multiset());
}

/// Sorts entries into drawing order.
pub fn sort_entries(v: &mut Vec<Entry>)
    requires
        forall|i: int| 0 <= i < old(v)@.len() ==> entry_ok(#[trigger] old(v)@[i]),
    ensures
        final(v)@ == drawing_order(old(v)@),
        forall|i: int| 0 <= i < final(v)@.len() ==> entry_ok(#[trigger] final(v)@[i]),
{
    let ghost leq = |e: Entry, f: Entry| entry_leq(e, f);
    let n = v.len();
    let mut i: usize = 0;
    while i < n
        invariant
            n == v@.len(),
            i <= n,
            v@.to_multiset() == old(v)@.to_multiset(),
            forall|k: int| 0 <= k < n ==> entry_ok(#[trigger] v@[k]),
            forall|x: int, y: int| 0 <= x < y < i ==> entry_leq(#[trigger] v@[x], #[trigger] v@[y]),
        decreases n - i,
    {
        let mut j: usize = i;
        loop
            invariant
                n == v@.len(),
                j <= i < n,
                v@.to_multiset() == old(v)@.to_multiset(),
                forall|k: int| 0 <= k < n ==> entry_ok(#[trigger] v@[k]),
                forall|x: int, y: int|
                    0 <= x < y <= i && x != j && y != j ==> entry_leq(
                        #[trigger] v@[x],
                        #[trigger] v@[y],
                    ),
                forall|y: int| j < y <= i ==> entry_leq(v@[j as int], #[trigger] v@[y]),
            ensures
                j == 0 || entry_leq(v@[j - 1], v@[j as int]),
            decreases j,
        {
            if j == 0 || entry_le(&v[j - 1], &v[j]) {
                break;
            }
            let lo = v[j - 1];
            let hi = v[j];
            let ghost before = v@;
            v.set(j - 1, hi);
            v.set(j, lo);
            proof {
                lemma_swap_multiset(before, j - 1, j as int);
            }
            j -= 1;
        }
        assert forall|x: int, y: int| 0 <= x < y < i + 1 implies entry_leq(
            #[trigger] v@[x],
            #[trigger] v@[y],
        ) by {
            if y == j && x < j - 1 {
                assert(entry_leq(v@[x], v@[j - 1]));
            }
        }
        i += 1;
    }
    proof {
        lemma_entry_order_total();
        old(v)@.lemma_sort_by_ensures(leq);
        vstd::seq_lib::lemma_sorted_unique(v@, old(v)@.sort_by(leq), leq);
    }
}

} // verus!
