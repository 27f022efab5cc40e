use std::collections::VecDeque;
use vstd::prelude::*;
use vstd::string::*;
use crate::action::{
    build_table, known_key, lemma_perm_bijective, lemma_perm_four, lemma_perm_inverse,
    lemma_perm_point, perm, points_wf, slot, slot_of, table_wf, valid, valid_key,
};
use crate::display::{
    blend_point, entries, entry, lemma_point_in_box, projection, shown, shown_point, visible,
};
use crate::geometry::{generate, pt, LEN, LEN_FACE, SPAN};
use crate::projection::{
    entry_ok, in_box, render_entries, screen_of, sort_entries, view_ok, Entry, FOCUS,
};

verus! {

/// Number of ticks that a move takes to commit.
pub const ANIMATION_FRAMES: usize = 30;

/// The puzzle state after the action of `key`: the colour at facelet `i` moves to the
/// facelet that the action takes `i` to, so position `j` shows what stood where the turn
/// back takes `j`. A key that names no action leaves the state as it is.
pub open spec fn applied(s: Seq<usize>, key: [usize; 4]) -> Seq<usize> {
    if valid_key(key) {
        Seq::new(
            s.len(),
            |j: int| s[perm(key[0] as int, key[1] as int, key[3] as int, key[2] as int, j)],
        )
    } else {
        s
    }
}

/// The puzzle state in which every facelet shows its own home colour.
pub open spec fn identity_state() -> Seq<usize> {
    Seq::new(LEN as nat, |i: int| i as usize)
}

/// A puzzle state: one colour, a facelet index, for each facelet, and no colour twice.
pub open spec fn state_wf(s: Seq<usize>) -> bool {
    &&& s.len() == LEN
    &&& forall|i: int| 0 <= i < LEN ==> #[trigger] s[i] < LEN
    &&& forall|i: int, j: int|
        0 <= i < LEN && 0 <= j < LEN && i != j ==> #[trigger] s[i] != #[trigger] s[j]
}

/// The counter stays below the cycle length, and at 0 whenever no move waits.
pub open spec fn sim_wf(v: SimView) -> bool {
    &&& state_wf(v.state)
    &&& v.step < ANIMATION_FRAMES
    &&& v.pending.len() == 0 ==> v.step == 0
}

/// Axis named by a letter of a move token, either case.
pub open spec fn axis_of(ch: char) -> Option<usize> {
    if ch == 'w' || ch == 'W' {
        Some(0)
    } else if ch == 'x' || ch == 'X' {
        Some(1)
    } else if ch == 'y' || ch == 'Y' {
        Some(2)
    } else if ch == 'z' || ch == 'Z' {
        Some(3)
    } else {
        None
    }
}

/// Shell and sign flags named by the first character of a move token.
pub open spec fn flags_of(ch: char) -> Option<usize> {
    if ch == '0' {
        Some(0)
    } else if ch == '1' {
        Some(1)
    } else if ch == '2' {
        Some(2)
    } else if ch == '3' {
        Some(3)
    } else {
        None
    }
}

/// A well-formed move token: four characters, a flag digit from 0 to 3 and three axis
/// letters.
pub open spec fn well_formed(t: Seq<char>) -> bool {
    &&& t.len() == 4
    &&& flags_of(t[0]) is Some
    &&& axis_of(t[1]) is Some
    &&& axis_of(t[2]) is Some
    &&& axis_of(t[3]) is Some
}

/// The key that a move token names, or nothing for a token that is not well formed.
pub open spec fn parsed(t: Seq<char>) -> Option<[usize; 4]> {
    if well_formed(t) {
        Some([flags_of(t[0])->0, axis_of(t[1])->0, axis_of(t[2])->0, axis_of(t[3])->0])
    } else {
        None
    }
}

fn flags_digit(ch: char) -> (r: Option<usize>)
    ensures
        r == flags_of(ch),
{
    if ch == '0' {
        Some(0)
    } else if ch == '1' {
        Some(1)
    } else if ch == '2' {
        Some(2)
    } else if ch == '3' {
        Some(3)
    } else {
        None
    }
}

fn axis_letter(ch: char) -> (r: Option<usize>)
    ensures
        r == axis_of(ch),
{
    if ch == 'w' || ch == 'W' {
        Some(0)
    } else if ch == 'x' || ch == 'X' {
        Some(1)
    } else if ch == 'y' || ch == 'Y' {
        Some(2)
    } else if ch == 'z' || ch == 'Z' {
        Some(3)
    } else {
        None
    }
}

/// Reads a move token: a flag digit from 0 to 3, then three axis letters among w, x, y, z
/// in either case. Any other token is refused. The axes need not be distinct: such a key
/// names no action.
pub fn parse_move(token: &str) -> (r: Option<[usize; 4]>)
    ensures
        r == parsed(token@),
{
    if token.unicode_len() != 4 {
        return None;
    }
    let f = flags_digit(token.get_char(0));
    let a = axis_letter(token.get_char(1));
    let b = axis_letter(token.get_char(2));
    let c = axis_letter(token.get_char(3));
    match (f, a, b, c) {
        (Some(f), Some(a), Some(b), Some(c)) => Some([f, a, b, c]),
        _ => None,
    }
}

/// The simulator: facelet positions, action table, committed puzzle state, the moves
/// waiting to be committed, and the progress of the move in flight.
pub struct Tesseract {
    points: Vec<[isize; 4]>,
    state: Vec<usize>,
    actions: Vec<Vec<usize>>,
    pending_actions: VecDeque<[usize; 4]>,
    animation_step: usize,
}

/// What a simulator holds, as mathematics: the committed puzzle state, the moves waiting
/// to be committed (first in front), and the ticks spent so far on the move in flight.
pub struct SimView {
    pub state: Seq<usize>,
    pub pending: Seq<[usize; 4]>,
    pub step: nat,
}

/// One tick: nothing while no move waits; otherwise the counter advances, and when it
/// completes a cycle the front move leaves the queue and is committed.
pub open spec fn tick_spec(v: SimView) -> SimView {
    if v.pending.len() == 0 {
        v
    } else if v.step + 1 < ANIMATION_FRAMES {
        SimView { step: v.step + 1, ..v }
    } else {
        SimView { state: applied(v.state, v.pending[0]), pending: v.pending.drop_first(), step: 0 }
    }
}

/// `n` ticks in a row.
pub open spec fn ticks(v: SimView, n: nat) -> SimView
    decreases n,
{
    if n == 0 {
        v
    } else {
        ticks(tick_spec(v), (n - 1) as nat)
    }
}

/// A move token given as input: a well-formed token joins the back of the queue, any
/// other token changes nothing.
pub open spec fn input_spec(v: SimView, t: Seq<char>) -> SimView {
    match parsed(t) {
        Some(key) => SimView { pending: v.pending.push(key), ..v },
        None => v,
    }
}

/// The key of the turn back: the same layer, the plane's axes swapped.
pub open spec fn inverse_key(key: [usize; 4]) -> [usize; 4] {
    [key[0], key[1], key[3], key[2]]
}

/// Applying an action and then the turn back gives the puzzle state as it was.
pub proof fn lemma_apply_inverse(s: Seq<usize>, key: [usize; 4])
    requires
        s.len() == LEN,
        valid_key(key),
    ensures
        applied(applied(s, key), inverse_key(key)) == s,
{
    let (k, a, b, c) = (key[0] as int, key[1] as int, key[2] as int, key[3] as int);
    let t = applied(s, key);
    assert forall|j: int| 0 <= j < LEN implies #[trigger] applied(t, inverse_key(key))[j] == s[j] by {
        lemma_perm_point(k, a, b, c, j);
        lemma_perm_inverse(k, a, b, c, j);
    }
    assert(applied(t, inverse_key(key)) =~= s);
}

/// Applying the same action four times gives the puzzle state as it was.
pub proof fn lemma_apply_four(s: Seq<usize>, key: [usize; 4])
    requires
        s.len() == LEN,
        valid_key(key),
    ensures
        applied(applied(applied(applied(s, key), key), key), key) == s,
{
    let (k, a, b, c) = (key[0] as int, key[1] as int, key[2] as int, key[3] as int);
    let s1 = applied(s, key);
    let s2 = applied(s1, key);
    let s3 = applied(s2, key);
    let s4 = applied(s3, key);
    assert forall|j: int| 0 <= j < LEN implies #[trigger] s4[j] == s[j] by {
        let j1 = perm(k, a, c, b, j);
        let j2 = perm(k, a, c, b, j1);
        lemma_perm_point(k, a, c, b, j);
        lemma_perm_point(k, a, c, b, j1);
        lemma_perm_point(k, a, c, b, j2);
        lemma_perm_four(k, a, c, b, j);
    }
    assert(s4 =~= s);
}

/// While one move waits, each tick only advances the counter, short of a full cycle.
proof fn lemma_ticks_progress(v: SimView, n: nat)
    requires
        v.pending.len() == 1,
        v.step + n < ANIMATION_FRAMES,
    ensures
        ticks(v, n) == (SimView { step: v.step + n, ..v }),
    decreases n,
{
    if n > 0 {
        lemma_ticks_progress(tick_spec(v), (n - 1) as nat);
    }
}

/// `n + 1` ticks are `n` ticks followed by one more.
proof fn lemma_ticks_last(v: SimView, n: nat)
    ensures
        ticks(v, n + 1) == tick_spec(ticks(v, n)),
    decreases n,
{
    if n > 0 {
        lemma_ticks_last(tick_spec(v), (n - 1) as nat);
        assert(ticks(v, n) == ticks(tick_spec(v), (n - 1) as nat));
    } else {
        assert(ticks(tick_spec(v), 0) == tick_spec(v));
    }
}

/// From an idle simulator, a well-formed move token followed by `ANIMATION_FRAMES` ticks
/// leaves the simulator idle with the move committed, as if it had been applied at once.
pub proof fn lemma_animation_commits(v: SimView, t: Seq<char>)
    requires
        sim_wf(v),
        v.pending.len() == 0,
        well_formed(t),
    ensures
        ticks(input_spec(v, t), ANIMATION_FRAMES as nat) == (SimView {
            state: applied(v.state, parsed(t)->0),
            pending: Seq::empty(),
            step: 0,
        }),
{
    let w = input_spec(v, t);
    lemma_ticks_progress(w, (ANIMATION_FRAMES - 1) as nat);
    lemma_ticks_last(w, (ANIMATION_FRAMES - 1) as nat);
    assert(w.pending.drop_first() =~= Seq::<[usize; 4]>::empty());
}

impl View for Tesseract {
    type V = SimView;

    closed spec fn view(&self) -> SimView {
        SimView {
            state: self.state@,
            pending: self.pending_actions@,
            step: self.animation_step as nat,
        }
    }
}

impl Tesseract {
    /// The positions and actions are those of the hypercube, the state holds a colour for
    /// each facelet, and the counter stands at 0 whenever no move waits.
    pub closed spec fn wf(&self) -> bool {
        &&& points_wf(self.points@)
        &&& table_wf(self.actions@)
        &&& sim_wf(self@)
    }

    /// What a well-formed simulator holds is a well-formed view.
    pub proof fn lemma_view_wf(&self)
        requires
            self.wf(),
        ensures
            sim_wf(self@),
    {
    }

    /// A simulator with every facelet at home and no move waiting.
    pub fn new() -> (r: Tesseract)
        ensures
            r.wf(),
            r@ == (SimView { state: identity_state(), pending: Seq::empty(), step: 0 }),
    {
        let points = generate();
        let actions = build_table(&points);
        let mut state: Vec<usize> = Vec::new();
        let mut i: usize = 0;
        while i < LEN
            invariant
                i <= LEN,
                state@.len() == i,
                forall|j: int| 0 <= j < i ==> #[trigger] state@[j] == j as usize,
            decreases LEN - i,
        {
            state.push(i);
            i += 1;
        }
        assert(state@ =~= identity_state());
        Tesseract { points, state, actions, pending_actions: VecDeque::new(), animation_step: 0 }
    }

    /// Commits the action of `key` to the puzzle state; a key that names no action changes
    /// nothing.
    pub fn apply(&mut self, key: [usize; 4])
        requires
            old(self).wf(),
        ensures
            final(self).wf(),
            final(self)@ == (SimView { state: applied(old(self)@.state, key), ..old(self)@ }),
    {
        if known_key(&key) {
            let ghost k = key[0] as int;
            let ghost a = key[1] as int;
            let ghost b = key[2] as int;
            let ghost c = key[3] as int;
            let action = &self.actions[slot_of(&key)];
            assert(action@ == self.actions@[slot(k, a, b, c)]@);
            let mut state = self.state.clone();
            let mut i: usize = 0;
            while i < LEN
                invariant
                    valid(k, a, b, c),
                    i <= LEN,
                    action@.len() == LEN,
                    forall|m: int| 0 <= m < LEN ==> #[trigger] action@[m] == perm(k, a, b, c, m) as usize,
                    state_wf(self.state@),
                    state@.len() == LEN,
                    forall|j: int|
                        0 <= j < LEN ==> #[trigger] state@[j] == if perm(k, a, c, b, j) < i {
                            self.state@[perm(k, a, c, b, j)]
                        } else {
                            self.state@[j]
                        },
                decreases LEN - i,
            {
                proof {
                    lemma_perm_point(k, a, b, c, i as int);
                    lemma_perm_inverse(k, a, b, c, i as int);
                    assert forall|j: int| 0 <= j < LEN && perm(k, a, c, b, j) == i implies j
                        == perm(k, a, b, c, i as int) by {
                        lemma_perm_inverse(k, a, c, b, j);
                    }
                }
                let target = action[i];
                state.set(target, self.state[i]);
                i += 1;
            }
            proof {
                assert forall|j: int| 0 <= j < LEN implies perm(k, a, c, b, j) < LEN by {
                    lemma_perm_point(k, a, c, b, j);
                }
            }
            proof {
                lemma_perm_bijective(k, a, c, b);
            }
            self.state = state;
            assert(self.state@ =~= applied(old(self)@.state, key));
        }
    }

    /// Reads a move token and, where it is well formed, puts its key at the back of the
    /// queue. The puzzle state does not change.
    pub fn input(&mut self, s: String)
        requires
            old(self).wf(),
        ensures
            final(self).wf(),
            final(self)@ == input_spec(old(self)@, s@),
    {
        if let Some(key) = parse_move(s.as_str()) {
            self.pending_actions.push_back(key);
        }
    }

    /// Advances the animation by one frame.
    pub fn tick(&mut self)
        requires
            old(self).wf(),
        ensures
            final(self).wf(),
            final(self)@ == tick_spec(old(self)@),
    {
        if self.pending_actions.len() == 0 {
            return;
        }
        self.animation_step = (self.animation_step + 1) % ANIMATION_FRAMES;
        if self.animation_step != 0 {
            return;
        }
        if let Some(key) = self.pending_actions.pop_front() {
            self.apply(key);
        }
    }

    /// Solving is not offered: a fixed placeholder answer.
    pub fn solve(&self) -> (r: String)
        ensures
            r@ == "WIP"@,
    {
        String::from_str("WIP")
    }

    /// The displayed position of facelet `p`.
    fn shown_at(&self, p: usize) -> (r: [isize; 4])
        requires
            self.wf(),
            p < LEN,
        ensures
            pt(r) == shown_point(self@, p as int),
            in_box(pt(r)),
    {
        let here = self.points[p];
        proof {
            lemma_point_in_box(p as int);
        }
        if self.pending_actions.len() > 0 {
            let key = self.pending_actions[0];
            if known_key(&key) {
                let action = &self.actions[slot_of(&key)];
                let t = action[p];
                proof {
                    lemma_perm_point(key[0] as int, key[1] as int, key[2] as int, key[3] as int, p as int);
                    lemma_point_in_box(t as int);
                }
                let there = self.points[t];
                let step = self.animation_step as isize;
                return blend_point(&here, &there, step);
            }
        }
        here
    }

    /// The drawing entry of facelet `p`, where it is drawn.
    fn entry_at(&self, p: usize, b: usize, s: isize) -> (r: Option<Entry>)
        requires
            self.wf(),
            view_ok(b as int, s as int),
            p < LEN,
        ensures
            r == if visible(self@, b as int, s as int, p as int) {
                Some(entry(self@, b as int, s as int, p as int))
            } else {
                None::<Entry>
            },
            r is Some ==> entry_ok(r->0),
    {
        let q = self.shown_at(p);
        let depth = if s > 0 { q[b] } else { -q[b] };
        assert(depth == s * q[b as int]) by (nonlinear_arith)
            requires
                s == 1 || s == -1,
                depth == if s > 0 { q[b as int] as int } else { -q[b as int] },
        ;
        assert(q[b as int] == shown(self@, p as int, b as int));
        if depth < SPAN {
            let (z, y, x) = screen_of(&q, b, s);
            if z < FOCUS {
                return Some((z, y, x, self.state[p] / LEN_FACE));
            }
        }
        None
    }

    /// The drawing list seen along axis `b` from side `s`: for each drawn facelet,
    /// `x,y,radius,COLOUR`, farthest first, joined by `|`.
    pub fn project(&self, b: usize, s: isize) -> (r: String)
        requires
            self.wf(),
            view_ok(b as int, s as int),
        ensures
            r@ == projection(self@, b as int, s as int),
    {
        let mut es: Vec<Entry> = Vec::new();
        let mut p: usize = 0;
        while p < LEN
            invariant
                self.wf(),
                view_ok(b as int, s as int),
                p <= LEN,
                es@ == entries(self@, b as int, s as int, p as nat),
                forall|i: int| 0 <= i < es@.len() ==> entry_ok(#[trigger] es@[i]),
            decreases LEN - p,
        {
            if let Some(e) = self.entry_at(p, b, s) {
                es.push(e);
            }
            p += 1;
        }
        sort_entries(&mut es);
        render_entries(&es)
    }

    /// The committed puzzle state: for each facelet, the colour (a home facelet index) it
    /// shows.
    pub fn state(&self) -> (r: Vec<usize>)
        requires
            self.wf(),
        ensures
            r@ == self@.state,
    {
        self.state.clone()
    }

    /// Number of moves waiting to be committed.
    pub fn pending_len(&self) -> (r: usize)
        ensures
            r == self@.pending.len(),
    {
        self.pending_actions.len()
    }
}

} // verus!
