use vstd::prelude::*;

use crate::board::{can_advance, key_dir, move_head, moved, shifted, Dir, Key, Pos, STEP};
use crate::ticker::Ticker;
use vstd::math::min;

verus! {

/// The snake after one tick along `d`: the head moves one step, and every
/// other segment takes the place its leader held before the tick.
pub open spec fn step(segs: Seq<Pos>, d: Dir) -> Seq<Pos> {
    Seq::new(segs.len(), |i: int| if i == 0 { moved(segs[0], d) } else { segs[i - 1] })
}

/// The snake after `n` ticks along `d`.
pub open spec fn advance(segs: Seq<Pos>, d: Dir, n: nat) -> Seq<Pos>
    decreases n,
{
    if n == 0 {
        segs
    } else {
        step(advance(segs, d, (n - 1) as nat), d)
    }
}

/// The heading after the held keys are read: among the arrow keys held, the
/// last in the order Up, Down, Left, Right wins; with none held it stays `d`.
pub open spec fn steer(d: Dir, held: Seq<Key>) -> Dir {
    if held.contains(Key::Right) {
        Dir::Right
    } else if held.contains(Key::Left) {
        Dir::Left
    } else if held.contains(Key::Down) {
        Dir::Down
    } else if held.contains(Key::Up) {
        Dir::Up
    } else {
        d
    }
}

/// The keys the game polls, in the order it polls them.
pub open spec fn control_order() -> Seq<Key> {
    seq![Key::Up, Key::Down, Key::Left, Key::Right]
}

/// The heading after polling `keys` in order, each held one selecting its direction.
pub open spec fn poll(keys: Seq<Key>, held: Seq<Key>, d: Dir) -> Dir
    decreases keys.len(),
{
    if keys.len() == 0 {
        d
    } else {
        let before = poll(keys.drop_last(), held, d);
        if held.contains(keys.last()) {
            key_dir(keys.last(), before)
        } else {
            before
        }
    }
}

proof fn lemma_poll_controls(held: Seq<Key>, d: Dir)
    ensures
        poll(control_order(), held, d) == steer(d, held),
{
    let c = control_order();
    assert(c.drop_last() == seq![Key::Up, Key::Down, Key::Left]);
    assert(c.drop_last().drop_last() == seq![Key::Up, Key::Down]);
    assert(c.drop_last().drop_last().drop_last() == seq![Key::Up]);
    assert(c.drop_last().drop_last().drop_last().drop_last() == Seq::<Key>::empty());
    reveal_with_fuel(poll, 5);
}

/// Ticks preserve the length, and after `n` of them the head has moved `n` steps.
pub proof fn lemma_advance_head(segs: Seq<Pos>, d: Dir, n: nat)
    requires
        segs.len() >= 1,
        can_advance(segs[0], n),
    ensures
        advance(segs, d, n).len() == segs.len(),
        advance(segs, d, n)[0].x == shifted(segs[0], d, n as int).0,
        advance(segs, d, n)[0].y == shifted(segs[0], d, n as int).1,
    decreases n,
{
    if n > 0 {
        lemma_advance_head(segs, d, (n - 1) as nat);
    }
}

/// `after` is what one tick makes of `before` with `held` as the keys held:
/// the keys are read first, then the snake moves one step along the new heading.
pub open spec fn ticked(before: Game, after: Game, held: Seq<Key>) -> bool {
    &&& after.heading() == steer(before.heading(), held)
    &&& after.segments() == step(before.segments(), after.heading())
}

/// A tick's outcome depends on nothing but the state before it and the keys
/// held: two runs of ticks that start from equal states and hold the same keys
/// at each tick are in equal states after every tick.
pub proof fn lemma_ticks_deterministic(
    run1: Seq<Game>,
    run2: Seq<Game>,
    inputs: Seq<Seq<Key>>,
)
    requires
        run1.len() == inputs.len() + 1,
        run2.len() == inputs.len() + 1,
        run1[0].segments() == run2[0].segments(),
        run1[0].heading() == run2[0].heading(),
        forall|t: int| 0 <= t < inputs.len() ==> ticked(run1[t], #[trigger] run1[t + 1], inputs[t]),
        forall|t: int| 0 <= t < inputs.len() ==> ticked(run2[t], #[trigger] run2[t + 1], inputs[t]),
    ensures
        forall|t: int|
            0 <= t < run1.len() ==> #[trigger] run1[t].segments() == run2[t].segments()
                && run1[t].heading() == run2[t].heading(),
    decreases inputs.len(),
{
    if inputs.len() > 0 {
        let n = inputs.len() - 1;
        lemma_ticks_deterministic(run1.drop_last(), run2.drop_last(), inputs.drop_last());
        assert forall|t: int| 0 <= t < run1.len() implies #[trigger] run1[t].segments()
            == run2[t].segments() && run1[t].heading() == run2[t].heading() by {
            if t < run1.len() - 1 {
                assert(run1.drop_last()[t] == run1[t]);
                assert(run2.drop_last()[t] == run2[t]);
                assert(run1.drop_last()[t].segments() == run2.drop_last()[t].segments());
            } else {
                assert(run1.drop_last()[n] == run1[n]);
                assert(run2.drop_last()[n] == run2[n]);
                assert(run1.drop_last()[n].segments() == run2.drop_last()[n].segments());
                assert(ticked(run1[n], run1[n + 1], inputs[n]));
                assert(ticked(run2[n], run2[n + 1], inputs[n]));
            }
        }
    }
}

/// With heading right, a tick moves the head one step along x and leaves its y alone.
pub proof fn lemma_head_moves_right(segs: Seq<Pos>)
    requires
        segs.len() >= 1,
        can_advance(segs[0], 1),
    ensures
        step(segs, Dir::Right)[0].x == segs[0].x + STEP,
        step(segs, Dir::Right)[0].y == segs[0].y,
{
}

/// After a tick every segment behind the head stands where its leader stood
/// before the tick, not where the leader moved to.
pub proof fn lemma_chain_follows(segs: Seq<Pos>, d: Dir)
    ensures
        step(segs, d).len() == segs.len(),
        forall|i: int| 1 <= i < segs.len() ==> #[trigger] step(segs, d)[i] == segs[i - 1],
{
}

/// When no arrow key is held, reading the keys leaves the heading as it was.
pub proof fn lemma_no_arrow_keeps_heading(d: Dir, held: Seq<Key>)
    requires
        forall|i: int| 0 <= i < held.len() ==> #[trigger] held[i] == Key::Other,
    ensures
        steer(d, held) == d,
{
    assert(!held.contains(Key::Right)) by {
        if held.contains(Key::Right) {
            let i = choose|i: int| 0 <= i < held.len() && held[i] == Key::Right;
            assert(held[i] == Key::Other);
        }
    }
    assert(!held.contains(Key::Left)) by {
        if held.contains(Key::Left) {
            let i = choose|i: int| 0 <= i < held.len() && held[i] == Key::Left;
            assert(held[i] == Key::Other);
        }
    }
    assert(!held.contains(Key::Down)) by {
        if held.contains(Key::Down) {
            let i = choose|i: int| 0 <= i < held.len() && held[i] == Key::Down;
            assert(held[i] == Key::Other);
        }
    }
    assert(!held.contains(Key::Up)) by {
        if held.contains(Key::Up) {
            let i = choose|i: int| 0 <= i < held.len() && held[i] == Key::Up;
            assert(held[i] == Key::Other);
        }
    }
}

/// A key that is not an arrow key selects the heading already held.
pub proof fn lemma_other_key_keeps_heading(d: Dir)
    ensures
        key_dir(Key::Other, d) == d,
{
}

/// Running `n + 1` ticks is running `n` ticks and then one more single step:
/// the head moves exactly one step per tick, never a scaled jump.
pub proof fn lemma_ticks_are_single_steps(segs: Seq<Pos>, d: Dir, n: nat)
    requires
        segs.len() >= 1,
        can_advance(segs[0], n + 1),
    ensures
        advance(segs, d, n + 1) == step(advance(segs, d, n), d),
        advance(segs, d, n + 1)[0] == moved(advance(segs, d, n)[0], d),
        advance(segs, d, n + 1)[0].x == shifted(segs[0], d, n + 1 as int).0,
        advance(segs, d, n + 1)[0].y == shifted(segs[0], d, n + 1 as int).1,
{
    lemma_advance_head(segs, d, n + 1);
    lemma_advance_head(segs, d, n);
}

/// The game state: the snake's segments, head first, and its heading.
pub struct Game {
    snake_pos: Vec<Pos>,
    snake_dir: Dir,
    controls: Vec<Key>,
}

impl Dir {
    /// The heading that pressing `key` selects in `state`: an arrow key gives
    /// its own direction, any other key keeps the current heading.
    pub fn from_keycode(state: &Game, key: Key) -> (r: Dir)
        ensures
            r == key_dir(key, state.heading()),
    {
        match key {
            Key::Up => Dir::Up,
            Key::Down => Dir::Down,
            Key::Left => Dir::Left,
            Key::Right => Dir::Right,
            Key::Other => state.snake_dir,
        }
    }
}

fn is_held(held: &Vec<Key>, key: Key) -> (r: bool)
    ensures
        r == held@.contains(key),
{
    let mut i: usize = 0;
    while i < held.len()
        invariant
            0 <= i <= held.len(),
            forall|j: int| 0 <= j < i ==> held@[j] != key,
        decreases held.len() - i,
    {
        if held[i] == key {
            return true;
        }
        i += 1;
    }
    false
}

impl Game {
    /// The segments, head first.
    pub closed spec fn segments(&self) -> Seq<Pos> {
        self.snake_pos@
    }

    /// The current heading.
    pub closed spec fn heading(&self) -> Dir {
        self.snake_dir
    }

    /// The keys polled each tick, in order.
    pub closed spec fn controls(&self) -> Seq<Key> {
        self.controls@
    }

    /// A snake always has a head, and polls the four arrow keys in a fixed order.
    pub open spec fn wf(&self) -> bool {
        &&& self.segments().len() >= 1
        &&& self.controls() == control_order()
    }

    fn arrow_keys() -> (r: Vec<Key>)
        ensures
            r@ == control_order(),
    {
        let r = vec![Key::Up, Key::Down, Key::Left, Key::Right];
        assert(r@ == control_order());
        r
    }

    /// The starting state: a head at (0, 480) with one segment behind it at
    /// (0, -32), heading right.
    pub fn new() -> (r: Game)
        ensures
            r.wf(),
            r.segments() == seq![Pos { x: 0, y: 480 }, Pos { x: 0, y: -32i64 }],
            r.heading() == Dir::Right,
    {
        let snake_pos = vec![Pos { x: 0, y: 15 * 32 }, Pos { x: 0, y: -32i64 }];
        assert(snake_pos@ == seq![Pos { x: 0, y: 480 }, Pos { x: 0, y: -32i64 }]);
        Game { snake_pos, snake_dir: Dir::Right, controls: Self::arrow_keys() }
    }

    /// A snake with the given segments, head first, and heading; `None` when
    /// `segments` is empty.
    pub fn with_segments(segments: Vec<Pos>, heading: Dir) -> (r: Option<Game>)
        ensures
            segments@.len() == 0 <==> r is None,
            r matches Some(g) ==> g.wf() && g.segments() == segments@ && g.heading() == heading,
    {
        if segments.len() == 0 {
            None
        } else {
            Some(Game { snake_pos: segments, snake_dir: heading, controls: Self::arrow_keys() })
        }
    }

    /// A copy of the segments, head first, for drawing.
    pub fn current_segments(&self) -> (r: Vec<Pos>)
        ensures
            r@ == self.segments(),
    {
        let mut r: Vec<Pos> = Vec::new();
        let mut i: usize = 0;
        while i < self.snake_pos.len()
            invariant
                0 <= i <= self.snake_pos.len(),
                r@ == self.snake_pos@.take(i as int),
            decreases self.snake_pos.len() - i,
        {
            r.push(self.snake_pos[i]);
            i += 1;
            assert(r@ == self.snake_pos@.take(i as int));
        }
        assert(self.snake_pos@.take(i as int) == self.snake_pos@);
        r
    }

    /// The current heading.
    pub fn current_heading(&self) -> (r: Dir)
        ensures
            r == self.heading(),
    {
        self.snake_dir
    }

    /// Sets the heading to `requested`, whatever it was.
    pub fn apply_heading(&mut self, requested: Dir)
        requires
            old(self).wf(),
        ensures
            final(self).wf(),
            final(self).heading() == requested,
            final(self).segments() == old(self).segments(),
    {
        self.snake_dir = requested;
    }

    /// Reads the held keys: polls each control key in order, and each one that
    /// is held selects its direction.
    pub fn steer(&mut self, held: &Vec<Key>)
        requires
            old(self).wf(),
        ensures
            final(self).wf(),
            final(self).heading() == steer(old(self).heading(), held@),
            final(self).segments() == old(self).segments(),
    {
        let ghost d0 = self.snake_dir;
        let mut i: usize = 0;
        while i < self.controls.len()
            invariant
                0 <= i <= self.controls.len(),
                self.wf(),
                self.segments() == old(self).segments(),
                self.snake_dir == poll(self.controls@.take(i as int), held@, d0),
            decreases self.controls.len() - i,
        {
            let key = self.controls[i];
            if is_held(held, key) {
                self.snake_dir = Dir::from_keycode(self, key);
            }
            assert(self.controls@.take(i + 1).drop_last() == self.controls@.take(i as int));
            i += 1;
        }
        proof {
            assert(self.controls@.take(i as int) == control_order());
            lemma_poll_controls(held@, d0);
        }
    }

    /// Moves the snake one tick along its heading: the head moves one step,
    /// and each other segment takes its leader's place from before the tick.
    pub fn step_forward(&mut self)
        requires
            old(self).wf(),
            can_advance(old(self).segments()[0], 1),
        ensures
            final(self).wf(),
            final(self).heading() == old(self).heading(),
            final(self).segments() == step(old(self).segments(), old(self).heading()),
    {
        let ghost s0 = self.snake_pos@;
        let len = self.snake_pos.len();
        let mut old_pos: Pos = self.snake_pos[0];
        self.snake_pos.set(0, move_head(old_pos, self.snake_dir));
        let mut i: usize = 1;
        while i < len
            invariant
                1 <= i <= len,
                len == s0.len(),
                self.snake_pos@.len() == len,
                self.controls@ == control_order(),
                self.snake_dir == old(self).snake_dir,
                s0 == old(self).snake_pos@,
                old_pos == s0[i - 1],
                forall|j: int| 0 <= j < i ==> self.snake_pos@[j] == step(s0, self.snake_dir)[j],
                forall|j: int| i <= j < len ==> self.snake_pos@[j] == s0[j],
            decreases len - i,
        {
            let cur = self.snake_pos[i];
            self.snake_pos.set(i, old_pos);
            old_pos = cur;
            i += 1;
        }
        assert(self.snake_pos@ == step(s0, self.snake_dir));
    }

    /// One tick: reads the held keys, then moves the snake one step along the
    /// resulting heading.
    pub fn tick(&mut self, held: &Vec<Key>)
        requires
            old(self).wf(),
            can_advance(old(self).segments()[0], 1),
        ensures
            final(self).wf(),
            ticked(*old(self), *final(self), held@),
    {
        self.steer(held);
        self.step_forward();
    }

    /// Runs as many ticks as whole periods fit in the timer's budget, but no
    /// more than `max_steps`, consuming one period per tick, with `held` as the
    /// keys held throughout; returns the number of ticks run. Budget beyond the
    /// cap stays in the timer.
    pub fn update_at_most(&mut self, timer: &mut Ticker, held: &Vec<Key>, max_steps: u64) -> (steps: u64)
        requires
            old(self).wf(),
            old(timer).wf(),
            can_advance(
                old(self).segments()[0],
                min((old(timer).budget() / old(timer).tick_length()) as int, max_steps as int) as nat,
            ),
        ensures
            steps == min((old(timer).budget() / old(timer).tick_length()) as int, max_steps as int),
            final(timer).budget() == old(timer).budget() - steps * old(timer).tick_length(),
            final(timer).tick_length() == old(timer).tick_length(),
            final(self).wf(),
            final(self).heading() == if steps > 0 {
                steer(old(self).heading(), held@)
            } else {
                old(self).heading()
            },
            final(self).segments() == advance(
                old(self).segments(),
                steer(old(self).heading(), held@),
                steps as nat,
            ),
    {
        let ghost s0 = self.segments();
        let ghost d0 = self.heading();
        let ghost d1 = steer(d0, held@);
        let ghost b0 = timer.budget();
        let ghost per = timer.tick_length();
        let ghost n = min((b0 / per) as int, max_steps as int) as nat;
        let mut steps: u64 = 0;
        loop
            invariant
                self.wf(),
                timer.wf(),
                timer.tick_length() == per,
                per > 0,
                d1 == steer(d0, held@),
                s0.len() >= 1,
                n == min((b0 / per) as int, max_steps as int),
                can_advance(s0[0], n),
                steps <= n,
                b0 == timer.budget() + steps * per,
                self.segments() == advance(s0, d1, steps as nat),
                self.heading() == if steps > 0 { d1 } else { d0 },
            ensures
                b0 == timer.budget() + steps * per,
                steps == max_steps || timer.budget() < per,
                steps <= n,
                timer.tick_length() == per,
                self.wf(),
                self.segments() == advance(s0, d1, steps as nat),
                self.heading() == if steps > 0 { d1 } else { d0 },
            decreases timer.budget(),
        {
            if steps == max_steps {
                break;
            }
            if !timer.check_update_time() {
                break;
            }
            proof {
                let k = steps as int;
                assert((k + 1) * per == k * per + per) by (nonlinear_arith);
                vstd::arithmetic::div_mod::lemma_div_multiples_vanish(k + 1, per as int);
                assert(per * (k + 1) == (k + 1) * per) by (nonlinear_arith);
                vstd::arithmetic::div_mod::lemma_div_is_ordered((k + 1) * per, b0 as int, per as int);
                lemma_advance_head(s0, d1, steps as nat);
                assert(steer(d1, held@) == d1);
                assert(advance(s0, d1, (steps + 1) as nat) == step(advance(s0, d1, steps as nat), d1));
            }
            self.tick(held);
            steps += 1;
        }
        proof {
            if steps < max_steps {
                vstd::arithmetic::div_mod::lemma_fundamental_div_mod_converse(
                    b0 as int,
                    per as int,
                    steps as int,
                    timer.budget() as int,
                );
            }
        }
        steps
    }

    /// Runs as many ticks as whole periods fit in the timer's budget,
    /// consuming one period per tick, with `held` as the keys held throughout;
    /// returns the number of ticks run.
    pub fn update(&mut self, timer: &mut Ticker, held: &Vec<Key>) -> (steps: u64)
        requires
            old(self).wf(),
            old(timer).wf(),
            can_advance(old(self).segments()[0], old(timer).budget() / old(timer).tick_length()),
        ensures
            steps == old(timer).budget() / old(timer).tick_length(),
            final(timer).budget() == old(timer).budget() % old(timer).tick_length(),
            final(timer).tick_length() == old(timer).tick_length(),
            final(self).wf(),
            final(self).heading() == if steps > 0 {
                steer(old(self).heading(), held@)
            } else {
                old(self).heading()
            },
            final(self).segments() == advance(
                old(self).segments(),
                steer(old(self).heading(), held@),
                steps as nat,
            ),
    {
        let ghost b0 = timer.budget();
        let ghost per = timer.tick_length();
        proof {
            vstd::arithmetic::div_mod::lemma_div_is_ordered_by_denominator(b0 as int, 1, per as int);
        }
        let steps = self.update_at_most(timer, held, u64::MAX);
        proof {
            vstd::arithmetic::div_mod::lemma_fundamental_div_mod(b0 as int, per as int);
            assert(per * (b0 / per) == steps * per) by (nonlinear_arith)
                requires
                    steps == b0 / per,
            ;
        }
        steps
    }
}

} // verus!
