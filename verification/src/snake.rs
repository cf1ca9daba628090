//! The snake simulation: movement on a wrapped grid, growth, self-collision
//! and food placement, composed into the `Game` type.

use vstd::prelude::*;
use crate::color::Color;
use crate::draw::{draw_rect_list, painted_at, Rect, Surface};

verus! {

// ---------------------------------------------------------------------------
// Direction
// ---------------------------------------------------------------------------

#[derive(Copy, Clone, Debug, PartialEq, Eq, Structural)]
pub enum Direction {
    Up,
    Right,
    Down,
    Left,
}

/// The fixed involution Up <-> Down, Left <-> Right.
pub open spec fn opposite_spec(d: Direction) -> Direction {
    match d {
        Direction::Up => Direction::Down,
        Direction::Right => Direction::Left,
        Direction::Down => Direction::Up,
        Direction::Left => Direction::Right,
    }
}

impl Direction {
    pub fn opposite(&self) -> (o: Direction)
        ensures
            o == opposite_spec(*self),
    {
        match self {
            Direction::Up => Direction::Down,
            Direction::Right => Direction::Left,
            Direction::Down => Direction::Up,
            Direction::Left => Direction::Right,
        }
    }
}

// ---------------------------------------------------------------------------
// Position
// ---------------------------------------------------------------------------

/// A point in world-grid units (cells, not pixels).
#[derive(Copy, Clone, Debug, PartialEq, Eq, Structural)]
pub struct Position {
    pub x: isize,
    pub y: isize,
}

impl Position {
    /// Component-wise subtraction.
    pub fn minus(self, rhs: Position) -> (p: Position)
        requires
            isize::MIN <= self.x - rhs.x <= isize::MAX,
            isize::MIN <= self.y - rhs.y <= isize::MAX,
        ensures
            p.x == self.x - rhs.x,
            p.y == self.y - rhs.y,
    {
        Position { x: self.x - rhs.x, y: self.y - rhs.y }
    }
}

// ---------------------------------------------------------------------------
// World
// ---------------------------------------------------------------------------

/// Static grid configuration plus the current food cell.
#[derive(Clone, Debug)]
pub struct World {
    pub width: isize,
    pub height: isize,
    pub scale: isize,
    pub tick_delay: u32,
    pub food: Position,
}

impl World {
    /// A valid configuration: positive dimensions, a positive cell scale and
    /// tick delay, pixel coordinates that stay representable, and a food
    /// cell on the grid.
    pub open spec fn wf(self) -> bool {
        &&& 0 < self.width
        &&& 0 < self.height
        &&& 0 < self.scale
        &&& 0 < self.tick_delay
        &&& self.width * self.scale + self.scale <= isize::MAX
        &&& self.height * self.scale + self.scale <= isize::MAX
        &&& self.tick_delay * self.scale <= isize::MAX
        &&& 0 <= self.food.x < self.width
        &&& 0 <= self.food.y < self.height
    }
}

/// The keys held during one frame, as plain values.
#[derive(Copy, Clone, Debug, PartialEq, Eq, Structural)]
pub struct InputState {
    pub up: bool,
    pub down: bool,
    pub left: bool,
    pub right: bool,
}

impl InputState {
    /// No key held.
    pub fn none() -> (k: InputState)
        ensures
            k == (InputState { up: false, down: false, left: false, right: false }),
    {
        InputState { up: false, down: false, left: false, right: false }
    }
}

// ---------------------------------------------------------------------------
// Modular arithmetic helpers
// ---------------------------------------------------------------------------

/// Euclidean modulo: the representative of `l` modulo `r` in `[0, r)`.
pub fn emod(l: isize, r: isize) -> (m: isize)
    requires
        0 < r,
    ensures
        m == (l as int) % (r as int),
        0 <= m < r,
{
    proof {
        vstd::arithmetic::div_mod::lemma_mod_bound(l as int, r as int);
    }
    match l.checked_rem_euclid(r) {
        Some(m) => m,
        None => {
            proof {
                assert(false);
            }
            0
        },
    }
}

/// The magnitude of `v` reduced modulo `b`.
pub open spec fn wrap_abs(v: int, b: int) -> int {
    if v >= 0 {
        v % b
    } else {
        (-v) % b
    }
}

/// Reduces a raw random sample to a grid coordinate in `[0, bound)`, as the
/// magnitude of the sample modulo the bound.
pub fn wrap_candidate(v: i32, bound: isize) -> (c: isize)
    requires
        0 < bound,
    ensures
        c == wrap_abs(v as int, bound as int),
        0 <= c < bound,
{
    let vv: i64 = v as i64;
    let p: i64 = if vv >= 0 {
        vv
    } else {
        -vv
    };
    let b: i64 = bound as i64;
    proof {
        vstd::arithmetic::div_mod::lemma_mod_bound(p as int, b as int);
    }
    let m: i64 = match p.checked_rem_euclid(b) {
        Some(m) => m,
        None => {
            proof {
                assert(false);
            }
            0
        },
    };
    m as isize
}

// ---------------------------------------------------------------------------
// The movement state machine, at the specification level
// ---------------------------------------------------------------------------

/// The direction chosen from held keys: candidates are considered in the
/// fixed order Up, Down, Left, Right, the last held key winning; a candidate
/// exactly opposite to the current direction is ignored.
pub open spec fn next_direction(d: Direction, keys: InputState) -> Direction {
    let q = if keys.right {
        Direction::Right
    } else if keys.left {
        Direction::Left
    } else if keys.down {
        Direction::Down
    } else if keys.up {
        Direction::Up
    } else {
        d
    };
    if q == opposite_spec(d) {
        d
    } else {
        q
    }
}

/// One cell of movement, wrapped around the grid edges with a Euclidean
/// modulo.
pub open spec fn step_position(p: Position, d: Direction, width: int, height: int) -> Position {
    match d {
        Direction::Up => Position { x: p.x, y: ((p.y + 1) % height) as isize },
        Direction::Right => Position { x: ((p.x + 1) % width) as isize, y: p.y },
        Direction::Down => Position { x: p.x, y: ((p.y - 1) % height) as isize },
        Direction::Left => Position { x: ((p.x - 1) % width) as isize, y: p.y },
    }
}

/// The body after one movement step: a new head, every other segment moving
/// to the cell its predecessor occupied.
pub open spec fn moved_body(b: Seq<Position>, d: Direction, width: int, height: int) -> Seq<
    Position,
> {
    Seq::new(
        b.len(),
        |i: int|
            if i == 0 {
                step_position(b[0], d, width, height)
            } else {
                b[i - 1]
            },
    )
}

/// The snake has bitten itself: some non-head segment sits on the head cell.
pub open spec fn hits_self(b: Seq<Position>) -> bool {
    exists|i: int| 1 <= i < b.len() && #[trigger] b[i] == b[0]
}

/// The body after eating: three copies of the tail cell are appended, so the
/// snake visibly grows as it pulls away.
pub open spec fn grown_body(b: Seq<Position>) -> Seq<Position> {
    b.push(b.last()).push(b.last()).push(b.last())
}

/// Every segment lies on the grid.
pub open spec fn body_in_bounds(b: Seq<Position>, width: int, height: int) -> bool {
    forall|i: int|
        0 <= i < b.len() ==> (0 <= #[trigger] b[i].x < width && 0 <= b[i].y < height)
}

/// Some grid cell is not covered by the body.
pub open spec fn free_cell_exists(b: Seq<Position>, width: int, height: int) -> bool {
    exists|x: int, y: int|
        0 <= x < width && 0 <= y < height && !#[trigger] b.contains(
            Position { x: x as isize, y: y as isize },
        )
}

/// How one simulation tick relates the state before it to the state after
/// it. On a gated tick (the new ticker value is not a multiple of the tick
/// delay) or once dead, only the ticker advances. On a movement tick the
/// held keys steer, the snake either dies in place (some non-head segment
/// already sits on the head cell) or moves one cell with wrap-around, and a
/// snake whose head then rests on the food grows by three, scores, and the
/// food moves to some free cell.
pub open spec fn update_rel(
    pre_s: Snake,
    pre_w: World,
    keys: InputState,
    post_s: Snake,
    post_w: World,
) -> bool {
    let t = pre_s.ticker + 1;
    let w = pre_w.width as int;
    let h = pre_w.height as int;
    &&& post_s.ticker == t
    &&& post_w.width == pre_w.width
    &&& post_w.height == pre_w.height
    &&& post_w.scale == pre_w.scale
    &&& post_w.tick_delay == pre_w.tick_delay
    &&& if t % (pre_w.tick_delay as int) != 0 || !pre_s.alive {
        &&& post_s.body@ == pre_s.body@
        &&& post_s.alive == pre_s.alive
        &&& post_s.direction == pre_s.direction
        &&& post_s.score == pre_s.score
        &&& post_w.food == pre_w.food
    } else {
        let d = next_direction(pre_s.direction, keys);
        let dead = hits_self(pre_s.body@);
        let b1 = if dead {
            pre_s.body@
        } else {
            moved_body(pre_s.body@, d, w, h)
        };
        &&& post_s.direction == d
        &&& post_s.alive == !dead
        &&& if b1[0] == pre_w.food {
            &&& post_s.body@ == grown_body(b1)
            &&& post_s.score == pre_s.score + 1
            &&& 0 <= post_w.food.x < w
            &&& 0 <= post_w.food.y < h
            &&& (free_cell_exists(grown_body(b1), w, h) ==> !grown_body(b1).contains(
                post_w.food,
            ))
        } else {
            &&& post_s.body@ == b1
            &&& post_s.score == pre_s.score
            &&& post_w.food == pre_w.food
        }
    }
}

// ---------------------------------------------------------------------------
// Snake
// ---------------------------------------------------------------------------

/// The snake: ordered body segments (head first), liveness, heading, frame
/// counter and score.
#[derive(Clone, Debug)]
pub struct Snake {
    pub body: Vec<Position>,
    pub alive: bool,
    pub direction: Direction,
    pub ticker: u32,
    pub score: u32,
}

/// The `n`-th segment of a freshly built snake: segments trail away from
/// the head, opposite to the heading.
pub open spec fn initial_segment(pos: Position, dir: Direction, n: int) -> Position {
    match dir {
        Direction::Up => Position { x: pos.x, y: (pos.y + n) as isize },
        Direction::Right => Position { x: (pos.x - n) as isize, y: pos.y },
        Direction::Down => Position { x: pos.x, y: (pos.y - n) as isize },
        Direction::Left => Position { x: (pos.x + n) as isize, y: pos.y },
    }
}

impl Snake {
    /// A straight snake of `length` segments whose head is at `pos`, facing
    /// `dir`.
    pub fn new(pos: Position, length: u32, dir: Direction) -> (s: Snake)
        requires
            isize::MIN <= pos.x - length,
            pos.x + length <= isize::MAX,
            isize::MIN <= pos.y - length,
            pos.y + length <= isize::MAX,
            length <= isize::MAX,
        ensures
            s.body@.len() == length,
            forall|n: int| 0 <= n < length ==> s.body@[n] == initial_segment(pos, dir, n),
            s.alive,
            s.direction == dir,
            s.ticker == 0,
            s.score == 0,
    {
        let mut body: Vec<Position> = Vec::new();
        let mut n: u32 = 0;
        while n < length
            invariant
                n <= length,
                isize::MIN <= pos.x - length,
                pos.x + length <= isize::MAX,
                isize::MIN <= pos.y - length,
                pos.y + length <= isize::MAX,
                length <= isize::MAX,
                body@.len() == n,
                forall|k: int| 0 <= k < n ==> body@[k] == initial_segment(pos, dir, k),
            decreases length - n,
        {
            let off: isize = n as isize;
            let p = match dir {
                Direction::Up => Position { x: pos.x, y: pos.y + off },
                Direction::Right => Position { x: pos.x - off, y: pos.y },
                Direction::Down => Position { x: pos.x, y: pos.y - off },
                Direction::Left => Position { x: pos.x + off, y: pos.y },
            };
            body.push(p);
            n = n + 1;
        }
        Snake { body, alive: true, direction: dir, ticker: 0, score: 0 }
    }

    /// Applies the held keys to the heading: the last held key in the fixed
    /// priority order Up, Down, Left, Right wins, except that a reversal is
    /// ignored.
    pub fn handle_input(&mut self, keys: &InputState)
        ensures
            final(self).direction == next_direction(old(self).direction, *keys),
            final(self).body@ == old(self).body@,
            final(self).alive == old(self).alive,
            final(self).ticker == old(self).ticker,
            final(self).score == old(self).score,
    {
        let mut dir_queue = self.direction;
        if keys.up {
            dir_queue = Direction::Up;
        }
        if keys.down {
            dir_queue = Direction::Down;
        }
        if keys.left {
            dir_queue = Direction::Left;
        }
        if keys.right {
            dir_queue = Direction::Right;
        }
        let opp = self.direction.opposite();
        if !(dir_queue == opp) {
            self.direction = dir_queue;
        }
    }

    /// One simulation tick; see `update_rel` for everything it does.
    pub fn update(&mut self, keys: &InputState, world: &mut World)
        requires
            old(world).wf(),
            old(self).body@.len() >= 1,
            body_in_bounds(old(self).body@, old(world).width as int, old(world).height as int),
            old(self).ticker < u32::MAX,
            old(self).score < u32::MAX,
            old(self).body@.len() + 3 <= usize::MAX,
        ensures
            update_rel(*old(self), *old(world), *keys, *final(self), *final(world)),
            final(world).wf(),
            body_in_bounds(
                final(self).body@,
                final(world).width as int,
                final(world).height as int,
            ),
            final(self).body@.len() >= old(self).body@.len(),
    {
        let ghost pre_s: Snake = *self;
        let ghost pre_w: World = *world;
        self.ticker = self.ticker + 1;
        if self.ticker % world.tick_delay == 0 && self.alive {
            self.handle_input(keys);
            let ghost d = next_direction(pre_s.direction, *keys);
            let ghost w = pre_w.width as int;
            let ghost h = pre_w.height as int;

            // Self-collision: does a non-head segment sit on the head cell?
            let head = self.body[0];
            let mut hit = false;
            let mut i: usize = 1;
            while i < self.body.len()
                invariant
                    1 <= i <= self.body@.len(),
                    self.body@.len() >= 1,
                    head == self.body@[0],
                    hit == exists|j: int| 1 <= j < i && #[trigger] self.body@[j] == self.body@[0],
                decreases self.body@.len() - i,
            {
                if self.body[i] == head {
                    hit = true;
                }
                i = i + 1;
            }
            proof {
                assert(hit == hits_self(pre_s.body@));
            }

            if hit {
                self.alive = false;
            } else {
                // Follow the leader: new head, every segment to its
                // predecessor's cell.
                let wdt = world.width;
                let hgt = world.height;
                let new_head = match self.direction {
                    Direction::Up => Position { x: head.x, y: emod(head.y + 1, hgt) },
                    Direction::Right => Position { x: emod(head.x + 1, wdt), y: head.y },
                    Direction::Down => Position { x: head.x, y: emod(head.y - 1, hgt) },
                    Direction::Left => Position { x: emod(head.x - 1, wdt), y: head.y },
                };
                let mut nb: Vec<Position> = Vec::new();
                nb.push(new_head);
                let mut i: usize = 1;
                while i < self.body.len()
                    invariant
                        1 <= i <= self.body@.len(),
                        self.body@ == pre_s.body@,
                        nb@.len() == i,
                        nb@[0] == step_position(pre_s.body@[0], d, w, h),
                        forall|k: int| 1 <= k < i ==> nb@[k] == pre_s.body@[k - 1],
                    decreases self.body@.len() - i,
                {
                    let seg = self.body[i - 1];
                    nb.push(seg);
                    i = i + 1;
                }
                proof {
                    assert(nb@ =~= moved_body(pre_s.body@, d, w, h));
                    lemma_step_in_bounds(pre_s.body@[0], d, w, h);
                    assert forall|k: int| 0 <= k < nb@.len() implies (0 <= #[trigger] nb@[k].x < w
                        && 0 <= nb@[k].y < h) by {
                        if k > 0 {
                            assert(nb@[k] == pre_s.body@[k - 1]);
                        }
                    }
                    assert(body_in_bounds(nb@, w, h));
                }
                self.body = nb;
            }
            let ghost b1: Seq<Position> = self.body@;

            if self.body[0] == world.food {
                // Grow by three tail copies, score, and move the food to a
                // cell the body does not cover.
                let tail = self.body[self.body.len() - 1];
                self.body.push(tail);
                self.body.push(tail);
                self.body.push(tail);
                proof {
                    assert(self.body@ =~= grown_body(b1));
                    assert forall|k: int| 0 <= k < self.body@.len() implies (0
                        <= #[trigger] self.body@[k].x < w && 0 <= self.body@[k].y < h) by {
                        if k >= b1.len() {
                            assert(self.body@[k] == b1[b1.len() - 1]);
                            assert(0 <= b1[b1.len() - 1].x < w && 0 <= b1[b1.len() - 1].y < h);
                        } else {
                            assert(self.body@[k] == b1[k]);
                            assert(0 <= b1[k].x < w && 0 <= b1[k].y < h);
                        }
                    }
                    assert(body_in_bounds(self.body@, w, h));
                }
                self.score = self.score + 1;
                place_food(&self.body, world);
            }
        }
    }
}

/// True when some segment equals `p`.
pub fn contains_pos(v: &Vec<Position>, p: &Position) -> (b: bool)
    ensures
        b == v@.contains(*p),
{
    let mut i: usize = 0;
    while i < v.len()
        invariant
            i <= v@.len(),
            forall|j: int| 0 <= j < i ==> v@[j] != *p,
        decreases v@.len() - i,
    {
        if v[i] == *p {
            return true;
        }
        i = i + 1;
    }
    proof {
        assert(!v@.contains(*p));
    }
    false
}

/// Relies on rand::random: a uniformly random 32-bit integer; nothing is
/// promised of its value.
#[verifier::external_body]
fn random_i32() -> (r: i32) {
    rand::random::<i32>()
}

/// Moves the food to a grid cell the body does not cover, by rejection
/// sampling of random cells, falling back to a row-major scan for a free
/// cell if sampling keeps hitting the body.
fn place_food(body: &Vec<Position>, world: &mut World)
    requires
        old(world).wf(),
    ensures
        final(world).width == old(world).width,
        final(world).height == old(world).height,
        final(world).scale == old(world).scale,
        final(world).tick_delay == old(world).tick_delay,
        final(world).wf(),
        free_cell_exists(body@, old(world).width as int, old(world).height as int)
            ==> !body@.contains(final(world).food),
{
    let mut attempts: u32 = 0;
    while contains_pos(body, &world.food) && attempts < 100000
        invariant
            attempts <= 100000,
            world.wf(),
            world.width == old(world).width,
            world.height == old(world).height,
            world.scale == old(world).scale,
            world.tick_delay == old(world).tick_delay,
        decreases 100000 - attempts,
    {
        let fx = wrap_candidate(random_i32(), world.width);
        let fy = wrap_candidate(random_i32(), world.height);
        world.food = Position { x: fx, y: fy };
        attempts = attempts + 1;
    }
    if contains_pos(body, &world.food) {
        // Every sampled cell was occupied; scan for a free cell instead.
        let mut x: isize = 0;
        while x < world.width
            invariant
                0 <= x <= world.width,
                world.wf(),
                world.width == old(world).width,
                world.height == old(world).height,
                world.scale == old(world).scale,
                world.tick_delay == old(world).tick_delay,
                forall|px: int, py: int|
                    0 <= px < x && 0 <= py < world.height ==> #[trigger] body@.contains(
                        Position { x: px as isize, y: py as isize },
                    ),
            decreases world.width - x,
        {
            let mut y: isize = 0;
            while y < world.height
                invariant
                    0 <= x < world.width,
                    0 <= y <= world.height,
                    world.wf(),
                    world.width == old(world).width,
                    world.height == old(world).height,
                    world.scale == old(world).scale,
                    world.tick_delay == old(world).tick_delay,
                    forall|px: int, py: int|
                        0 <= px < x && 0 <= py < world.height ==> #[trigger] body@.contains(
                            Position { x: px as isize, y: py as isize },
                        ),
                    forall|py: int|
                        0 <= py < y ==> #[trigger] body@.contains(
                            Position { x: x as isize, y: py as isize },
                        ),
                decreases world.height - y,
            {
                let cand = Position { x, y };
                if !contains_pos(body, &cand) {
                    world.food = cand;
                    return ;
                }
                y = y + 1;
            }
            x = x + 1;
        }
        // The body covers every cell: leave the food where it is.
        proof {
            assert(!free_cell_exists(body@, old(world).width as int, old(world).height as int));
        }
    }
}

// ---------------------------------------------------------------------------
// Rendering
// ---------------------------------------------------------------------------

/// How far, in pixels, the head has slid into its next cell (and the tail
/// out of its old one) between movement steps: the elapsed fraction of the
/// tick delay, scaled to a cell and rounded down.
pub open spec fn slide_px(ticker: int, delay: int, scale: int) -> int {
    ((ticker % delay) * scale) / delay
}

/// Body segments render white while alive, red once dead.
pub open spec fn body_color(alive: bool) -> Color {
    if alive {
        Color { r: 255, g: 255, b: 255 }
    } else {
        Color { r: 255, g: 0, b: 0 }
    }
}

/// The rectangle drawn for segment `i`: a full grid cell, except that while
/// the snake is alive the head slides into its cell and the tail out of its
/// own, sized by the elapsed tick fraction. A head or tail whose offset
/// from its neighbour is not a single cell (a wrap across the grid edge) is
/// skipped for that stretch.
pub open spec fn seg_rect(s: Snake, w: World, i: int) -> Rect {
    let len = s.body@.len() as int;
    let pos = s.body@[i];
    let c = body_color(s.alive);
    let sc = w.scale as int;
    if s.alive && (i == 0 || i == len - 1) && len >= 2 {
        let nb = if i == 0 {
            s.body@[1]
        } else {
            s.body@[len - 2]
        };
        let evx = pos.x - nb.x;
        let evy = pos.y - nb.y;
        let sl = slide_px(s.ticker as int, w.tick_delay as int, sc);
        let op = if i == 0 {
            sl
        } else {
            sc - sl
        };
        if evx == -1 && evy == 0 {
            Rect {
                x: ((pos.x + 1) * sc - op) as isize,
                y: (pos.y * sc) as isize,
                w: w.scale,
                h: w.scale,
                color: c,
            }
        } else if evx == 0 && evy == -1 {
            Rect {
                x: (pos.x * sc) as isize,
                y: ((pos.y + 1) * sc - op) as isize,
                w: w.scale,
                h: w.scale,
                color: c,
            }
        } else if evx == 0 && evy == 1 {
            Rect {
                x: (pos.x * sc) as isize,
                y: (pos.y * sc) as isize,
                w: w.scale,
                h: op as isize,
                color: c,
            }
        } else if evx == 1 && evy == 0 {
            Rect {
                x: (pos.x * sc) as isize,
                y: (pos.y * sc) as isize,
                w: op as isize,
                h: w.scale,
                color: c,
            }
        } else {
            Rect { x: (pos.x * sc) as isize, y: (pos.y * sc) as isize, w: 0, h: 0, color: c }
        }
    } else {
        Rect {
            x: (pos.x * sc) as isize,
            y: (pos.y * sc) as isize,
            w: w.scale,
            h: w.scale,
            color: c,
        }
    }
}

/// The food cell's rectangle, drawn in orange.
pub open spec fn food_rect(w: World) -> Rect {
    Rect {
        x: (w.food.x * w.scale) as isize,
        y: (w.food.y * w.scale) as isize,
        w: w.scale,
        h: w.scale,
        color: Color { r: 255, g: 127, b: 0 },
    }
}

/// Everything one frame draws: each body segment in order, then the food.
pub open spec fn snake_rects(s: Snake, w: World) -> Seq<Rect> {
    Seq::new(s.body@.len(), |i: int| seg_rect(s, w, i)).push(food_rect(w))
}

impl Snake {
    /// Renders the snake and the food into the framebuffer: each pixel is
    /// the color of the last covering rectangle of `snake_rects`, or its
    /// old color where none covers it.
    pub fn draw(&self, fb: &mut Surface, world: &World)
        requires
            old(fb).wf(),
            world.wf(),
            self.body@.len() >= 1,
            self.alive ==> self.body@.len() >= 2,
            body_in_bounds(self.body@, world.width as int, world.height as int),
        ensures
            final(fb).wf(),
            final(fb).width == old(fb).width,
            final(fb).height == old(fb).height,
            forall|px: int, py: int|
                old(fb).in_bounds(px, py) ==> #[trigger] final(fb).pixel(px, py) == match painted_at(
                    snake_rects(*self, *world),
                    px,
                    py,
                ) {
                    Some(c) => c,
                    None => old(fb).pixel(px, py),
                },
    {
        let len: usize = self.body.len();
        let m: u32 = self.ticker % world.tick_delay;
        proof {
            assert((m as int) * (world.scale as int) < (world.tick_delay as int) * (
            world.scale as int)) by (nonlinear_arith)
                requires
                    0 <= m < world.tick_delay,
                    0 < world.scale,
            ;
            vstd::arithmetic::div_mod::lemma_multiply_divide_lt(
                (m as int) * (world.scale as int),
                world.tick_delay as int,
                world.scale as int,
            );
            vstd::arithmetic::div_mod::lemma_div_pos_is_pos(
                (m as int) * (world.scale as int),
                world.tick_delay as int,
            );
        }
        let prod: u64 = (m as u64) * (world.scale as u64);
        let sl: isize = (prod / (world.tick_delay as u64)) as isize;
        let ghost sc = world.scale as int;
        proof {
            assert(sl == slide_px(self.ticker as int, world.tick_delay as int, sc));
            assert(0 <= sl < world.scale);
        }
        let col = if self.alive {
            Color { r: 255, g: 255, b: 255 }
        } else {
            Color { r: 255, g: 0, b: 0 }
        };
        let mut rects: Vec<Rect> = Vec::new();
        let mut i: usize = 0;
        while i < len
            invariant
                i <= len,
                len == self.body@.len(),
                world.wf(),
                self.alive ==> len >= 2,
                body_in_bounds(self.body@, world.width as int, world.height as int),
                sc == world.scale as int,
                0 <= sl < world.scale,
                sl == slide_px(self.ticker as int, world.tick_delay as int, sc),
                col == body_color(self.alive),
                rects@.len() == i,
                forall|k: int| 0 <= k < i ==> rects@[k] == seg_rect(*self, *world, k),
                forall|k: int|
                    0 <= k < i ==> (0 <= #[trigger] rects@[k].x && rects@[k].x + rects@[k].w
                        <= isize::MAX && 0 <= rects@[k].y && rects@[k].y + rects@[k].h
                        <= isize::MAX),
            decreases len - i,
        {
            let pos = self.body[i];
            proof {
                assert(0 <= pos.x * world.scale && pos.x * world.scale + world.scale <= world.width
                    * world.scale && 0 <= pos.y * world.scale && pos.y * world.scale + world.scale
                    <= world.height * world.scale && (pos.x + 1) * world.scale == pos.x
                    * world.scale + world.scale && (pos.y + 1) * world.scale == pos.y * world.scale
                    + world.scale) by (nonlinear_arith)
                    requires
                        0 <= pos.x < world.width,
                        0 <= pos.y < world.height,
                        0 < world.scale,
                ;
            }
            let r: Rect;
            if self.alive && (i == 0 || i == len - 1) {
                let nb = if i == 0 {
                    self.body[1]
                } else {
                    self.body[len - 2]
                };
                let evx = pos.x - nb.x;
                let evy = pos.y - nb.y;
                let op: isize = if i == 0 {
                    sl
                } else {
                    world.scale - sl
                };
                if evx == -1 && evy == 0 {
                    r = Rect {
                        x: (pos.x + 1) * world.scale - op,
                        y: pos.y * world.scale,
                        w: world.scale,
                        h: world.scale,
                        color: col,
                    };
                } else if evx == 0 && evy == -1 {
                    r = Rect {
                        x: pos.x * world.scale,
                        y: (pos.y + 1) * world.scale - op,
                        w: world.scale,
                        h: world.scale,
                        color: col,
                    };
                } else if evx == 0 && evy == 1 {
                    r = Rect {
                        x: pos.x * world.scale,
                        y: pos.y * world.scale,
                        w: world.scale,
                        h: op,
                        color: col,
                    };
                } else if evx == 1 && evy == 0 {
                    r = Rect {
                        x: pos.x * world.scale,
                        y: pos.y * world.scale,
                        w: op,
                        h: world.scale,
                        color: col,
                    };
                } else {
                    r = Rect {
                        x: pos.x * world.scale,
                        y: pos.y * world.scale,
                        w: 0,
                        h: 0,
                        color: col,
                    };
                }
            } else {
                r = Rect {
                    x: pos.x * world.scale,
                    y: pos.y * world.scale,
                    w: world.scale,
                    h: world.scale,
                    color: col,
                };
            }
            proof {
                assert(r == seg_rect(*self, *world, i as int));
            }
            rects.push(r);
            i = i + 1;
        }
        proof {
            assert(0 <= world.food.x * world.scale && world.food.x * world.scale + world.scale
                <= world.width * world.scale && 0 <= world.food.y * world.scale && world.food.y
                * world.scale + world.scale <= world.height * world.scale) by (nonlinear_arith)
                requires
                    0 <= world.food.x < world.width,
                    0 <= world.food.y < world.height,
                    0 < world.scale,
            ;
        }
        let fr = Rect {
            x: world.food.x * world.scale,
            y: world.food.y * world.scale,
            w: world.scale,
            h: world.scale,
            color: Color { r: 255, g: 127, b: 0 },
        };
        rects.push(fr);
        proof {
            assert(rects@ =~= snake_rects(*self, *world));
        }
        draw_rect_list(fb, &rects);
    }
}

// ---------------------------------------------------------------------------
// Game
// ---------------------------------------------------------------------------

/// The default configuration: a 40 x 24 grid of 10-pixel cells, movement
/// every 6 frames, food at (12, 8).
pub open spec fn default_world() -> World {
    World {
        width: 40,
        height: 24,
        scale: 10,
        tick_delay: 6,
        food: Position { x: 12, y: 8 },
    }
}

/// One world and one snake; what the run loop steps and draws.
pub struct Game {
    pub world: World,
    pub snake: Snake,
}

impl Game {
    /// A game state the simulation can run on.
    pub open spec fn wf(self) -> bool {
        &&& self.world.wf()
        &&& self.snake.body@.len() >= 1
        &&& body_in_bounds(self.snake.body@, self.world.width as int, self.world.height as int)
    }

    /// The default world with a five-segment snake at (5, 5) facing right.
    pub fn new() -> (g: Game)
        ensures
            g.world == default_world(),
            g.snake.body@.len() == 5,
            forall|n: int|
                0 <= n < 5 ==> g.snake.body@[n] == initial_segment(
                    Position { x: 5, y: 5 },
                    Direction::Right,
                    n,
                ),
            g.snake.alive,
            g.snake.direction == Direction::Right,
            g.snake.ticker == 0,
            g.snake.score == 0,
            g.wf(),
    {
        let snake = Snake::new(Position { x: 5, y: 5 }, 5, Direction::Right);
        let world = World {
            width: 40,
            height: 24,
            scale: 10,
            tick_delay: 6,
            food: Position { x: 12, y: 8 },
        };
        let g = Game { world, snake };
        proof {
            assert forall|i: int| 0 <= i < g.snake.body@.len() implies (0 <= #[trigger] g.snake.body@[i].x
                < g.world.width && 0 <= g.snake.body@[i].y < g.world.height) by {
                assert(g.snake.body@[i] == initial_segment(
                    Position { x: 5, y: 5 },
                    Direction::Right,
                    i,
                ));
            }
        }
        g
    }

    /// One frame: forwards the held keys to the snake's tick.
    pub fn step(&mut self, keys: &InputState)
        requires
            old(self).wf(),
            old(self).snake.ticker < u32::MAX,
            old(self).snake.score < u32::MAX,
            old(self).snake.body@.len() + 3 <= usize::MAX,
        ensures
            update_rel(
                old(self).snake,
                old(self).world,
                *keys,
                final(self).snake,
                final(self).world,
            ),
            final(self).wf(),
    {
        let snake = &mut self.snake;
        let world = &mut self.world;
        snake.update(keys, world);
    }

    /// Renders the current frame into the framebuffer.
    pub fn draw(&self, fb: &mut Surface)
        requires
            old(fb).wf(),
            self.wf(),
            self.snake.alive ==> self.snake.body@.len() >= 2,
        ensures
            final(fb).wf(),
            final(fb).width == old(fb).width,
            final(fb).height == old(fb).height,
            forall|px: int, py: int|
                old(fb).in_bounds(px, py) ==> #[trigger] final(fb).pixel(px, py)
                    == match painted_at(snake_rects(self.snake, self.world), px, py) {
                    Some(c) => c,
                    None => old(fb).pixel(px, py),
                },
    {
        self.snake.draw(fb, &self.world);
    }

    /// Back to the starting state.
    pub fn restart(&mut self)
        ensures
            final(self).world == default_world(),
            final(self).snake.body@.len() == 5,
            forall|n: int|
                0 <= n < 5 ==> final(self).snake.body@[n] == initial_segment(
                    Position { x: 5, y: 5 },
                    Direction::Right,
                    n,
                ),
            final(self).snake.alive,
            final(self).snake.direction == Direction::Right,
            final(self).snake.ticker == 0,
            final(self).snake.score == 0,
            final(self).wf(),
    {
        let g = Game::new();
        *self = g;
    }

    /// The current score.
    pub fn get_score(&self) -> (s: u32)
        ensures
            s == self.snake.score,
    {
        self.snake.score
    }
}

// ---------------------------------------------------------------------------
// Laws
// ---------------------------------------------------------------------------

/// Movement wraps with a Euclidean modulo: stepping right from the last
/// column lands on column zero, and symmetrically at every other edge.
pub proof fn lemma_wraparound(p: Position, w: World)
    requires
        w.wf(),
        0 <= p.x < w.width,
        0 <= p.y < w.height,
    ensures
        p.x == w.width - 1 ==> step_position(p, Direction::Right, w.width as int, w.height as int)
            == (Position { x: 0 as isize, y: p.y }),
        p.x == 0 ==> step_position(p, Direction::Left, w.width as int, w.height as int) == (Position {
            x: (w.width - 1) as isize,
            y: p.y,
        }),
        p.y == w.height - 1 ==> step_position(p, Direction::Up, w.width as int, w.height as int)
            == (Position { x: p.x, y: 0 as isize }),
        p.y == 0 ==> step_position(p, Direction::Down, w.width as int, w.height as int) == (Position {
            x: p.x,
            y: (w.height - 1) as isize,
        }),
{
    let wi = w.width as int;
    let hi = w.height as int;
    vstd::arithmetic::div_mod::lemma_mod_self_0(wi);
    vstd::arithmetic::div_mod::lemma_mod_self_0(hi);
    vstd::arithmetic::div_mod::lemma_fundamental_div_mod_converse_mod(-1, wi, -1, wi - 1);
    vstd::arithmetic::div_mod::lemma_fundamental_div_mod_converse_mod(-1, hi, -1, hi - 1);
}

/// A movement step from a cell on the grid lands on the grid.
pub proof fn lemma_step_in_bounds(p: Position, d: Direction, width: int, height: int)
    requires
        0 < width <= isize::MAX,
        0 < height <= isize::MAX,
        0 <= p.x < width,
        0 <= p.y < height,
    ensures
        0 <= step_position(p, d, width, height).x < width,
        0 <= step_position(p, d, width, height).y < height,
{
    vstd::arithmetic::div_mod::lemma_mod_bound(p.x + 1, width);
    vstd::arithmetic::div_mod::lemma_mod_bound(p.x - 1, width);
    vstd::arithmetic::div_mod::lemma_mod_bound(p.y + 1, height);
    vstd::arithmetic::div_mod::lemma_mod_bound(p.y - 1, height);
}

/// Holding only the key opposite to the current direction leaves the
/// direction unchanged.
pub proof fn lemma_opposite_input_ignored(d: Direction, keys: InputState)
    requires
        keys.up == (opposite_spec(d) == Direction::Up),
        keys.down == (opposite_spec(d) == Direction::Down),
        keys.left == (opposite_spec(d) == Direction::Left),
        keys.right == (opposite_spec(d) == Direction::Right),
    ensures
        next_direction(d, keys) == d,
{
}

/// Eating grows the body by exactly three segments.
pub proof fn lemma_growth_length(b: Seq<Position>)
    requires
        b.len() >= 1,
    ensures
        grown_body(b).len() == b.len() + 3,
{
}

} // verus!

