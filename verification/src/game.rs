//! The grid world: positions, headings, relative actions, and the
//! deterministic physics of one snake tick.

use std::collections::HashSet;
use vstd::prelude::*;

verus! {

/// One cell of the grid, addressed by integer coordinates.
#[derive(Debug, Eq, PartialEq, Hash, Clone, Copy, Structural)]
pub struct GridPos {
    pub x: i32,
    pub y: i32,
}

impl GridPos {
    pub fn new(x: i32, y: i32) -> (p: Self)
        ensures
            p.x == x,
            p.y == y,
    {
        Self { x, y }
    }
}

/// The snake's absolute heading. `Up` increases `y`, `Right` increases `x`.
#[derive(Debug, PartialEq, Eq, Clone, Copy, Structural)]
pub enum SnakeOrientation {
    Up,
    Down,
    Left,
    Right,
}

/// The coordinates of the cell adjacent to `(x, y)` in heading `o`,
/// as unbounded integers.
pub open spec fn spec_next(o: SnakeOrientation, x: int, y: int) -> (int, int) {
    match o {
        SnakeOrientation::Up => (x, y + 1),
        SnakeOrientation::Down => (x, y - 1),
        SnakeOrientation::Left => (x - 1, y),
        SnakeOrientation::Right => (x + 1, y),
    }
}

impl SnakeOrientation {
    /// The cell adjacent to `pos` in this heading.
    pub fn next(&self, pos: &GridPos) -> (p: GridPos)
        requires
            i32::MIN < pos.x < i32::MAX,
            i32::MIN < pos.y < i32::MAX,
        ensures
            (p.x as int, p.y as int) == spec_next(*self, pos.x as int, pos.y as int),
    {
        match self {
            SnakeOrientation::Up => GridPos::new(pos.x, pos.y + 1),
            SnakeOrientation::Down => GridPos::new(pos.x, pos.y - 1),
            SnakeOrientation::Left => GridPos::new(pos.x - 1, pos.y),
            SnakeOrientation::Right => GridPos::new(pos.x + 1, pos.y),
        }
    }

    /// The reversed heading.
    pub fn opposite(&self) -> (o: Self)
        ensures
            o == match *self {
                SnakeOrientation::Up => SnakeOrientation::Down,
                SnakeOrientation::Down => SnakeOrientation::Up,
                SnakeOrientation::Left => SnakeOrientation::Right,
                SnakeOrientation::Right => SnakeOrientation::Left,
            },
    {
        match self {
            Self::Up => Self::Down,
            Self::Down => Self::Up,
            Self::Left => Self::Right,
            Self::Right => Self::Left,
        }
    }

    /// The relative action that turns this heading into `applied_orientation`,
    /// or `None` for the one heading (the exact opposite) that no single
    /// relative action can produce.
    pub fn apply_to_action(&self, applied_orientation: &Self) -> (r: Option<PlayerStepAction>)
        ensures
            *applied_orientation == self.opposite_spec() <==> r is None,
            r matches Some(a) ==> spec_rotate(a, *self) == *applied_orientation,
    {
        match self {
            Self::Up => match applied_orientation {
                Self::Up => Some(PlayerStepAction::Forward),
                Self::Down => None,
                Self::Left => Some(PlayerStepAction::Left),
                Self::Right => Some(PlayerStepAction::Right),
            },
            Self::Down => match applied_orientation {
                Self::Up => None,
                Self::Down => Some(PlayerStepAction::Forward),
                Self::Left => Some(PlayerStepAction::Right),
                Self::Right => Some(PlayerStepAction::Left),
            },
            Self::Left => match applied_orientation {
                Self::Up => Some(PlayerStepAction::Right),
                Self::Down => Some(PlayerStepAction::Left),
                Self::Left => Some(PlayerStepAction::Forward),
                Self::Right => None,
            },
            Self::Right => match applied_orientation {
                Self::Up => Some(PlayerStepAction::Left),
                Self::Down => Some(PlayerStepAction::Right),
                Self::Left => None,
                Self::Right => Some(PlayerStepAction::Forward),
            },
        }
    }

    /// The reversed heading, as a spec-level value.
    pub open spec fn opposite_spec(self) -> Self {
        match self {
            SnakeOrientation::Up => SnakeOrientation::Down,
            SnakeOrientation::Down => SnakeOrientation::Up,
            SnakeOrientation::Left => SnakeOrientation::Right,
            SnakeOrientation::Right => SnakeOrientation::Left,
        }
    }
}

/// A step command relative to the snake's current heading.
#[derive(Debug, PartialEq, Eq, Clone, Copy, Structural)]
pub enum PlayerStepAction {
    Forward,
    Left,
    Right,
}

/// The absolute heading that results from applying action `a` while
/// heading `o`: `Forward` keeps the heading, `Left`/`Right` turn 90
/// degrees. No action yields the opposite heading, so a reversal is
/// structurally impossible.
pub open spec fn spec_rotate(a: PlayerStepAction, o: SnakeOrientation) -> SnakeOrientation {
    match a {
        PlayerStepAction::Forward => o,
        PlayerStepAction::Left => match o {
            SnakeOrientation::Up => SnakeOrientation::Left,
            SnakeOrientation::Down => SnakeOrientation::Right,
            SnakeOrientation::Left => SnakeOrientation::Down,
            SnakeOrientation::Right => SnakeOrientation::Up,
        },
        PlayerStepAction::Right => match o {
            SnakeOrientation::Up => SnakeOrientation::Right,
            SnakeOrientation::Down => SnakeOrientation::Left,
            SnakeOrientation::Left => SnakeOrientation::Up,
            SnakeOrientation::Right => SnakeOrientation::Down,
        },
    }
}

impl PlayerStepAction {
    /// Resolve this relative action against the current heading.
    pub fn rotate(&self, orientation: &SnakeOrientation) -> (o: SnakeOrientation)
        ensures
            o == spec_rotate(*self, *orientation),
            o != orientation.opposite_spec(),
    {
        match self {
            PlayerStepAction::Forward => *orientation,
            PlayerStepAction::Left => match orientation {
                SnakeOrientation::Up => SnakeOrientation::Left,
                SnakeOrientation::Down => SnakeOrientation::Right,
                SnakeOrientation::Left => SnakeOrientation::Down,
                SnakeOrientation::Right => SnakeOrientation::Up,
            },
            PlayerStepAction::Right => match orientation {
                SnakeOrientation::Up => SnakeOrientation::Right,
                SnakeOrientation::Down => SnakeOrientation::Left,
                SnakeOrientation::Left => SnakeOrientation::Up,
                SnakeOrientation::Right => SnakeOrientation::Down,
            },
        }
    }
}

/// The outcome of one tick. A collision is a normal outcome, not an
/// error: the caller is expected to reset the scene.
#[derive(Debug, PartialEq, Eq, Clone, Copy, Structural)]
pub enum PlayerStepResult {
    Nothing,
    AppleEaten,
    Collision,
}

/// Whether the sequence holds a cell with coordinates `(x, y)`.
spec fn seq_has_cell(s: Seq<GridPos>, x: int, y: int) -> bool {
    exists|i: int| 0 <= i < s.len() && (s[i].x as int, s[i].y as int) == (x, y)
}

/// Whether the suffix of `s` that starts at index `n` holds a cell
/// with coordinates `(x, y)`.
spec fn cell_in_suffix(s: Seq<GridPos>, n: int, x: int, y: int) -> bool {
    exists|j: int| n <= j < s.len() && (s[j].x as int, s[j].y as int) == (x, y)
}

/// Packs a coordinate pair into the `u64` key under which the obstacle
/// set stores the cell. Distinct in-range pairs get distinct keys.
spec fn pos_key(x: int, y: int) -> u64 {
    (((x + 0x8000_0000) * 0x1_0000_0000) + (y + 0x8000_0000)) as u64
}

/// Whether `x` fits in a 32-bit signed coordinate.
spec fn coord_in_range(x: int) -> bool {
    i32::MIN <= x <= i32::MAX
}

proof fn lemma_pos_key_injective(x1: int, y1: int, x2: int, y2: int)
    requires
        coord_in_range(x1),
        coord_in_range(y1),
        coord_in_range(x2),
        coord_in_range(y2),
        pos_key(x1, y1) == pos_key(x2, y2),
    ensures
        x1 == x2,
        y1 == y2,
{
    let a1 = x1 + 0x8000_0000;
    let b1 = y1 + 0x8000_0000;
    let a2 = x2 + 0x8000_0000;
    let b2 = y2 + 0x8000_0000;
    assert(0 <= a1 * 0x1_0000_0000 + b1 < 0x1_0000_0000_0000_0000);
    assert(0 <= a2 * 0x1_0000_0000 + b2 < 0x1_0000_0000_0000_0000);
    assert(a1 * 0x1_0000_0000 + b1 == a2 * 0x1_0000_0000 + b2);
    assert(a1 == a2 && b1 == b2) by (nonlinear_arith)
        requires
            0 <= b1 < 0x1_0000_0000,
            0 <= b2 < 0x1_0000_0000,
            a1 * 0x1_0000_0000 + b1 == a2 * 0x1_0000_0000 + b2,
    ;
}

/// The key under which the obstacle set stores `p`.
fn key_of(p: &GridPos) -> (k: u64)
    ensures
        k == pos_key(p.x as int, p.y as int),
{
    let xo: u64 = ((p.x as i64) + 0x8000_0000i64) as u64;
    let yo: u64 = ((p.y as i64) + 0x8000_0000i64) as u64;
    xo * 0x1_0000_0000u64 + yo
}

/// One independent game instance: the snake, the food, the walls and
/// the episode counters, over a rectangular play area
/// `[min_x, max_x] x [min_y, max_y]` ringed by wall cells.
///
/// The snake occupies the head cell plus the cells of
/// `snake_body_parts` (ordered tail first; the last entry is the cell
/// right behind the head). The obstacle set `colliders` holds every
/// wall cell and every body cell, keyed by `pos_key`, so that each
/// tick's collision test is one hash lookup.
pub struct Scene {
    head_pos: GridPos,
    orientation: SnakeOrientation,
    snake_body_parts: Vec<GridPos>,
    apple_pos: GridPos,
    colliders: HashSet<u64>,
    arena_min_x: i32,
    arena_min_y: i32,
    arena_max_x: i32,
    arena_max_y: i32,
    /// Ticks since the last reset.
    pub frame_iteration: usize,
    /// Apples eaten since the last reset (the score).
    pub punctuation: usize,
}

impl Scene {
    pub closed spec fn min_x(self) -> int {
        self.arena_min_x as int
    }

    pub closed spec fn min_y(self) -> int {
        self.arena_min_y as int
    }

    pub closed spec fn max_x(self) -> int {
        self.arena_max_x as int
    }

    pub closed spec fn max_y(self) -> int {
        self.arena_max_y as int
    }

    pub closed spec fn head(self) -> (int, int) {
        (self.head_pos.x as int, self.head_pos.y as int)
    }

    pub closed spec fn heading(self) -> SnakeOrientation {
        self.orientation
    }

    pub closed spec fn apple(self) -> (int, int) {
        (self.apple_pos.x as int, self.apple_pos.y as int)
    }

    /// The score: apples eaten since the last reset.
    pub closed spec fn score(self) -> int {
        self.punctuation as int
    }

    /// Ticks since the last reset.
    pub closed spec fn frames(self) -> int {
        self.frame_iteration as int
    }

    /// How many body cells trail behind the head.
    pub closed spec fn body_len(self) -> nat {
        self.snake_body_parts@.len()
    }

    /// The coordinates of the `i`-th body cell, counted from the tail.
    pub closed spec fn body_cell(self, i: int) -> (int, int) {
        (self.snake_body_parts@[i].x as int, self.snake_body_parts@[i].y as int)
    }

    /// Whether `(x, y)` is one of the snake's body cells.
    pub open spec fn in_body(self, x: int, y: int) -> bool {
        exists|i: int| 0 <= i < self.body_len() && self.body_cell(i) == (x, y)
    }

    /// Whether `(x, y)` lies in the open play area.
    pub open spec fn in_play(self, x: int, y: int) -> bool {
        self.min_x() <= x <= self.max_x() && self.min_y() <= y <= self.max_y()
    }

    /// Whether `(x, y)` is one of the static border wall cells: the
    /// one-cell ring around the play area.
    pub open spec fn on_wall(self, x: int, y: int) -> bool {
        &&& self.min_x() - 1 <= x <= self.max_x() + 1
        &&& self.min_y() - 1 <= y <= self.max_y() + 1
        &&& !self.in_play(x, y)
    }

    /// Whether the obstacle set holds `(x, y)`.
    pub closed spec fn obstructs(self, x: int, y: int) -> bool {
        &&& coord_in_range(x)
        &&& coord_in_range(y)
        &&& self.colliders@.contains(pos_key(x, y))
    }

    /// Whether `(x, y)` could hold food: in the play area, not occupied
    /// by a wall or the snake.
    pub open spec fn free_cell(self, x: int, y: int) -> bool {
        self.in_play(x, y) && !self.obstructs(x, y) && (x, y) != self.head()
    }

    /// Whether the snake occupies the whole play area, leaving no cell
    /// for food.
    pub open spec fn board_full(self) -> bool {
        forall|x: int, y: int| !self.free_cell(x, y)
    }

    /// The food cell is sound: always inside the play area, and free,
    /// unless the board is full and no free cell exists at all.
    pub open spec fn apple_ok(self) -> bool {
        &&& self.in_play(self.apple().0, self.apple().1)
        &&& (self.free_cell(self.apple().0, self.apple().1) || self.board_full())
    }

    /// Everything the step physics relies on, except soundness of the
    /// food cell:
    /// the arena is a sane rectangle far from the coordinate limits;
    /// the obstacle set holds exactly the wall ring and the body cells;
    /// body cells are distinct, inside the play area, and at least one
    /// trails the head; the head is inside the play area and on no
    /// obstacle.
    pub open spec fn wf_core(self) -> bool {
        &&& -10000 <= self.min_x() <= self.max_x() <= 10000
        &&& -10000 <= self.min_y() <= self.max_y() <= 10000
        &&& forall|x: int, y: int|
            #[trigger] self.obstructs(x, y) <==> (self.on_wall(x, y) || self.in_body(x, y))
        &&& forall|i: int, j: int|
            0 <= i < j < self.body_len() ==> #[trigger] self.body_cell(i)
                != #[trigger] self.body_cell(j)
        &&& forall|i: int|
            0 <= i < self.body_len() ==> self.in_play(
                #[trigger] self.body_cell(i).0,
                self.body_cell(i).1,
            )
        &&& self.body_len() >= 1
        &&& self.in_play(self.head().0, self.head().1)
        &&& !self.obstructs(self.head().0, self.head().1)
    }

    /// The scene invariant: `wf_core` plus soundness of the food cell.
    pub open spec fn wf(self) -> bool {
        self.wf_core() && self.apple_ok()
    }

    /// The cell the snake's head would enter on a tick with `action`.
    pub open spec fn step_target(self, action: PlayerStepAction) -> (int, int) {
        spec_next(spec_rotate(action, self.heading()), self.head().0, self.head().1)
    }

    /// The two scenes share the same arena rectangle.
    pub open spec fn same_arena(self, post: Scene) -> bool {
        &&& post.min_x() == self.min_x()
        &&& post.min_y() == self.min_y()
        &&& post.max_x() == self.max_x()
        &&& post.max_y() == self.max_y()
    }

    /// How a tick that ate the food changes the scene: the head enters
    /// the food cell, the old head cell becomes the newest body cell
    /// (the tail stays, so the snake grows by one), the obstacle set
    /// gains exactly the old head cell, the score and the frame counter
    /// go up by one, and the food reappears on a free cell whenever one
    /// exists.
    pub open spec fn growth_step(self, post: Scene, action: PlayerStepAction) -> bool {
        let t = self.step_target(action);
        &&& post.heading() == spec_rotate(action, self.heading())
        &&& post.head() == t
        &&& post.body_len() == self.body_len() + 1
        &&& forall|i: int| 0 <= i < self.body_len() ==> #[trigger] post.body_cell(i)
            == self.body_cell(i)
        &&& post.body_cell(self.body_len() as int) == self.head()
        &&& forall|x: int, y: int|
            #[trigger] post.obstructs(x, y) <==> (self.obstructs(x, y) || (x, y) == self.head())
        &&& !post.board_full() ==> post.free_cell(post.apple().0, post.apple().1)
        &&& post.score() == self.score() + 1
        &&& post.frames() == self.frames() + 1
        &&& self.same_arena(post)
    }

    /// How an uneventful tick changes the scene: the head moves one
    /// cell, the old head cell becomes the newest body cell, the oldest
    /// body cell (the tail) is vacated, so the obstacle set moves by
    /// exactly one cell; food, score and snake length stay put, and the
    /// frame counter goes up by one.
    pub open spec fn move_step(self, post: Scene, action: PlayerStepAction) -> bool {
        let t = self.step_target(action);
        &&& post.heading() == spec_rotate(action, self.heading())
        &&& post.head() == t
        &&& post.body_len() == self.body_len()
        &&& forall|i: int| 0 <= i < self.body_len() - 1 ==> #[trigger] post.body_cell(i)
            == self.body_cell(i + 1)
        &&& post.body_cell(self.body_len() - 1) == self.head()
        &&& forall|x: int, y: int|
            #[trigger] post.obstructs(x, y) <==> ((self.obstructs(x, y) && (x, y)
                != self.body_cell(0)) || (x, y) == self.head())
        &&& post.apple() == self.apple()
        &&& post.score() == self.score()
        &&& post.frames() == self.frames() + 1
        &&& self.same_arena(post)
    }

    /// Membership query against the obstacle set, used by the state
    /// encoder to probe hypothetical cells without mutating anything.
    pub fn is_collision(&self, pos: &GridPos) -> (r: bool)
        ensures
            r == self.obstructs(pos.x as int, pos.y as int),
    {
        self.colliders.contains(&key_of(pos))
    }

    /// Adds one obstacle cell. The cell must not already be an
    /// obstacle: the obstacle set never holds a cell twice.
    fn push_collider(&mut self, pos: GridPos)
        requires
            !old(self).obstructs(pos.x as int, pos.y as int),
        ensures
            forall|x: int, y: int|
                #[trigger] final(self).obstructs(x, y) <==> (old(self).obstructs(x, y) || (x, y)
                    == (pos.x as int, pos.y as int)),
            final(self).head_pos == old(self).head_pos,
            final(self).orientation == old(self).orientation,
            final(self).snake_body_parts == old(self).snake_body_parts,
            final(self).apple_pos == old(self).apple_pos,
            final(self).arena_min_x == old(self).arena_min_x,
            final(self).arena_min_y == old(self).arena_min_y,
            final(self).arena_max_x == old(self).arena_max_x,
            final(self).arena_max_y == old(self).arena_max_y,
            final(self).frame_iteration == old(self).frame_iteration,
            final(self).punctuation == old(self).punctuation,
    {
        let k = key_of(&pos);
        self.colliders.insert(k);
        proof {
            assert forall|x: int, y: int|
                #[trigger] self.obstructs(x, y) <==> (old(self).obstructs(x, y) || (x, y) == (
                    pos.x as int,
                    pos.y as int,
                )) by {
                if coord_in_range(x) && coord_in_range(y) && pos_key(x, y) == pos_key(
                    pos.x as int,
                    pos.y as int,
                ) {
                    lemma_pos_key_injective(x, y, pos.x as int, pos.y as int);
                }
            }
        }
    }

    /// Two scenes that share every field bearing on geometry (the
    /// arena, the obstacle set, the snake) agree on all geometric spec
    /// functions, whatever their food cells and counters hold.
    proof fn lemma_same_geometry(a: Scene, b: Scene)
        requires
            b.head_pos == a.head_pos,
            b.orientation == a.orientation,
            b.snake_body_parts == a.snake_body_parts,
            b.colliders == a.colliders,
            b.arena_min_x == a.arena_min_x,
            b.arena_min_y == a.arena_min_y,
            b.arena_max_x == a.arena_max_x,
            b.arena_max_y == a.arena_max_y,
        ensures
            b.heading() == a.heading(),
            b.head() == a.head(),
            b.body_len() == a.body_len(),
            forall|i: int| #[trigger] b.body_cell(i) == a.body_cell(i),
            forall|x: int, y: int| #[trigger] b.obstructs(x, y) == a.obstructs(x, y),
            forall|x: int, y: int| #[trigger] b.in_body(x, y) == a.in_body(x, y),
            forall|x: int, y: int| #[trigger] b.free_cell(x, y) == a.free_cell(x, y),
            b.board_full() == a.board_full(),
            a.same_arena(b),
            a.wf_core() ==> b.wf_core(),
    {
        assert forall|i: int| #[trigger] b.body_cell(i) == a.body_cell(i) by {}
        assert forall|x: int, y: int| #[trigger] b.obstructs(x, y) == a.obstructs(x, y) by {}
        assert forall|x: int, y: int| #[trigger] b.in_body(x, y) == a.in_body(x, y) by {
            if a.in_body(x, y) {
                let i = choose|i: int| 0 <= i < a.body_len() && a.body_cell(i) == (x, y);
                assert(b.body_cell(i) == (x, y));
            }
            if b.in_body(x, y) {
                let i = choose|i: int| 0 <= i < b.body_len() && b.body_cell(i) == (x, y);
                assert(a.body_cell(i) == (x, y));
            }
        }
        assert forall|x: int, y: int| #[trigger] b.free_cell(x, y) == a.free_cell(x, y) by {
            assert(b.obstructs(x, y) == a.obstructs(x, y));
        }
        if a.board_full() {
            assert forall|x: int, y: int| !b.free_cell(x, y) by {
                assert(b.free_cell(x, y) == a.free_cell(x, y));
            }
        }
        if b.board_full() {
            assert forall|x: int, y: int| !a.free_cell(x, y) by {
                assert(b.free_cell(x, y) == a.free_cell(x, y));
            }
        }
        if a.wf_core() {
            assert forall|x: int, y: int|
                #[trigger] b.obstructs(x, y) <==> (b.on_wall(x, y) || b.in_body(x, y)) by {
                assert(b.obstructs(x, y) == a.obstructs(x, y));
                assert(b.in_body(x, y) == a.in_body(x, y));
            }
            assert forall|i: int, j: int|
                0 <= i < j < b.body_len() implies #[trigger] b.body_cell(i)
                != #[trigger] b.body_cell(j) by {
                assert(a.body_cell(i) != a.body_cell(j));
            }
            assert forall|i: int|
                0 <= i < b.body_len() implies b.in_play(
                #[trigger] b.body_cell(i).0,
                b.body_cell(i).1,
            ) by {
                assert(a.in_play(a.body_cell(i).0, a.body_cell(i).1));
            }
        }
    }

    /// One deterministic tick of game physics under the relative action
    /// `action`. The commanded heading is resolved first; then the cell
    /// ahead decides the outcome, tested against the pre-move obstacle
    /// set (so the cell the tail is about to vacate still counts as an
    /// obstacle):
    /// an obstacle yields `Collision` and leaves the scene untouched
    /// (the caller resets); the food cell yields `AppleEaten` and grows
    /// the snake; any other cell yields `Nothing` and moves the snake.
    pub fn play_step(&mut self, action: PlayerStepAction) -> (r: PlayerStepResult)
        requires
            old(self).wf(),
            old(self).frames() < usize::MAX,
            old(self).score() < usize::MAX,
        ensures
            final(self).wf(),
            (r is Collision <==> old(self).obstructs(
                old(self).step_target(action).0,
                old(self).step_target(action).1,
            )),
            (r is AppleEaten <==> !old(self).obstructs(
                old(self).step_target(action).0,
                old(self).step_target(action).1,
            ) && old(self).step_target(action) == old(self).apple()),
            r is Collision ==> *final(self) == *old(self),
            r is AppleEaten ==> old(self).growth_step(*final(self), action),
            r is Nothing ==> old(self).move_step(*final(self), action),
    {
        let orientation = action.rotate(&self.orientation);
        let new_head_pos = orientation.next(&self.head_pos);
        let ghost t = old(self).step_target(action);
        assert((new_head_pos.x as int, new_head_pos.y as int) == t);
        if self.is_collision(&new_head_pos) {
            PlayerStepResult::Collision
        } else if self.apple_pos == new_head_pos {
            let old_head = self.head_pos;
            self.orientation = orientation;
            self.head_pos = new_head_pos;
            self.snake_body_parts.push(old_head);
            self.push_collider(old_head);
            proof {
                let ghost oh = old(self).head();
                assert(self.snake_body_parts@ == old(self).snake_body_parts@.push(old_head));
                assert forall|i: int| 0 <= i < old(self).body_len() implies #[trigger] self
                    .body_cell(i) == old(self).body_cell(i) by {}
                assert(self.body_cell(old(self).body_len() as int) == oh);
                assert forall|x: int, y: int|
                    #[trigger] self.obstructs(x, y) <==> (self.on_wall(x, y) || self.in_body(
                        x,
                        y,
                    )) by {
                    if self.obstructs(x, y) {
                        if old(self).obstructs(x, y) {
                            if old(self).in_body(x, y) {
                                let i = choose|i: int|
                                    0 <= i < old(self).body_len() && old(self).body_cell(i) == (
                                    x,
                                    y,
                                );
                                assert(self.body_cell(i) == (x, y));
                                assert(self.in_body(x, y));
                            }
                        } else {
                            assert((x, y) == oh);
                            assert(self.body_cell(old(self).body_len() as int) == (x, y));
                            assert(self.in_body(x, y));
                        }
                    } else {
                        assert(!old(self).obstructs(x, y) && (x, y) != oh);
                        assert(!self.on_wall(x, y));
                        if self.in_body(x, y) {
                            let i = choose|i: int|
                                0 <= i < self.body_len() && self.body_cell(i) == (x, y);
                            if i < old(self).body_len() {
                                assert(old(self).body_cell(i) == (x, y));
                                assert(old(self).in_body(x, y));
                            } else {
                                assert((x, y) == oh);
                            }
                            assert(false);
                        }
                    }
                }
                assert forall|i: int, j: int| 0 <= i < j < self.body_len() implies #[trigger] self
                    .body_cell(i) != #[trigger] self.body_cell(j) by {
                    if j == old(self).body_len() {
                        if self.body_cell(i) == oh {
                            assert(old(self).body_cell(i) == oh);
                            assert(old(self).in_body(oh.0, oh.1));
                            assert(old(self).obstructs(oh.0, oh.1));
                            assert(false);
                        }
                    } else {
                        assert(old(self).body_cell(i) != old(self).body_cell(j));
                    }
                }
                assert forall|i: int| 0 <= i < self.body_len() implies self.in_play(
                    #[trigger] self.body_cell(i).0,
                    self.body_cell(i).1,
                ) by {
                    if i < old(self).body_len() {
                        assert(old(self).in_play(
                            old(self).body_cell(i).0,
                            old(self).body_cell(i).1,
                        ));
                    }
                }
                // The new head cell was no obstacle, so it is no wall
                // cell; as a neighbour of the old head it lies within
                // the extended rectangle, hence in the play area.
                assert(self.in_play(t.0, t.1));
                assert(!self.obstructs(t.0, t.1));
                assert forall|x: int, y: int|
                    #[trigger] self.obstructs(x, y) <==> (old(self).obstructs(x, y) || (x, y)
                        == oh) by {}
                assert(self.wf_core());
            }
            let ghost grown = *self;
            self.respawn_apple();
            let ghost fed = *self;
            self.punctuation = self.punctuation + 1;
            self.frame_iteration = self.frame_iteration + 1;
            proof {
                Self::lemma_same_geometry(grown, fed);
                Self::lemma_same_geometry(fed, *self);
                assert(self.apple() == fed.apple());
                assert(self.wf_core());
                assert(fed.apple_ok());
                assert(self.free_cell(self.apple().0, self.apple().1) == fed.free_cell(
                    fed.apple().0,
                    fed.apple().1,
                ));
                assert(self.apple_ok());
                assert forall|i: int| 0 <= i < old(self).body_len() implies #[trigger] self
                    .body_cell(i) == old(self).body_cell(i) by {
                    assert(fed.body_cell(i) == grown.body_cell(i));
                    assert(grown.body_cell(i) == old(self).body_cell(i));
                }
                assert(self.body_cell(old(self).body_len() as int) == grown.body_cell(
                    old(self).body_len() as int,
                ));
                assert forall|x: int, y: int|
                    #[trigger] self.obstructs(x, y) <==> (old(self).obstructs(x, y) || (x, y)
                        == old(self).head()) by {
                    assert(self.obstructs(x, y) == fed.obstructs(x, y));
                    assert(fed.obstructs(x, y) == grown.obstructs(x, y));
                }
                assert(old(self).growth_step(*self, action));
            }
            PlayerStepResult::AppleEaten
        } else {
            let old_head = self.head_pos;
            self.orientation = orientation;
            self.head_pos = new_head_pos;
            let tail = self.snake_body_parts.remove(0);
            self.snake_body_parts.push(old_head);
            let tk = key_of(&tail);
            self.colliders.remove(&tk);
            self.push_collider(old_head);
            proof {
                let ghost tc = (tail.x as int, tail.y as int);
                let ghost oh = old(self).head();
                assert(tc == old(self).body_cell(0));
                assert(self.snake_body_parts@ == old(self).snake_body_parts@.remove(0).push(
                    old_head,
                ));
                assert(self.body_len() == old(self).body_len());
                assert forall|i: int| 0 <= i < old(self).body_len() - 1 implies #[trigger] self
                    .body_cell(i) == old(self).body_cell(i + 1) by {
                    assert(self.snake_body_parts@[i] == old(self).snake_body_parts@.remove(0)[i]);
                }
                assert(self.body_cell(old(self).body_len() - 1) == old(self).head());
                assert forall|x: int, y: int|
                    #[trigger] self.obstructs(x, y) <==> ((old(self).obstructs(x, y) && (x, y)
                        != old(self).body_cell(0)) || (x, y) == old(self).head()) by {
                    if coord_in_range(x) && coord_in_range(y) {
                        if pos_key(x, y) == pos_key(tc.0, tc.1) {
                            lemma_pos_key_injective(x, y, tc.0, tc.1);
                        }
                    }
                }
                // The invariant: obstacles are exactly walls plus body.
                assert forall|x: int, y: int|
                    #[trigger] self.obstructs(x, y) <==> (self.on_wall(x, y) || self.in_body(
                        x,
                        y,
                    )) by {
                    assert(self.on_wall(x, y) <==> old(self).on_wall(x, y));
                    assert(self.obstructs(x, y) <==> ((old(self).obstructs(x, y) && (x, y) != tc)
                        || (x, y) == oh));
                    assert(old(self).obstructs(x, y) <==> (old(self).on_wall(x, y) || old(
                        self,
                    ).in_body(x, y)));
                    assert(old(self).in_play(tc.0, tc.1));
                    if self.in_body(x, y) {
                        let i = choose|i: int|
                            0 <= i < self.body_len() && self.body_cell(i) == (x, y);
                        if i < old(self).body_len() - 1 {
                            assert(old(self).body_cell(i + 1) == (x, y));
                            assert(old(self).in_body(x, y));
                            assert((x, y) != old(self).body_cell(0));
                        } else {
                            assert((x, y) == old(self).head());
                        }
                    }
                    if old(self).in_body(x, y) && (x, y) != old(self).body_cell(0) {
                        let i = choose|i: int|
                            0 <= i < old(self).body_len() && old(self).body_cell(i) == (x, y);
                        assert(i != 0);
                        assert(self.body_cell(i - 1) == (x, y));
                        assert(self.in_body(x, y));
                    }
                    if (x, y) == old(self).head() {
                        assert(self.body_cell(old(self).body_len() - 1) == (x, y));
                        assert(self.in_body(x, y));
                    }
                }
                // Body cells stay distinct: the shifted cells were
                // distinct, and the old head cell was on no obstacle,
                // hence in no body cell.
                assert forall|i: int, j: int| 0 <= i < j < self.body_len() implies #[trigger] self
                    .body_cell(i) != #[trigger] self.body_cell(j) by {
                    if j < self.body_len() - 1 {
                        assert(old(self).body_cell(i + 1) != old(self).body_cell(j + 1));
                    } else {
                        assert(self.body_cell(j) == old(self).head());
                        assert(old(self).body_cell(i + 1) != old(self).head());
                    }
                }
                // The food cell stays sound: the head's target cell was
                // free before the move, so the board was not full, and
                // the food cell survives the move untouched.
                assert(old(self).free_cell(t.0, t.1));
                assert(old(self).free_cell(old(self).apple().0, old(self).apple().1));
                assert(self.free_cell(self.apple().0, self.apple().1));
                assert(self.wf_core());
            }
            let ghost moved = *self;
            self.frame_iteration = self.frame_iteration + 1;
            proof {
                Self::lemma_same_geometry(moved, *self);
                assert(self.wf_core());
                assert(self.free_cell(self.apple().0, self.apple().1) == moved.free_cell(
                    moved.apple().0,
                    moved.apple().1,
                ));
                assert(self.apple_ok());
                assert forall|i: int| 0 <= i < old(self).body_len() - 1 implies #[trigger] self
                    .body_cell(i) == old(self).body_cell(i + 1) by {
                    assert(self.body_cell(i) == moved.body_cell(i));
                    assert(moved.body_cell(i) == old(self).body_cell(i + 1));
                }
                assert(self.body_cell(old(self).body_len() - 1) == moved.body_cell(
                    old(self).body_len() - 1,
                ));
                assert forall|x: int, y: int|
                    #[trigger] self.obstructs(x, y) <==> ((old(self).obstructs(x, y) && (x, y)
                        != old(self).body_cell(0)) || (x, y) == old(self).head()) by {
                    assert(self.obstructs(x, y) == moved.obstructs(x, y));
                }
                assert(old(self).move_step(*self, action));
            }
            PlayerStepResult::Nothing
        }
    }

    /// Respawns the snake in its starting pose: a three-cell body
    /// rising from the origin with the head one cell above it, heading
    /// up. The obstacle set must hold exactly the wall ring, and the
    /// spawn column must lie in the play area.
    fn spawn_snake(&mut self)
        requires
            -10000 <= old(self).min_x() <= old(self).max_x() <= 10000,
            -10000 <= old(self).min_y() <= old(self).max_y() <= 10000,
            old(self).in_play(0, 0),
            old(self).in_play(0, 3),
            old(self).snake_body_parts@.len() == 0,
            forall|x: int, y: int| #[trigger] old(self).obstructs(x, y) <==> old(self).on_wall(
                x,
                y,
            ),
        ensures
            final(self).wf_core(),
            final(self).heading() == SnakeOrientation::Up,
            final(self).head() == (0int, 3int),
            final(self).body_len() == 3,
            final(self).body_cell(0) == (0int, 0int),
            final(self).body_cell(1) == (0int, 1int),
            final(self).body_cell(2) == (0int, 2int),
            forall|x: int, y: int|
                #[trigger] final(self).obstructs(x, y) <==> (old(self).on_wall(x, y) || (x, y) == (
                    0int,
                    0int,
                ) || (x, y) == (0int, 1int) || (x, y) == (0int, 2int)),
            final(self).apple_pos == old(self).apple_pos,
            final(self).arena_min_x == old(self).arena_min_x,
            final(self).arena_min_y == old(self).arena_min_y,
            final(self).arena_max_x == old(self).arena_max_x,
            final(self).arena_max_y == old(self).arena_max_y,
            final(self).frame_iteration == old(self).frame_iteration,
            final(self).punctuation == old(self).punctuation,
    {
        self.orientation = SnakeOrientation::Up;
        self.head_pos = GridPos::new(0, 3);
        self.snake_body_parts.push(GridPos::new(0, 0));
        self.snake_body_parts.push(GridPos::new(0, 1));
        self.snake_body_parts.push(GridPos::new(0, 2));
        proof {
            // The spawn column lies in the play area, so none of its
            // cells is a wall cell.
            assert(old(self).in_play(0int, 1int) && old(self).in_play(0int, 2int));
            assert(!old(self).obstructs(0int, 0int));
            assert(!old(self).obstructs(0int, 1int));
            assert(!old(self).obstructs(0int, 2int));
            assert(!old(self).obstructs(0int, 3int));
        }
        self.push_collider(GridPos::new(0, 0));
        let ghost s1 = *self;
        self.push_collider(GridPos::new(0, 1));
        let ghost s2 = *self;
        self.push_collider(GridPos::new(0, 2));
        proof {
            assert(self.body_cell(0) == (0int, 0int));
            assert(self.body_cell(1) == (0int, 1int));
            assert(self.body_cell(2) == (0int, 2int));
            assert forall|x: int, y: int|
                #[trigger] self.obstructs(x, y) <==> (old(self).on_wall(x, y) || (x, y) == (
                    0int,
                    0int,
                ) || (x, y) == (0int, 1int) || (x, y) == (0int, 2int)) by {
                assert(s2.obstructs(x, y) <==> (s1.obstructs(x, y) || (x, y) == (0int, 1int)));
                assert(s1.obstructs(x, y) <==> (old(self).obstructs(x, y) || (x, y) == (
                    0int,
                    0int,
                )));
            }
            assert forall|x: int, y: int|
                #[trigger] self.obstructs(x, y) <==> (self.on_wall(x, y) || self.in_body(
                    x,
                    y,
                )) by {
                assert(self.on_wall(x, y) <==> old(self).on_wall(x, y));
                if self.in_body(x, y) {
                    let i = choose|i: int| 0 <= i < self.body_len() && self.body_cell(i) == (x, y);
                    assert(i == 0 || i == 1 || i == 2);
                }
                if (x, y) == (0int, 0int) {
                    assert(self.body_cell(0) == (x, y));
                }
                if (x, y) == (0int, 1int) {
                    assert(self.body_cell(1) == (x, y));
                }
                if (x, y) == (0int, 2int) {
                    assert(self.body_cell(2) == (x, y));
                }
            }
            assert(self.wf_core());
        }
    }

    /// Clears the snake from the obstacle set and re-initializes the
    /// episode: starting pose at the origin, food on a free cell, both
    /// counters at zero. The walls stay as they were built.
    pub fn reset(&mut self)
        requires
            old(self).wf(),
            old(self).in_play(0, 0),
            old(self).in_play(0, 3),
        ensures
            final(self).wf(),
            old(self).same_arena(*final(self)),
            final(self).heading() == SnakeOrientation::Up,
            final(self).head() == (0int, 3int),
            final(self).body_len() == 3,
            final(self).body_cell(0) == (0int, 0int),
            final(self).body_cell(1) == (0int, 1int),
            final(self).body_cell(2) == (0int, 2int),
            final(self).frames() == 0,
            final(self).score() == 0,
    {
        self.frame_iteration = 0;
        self.punctuation = 0;
        proof {
            assert(self.snake_body_parts@ =~= old(self).snake_body_parts@.take(
                self.snake_body_parts@.len() as int,
            ));
        }
        while self.snake_body_parts.len() > 0
            invariant
                self.snake_body_parts@.len() <= old(self).snake_body_parts@.len(),
                self.snake_body_parts@ == old(self).snake_body_parts@.take(
                    self.snake_body_parts@.len() as int,
                ),
                self.head_pos == old(self).head_pos,
                self.orientation == old(self).orientation,
                self.apple_pos == old(self).apple_pos,
                self.arena_min_x == old(self).arena_min_x,
                self.arena_min_y == old(self).arena_min_y,
                self.arena_max_x == old(self).arena_max_x,
                self.arena_max_y == old(self).arena_max_y,
                self.frame_iteration == 0,
                self.punctuation == 0,
                old(self).wf(),
                forall|x: int, y: int|
                    #[trigger] self.obstructs(x, y) <==> (old(self).obstructs(x, y)
                        && !cell_in_suffix(
                        old(self).snake_body_parts@,
                        self.snake_body_parts@.len() as int,
                        x,
                        y,
                    )),
            decreases self.snake_body_parts@.len(),
        {
            let ghost at_entry = *self;
            let p = self.snake_body_parts.pop().unwrap();
            let k = key_of(&p);
            self.colliders.remove(&k);
            proof {
                let ghost s = old(self).snake_body_parts@;
                let ghost n = self.snake_body_parts@.len() as int;
                assert(self.snake_body_parts@ =~= s.take(n));
                assert(p == s[n]);
                assert forall|x: int, y: int|
                    #[trigger] self.obstructs(x, y) <==> (old(self).obstructs(x, y)
                        && !cell_in_suffix(s, n, x, y)) by {
                    assert(at_entry.obstructs(x, y) <==> (old(self).obstructs(x, y)
                        && !cell_in_suffix(s, n + 1, x, y)));
                    if coord_in_range(x) && coord_in_range(y) {
                        if pos_key(x, y) == pos_key(p.x as int, p.y as int) {
                            lemma_pos_key_injective(x, y, p.x as int, p.y as int);
                        }
                    }
                    if cell_in_suffix(s, n, x, y) {
                        let j = choose|j: int|
                            n <= j < s.len() && (s[j].x as int, s[j].y as int) == (x, y);
                        if j == n {
                            assert((x, y) == (p.x as int, p.y as int));
                        } else {
                            assert(n + 1 <= j < s.len() && (s[j].x as int, s[j].y as int) == (
                            x, y));
                            assert(cell_in_suffix(s, n + 1, x, y));
                        }
                    }
                    if cell_in_suffix(s, n + 1, x, y) {
                        let j = choose|j: int|
                            n + 1 <= j < s.len() && (s[j].x as int, s[j].y as int) == (x, y);
                        assert(n <= j < s.len() && (s[j].x as int, s[j].y as int) == (x, y));
                        assert(cell_in_suffix(s, n, x, y));
                    }
                    if (x, y) == (p.x as int, p.y as int) {
                        assert(n <= n < s.len() && (s[n].x as int, s[n].y as int) == (x, y));
                        assert(cell_in_suffix(s, n, x, y));
                    }
                }
            }
        }
        proof {
            let ghost s = old(self).snake_body_parts@;
            assert forall|x: int, y: int| #[trigger] self.obstructs(x, y) <==> self.on_wall(
                x,
                y,
            ) by {
                assert(self.on_wall(x, y) <==> old(self).on_wall(x, y));
                if cell_in_suffix(s, 0, x, y) {
                    let j = choose|j: int|
                        0 <= j < s.len() && (s[j].x as int, s[j].y as int) == (x, y);
                    assert(old(self).body_cell(j) == (x, y));
                    assert(old(self).in_body(x, y));
                }
                if old(self).in_body(x, y) {
                    let i = choose|i: int|
                        0 <= i < old(self).body_len() && old(self).body_cell(i) == (x, y);
                    assert(old(self).in_play(
                        old(self).body_cell(i).0,
                        old(self).body_cell(i).1,
                    ));
                    assert(0 <= i < s.len() && (s[i].x as int, s[i].y as int) == (x, y));
                    assert(cell_in_suffix(s, 0, x, y));
                }
            }
        }
        self.spawn_snake();
        let ghost spawned = *self;
        self.respawn_apple();
        proof {
            Self::lemma_same_geometry(spawned, *self);
            assert(self.wf_core());
            assert forall|i: int| 0 <= i < 3 implies #[trigger] self.body_cell(i)
                == spawned.body_cell(i) by {}
            assert(self.wf());
        }
    }

    /// Places the food on a cell drawn uniformly from the free cells of
    /// the play area. When the snake leaves no free cell, the food is
    /// left where it is.
    fn respawn_apple(&mut self)
        requires
            old(self).wf_core(),
            old(self).in_play(old(self).apple().0, old(self).apple().1),
        ensures
            final(self).apple_ok(),
            final(self).head_pos == old(self).head_pos,
            final(self).orientation == old(self).orientation,
            final(self).snake_body_parts == old(self).snake_body_parts,
            final(self).colliders == old(self).colliders,
            final(self).arena_min_x == old(self).arena_min_x,
            final(self).arena_min_y == old(self).arena_min_y,
            final(self).arena_max_x == old(self).arena_max_x,
            final(self).arena_max_y == old(self).arena_max_y,
            final(self).frame_iteration == old(self).frame_iteration,
            final(self).punctuation == old(self).punctuation,
    {
        let mut free_cells: Vec<GridPos> = Vec::new();
        let mut x = self.arena_min_x;
        while x <= self.arena_max_x
            invariant
                *self == *old(self),
                self.wf_core(),
                self.min_x() <= x as int <= self.max_x() + 1,
                forall|i: int|
                    0 <= i < free_cells@.len() ==> self.free_cell(
                        #[trigger] free_cells@[i].x as int,
                        free_cells@[i].y as int,
                    ),
                forall|a: int, b: int|
                    #[trigger] self.free_cell(a, b) && a < x as int ==> seq_has_cell(
                        free_cells@,
                        a,
                        b,
                    ),
            decreases self.max_x() + 1 - x,
        {
            let mut y = self.arena_min_y;
            while y <= self.arena_max_y
                invariant
                    *self == *old(self),
                    self.wf_core(),
                    self.min_x() <= x as int <= self.max_x(),
                    self.min_y() <= y as int <= self.max_y() + 1,
                    forall|i: int|
                        0 <= i < free_cells@.len() ==> self.free_cell(
                            #[trigger] free_cells@[i].x as int,
                            free_cells@[i].y as int,
                        ),
                    forall|a: int, b: int|
                        #[trigger] self.free_cell(a, b) && (a < x as int || (a == x as int && b < y
                            as int)) ==> seq_has_cell(free_cells@, a, b),
                decreases self.max_y() + 1 - y,
            {
                let p = GridPos::new(x, y);
                let ghost pre_cells = free_cells@;
                if !self.is_collision(&p) && !(p == self.head_pos) {
                    free_cells.push(p);
                }
                proof {
                    assert forall|a: int, b: int|
                        #[trigger] self.free_cell(a, b) && (a < x as int || (a == x as int && b < y
                            as int + 1)) implies seq_has_cell(free_cells@, a, b) by {
                        if a == x as int && b == y as int {
                            assert(free_cells@[free_cells@.len() - 1] == p);
                        } else {
                            assert(seq_has_cell(pre_cells, a, b));
                            let i = choose|i: int|
                                0 <= i < pre_cells.len() && (pre_cells[i].x as int,
                                pre_cells[i].y as int) == (a, b);
                            assert((free_cells@[i].x as int, free_cells@[i].y as int) == (a, b));
                        }
                    }
                }
                y = y + 1;
            }
            x = x + 1;
        }
        if free_cells.len() > 0 {
            let idx = crate::rng::rand_below(free_cells.len());
            self.apple_pos = free_cells[idx];
        } else {
            assert forall|a: int, b: int| !self.free_cell(a, b) by {
                if self.free_cell(a, b) {
                    assert(seq_has_cell(free_cells@, a, b));
                }
            }
        }
    }

    /// The head cell.
    pub fn head_position(&self) -> (p: GridPos)
        ensures
            (p.x as int, p.y as int) == self.head(),
    {
        self.head_pos
    }

    /// The current heading.
    pub fn head_orientation(&self) -> (o: SnakeOrientation)
        ensures
            o == self.heading(),
    {
        self.orientation
    }

    /// The food cell.
    pub fn apple_position(&self) -> (p: GridPos)
        ensures
            (p.x as int, p.y as int) == self.apple(),
    {
        self.apple_pos
    }

    /// The body cells behind the head, ordered tail first.
    pub fn body_parts(&self) -> (b: &Vec<GridPos>)
        ensures
            b@.len() == self.body_len(),
            forall|i: int|
                0 <= i < b@.len() ==> (#[trigger] b@[i].x as int, b@[i].y as int)
                    == self.body_cell(i),
    {
        &self.snake_body_parts
    }

    /// How many body cells trail behind the head.
    pub fn snake_len(&self) -> (n: usize)
        ensures
            n == self.body_len(),
    {
        self.snake_body_parts.len()
    }

    /// Moves the food to the given cell, which must be free: in the
    /// play area, off every obstacle, and away from the head.
    pub fn set_apple(&mut self, pos: GridPos)
        requires
            old(self).wf_core(),
            old(self).free_cell(pos.x as int, pos.y as int),
        ensures
            final(self).wf(),
            final(self).apple() == (pos.x as int, pos.y as int),
            old(self).same_arena(*final(self)),
            final(self).heading() == old(self).heading(),
            final(self).head() == old(self).head(),
            final(self).body_len() == old(self).body_len(),
            forall|i: int| #[trigger] final(self).body_cell(i) == old(self).body_cell(i),
            forall|x: int, y: int|
                #[trigger] final(self).obstructs(x, y) == old(self).obstructs(x, y),
            final(self).frames() == old(self).frames(),
            final(self).score() == old(self).score(),
    {
        self.apple_pos = pos;
        proof {
            Self::lemma_same_geometry(*old(self), *self);
            assert(self.free_cell(pos.x as int, pos.y as int) == old(self).free_cell(
                pos.x as int,
                pos.y as int,
            ));
        }
    }

    /// The reward and the episode-over flag that one tick's outcome
    /// earns the learning agent: an apple is worth 10; a collision
    /// costs 10 and ends the episode, as does starving (an uneventful
    /// tick once the frame counter exceeds 100 ticks per body cell);
    /// any other uneventful tick is worth nothing. A collision also
    /// counts the frame that `play_step` refused to advance.
    pub fn step_feedback(&mut self, result: &PlayerStepResult) -> (r: (i32, bool))
        requires
            *result is Collision ==> old(self).frames() < usize::MAX,
        ensures
            *result is Nothing ==> *final(self) == *old(self) && r == (
                if old(self).frames() > 100 * old(self).body_len() {
                    ((-10i32), true)
                } else {
                    (0i32, false)
                }
            ),
            *result is AppleEaten ==> *final(self) == *old(self) && r == (10i32, false),
            *result is Collision ==> {
                &&& r == ((-10i32), true)
                &&& final(self).frames() == old(self).frames() + 1
                &&& final(self).score() == old(self).score()
                &&& final(self).heading() == old(self).heading()
                &&& final(self).head() == old(self).head()
                &&& final(self).apple() == old(self).apple()
                &&& final(self).body_len() == old(self).body_len()
                &&& forall|i: int| #[trigger] final(self).body_cell(i) == old(self).body_cell(i)
                &&& forall|x: int, y: int|
                    #[trigger] final(self).obstructs(x, y) == old(self).obstructs(x, y)
                &&& old(self).same_arena(*final(self))
                &&& (old(self).wf() ==> final(self).wf())
            },
    {
        match result {
            PlayerStepResult::Nothing => {
                if (self.frame_iteration as u128) > 100u128 * (self.snake_body_parts.len()
                    as u128) {
                    (-10, true)
                } else {
                    (0, false)
                }
            },
            PlayerStepResult::AppleEaten => (10, false),
            PlayerStepResult::Collision => {
                self.frame_iteration = self.frame_iteration + 1;
                proof {
                    Self::lemma_same_geometry(*old(self), *self);
                    if old(self).wf() {
                        assert(self.free_cell(self.apple().0, self.apple().1) == old(
                            self,
                        ).free_cell(old(self).apple().0, old(self).apple().1));
                    }
                }
                (-10, true)
            },
        }
    }
}

/// Builds a fresh scene over the play rectangle
/// `[min_x, max_x] x [min_y, max_y]`: a ring of border walls around
/// it, the snake in its starting pose rising from the origin, food
/// on a free cell, and both counters at zero.
pub fn init_scene(
    arena_min_x: i32,
    arena_min_y: i32,
    arena_max_x: i32,
    arena_max_y: i32,
) -> (s: Scene)
    requires
        -10000 <= arena_min_x as int <= arena_max_x as int <= 10000,
        -10000 <= arena_min_y as int <= arena_max_y as int <= 10000,
        arena_min_x as int <= 0 <= arena_max_x as int,
        arena_min_y as int <= 0,
        3 <= arena_max_y as int,
    ensures
        s.wf(),
        s.min_x() == arena_min_x as int,
        s.min_y() == arena_min_y as int,
        s.max_x() == arena_max_x as int,
        s.max_y() == arena_max_y as int,
        s.heading() == SnakeOrientation::Up,
        s.head() == (0int, 3int),
        s.body_len() == 3,
        s.body_cell(0) == (0int, 0int),
        s.body_cell(1) == (0int, 1int),
        s.body_cell(2) == (0int, 2int),
        s.frames() == 0,
        s.score() == 0,
{
    let mut s = Scene {
        head_pos: GridPos::new(0, 0),
        orientation: SnakeOrientation::Up,
        snake_body_parts: Vec::new(),
        apple_pos: GridPos::new(0, 0),
        colliders: HashSet::new(),
        arena_min_x: arena_min_x,
        arena_min_y: arena_min_y,
        arena_max_x: arena_max_x,
        arena_max_y: arena_max_y,
        frame_iteration: 0,
        punctuation: 0,
    };
    let mut x = arena_min_x - 1;
    while x <= arena_max_x + 1
        invariant
            s.arena_min_x == arena_min_x,
            s.arena_min_y == arena_min_y,
            s.arena_max_x == arena_max_x,
            s.arena_max_y == arena_max_y,
            -10000 <= arena_min_x as int <= arena_max_x as int <= 10000,
            -10000 <= arena_min_y as int <= arena_max_y as int <= 10000,
            s.head_pos.x == 0 && s.head_pos.y == 0,
            s.apple_pos.x == 0 && s.apple_pos.y == 0,
            s.orientation == SnakeOrientation::Up,
            s.snake_body_parts@.len() == 0,
            s.frame_iteration == 0,
            s.punctuation == 0,
            arena_min_x as int - 1 <= x as int <= arena_max_x as int + 2,
            forall|a: int, b: int|
                #[trigger] s.obstructs(a, b) <==> ((b == arena_min_y as int - 1 || b
                    == arena_max_y as int + 1) && arena_min_x as int - 1 <= a < x as int),
        decreases arena_max_x as int + 2 - x as int,
    {
        let ghost s0 = s;
        s.push_collider(GridPos::new(x, arena_min_y - 1));
        let ghost s1 = s;
        s.push_collider(GridPos::new(x, arena_max_y + 1));
        proof {
            assert forall|a: int, b: int|
                #[trigger] s.obstructs(a, b) <==> ((b == arena_min_y as int - 1 || b
                    == arena_max_y as int + 1) && arena_min_x as int - 1 <= a < x as int
                    + 1) by {
                assert(s1.obstructs(a, b) <==> (s0.obstructs(a, b) || (a, b) == (
                x as int, arena_min_y as int - 1)));
            }
        }
        x = x + 1;
    }
    let mut y = arena_min_y;
    while y <= arena_max_y
        invariant
            s.arena_min_x == arena_min_x,
            s.arena_min_y == arena_min_y,
            s.arena_max_x == arena_max_x,
            s.arena_max_y == arena_max_y,
            -10000 <= arena_min_x as int <= arena_max_x as int <= 10000,
            -10000 <= arena_min_y as int <= arena_max_y as int <= 10000,
            s.head_pos.x == 0 && s.head_pos.y == 0,
            s.apple_pos.x == 0 && s.apple_pos.y == 0,
            s.orientation == SnakeOrientation::Up,
            s.snake_body_parts@.len() == 0,
            s.frame_iteration == 0,
            s.punctuation == 0,
            arena_min_y as int <= y as int <= arena_max_y as int + 1,
            forall|a: int, b: int|
                #[trigger] s.obstructs(a, b) <==> (((b == arena_min_y as int - 1 || b
                    == arena_max_y as int + 1) && arena_min_x as int - 1 <= a <= arena_max_x
                    as int + 1) || ((a == arena_min_x as int - 1 || a == arena_max_x as int
                    + 1) && arena_min_y as int <= b < y as int)),
        decreases arena_max_y as int + 1 - y as int,
    {
        let ghost s0 = s;
        s.push_collider(GridPos::new(arena_min_x - 1, y));
        let ghost s1 = s;
        s.push_collider(GridPos::new(arena_max_x + 1, y));
        proof {
            assert forall|a: int, b: int|
                #[trigger] s.obstructs(a, b) <==> (((b == arena_min_y as int - 1 || b
                    == arena_max_y as int + 1) && arena_min_x as int - 1 <= a <= arena_max_x
                    as int + 1) || ((a == arena_min_x as int - 1 || a == arena_max_x as int
                    + 1) && arena_min_y as int <= b < y as int + 1)) by {
                assert(s1.obstructs(a, b) <==> (s0.obstructs(a, b) || (a, b) == (
                arena_min_x as int - 1, y as int)));
            }
        }
        y = y + 1;
    }
    proof {
        assert forall|a: int, b: int| #[trigger] s.obstructs(a, b) <==> s.on_wall(a, b) by {}
    }
    s.spawn_snake();
    proof {
        assert(s.in_play(s.apple().0, s.apple().1));
    }
    let ghost spawned = s;
    s.respawn_apple();
    proof {
        Scene::lemma_same_geometry(spawned, s);
        assert(s.wf_core());
        assert forall|i: int| 0 <= i < 3 implies #[trigger] s.body_cell(i)
            == spawned.body_cell(i) by {}
        assert(s.wf());
    }
    s
}


} // verus!
