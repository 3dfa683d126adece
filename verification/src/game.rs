//! The world: a player and walls on a grid, its drawing as text and on a minimap, and rays
//! shot through it.

use vstd::prelude::*;
use vstd::std_specs::cmp::PartialEqSpec;
use vstd::std_specs::ops::DivSpec;
use vstd::std_specs::ops::MulSpec;
use vstd::std_specs::ops::SubSpec;
use crate::pixel_buf::Canvas;
use crate::pixel_buf::Color;
use crate::pixel_buf::PixelBuffer;
use crate::primitive::lemma_of_small_int;
use crate::primitive::FromPrimitive;
use crate::primitive::Primitive;
use crate::primitive::ToPrimitive;
use crate::ray::Ray;
use crate::ray::RayView;
use crate::rect::Rect;
use crate::scalar::half;
use crate::scalar::half_spec;
use crate::scalar::obeys;
use crate::scalar::zero;
use crate::scalar::zero_spec;
use crate::scalar::Scalar;
use crate::vec2::Vec2;

verus! {

/// Where the player stands and where the player faces.
#[derive(Debug, Clone, Copy, Default)]
pub struct Player<T: Copy> {
    pub position: Vec2<T>,
    /// The facing, expected to be of length one.
    pub direction: Vec2<T>,
}

impl<T: Copy> Player<T> {
    /// A player at `position` who faces along `direction`.
    pub fn new(position: Vec2<T>, direction: Vec2<T>) -> (p: Self)
        ensures
            p == (Player { position, direction }),
    {
        Self { position, direction }
    }
}

/// What a wall is made of.
#[derive(Clone, Copy, Debug, PartialEq, Eq, PartialOrd, Ord, Structural)]
pub enum WallKind {
    Basic,
}

/// One occupied cell of the grid.
#[derive(Clone, Copy, Debug)]
pub struct Wall {
    pub kind: WallKind,
    pub position: Vec2<i32>,
}

impl Wall {
    /// A wall of the given kind in the cell `position`.
    pub fn new(kind: WallKind, position: Vec2<i32>) -> (w: Self)
        ensures
            w == (Wall { kind, position }),
    {
        Self { kind, position }
    }
}

/// The world: one player, and the walls in the order in which they were added. Two walls
/// may stand in one cell; the one added first is the one that is found there.
#[derive(Debug, Clone)]
pub struct Game<T: Copy> {
    pub player: Player<T>,
    pub walls: Vec<Wall>,
}

/// The side of the square minimap, in cells of the buffer.
pub const MINIMAP_SIZE: usize = 100;

/// The side of one tile of the world on the minimap, in cells of the buffer.
pub const MINIMAP_TILE_SIZE: usize = 5;

/// How many cells long the player's facing is drawn.
pub const MINIMAP_FACING: i128 = 20;

/// How many points a ray shot into the world is read at.
pub const RAY_SAMPLES: i128 = 100;

/// The colour of the edge of the minimap: blue. A minimap without an edge has none.
pub open spec fn minimap_border_spec() -> Option<Color> {
    Some(Color { r: 0, g: 0, b: 255, a: 255 })
}

/// The colour of the edge of the minimap, if it is to have one.
pub fn minimap_border() -> (c: Option<Color>)
    ensures
        c == minimap_border_spec(),
{
    Some(Color::blue())
}

/// `a` comes before `b` in the order of vectors: by `x` first, then by `y`.
pub open spec fn lex_lt(a: Vec2<i32>, b: Vec2<i32>) -> bool {
    a.x < b.x || (a.x == b.x && a.y < b.y)
}

/// The first position in the order of vectors; the origin where there is no wall.
pub open spec fn lex_min(walls: Seq<Wall>) -> Vec2<i32>
    decreases walls.len(),
{
    if walls.len() == 0 {
        Vec2 { x: 0, y: 0 }
    } else if walls.len() == 1 {
        walls[0].position
    } else if lex_lt(walls.last().position, lex_min(walls.drop_last())) {
        walls.last().position
    } else {
        lex_min(walls.drop_last())
    }
}

/// The last position in the order of vectors; the origin where there is no wall.
pub open spec fn lex_max(walls: Seq<Wall>) -> Vec2<i32>
    decreases walls.len(),
{
    if walls.len() == 0 {
        Vec2 { x: 0, y: 0 }
    } else if walls.len() == 1 {
        walls[0].position
    } else if lex_lt(lex_max(walls.drop_last()), walls.last().position) {
        walls.last().position
    } else {
        lex_max(walls.drop_last())
    }
}

/// `a` does not come after `b` in the order of vectors.
pub open spec fn lex_le(a: Vec2<i32>, b: Vec2<i32>) -> bool {
    !lex_lt(b, a)
}

/// The first and the last position in the order of vectors are positions of walls, and every
/// wall position lies between them.
pub proof fn lemma_lex_bounds(walls: Seq<Wall>)
    requires
        walls.len() > 0,
    ensures
        exists|i: int| 0 <= i < walls.len() && walls[i].position == lex_min(walls),
        exists|i: int| 0 <= i < walls.len() && walls[i].position == lex_max(walls),
        forall|j: int|
            0 <= j < walls.len() ==> lex_le(lex_min(walls), #[trigger] walls[j].position) && lex_le(
                walls[j].position,
                lex_max(walls),
            ),
    decreases walls.len(),
{
    if walls.len() == 1 {
        assert(walls[0].position == lex_min(walls));
        assert(walls[0].position == lex_max(walls));
    } else {
        let rest = walls.drop_last();
        lemma_lex_bounds(rest);
        let lo = choose|i: int| 0 <= i < rest.len() && rest[i].position == lex_min(rest);
        let hi = choose|i: int| 0 <= i < rest.len() && rest[i].position == lex_max(rest);
        assert(walls[lo] == rest[lo] && walls[hi] == rest[hi]);
        let last = walls.len() - 1;
        if lex_lt(walls.last().position, lex_min(rest)) {
            assert(walls[last].position == lex_min(walls));
        } else {
            assert(walls[lo].position == lex_min(walls));
        }
        if lex_lt(lex_max(rest), walls.last().position) {
            assert(walls[last].position == lex_max(walls));
        } else {
            assert(walls[hi].position == lex_max(walls));
        }
        assert forall|j: int| 0 <= j < walls.len() implies lex_le(
            lex_min(walls),
            #[trigger] walls[j].position,
        ) && lex_le(walls[j].position, lex_max(walls)) by {
            if j < last {
                assert(walls[j] == rest[j]);
            }
        }
    }
}

/// `i` is the first wall that stands in `cell`.
pub open spec fn is_first_at(walls: Seq<Wall>, cell: Vec2<i32>, i: int) -> bool {
    &&& 0 <= i < walls.len()
    &&& walls[i].position == cell
    &&& forall|j: int| 0 <= j < i ==> walls[j].position != cell
}

/// Some wall stands in `cell`.
pub open spec fn occupied(walls: Seq<Wall>, cell: Vec2<i32>) -> bool {
    exists|i: int| 0 <= i < walls.len() && walls[i].position == cell
}

impl<T: Copy> Game<T> {
    /// The world with its player replaced.
    pub fn with_player(self, p: Player<T>) -> (g: Self)
        ensures
            g.player == p,
            g.walls@ == self.walls@,
    {
        let mut g = self;
        g.player = p;
        g
    }

    /// The world with its player moved to `pos`.
    pub fn with_player_position(self, pos: Vec2<T>) -> (g: Self)
        ensures
            g.player == (Player { position: pos, direction: self.player.direction }),
            g.walls@ == self.walls@,
    {
        let mut g = self;
        g.player.position = pos;
        g
    }

    /// The world with its player turned to face along `dir`.
    pub fn with_player_direction(self, dir: Vec2<T>) -> (g: Self)
        ensures
            g.player == (Player { position: self.player.position, direction: dir }),
            g.walls@ == self.walls@,
    {
        let mut g = self;
        g.player.direction = dir;
        g
    }

    /// The world with one more wall, added after all the others.
    pub fn with_wall(self, wall: Wall) -> (g: Self)
        ensures
            g.player == self.player,
            g.walls@ == self.walls@.push(wall),
    {
        let mut g = self;
        g.walls.push(wall);
        g
    }

    /// The world with more walls, added in their order after all the others.
    pub fn with_walls(self, walls: &[Wall]) -> (g: Self)
        ensures
            g.player == self.player,
            g.walls@ == self.walls@ + walls@,
    {
        let mut g = self;
        let mut i: usize = 0;
        while i < walls.len()
            invariant
                i <= walls@.len(),
                g.player == self.player,
                g.walls@ == self.walls@ + walls@.take(i as int),
            decreases walls@.len() - i,
        {
            g.walls.push(walls[i]);
            i += 1;
            assert(g.walls@ =~= self.walls@ + walls@.take(i as int));
        }
        assert(walls@.take(i as int) =~= walls@);
        g
    }

    /// The player.
    pub fn player(&self) -> (p: &Player<T>)
        ensures
            *p == self.player,
    {
        &self.player
    }

    /// The walls, in the order in which they were added.
    pub fn walls(&self) -> (w: &Vec<Wall>)
        ensures
            w@ == self.walls@,
    {
        &self.walls
    }

    /// The index of the first wall that stands in `cell`.
    fn index_at(&self, cell: Vec2<i32>) -> (r: Option<usize>)
        ensures
            match r {
                Some(i) => is_first_at(self.walls@, cell, i as int),
                None => !occupied(self.walls@, cell),
            },
    {
        let mut i: usize = 0;
        while i < self.walls.len()
            invariant
                i <= self.walls@.len(),
                forall|j: int| 0 <= j < i ==> self.walls@[j].position != cell,
            decreases self.walls@.len() - i,
        {
            if self.walls[i].position.x == cell.x && self.walls[i].position.y == cell.y {
                return Some(i);
            }
            i += 1;
        }
        None
    }

    /// The wall that stands where `pos` falls on the grid; of several, the one added first.
    pub fn wall_at<P: Copy + ToPrimitive>(&self, pos: Vec2<P>) -> (r: Option<&Wall>)
        ensures
            match r {
                Some(w) => exists|i: int|
                    is_first_at(self.walls@, pos.cast_spec::<i32>(), i) && *w == self.walls@[i],
                None => !occupied(self.walls@, pos.cast_spec::<i32>()),
            },
    {
        match self.index_at(pos.cast::<i32>()) {
            Some(i) => Some(&self.walls[i]),
            None => None,
        }
    }

    /// The first and the last wall position in the order of vectors.
    fn bounds(&self) -> (r: (Vec2<i32>, Vec2<i32>))
        ensures
            r.0 == lex_min(self.walls@),
            r.1 == lex_max(self.walls@),
    {
        if self.walls.len() == 0 {
            return (Vec2::new(0, 0), Vec2::new(0, 0));
        }
        let mut lo = self.walls[0].position;
        let mut hi = self.walls[0].position;
        let mut i: usize = 1;
        assert(self.walls@.take(1).len() == 1);
        while i < self.walls.len()
            invariant
                1 <= i <= self.walls@.len(),
                lo == lex_min(self.walls@.take(i as int)),
                hi == lex_max(self.walls@.take(i as int)),
            decreases self.walls@.len() - i,
        {
            let p = self.walls[i].position;
            assert(self.walls@.take(i + 1).drop_last() =~= self.walls@.take(i as int));
            if p.x < lo.x || (p.x == lo.x && p.y < lo.y) {
                lo = p;
            }
            if hi.x < p.x || (hi.x == p.x && hi.y < p.y) {
                hi = p;
            }
            i += 1;
        }
        assert(self.walls@.take(i as int) =~= self.walls@);
        (lo, hi)
    }
}

impl<T: Copy + FromPrimitive<Primitive>> Game<T> {
    /// A world without walls, the player at the origin and facing down the `y` axis.
    pub fn new() -> (g: Self)
        ensures
            g.walls@.len() == 0,
            g.player.position == (Vec2 { x: zero_spec::<T>(), y: zero_spec::<T>() }),
            g.player.direction == (Vec2 {
                x: zero_spec::<T>(),
                y: T::from_primitive_spec(Primitive::of_int(-1)),
            }),
    {
        Self {
            player: Player::new(
                Vec2::new(zero(), zero()),
                Vec2::new(zero(), T::from_primitive(Primitive::from_signed(-1))),
            ),
            walls: Vec::new(),
        }
    }
}

impl<T: Copy + ToPrimitive> Game<T> {
    /// The cell that the player stands in.
    pub open spec fn player_cell(&self) -> Vec2<i32> {
        self.player.position.cast_spec::<i32>()
    }

    /// How the cell `(x, y)` is drawn: the player, a wall or nothing.
    pub open spec fn cell_char(&self, x: int, y: int) -> char {
        if self.player_cell().x == x && self.player_cell().y == y {
            'p'
        } else if exists|i: int|
            {
                &&& 0 <= i < self.walls@.len()
                &&& self.walls@[i].position.x == x
                &&& self.walls@[i].position.y == y
            } {
            'x'
        } else {
            ' '
        }
    }

    /// How many columns the drawing has.
    pub open spec fn ascii_columns(&self) -> nat {
        if lex_min(self.walls@).x <= lex_max(self.walls@).x {
            (lex_max(self.walls@).x - lex_min(self.walls@).x + 1) as nat
        } else {
            0
        }
    }

    /// How many rows the drawing has.
    pub open spec fn ascii_rows(&self) -> nat {
        if lex_min(self.walls@).y <= lex_max(self.walls@).y {
            (lex_max(self.walls@).y - lex_min(self.walls@).y + 1) as nat
        } else {
            0
        }
    }

    /// The row of the drawing for the grid row `y`.
    pub open spec fn ascii_row(&self, y: int) -> Seq<char> {
        Seq::new(self.ascii_columns(), |k: int| self.cell_char(lex_min(self.walls@).x + k, y))
    }

    /// The world as text, one string for each grid row between the first and the last wall
    /// position in the order of vectors, and in each a character for each column between
    /// them: `p` for the player's cell, `x` for a wall, a space for anything else.
    pub fn ascii_walls(&self) -> (rows: Vec<String>)
        ensures
            rows@.len() == self.ascii_rows(),
            forall|r: int|
                0 <= r < rows@.len() ==> (#[trigger] rows@[r])@ == self.ascii_row(
                    lex_min(self.walls@).y + r,
                ),
    {
        let player_cell = self.player.position.cast::<i32>();
        let (lo, hi) = self.bounds();
        let mut rows: Vec<String> = Vec::new();
        let mut y: i64 = lo.y as i64;
        while y <= hi.y as i64
            invariant
                lo == lex_min(self.walls@),
                hi == lex_max(self.walls@),
                player_cell == self.player_cell(),
                lo.y <= y,
                y <= hi.y + 1 || y == lo.y,
                rows@.len() == y - lo.y,
                forall|r: int|
                    0 <= r < rows@.len() ==> (#[trigger] rows@[r])@ == self.ascii_row(lo.y + r),
            decreases hi.y + 1 - y,
        {
            let mut s = String::new();
            let mut x: i64 = lo.x as i64;
            while x <= hi.x as i64
                invariant
                    lo == lex_min(self.walls@),
                    hi == lex_max(self.walls@),
                    player_cell == self.player_cell(),
                    lo.y <= y <= hi.y,
                    lo.x <= x,
                    x <= hi.x + 1 || x == lo.x,
                    s@.len() == x - lo.x,
                    forall|k: int|
                        0 <= k < s@.len() ==> s@[k] == self.cell_char(lo.x + k, y as int),
                decreases hi.x + 1 - x,
            {
                let cur = Vec2::new(x as i32, y as i32);
                proof {
                    reveal_strlit("p");
                    reveal_strlit("x");
                    reveal_strlit(" ");
                }
                if player_cell.x == cur.x && player_cell.y == cur.y {
                    s.append("p");
                } else {
                    match self.index_at(cur) {
                        Some(_) => {
                            s.append("x");
                        },
                        None => {
                            s.append(" ");
                        },
                    }
                }
                x += 1;
            }
            assert(s@ =~= self.ascii_row(y as int));
            rows.push(s);
            y += 1;
        }
        rows
    }
}

/// The first wall that stands in `cell`.
pub open spec fn first_wall(walls: Seq<Wall>, cell: Vec2<i32>) -> Option<Wall> {
    if occupied(walls, cell) {
        Some(walls[choose|i: int| is_first_at(walls, cell, i)])
    } else {
        None
    }
}

/// Only one wall is the first that stands in a cell.
pub proof fn lemma_first_wall(walls: Seq<Wall>, cell: Vec2<i32>, i: int)
    requires
        is_first_at(walls, cell, i),
    ensures
        first_wall(walls, cell) == Some(walls[i]),
{
    let c = choose|c: int| is_first_at(walls, cell, c);
    assert(is_first_at(walls, cell, c));
    assert(c == i);
}

/// The points of `points` at which a wall stands, in order, each with the first wall
/// that stands there.
pub open spec fn hits_of<T: Copy + ToPrimitive>(walls: Seq<Wall>, points: Seq<Vec2<T>>) -> Seq<
    (Vec2<T>, Wall),
>
    decreases points.len(),
{
    if points.len() == 0 {
        Seq::empty()
    } else {
        match first_wall(walls, points.last().cast_spec::<i32>()) {
            Some(w) => hits_of(walls, points.drop_last()).push((points.last(), w)),
            None => hits_of(walls, points.drop_last()),
        }
    }
}

impl<T: Scalar> Game<T> {
    /// The bound on the points of a ray shot into the world: a hundred.
    pub open spec fn ray_limit() -> T {
        T::from_primitive_spec(Primitive::of_int(RAY_SAMPLES as int))
    }

    /// The distance between two points of a ray shot into the world: one half.
    pub open spec fn ray_step() -> T {
        half_spec::<T>()
    }

    /// The ray that `shoot_ray` builds, before any point is read.
    pub open spec fn fresh_ray(start: Vec2<T>, dir: Vec2<T>) -> RayView<T> {
        RayView {
            start,
            direction: dir.normalized_spec(),
            sample_id: zero_spec::<T>(),
            sample_step: Self::ray_step(),
            sample_max: Self::ray_limit(),
        }
    }

    /// `found` is `hits`, each wall by reference.
    pub open spec fn same_hits(found: Seq<(Vec2<T>, &Wall)>, hits: Seq<(Vec2<T>, Wall)>) -> bool {
        &&& found.len() == hits.len()
        &&& forall|k: int|
            0 <= k < found.len() ==> (#[trigger] found[k]).0 == hits[k].0 && *found[k].1
                == hits[k].1
    }

    /// `points` is what the ray shot from `start` along `dir` yields, `end` the ray that is left,
    /// and `found` the points at which a wall stands, each with the first wall there.
    pub open spec fn shot(
        &self,
        start: Vec2<T>,
        dir: Vec2<T>,
        points: Seq<Vec2<T>>,
        end: RayView<T>,
        found: Seq<(Vec2<T>, &Wall)>,
    ) -> bool {
        &&& Self::fresh_ray(start, dir).yields(points, end)
        &&& Self::same_hits(found, hits_of(self.walls@, points))
    }

    /// Shoots a ray of a hundred points, half a unit apart, from `start` along `dir`, reads it
    /// to its end and returns it with every point at which a wall stands, in order along the
    /// ray, each with the first wall found there. Points beyond the first hit are not left out.
    pub fn shoot_ray<'a>(&'a self, start: Vec2<T>, dir: Vec2<T>) -> (r: (
        Ray<T>,
        Vec<(Vec2<T>, &'a Wall)>,
    ))
        requires
            obeys::<T>(),
            !Self::ray_limit().eq_spec(&zero_spec::<T>()),
            dir.normalize_req(),
            Self::fresh_ray(start, dir).sampling_req(),
        ensures
            exists|points: Seq<Vec2<T>>| #[trigger] self.shot(start, dir, points, r.0@, r.1@),
    {
        let limit = T::from_primitive(Primitive::from_signed(RAY_SAMPLES));
        let step: T = half();
        let mut ray = Ray::new(start, dir, limit, step).unwrap();
        let points = ray.samples();
        let mut found: Vec<(Vec2<T>, &'a Wall)> = Vec::new();
        let mut k: usize = 0;
        assert(points@.take(0) =~= Seq::empty());
        while k < points.len()
            invariant
                k <= points@.len(),
                Self::fresh_ray(start, dir).yields(points@, ray@),
                Self::same_hits(found@, hits_of(self.walls@, points@.take(k as int))),
            decreases points@.len() - k,
        {
            let point = points[k];
            assert(points@.take(k + 1).drop_last() =~= points@.take(k as int));
            match self.index_at(point.cast::<i32>()) {
                Some(i) => {
                    proof {
                        lemma_first_wall(self.walls@, point.cast_spec::<i32>(), i as int);
                    }
                    found.push((point, &self.walls[i]));
                },
                None => {},
            }
            k += 1;
        }
        assert(points@.take(k as int) =~= points@);
        let r = (ray, found);
        assert(self.shot(start, dir, points@, r.0@, r.1@));
        r
    }

    /// The corner of the world that the minimap shows: the player's position, less half of
    /// the tiles that the minimap holds times the side of a tile.
    pub open spec fn world_corner(&self) -> Vec2<T> {
        self.player.position.sub_spec(
            Self::tiles().mul_spec(Self::tile()).mul_spec(
                Vec2 { x: half_spec::<T>(), y: half_spec::<T>() },
            ),
        )
    }

    /// The side of a tile, in `T`, along both axes.
    pub open spec fn tile() -> Vec2<T> {
        Vec2 { x: MINIMAP_TILE_SIZE, y: MINIMAP_TILE_SIZE }.cast_spec::<T>()
    }

    /// How many tiles the minimap holds along both axes, in `T`.
    pub open spec fn tiles() -> Vec2<T> {
        Vec2 { x: MINIMAP_SIZE, y: MINIMAP_SIZE }.cast_spec::<T>().div_spec(Self::tile())
    }

    /// The corner of the world that the minimap shows can be formed.
    pub open spec fn world_corner_req(&self) -> bool {
        &&& Vec2 { x: MINIMAP_SIZE, y: MINIMAP_SIZE }.cast_spec::<T>().div_req(Self::tile())
        &&& Self::tiles().mul_req(Self::tile())
        &&& Self::tiles().mul_spec(Self::tile()).mul_req(
            Vec2 { x: half_spec::<T>(), y: half_spec::<T>() },
        )
        &&& self.player.position.sub_req(
            Self::tiles().mul_spec(Self::tile()).mul_spec(
                Vec2 { x: half_spec::<T>(), y: half_spec::<T>() },
            ),
        )
    }

    /// The part of the world that the minimap shows. Both of its corners are the same corner,
    /// so it has no extent.
    pub fn minimap_bounds(&self) -> (r: Rect<T>)
        requires
            T::obeys_div_spec(),
            T::obeys_mul_spec(),
            T::obeys_sub_spec(),
            self.world_corner_req(),
        ensures
            r.start() == self.world_corner(),
            r.end() == self.world_corner(),
    {
        let size: Vec2<T> = Vec2::new(MINIMAP_SIZE, MINIMAP_SIZE).cast::<T>();
        let tile: Vec2<T> = Vec2::new(MINIMAP_TILE_SIZE, MINIMAP_TILE_SIZE).cast::<T>();
        let tiles = size / tile;
        let halved: T = half();
        let corner = self.player.position - tiles * tile * Vec2::scalar(halved);
        Rect::new(corner, corner)
    }

    /// The cell of the minimap that the player is drawn at: its centre.
    pub open spec fn marker() -> Vec2<isize> {
        Vec2 { x: (MINIMAP_SIZE / 2) as isize, y: (MINIMAP_SIZE / 2) as isize }
    }

    /// The length that the player's facing is drawn at, in `T`.
    pub open spec fn facing_length() -> T {
        T::from_primitive_spec(Primitive::of_int(MINIMAP_FACING as int))
    }

    /// The player's facing on the minimap, from the marker, in whole cells.
    pub open spec fn facing(&self) -> Vec2<isize> {
        self.player.direction.scaled_spec(Self::facing_length()).cast_spec::<isize>()
    }

    /// The cell of the minimap that the player's facing is drawn to.
    pub open spec fn facing_end(&self) -> Vec2<isize> {
        Vec2 {
            x: (Self::marker().x + self.facing().x) as isize,
            y: (Self::marker().y + self.facing().y) as isize,
        }
    }

    /// The facing can be formed, and the line along it can be drawn.
    pub open spec fn render_req(&self) -> bool {
        &&& self.player.direction.scale_req(Self::facing_length())
        &&& Self::marker().x + self.facing().x <= isize::MAX
        &&& Self::marker().y + self.facing().y <= isize::MAX
        &&& Self::marker() != self.facing_end() ==> Canvas::line_req::<T>(
            Self::marker().cast_spec::<T>(),
            self.facing_end(),
            usize::MAX as nat,
        )
    }

    /// The canvas with the minimap drawn over it: the edge of a square of a hundred cells in
    /// the colour of the border, four cells at its centre in red for the player, and from the
    /// centre a green line along the player's facing.
    pub open spec fn minimap(&self, canvas: Canvas) -> Canvas {
        let edged = match minimap_border_spec() {
            Some(border) => canvas.paint_box(
                0,
                0,
                MINIMAP_SIZE as nat,
                MINIMAP_SIZE as nat,
                true,
                border,
            ),
            None => canvas,
        };
        edged.paint_box(
            (MINIMAP_SIZE / 2 - 1) as nat,
            (MINIMAP_SIZE / 2 - 1) as nat,
            (MINIMAP_SIZE / 2 + 1) as nat,
            (MINIMAP_SIZE / 2 + 1) as nat,
            false,
            Color { r: 255, g: 0, b: 0, a: 255 },
        ).line::<T>(Self::marker(), self.facing_end(), Color { r: 0, g: 255, b: 0, a: 255 })
    }

    /// Clears the buffer to black and draws the minimap over it. The time that has passed,
    /// `dt`, moves nothing.
    pub fn render(&self, dt: T, buf: &mut PixelBuffer)
        requires
            old(buf)@.covers(),
            obeys::<T>(),
            self.render_req(),
        ensures
            final(buf)@ == self.minimap(old(buf)@.fill(Color { r: 0, g: 0, b: 0, a: 255 })),
            final(buf)@.cells.len() == old(buf)@.cells.len(),
            final(buf)@.width == old(buf)@.width,
            final(buf)@.height == old(buf)@.height,
    {
        buf.fill(Color::black());
        self.render_minimap(buf);
    }

    fn render_minimap(&self, buf: &mut PixelBuffer)
        requires
            old(buf)@.covers(),
            obeys::<T>(),
            self.render_req(),
        ensures
            final(buf)@ == self.minimap(old(buf)@),
            final(buf)@.cells.len() == old(buf)@.cells.len(),
            final(buf)@.width == old(buf)@.width,
            final(buf)@.height == old(buf)@.height,
    {
        match minimap_border() {
            Some(border) => {
                buf.paint_box(0, 0, MINIMAP_SIZE, MINIMAP_SIZE, true, border);
            },
            None => {},
        }
        let centre: Vec2<usize> = Vec2::new(MINIMAP_SIZE / 2, MINIMAP_SIZE / 2);
        buf.paint_box(centre.x - 1, centre.y - 1, centre.x + 1, centre.y + 1, false, Color::red());
        let marker = centre.cast::<isize>();
        proof {
            lemma_of_small_int((MINIMAP_SIZE / 2) as int);
            assert(Primitive::of_int(50).clamped(isize::MIN as int, isize::MAX as int) == 50);
        }
        let length = T::from_primitive(Primitive::from_signed(MINIMAP_FACING));
        let facing = self.player.direction.scaled(length).cast::<isize>();
        buf.line::<T>(marker, marker + facing, Color::green());
    }
}

} // verus!
