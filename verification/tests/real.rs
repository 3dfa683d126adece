use raycaster::{
    Color, FromPrimitive, Game, PixelBuffer, Player, Primitive, Ray, Scalar, Sqrt, ToPrimitive,
    Vec2, Wall, WallKind,
};
use std::ops::{Add, Div, Mul, Sub};

/// Single-precision numbers, as the scalars of a world.
#[derive(Clone, Copy, Debug, Default, PartialEq, PartialOrd)]
struct Real(f32);

impl Add for Real {
    type Output = Real;

    fn add(self, rhs: Real) -> Real {
        Real(self.0 + rhs.0)
    }
}

impl Sub for Real {
    type Output = Real;

    fn sub(self, rhs: Real) -> Real {
        Real(self.0 - rhs.0)
    }
}

impl Mul for Real {
    type Output = Real;

    fn mul(self, rhs: Real) -> Real {
        Real(self.0 * rhs.0)
    }
}

impl Div for Real {
    type Output = Real;

    fn div(self, rhs: Real) -> Real {
        Real(self.0 / rhs.0)
    }
}

impl Sqrt for Real {
    fn sqrt_spec(&self) -> Real {
        self.sqrt()
    }

    fn sqrt(&self) -> Real {
        Real((self.0 as f64).sqrt() as f32)
    }
}

fn primitive_of(v: f64) -> Primitive {
    if v.is_nan() {
        return Primitive::Nan;
    }
    if v.is_infinite() {
        return Primitive::Infinite { negative: v < 0.0 };
    }
    let bits = v.to_bits();
    let negative = bits >> 63 == 1;
    let exponent = ((bits >> 52) & 0x7ff) as i16;
    let fraction = bits & ((1u64 << 52) - 1);
    if exponent == 0 {
        Primitive::Finite { negative, mantissa: fraction, exponent: -1074 }
    } else {
        Primitive::Finite { negative, mantissa: fraction | (1u64 << 52), exponent: exponent - 1075 }
    }
}

fn double_of(p: Primitive) -> f64 {
    match p {
        Primitive::Nan => f64::NAN,
        Primitive::Infinite { negative: true } => f64::NEG_INFINITY,
        Primitive::Infinite { negative: false } => f64::INFINITY,
        Primitive::Finite { negative, mantissa, exponent } => {
            let mut v = mantissa as f64;
            let mut e = exponent;
            while e > 0 {
                v *= 2.0;
                e -= 1;
            }
            while e < 0 {
                v /= 2.0;
                e += 1;
            }
            if negative {
                -v
            } else {
                v
            }
        }
    }
}

impl Scalar for Real {
    fn zero_behaves() {}
}

impl ToPrimitive for Real {
    fn to_primitive_spec(&self) -> Primitive {
        self.to_primitive()
    }

    fn to_primitive(&self) -> Primitive {
        primitive_of(self.0 as f64)
    }
}

impl<T: ToPrimitive> FromPrimitive<T> for Real {
    fn from_primitive_spec(v: T) -> Real {
        Self::from_primitive(v)
    }

    fn from_primitive(v: T) -> Real {
        Real(double_of(v.to_primitive()) as f32)
    }
}

fn at(x: f32, y: f32) -> Vec2<Real> {
    Vec2::new(Real(x), Real(y))
}

#[test]
fn reals_pass_through_the_intermediate() {
    assert_eq!(
        Real(0.5).to_primitive(),
        Primitive::Finite { negative: false, mantissa: 1 << 52, exponent: -53 }
    );
    assert_eq!(
        Real(-3.0).to_primitive(),
        Primitive::Finite { negative: true, mantissa: 3 << 51, exponent: -51 }
    );
    assert_eq!(Real(f32::NAN).to_primitive(), Primitive::Nan);
    assert_eq!(<Real as FromPrimitive<i32>>::from_primitive(-7), Real(-7.0));
    assert_eq!(<Real as FromPrimitive<Real>>::from_primitive(Real(0.1)), Real(0.1));
    assert_eq!(
        <Real as FromPrimitive<Primitive>>::from_primitive(Primitive::Finite {
            negative: false,
            mantissa: 1,
            exponent: -1
        }),
        Real(0.5)
    );
    assert_eq!(<i32 as FromPrimitive<Real>>::from_primitive(Real(2.9)), 2);
    assert_eq!(<i32 as FromPrimitive<Real>>::from_primitive(Real(-2.9)), -2);
    assert_eq!(<i32 as FromPrimitive<Real>>::from_primitive(Real(-0.9)), 0);
    assert_eq!(<i32 as FromPrimitive<Real>>::from_primitive(Real(3.0e9)), i32::MAX);
    assert_eq!(<usize as FromPrimitive<Real>>::from_primitive(Real(-4.0)), 0);
    assert_eq!(<u8 as FromPrimitive<Real>>::from_primitive(Real(f32::INFINITY)), 255);
    assert_eq!(<i8 as FromPrimitive<Real>>::from_primitive(Real(f32::NEG_INFINITY)), -128);
    assert_eq!(<i64 as FromPrimitive<Real>>::from_primitive(Real(f32::NAN)), 0);
    assert_eq!(<i32 as FromPrimitive<Real>>::from_primitive(Real(f32::MIN_POSITIVE)), 0);
}

#[test]
fn real_vectors_cast_by_cutting_toward_zero() {
    assert_eq!(at(2.5, -2.5).cast::<i32>(), Vec2::new(2, -2));
    assert_eq!(at(0.99, 300.0).cast::<u8>(), Vec2::new(0, 255));
    assert_eq!(Vec2::new(3i32, -4).cast::<Real>(), at(3.0, -4.0));
    assert_eq!(at(1.5, 2.5).cast::<Real>(), at(1.5, 2.5));
}

#[test]
fn real_normalize_gives_a_unit_vector() {
    let mut v = at(3.0, 4.0);
    assert_eq!(v.normalize(), Real(5.0));
    assert_eq!(v, at(0.6, 0.8));
    assert_eq!(v.magn(), Real(1.0));
    let mut z = at(0.0, 0.0);
    assert_eq!(z.normalize(), Real(0.0));
    assert_eq!(z, at(0.0, 0.0));
    let d = at(1.0, 1.0).normalized();
    assert!((d.magn().0 - 1.0).abs() < 1e-6);
    assert_eq!(d, at(0.70710677, 0.70710677));
}

#[test]
fn real_rotate_turns_by_the_angle() {
    let turn = |v: Vec2<Real>, degrees: f32| {
        let radians = degrees * std::f32::consts::PI / 180.0;
        v.rotated(Real(radians.cos()), Real(radians.sin()))
    };
    let quarter = turn(at(1.0, 0.0), 90.0);
    assert!(quarter.x.0.abs() < 1e-6);
    assert!((quarter.y.0 - 1.0).abs() < 1e-6);
    let eighth = turn(at(1.0, 1.0), 45.0);
    assert!(eighth.x.0.abs() < 1e-6);
    assert!((eighth.y.0 - 1.4142135).abs() < 1e-6);
    let back = turn(at(0.0, -1.0), 180.0);
    assert!(back.x.0.abs() < 1e-6);
    assert!((back.y.0 - 1.0).abs() < 1e-6);
}

#[test]
fn ray() {
    let mut r: Ray<Real> = Ray::new(Vec2::zero(), at(1.0, 1.0), Real(3.0), Real(0.5)).unwrap();
    let samples = r.samples();
    println!("samples: {:#?}", samples);
    assert_eq!(samples.len(), 3)
}

#[test]
fn ray_samples_lie_at_multiples_of_the_step() {
    let mut r = Ray::new(at(1.0, 2.0), at(0.0, 4.0), Real(4.0), Real(0.25)).unwrap();
    assert_eq!(
        r.samples(),
        vec![at(1.0, 2.25), at(1.0, 2.5), at(1.0, 2.75), at(1.0, 3.0)]
    );
    let mut d = Ray::new(Vec2::zero(), at(1.0, 1.0), Real(3.0), Real(0.5)).unwrap();
    let unit = 0.70710677f32;
    assert_eq!(
        d.samples(),
        vec![
            at(unit * 0.5, unit * 0.5),
            at(unit * 1.0, unit * 1.0),
            at(unit * 1.5, unit * 1.5)
        ]
    );
}

#[test]
fn ray_can_be_read_again_after_a_reset() {
    let mut r = Ray::new(at(-1.0, 0.5), at(2.0, -1.0), Real(7.0), Real(0.3)).unwrap();
    let first = r.samples();
    assert_eq!(first.len(), 7);
    assert_eq!(r.next(), None);
    assert!(r.samples().is_empty());
    r.reset();
    let second = r.samples();
    assert_eq!(second, first);
    r.reset();
    assert_eq!(r.next(), Some(first[0]));
    assert_eq!(r.next(), Some(first[1]));
    r.reset();
    assert_eq!(r.samples(), first);
}

#[test]
fn ray_counts_up_to_a_bound_between_whole_numbers() {
    let mut r = Ray::new(Vec2::zero(), at(1.0, 0.0), Real(2.5), Real(1.0)).unwrap();
    assert_eq!(r.samples(), vec![at(1.0, 0.0), at(2.0, 0.0), at(3.0, 0.0)]);
    let mut n = Ray::new(Vec2::zero(), at(1.0, 0.0), Real(-1.0), Real(1.0)).unwrap();
    assert!(n.samples().is_empty());
}

#[test]
fn ray_with_zero_samples_is_refused() {
    assert!(Ray::new(Vec2::zero(), at(1.0, 1.0), Real(0.0), Real(0.5)).is_err());
    assert!(Ray::new(Vec2::zero(), at(1.0, 1.0), Real(-0.0), Real(0.5)).is_err());
    assert!(Ray::new(Vec2::zero(), at(0.0, 0.0), Real(1.0), Real(0.5)).is_ok());
}

#[test]
fn ray_along_the_zero_vector_stays_at_the_start() {
    let mut r = Ray::new(at(2.0, 3.0), at(0.0, 0.0), Real(2.0), Real(5.0)).unwrap();
    assert_eq!(r.samples(), vec![at(2.0, 3.0), at(2.0, 3.0)]);
}

#[test]
fn line_plots_until_one_unit_is_left() {
    let mut buf = PixelBuffer::new(8, 4);
    buf.line::<Real>(Vec2::new(1, 2), Vec2::new(6, 2), Color::green());
    for y in 0..4 {
        for x in 0..8 {
            let expected = if y == 2 && (1..=4).contains(&x) { Color::green() } else { Color::black() };
            assert_eq!(buf.get(x, y), Some(&expected));
        }
    }
}

#[test]
fn line_along_a_diagonal_stops_where_the_whole_rest_is_short() {
    let mut buf = PixelBuffer::new(5, 5);
    buf.line::<Real>(Vec2::new(0, 0), Vec2::new(3, 3), Color::white());
    for y in 0..5 {
        for x in 0..5 {
            let expected = if (x, y) == (0, 0) || (x, y) == (1, 1) { Color::white() } else { Color::black() };
            assert_eq!(buf.get(x, y), Some(&expected));
        }
    }
}

#[test]
fn line_passes_over_cells_outside_the_grid() {
    let mut buf = PixelBuffer::new(4, 4);
    buf.line::<Real>(Vec2::new(2, 1), Vec2::new(9, 1), Color::red());
    for y in 0..4 {
        for x in 0..4 {
            let expected = if y == 1 && x >= 2 { Color::red() } else { Color::black() };
            assert_eq!(buf.get(x, y), Some(&expected));
        }
    }
    // The points left of the grid are dropped; the line shows from the first column on.
    let mut left = PixelBuffer::new(4, 4);
    left.line::<Real>(Vec2::new(-3, 2), Vec2::new(3, 2), Color::red());
    for y in 0..4 {
        for x in 0..4 {
            let expected = if y == 2 && x <= 1 { Color::red() } else { Color::black() };
            assert_eq!(left.get(x, y), Some(&expected));
        }
    }
}

#[test]
fn line_left_of_the_grid_writes_nothing() {
    let mut buf = PixelBuffer::new(4, 4);
    buf.line::<Real>(Vec2::new(-5, 2), Vec2::new(-2, 2), Color::white());
    for c in buf.data.iter() {
        assert_eq!(*c, Color::black());
    }
    buf.line::<Real>(Vec2::new(-9, 1), Vec2::new(-1, 1), Color::white());
    for c in buf.data.iter() {
        assert_eq!(*c, Color::black());
    }
}

#[test]
fn line_above_the_grid_writes_nothing() {
    let mut buf = PixelBuffer::new(4, 4);
    buf.line::<Real>(Vec2::new(1, -6), Vec2::new(1, -1), Color::white());
    buf.line::<Real>(Vec2::new(-6, -6), Vec2::new(-2, -2), Color::white());
    for c in buf.data.iter() {
        assert_eq!(*c, Color::black());
    }
}

#[test]
fn line_enters_the_grid_between_minus_one_and_zero() {
    // Along the diagonal the line stands at about -0.29 after its first step: that is cut
    // toward zero, to the cell zero, and is drawn; the start at -1 is not.
    let mut buf = PixelBuffer::new(5, 5);
    buf.line::<Real>(Vec2::new(-1, -1), Vec2::new(3, 3), Color::white());
    for y in 0..5 {
        for x in 0..5 {
            let expected = if (x, y) == (0, 0) || (x, y) == (1, 1) { Color::white() } else { Color::black() };
            assert_eq!(buf.get(x, y), Some(&expected), "at ({}, {})", x, y);
        }
    }
    // One cell, reached only by a position between minus one and zero.
    let mut one = PixelBuffer::new(1, 1);
    one.line::<Real>(Vec2::new(-1, -1), Vec2::new(1, 1), Color::white());
    assert_eq!(one.get(0, 0), Some(&Color::white()));
}

#[test]
fn line_of_reals_from_a_point_to_itself_writes_nothing() {
    let mut buf = PixelBuffer::new(4, 4);
    buf.line::<Real>(Vec2::new(1, 1), Vec2::new(1, 1), Color::red());
    for c in buf.data.iter() {
        assert_eq!(*c, Color::black());
    }
}

#[test]
fn render_draws_the_minimap() {
    let g = Game::<Real>::new();
    assert_eq!(g.player.position, at(0.0, 0.0));
    assert_eq!(g.player.direction, at(0.0, -1.0));
    let mut buf = PixelBuffer::new(120, 110);
    buf.fill(Color::white());
    g.render(Real(0.016), &mut buf);
    for y in 0..110 {
        for x in 0..120 {
            let on_edge = x < 100 && y < 100 && (x == 0 || x == 99 || y == 0 || y == 99);
            let on_facing = x == 50 && (32..=50).contains(&y);
            let on_player = (49..=50).contains(&x) && (49..=50).contains(&y);
            let expected = if on_facing {
                Color::green()
            } else if on_player {
                Color::red()
            } else if on_edge {
                Color::blue()
            } else {
                Color::black()
            };
            assert_eq!(buf.get(x, y), Some(&expected), "at ({}, {})", x, y);
        }
    }
}

#[test]
fn render_clips_to_a_small_buffer() {
    let g = Game::<Real>::new().with_player_direction(at(1.0, 0.0));
    let mut buf = PixelBuffer::new(60, 51);
    g.render(Real(0.0), &mut buf);
    for y in 0..51 {
        for x in 0..60 {
            let on_edge = x == 0 || y == 0;
            let on_facing = y == 50 && (50..=59).contains(&x);
            let on_player = (49..=50).contains(&x) && (49..=50).contains(&y);
            let expected = if on_facing {
                Color::green()
            } else if on_player {
                Color::red()
            } else if on_edge {
                Color::blue()
            } else {
                Color::black()
            };
            assert_eq!(buf.get(x, y), Some(&expected), "at ({}, {})", x, y);
        }
    }
}

#[test]
fn render_with_a_short_facing_draws_no_line() {
    let g = Game::<Real>::new().with_player_direction(at(0.0, 0.04));
    let mut buf = PixelBuffer::new(100, 100);
    g.render(Real(0.0), &mut buf);
    assert_eq!(buf.get(50, 50), Some(&Color::red()));
    assert_eq!(buf.get(49, 49), Some(&Color::red()));
    assert_eq!(buf.get(50, 51), Some(&Color::black()));
    assert_eq!(buf.get(99, 99), Some(&Color::blue()));
}

#[test]
fn shoot_ray_returns_every_point_in_a_wall() {
    let g = Game::<Real>::new()
        .with_wall(Wall::new(WallKind::Basic, Vec2::new(2, 0)))
        .with_wall(Wall::new(WallKind::Basic, Vec2::new(4, 0)))
        .with_wall(Wall::new(WallKind::Basic, Vec2::new(2, 0)));
    let (mut ray, hits) = g.shoot_ray(at(0.0, 0.0), at(3.0, 0.0));
    let points: Vec<Vec2<Real>> = hits.iter().map(|h| h.0).collect();
    assert_eq!(points, vec![at(2.0, 0.0), at(2.5, 0.0), at(4.0, 0.0), at(4.5, 0.0)]);
    assert!(std::ptr::eq(hits[0].1, &g.walls[0]));
    assert!(std::ptr::eq(hits[1].1, &g.walls[0]));
    assert!(std::ptr::eq(hits[2].1, &g.walls[1]));
    assert!(std::ptr::eq(hits[3].1, &g.walls[1]));
    assert_eq!(ray.next(), None);
    ray.reset();
    let again = ray.samples();
    assert_eq!(again.len(), 100);
    assert_eq!(again[0], at(0.5, 0.0));
    assert_eq!(again[99], at(50.0, 0.0));
}

#[test]
fn shoot_ray_into_the_open_hits_nothing() {
    let g = Game::<Real>::new().with_wall(Wall::new(WallKind::Basic, Vec2::new(2, 0)));
    let (_, hits) = g.shoot_ray(at(0.0, 0.0), at(0.0, 1.0));
    assert!(hits.is_empty());
    // A point between zero and minus one is cut to the cell zero.
    let at_origin = Game::<Real>::new().with_wall(Wall::new(WallKind::Basic, Vec2::new(0, 0)));
    let (_, back) = at_origin.shoot_ray(at(0.0, 0.0), at(-1.0, 0.0));
    assert_eq!(back.len(), 1);
    assert_eq!(back[0].0, at(-0.5, 0.0));
}

#[test]
fn ascii_walls_cuts_the_player_position_to_a_cell() {
    let g = Game::<Real>::new()
        .with_player(Player::new(at(1.5, 0.9), at(0.0, -1.0)))
        .with_wall(Wall::new(WallKind::Basic, Vec2::new(0, 0)))
        .with_wall(Wall::new(WallKind::Basic, Vec2::new(2, 1)));
    assert_eq!(g.ascii_walls(), vec!["xp ", "  x"]);
    assert!(g.wall_at(at(2.7, 1.2)).is_some());
    assert!(g.wall_at(at(1.99, 1.0)).is_none());
    assert!(g.wall_at(at(-0.5, -0.5)).is_some());
}

#[test]
fn minimap_bounds_has_no_extent() {
    let g = Game::<Real>::new().with_player_position(at(12.5, -4.0));
    let bounds = g.minimap_bounds();
    assert_eq!(bounds.area(), at(0.0, 0.0));
    // Twenty tiles of five cells, halved, lie between the player and the corner.
    assert_eq!(
        format!("{:?}", bounds),
        "Rect { start: Vec2 { x: Real(-37.5), y: Real(-54.0) }, end: Vec2 { x: Real(-37.5), y: Real(-54.0) } }"
    );
}

#[test]
fn half_of_a_real_is_a_half() {
    assert_eq!(raycaster::scalar::half::<Real>(), Real(0.5));
    assert_eq!(raycaster::scalar::zero::<Real>(), Real(0.0));
    assert_eq!(raycaster::scalar::one::<Real>(), Real(1.0));
}
