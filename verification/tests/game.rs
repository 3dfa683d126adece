use raycaster::{Game, Player, Ray, Vec2, Wall, WallKind};

fn ring() -> Vec<Wall> {
    let mut walls = vec![];
    for y in -2..=2 {
        for x in -2..=2 {
            if x == -2 || x == 2 || y == -2 || y == 2 {
                walls.push(Wall::new(WallKind::Basic, Vec2::new(x, y)));
            }
        }
    }
    walls
}

#[test]
fn new_world_has_a_player_and_no_walls() {
    let g = Game::<i32>::new();
    assert_eq!(g.player.position, Vec2::new(0, 0));
    assert_eq!(g.player.direction, Vec2::new(0, -1));
    assert!(g.walls.is_empty());
    assert!(g.walls().is_empty());
    assert_eq!(g.player().position, Vec2::new(0, 0));
}

#[test]
fn builders_replace_the_player_and_append_walls() {
    let g = Game::<i32>::new()
        .with_player(Player::new(Vec2::new(3, 4), Vec2::new(1, 0)))
        .with_wall(Wall::new(WallKind::Basic, Vec2::new(1, 1)))
        .with_walls(&[
            Wall::new(WallKind::Basic, Vec2::new(2, 2)),
            Wall::new(WallKind::Basic, Vec2::new(1, 1)),
        ])
        .with_wall(Wall::new(WallKind::Basic, Vec2::new(-5, 0)));
    assert_eq!(g.player.position, Vec2::new(3, 4));
    assert_eq!(g.player.direction, Vec2::new(1, 0));
    let positions: Vec<Vec2<i32>> = g.walls.iter().map(|w| w.position).collect();
    assert_eq!(
        positions,
        vec![Vec2::new(1, 1), Vec2::new(2, 2), Vec2::new(1, 1), Vec2::new(-5, 0)]
    );
    let g = g.with_player_position(Vec2::new(9, 9));
    assert_eq!(g.player.position, Vec2::new(9, 9));
    assert_eq!(g.player.direction, Vec2::new(1, 0));
    let g = g.with_player_direction(Vec2::new(0, 1));
    assert_eq!(g.player.position, Vec2::new(9, 9));
    assert_eq!(g.player.direction, Vec2::new(0, 1));
    assert_eq!(g.walls.len(), 4);
    let g = g.with_walls(&[]);
    assert_eq!(g.walls.len(), 4);
}

#[test]
fn wall_at_finds_nothing_in_a_free_cell() {
    let g = Game::<i32>::new().with_walls(&ring());
    assert!(g.wall_at(Vec2::new(0i32, 0)).is_none());
    assert!(g.wall_at(Vec2::new(3i32, 0)).is_none());
    assert!(Game::<i32>::new().wall_at(Vec2::new(0i32, 0)).is_none());
}

#[test]
fn wall_at_returns_the_first_of_several_walls() {
    let g = Game::<i32>::new()
        .with_wall(Wall::new(WallKind::Basic, Vec2::new(4, 4)))
        .with_wall(Wall::new(WallKind::Basic, Vec2::new(1, 1)))
        .with_wall(Wall::new(WallKind::Basic, Vec2::new(7, 7)))
        .with_wall(Wall::new(WallKind::Basic, Vec2::new(1, 1)));
    let found = g.wall_at(Vec2::new(1i32, 1)).unwrap();
    assert_eq!(found.position, Vec2::new(1, 1));
    assert!(std::ptr::eq(found, &g.walls[1]));
    assert!(!std::ptr::eq(found, &g.walls[3]));
    let last = g.wall_at(Vec2::new(7i32, 7)).unwrap();
    assert!(std::ptr::eq(last, &g.walls[2]));
}

#[test]
fn wall_at_casts_the_position_to_the_grid() {
    let g = Game::<i32>::new()
        .with_wall(Wall::new(WallKind::Basic, Vec2::new(200, 3)))
        .with_wall(Wall::new(WallKind::Basic, Vec2::new(i32::MAX, 0)))
        .with_wall(Wall::new(WallKind::Basic, Vec2::new(0, i32::MIN)));
    assert!(std::ptr::eq(g.wall_at(Vec2::new(200u8, 3)).unwrap(), &g.walls[0]));
    assert!(std::ptr::eq(g.wall_at(Vec2::new(1i64 << 40, 0)).unwrap(), &g.walls[1]));
    assert!(std::ptr::eq(g.wall_at(Vec2::new(0i64, i64::MIN)).unwrap(), &g.walls[2]));
    assert!(g.wall_at(Vec2::new(201u8, 3)).is_none());
}

#[test]
fn ascii_walls_draws_the_ring_around_the_player() {
    let g = Game::<i32>::new().with_walls(&ring());
    assert_eq!(g.ascii_walls(), vec!["xxxxx", "x   x", "x p x", "x   x", "xxxxx"]);
}

#[test]
fn ascii_walls_without_walls_is_one_cell() {
    assert_eq!(Game::<i32>::new().ascii_walls(), vec!["p"]);
    let away = Game::<i32>::new().with_player_position(Vec2::new(5, 5));
    assert_eq!(away.ascii_walls(), vec![" "]);
}

#[test]
fn ascii_walls_draws_the_player_over_a_wall() {
    let g = Game::<i32>::new()
        .with_wall(Wall::new(WallKind::Basic, Vec2::new(0, 0)))
        .with_wall(Wall::new(WallKind::Basic, Vec2::new(2, 1)));
    assert_eq!(g.ascii_walls(), vec!["p  ", "  x"]);
    let g = g.with_player_position(Vec2::new(1, 1));
    assert_eq!(g.ascii_walls(), vec!["x  ", " px"]);
}

#[test]
fn ascii_walls_goes_by_the_order_of_vectors() {
    // The first position in the order is (0, 5) and the last is (1, 0): no row lies between.
    let g = Game::<i32>::new()
        .with_wall(Wall::new(WallKind::Basic, Vec2::new(0, 5)))
        .with_wall(Wall::new(WallKind::Basic, Vec2::new(1, 0)));
    assert!(g.ascii_walls().is_empty());
    // From (-1, 1) to (1, 2): the wall at (0, -3) lies outside the rows that are drawn.
    let g = Game::<i32>::new()
        .with_wall(Wall::new(WallKind::Basic, Vec2::new(1, 2)))
        .with_wall(Wall::new(WallKind::Basic, Vec2::new(0, -3)))
        .with_wall(Wall::new(WallKind::Basic, Vec2::new(-1, 1)));
    assert_eq!(g.ascii_walls(), vec!["x  ", "  x"]);
}

#[test]
fn integer_ray_steps_by_whole_numbers() {
    let mut r = Ray::new(Vec2::new(1i32, 1), Vec2::new(3, 0), 3, 2).unwrap();
    assert_eq!(r.next(), Some(Vec2::new(3, 1)));
    assert_eq!(r.samples(), vec![Vec2::new(5, 1), Vec2::new(7, 1)]);
    assert_eq!(r.next(), None);
    assert!(r.samples().is_empty());
    r.reset();
    assert_eq!(r.samples(), vec![Vec2::new(3, 1), Vec2::new(5, 1), Vec2::new(7, 1)]);
    r.reset();
    assert_eq!(r.samples(), vec![Vec2::new(3, 1), Vec2::new(5, 1), Vec2::new(7, 1)]);
}

#[test]
fn integer_ray_with_a_negative_bound_is_empty() {
    let mut r = Ray::new(Vec2::new(1i32, 1), Vec2::new(0, 4), -2, 1).unwrap();
    assert_eq!(r.next(), None);
    assert!(r.samples().is_empty());
}

#[test]
fn shoot_ray_over_integers_stays_at_the_start() {
    // Half a unit is no unit at all in whole numbers: every one of the hundred points is
    // the start.
    let g = Game::<i32>::new().with_wall(Wall::new(WallKind::Basic, Vec2::new(2, 0)));
    let (mut ray, hits) = g.shoot_ray(Vec2::new(2, 0), Vec2::new(5, 0));
    assert_eq!(hits.len(), 100);
    for (point, wall) in hits.iter() {
        assert_eq!(*point, Vec2::new(2, 0));
        assert!(std::ptr::eq(*wall, &g.walls[0]));
    }
    assert_eq!(ray.next(), None);
    let (_, misses) = g.shoot_ray(Vec2::new(0, 0), Vec2::new(5, 0));
    assert!(misses.is_empty());
}

#[test]
fn minimap_bounds_of_whole_numbers_has_no_extent() {
    let g = Game::<i32>::new().with_player_position(Vec2::new(7, -3));
    let bounds = g.minimap_bounds();
    assert_eq!(bounds.area(), Vec2::new(0, 0));
    // Half a tile is no tile at all in whole numbers, so both corners are the player's cell.
    assert_eq!(
        format!("{:?}", bounds),
        "Rect { start: Vec2 { x: 7, y: -3 }, end: Vec2 { x: 7, y: -3 } }"
    );
}

#[test]
fn minimap_border_is_blue() {
    assert_eq!(raycaster::game::minimap_border(), Some(raycaster::Color::blue()));
    assert_eq!(raycaster::game::MINIMAP_SIZE, 100);
    assert_eq!(raycaster::game::MINIMAP_TILE_SIZE, 5);
}
