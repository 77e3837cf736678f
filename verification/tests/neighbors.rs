use train_thing::grid::Grid;
use train_thing::path::divides;
use train_thing::path::Connection;
use train_thing::path::Dir;
use train_thing::path::Pos;

fn open_grid() -> Grid {
    Grid::new(32, Pos(-10_000, -10_000), Pos(10_000, 10_000)).unwrap()
}

fn c(x: i32, y: i32, dir: Dir) -> Connection {
    Connection::new(Pos(x, y), dir)
}

#[test]
fn connection_new_keeps_its_parts() {
    let k = Connection::new(Pos(3, 4), Dir::Left);
    assert_eq!(k.pos, Pos(3, 4));
    assert_eq!(k.dir, Dir::Left);
    assert_ne!(k, Connection::new(Pos(3, 4), Dir::Right));
}

#[test]
fn right_from_origin_has_three_neighbors() {
    let g = open_grid();
    let n = c(0, 0, Dir::Right).gen_connections(&g);
    assert_eq!(
        n,
        vec![(c(48, -16, Dir::DownRight), 51), (c(32, 0, Dir::Right), 32), (c(48, 16, Dir::UpRight), 51)]
    );
}

#[test]
fn straight_directions() {
    let g = open_grid();
    assert_eq!(
        c(64, 16, Dir::Up).gen_connections(&g),
        vec![(c(80, 64, Dir::UpRight), 51), (c(64, 48, Dir::Up), 32), (c(48, 64, Dir::UpLeft), 51)]
    );
    assert_eq!(
        c(64, 16, Dir::Down).gen_connections(&g),
        vec![(c(48, -32, Dir::DownLeft), 51), (c(64, -16, Dir::Down), 32), (c(80, -32, Dir::DownRight), 51)]
    );
    assert_eq!(
        c(16, 32, Dir::Left).gen_connections(&g),
        vec![(c(-32, 48, Dir::UpLeft), 51), (c(-16, 32, Dir::Left), 32), (c(-32, 16, Dir::DownLeft), 51)]
    );
}

#[test]
fn diagonal_on_a_vertical_line_turns_vertical() {
    let g = open_grid();
    assert_eq!(
        c(32, 16, Dir::UpRight).gen_connections(&g),
        vec![(c(48, 32, Dir::UpRight), 45), (c(48, 64, Dir::Up), 51)]
    );
    assert_eq!(
        c(32, 16, Dir::DownRight).gen_connections(&g),
        vec![(c(48, 0, Dir::DownRight), 45), (c(48, -32, Dir::Down), 51)]
    );
    assert_eq!(
        c(32, 16, Dir::UpLeft).gen_connections(&g),
        vec![(c(16, 32, Dir::UpLeft), 45), (c(16, 64, Dir::Up), 51)]
    );
    assert_eq!(
        c(32, 16, Dir::DownLeft).gen_connections(&g),
        vec![(c(16, 0, Dir::DownLeft), 45), (c(16, -32, Dir::Down), 51)]
    );
}

#[test]
fn diagonal_off_a_vertical_line_turns_horizontal() {
    let g = open_grid();
    assert_eq!(
        c(16, 32, Dir::UpRight).gen_connections(&g),
        vec![(c(32, 48, Dir::UpRight), 45), (c(64, 48, Dir::Right), 51)]
    );
    assert_eq!(
        c(16, 32, Dir::DownRight).gen_connections(&g),
        vec![(c(32, 16, Dir::DownRight), 45), (c(64, 16, Dir::Right), 51)]
    );
    assert_eq!(
        c(16, 32, Dir::UpLeft).gen_connections(&g),
        vec![(c(0, 48, Dir::UpLeft), 45), (c(-32, 48, Dir::Left), 51)]
    );
    assert_eq!(
        c(16, 32, Dir::DownLeft).gen_connections(&g),
        vec![(c(0, 16, Dir::DownLeft), 45), (c(-32, 16, Dir::Left), 51)]
    );
}

#[test]
fn neighbors_outside_the_canvas_are_left_out() {
    let g = Grid::new(32, Pos(0, 0), Pos(1280, 800)).unwrap();
    // (48, -16) is below the canvas and (32, 0) is on its border
    assert_eq!(c(0, 0, Dir::Right).gen_connections(&g), vec![(c(48, 16, Dir::UpRight), 51)]);
    assert_eq!(c(1264, 400, Dir::Right).gen_connections(&g), vec![]);
    assert_eq!(c(1232, 400, Dir::Right).gen_connections(&g), vec![(c(1264, 400, Dir::Right), 32)]);
}

#[test]
fn every_neighbor_lies_inside_the_canvas() {
    let g = Grid::new(32, Pos(0, 0), Pos(200, 150)).unwrap();
    let dirs = [
        Dir::Up,
        Dir::UpRight,
        Dir::Right,
        Dir::DownRight,
        Dir::Down,
        Dir::DownLeft,
        Dir::Left,
        Dir::UpLeft,
    ];
    let mut x = -64;
    while x <= 264 {
        let mut y = -64;
        while y <= 214 {
            for d in dirs.iter() {
                let n = c(x, y, *d).gen_connections(&g);
                assert!(n.len() <= 3);
                for (k, cost) in n.iter() {
                    assert!(g.contains(k.pos));
                    assert!(*cost > 0);
                }
            }
            y += 16;
        }
        x += 16;
    }
}

#[test]
fn neighbors_near_the_end_of_the_range() {
    let g = Grid::new(32, Pos(i32::MIN, i32::MIN), Pos(i32::MAX, i32::MAX)).unwrap();
    // the steps to the right would leave the range of the coordinates
    assert_eq!(c(i32::MAX - 5, 0, Dir::Right).gen_connections(&g), vec![]);
    assert_eq!(
        c(i32::MAX - 40, 0, Dir::Right).gen_connections(&g),
        vec![(c(i32::MAX - 8, 0, Dir::Right), 32)]
    );
}

#[test]
fn odd_cell_rounds_half_steps_toward_zero() {
    let g = Grid::new(33, Pos(-1000, -1000), Pos(1000, 1000)).unwrap();
    assert_eq!(
        c(0, 0, Dir::Right).gen_connections(&g),
        vec![(c(49, -16, Dir::DownRight), 53), (c(33, 0, Dir::Right), 33), (c(49, 16, Dir::UpRight), 53)]
    );
}

#[test]
fn divides_tells_multiples() {
    assert!(divides(32, 0));
    assert!(divides(32, 64));
    assert!(divides(32, -64));
    assert!(!divides(32, 16));
    assert!(!divides(32, -16));
    assert!(divides(1, i32::MIN));
    assert!(!divides(3, i32::MIN));
}

#[test]
fn opposite_directions() {
    assert_eq!(Dir::Up.opposite(), Dir::Down);
    assert_eq!(Dir::UpRight.opposite(), Dir::DownLeft);
    assert_eq!(Dir::Right.opposite(), Dir::Left);
    assert_eq!(Dir::DownRight.opposite(), Dir::UpLeft);
    assert_eq!(Dir::Down.opposite(), Dir::Up);
    assert_eq!(Dir::DownLeft.opposite(), Dir::UpRight);
    assert_eq!(Dir::Left.opposite(), Dir::Right);
    assert_eq!(Dir::UpLeft.opposite(), Dir::DownRight);
}

#[test]
fn direction_steps() {
    let g = open_grid();
    assert_eq!(Dir::Up.to_pos(&g), Pos(0, 32));
    assert_eq!(Dir::UpRight.to_pos(&g), Pos(45, 45));
    assert_eq!(Dir::Right.to_pos(&g), Pos(32, 0));
    assert_eq!(Dir::DownRight.to_pos(&g), Pos(45, -45));
    assert_eq!(Dir::Down.to_pos(&g), Pos(0, -32));
    assert_eq!(Dir::DownLeft.to_pos(&g), Pos(-45, -45));
    assert_eq!(Dir::Left.to_pos(&g), Pos(-32, 0));
    assert_eq!(Dir::UpLeft.to_pos(&g), Pos(-45, 45));
}

#[test]
fn points_add_and_subtract() {
    assert_eq!(Pos(3, -4).add(Pos(10, 20)), Pos(13, 16));
    assert_eq!(Pos(3, -4).sub(Pos(10, 20)), Pos(-7, -24));
}
