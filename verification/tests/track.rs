use train_thing::grid::Grid;
use train_thing::path::search::find_path;
use train_thing::path::track::assemble;
use train_thing::path::track::bend;
use train_thing::path::track::lerp;
use train_thing::path::track::Bend;
use train_thing::path::track::Diagonal;
use train_thing::path::track::Straight;
use train_thing::path::track::Track;
use train_thing::path::track::TrackPiece;
use train_thing::path::track::Turn;
use train_thing::path::Connection;
use train_thing::path::Dir;
use train_thing::path::Path;
use train_thing::path::Pos;

fn open_grid() -> Grid {
    Grid::new(32, Pos(-1000, -1000), Pos(1000, 1000)).unwrap()
}

fn c(x: i32, y: i32, dir: Dir) -> Connection {
    Connection::new(Pos(x, y), dir)
}

const DIRS: [Dir; 8] =
    [Dir::Up, Dir::UpRight, Dir::Right, Dir::DownRight, Dir::Down, Dir::DownLeft, Dir::Left, Dir::UpLeft];

#[test]
fn straight_piece() {
    let g = open_grid();
    let s = Straight::new(c(0, 0, Dir::Right), c(32, 0, Dir::Right));
    assert_eq!(s.start(), c(0, 0, Dir::Right));
    assert_eq!(s.end(), c(32, 0, Dir::Right));
    assert_eq!(s.len(&g), 32);
}

#[test]
fn diagonal_piece() {
    let g = open_grid();
    let d = Diagonal::new(c(0, 16, Dir::UpRight), c(16, 32, Dir::UpRight));
    assert_eq!(d.start(), c(0, 16, Dir::UpRight));
    assert_eq!(d.end(), c(16, 32, Dir::UpRight));
    assert_eq!(d.len(&g), 45);
}

#[test]
fn straight_length_is_the_distance_between_its_ends() {
    let g = open_grid();
    for d in [Dir::Up, Dir::Right, Dir::Down, Dir::Left] {
        let a = c(64, 64, d);
        let (b, cost) = a.gen_connections(&g).into_iter().find(|(k, _)| k.dir == d).unwrap();
        let t = Track::from(&g, a, b);
        let dx = (b.pos.0 - a.pos.0) as i64;
        let dy = (b.pos.1 - a.pos.1) as i64;
        let len = t.len(&g) as i64;
        assert_eq!(len * len, dx * dx + dy * dy);
        assert_eq!(cost, t.len(&g));
    }
}

#[test]
fn diagonal_length_is_the_diagonal_of_a_cell() {
    let g = open_grid();
    let d = Diagonal::new(c(0, 0, Dir::UpRight), c(32, 32, Dir::UpRight));
    let len = d.len(&g) as i64;
    assert!(len * len <= 2 * 32 * 32);
    assert!((len + 1) * (len + 1) > 2 * 32 * 32);
}

#[test]
fn lerp_along_a_line() {
    assert_eq!(lerp(Pos(0, 0), Pos(32, 0), 1, 2), Pos(16, 0));
    assert_eq!(lerp(Pos(0, 0), Pos(32, 0), 0, 7), Pos(0, 0));
    assert_eq!(lerp(Pos(0, 0), Pos(32, 0), 7, 7), Pos(32, 0));
    assert_eq!(lerp(Pos(10, 20), Pos(26, 36), 1, 4), Pos(14, 24));
    assert_eq!(lerp(Pos(0, 0), Pos(-32, 32), 1, 3), Pos(-10, 10));
    assert_eq!(lerp(Pos(5, 5), Pos(5, 5), 1, 3), Pos(5, 5));
}

#[test]
fn lerp_over_the_whole_range() {
    let a = Pos(i32::MIN, i32::MAX);
    let b = Pos(i32::MAX, i32::MIN);
    assert_eq!(lerp(a, b, 0, u64::MAX), a);
    assert_eq!(lerp(a, b, u64::MAX, u64::MAX), b);
    assert_eq!(lerp(a, b, 1, 2), Pos(-1, 0));
}

#[test]
fn lerp_of_the_pieces() {
    let s = Straight::new(c(0, 0, Dir::Up), c(0, 32, Dir::Up));
    assert_eq!(s.lerp(0, 1000), Pos(0, 0));
    assert_eq!(s.lerp(250, 1000), Pos(0, 8));
    assert_eq!(s.lerp(1000, 1000), Pos(0, 32));
    let d = Diagonal::new(c(0, 16, Dir::DownRight), c(16, 0, Dir::DownRight));
    assert_eq!(d.lerp(0, 4), Pos(0, 16));
    assert_eq!(d.lerp(1, 4), Pos(4, 12));
    assert_eq!(d.lerp(4, 4), Pos(16, 0));
}

#[test]
fn bends_of_the_sixteen_pairs() {
    let b = |at_end, toward, sign, quarter| Some(Bend { at_end, toward, sign, quarter });
    assert_eq!(bend(Dir::Up, Dir::UpLeft), b(false, Dir::Left, 1, 0));
    assert_eq!(bend(Dir::Up, Dir::UpRight), b(false, Dir::Right, -1, 2));
    assert_eq!(bend(Dir::UpRight, Dir::Up), b(true, Dir::Left, 1, 0));
    assert_eq!(bend(Dir::UpRight, Dir::Right), b(true, Dir::Down, -1, 1));
    assert_eq!(bend(Dir::Right, Dir::UpRight), b(false, Dir::Up, 1, 3));
    assert_eq!(bend(Dir::Right, Dir::DownRight), b(false, Dir::Down, -1, 1));
    assert_eq!(bend(Dir::DownRight, Dir::Right), b(true, Dir::Up, 1, 3));
    assert_eq!(bend(Dir::DownRight, Dir::Down), b(true, Dir::Left, -1, 0));
    assert_eq!(bend(Dir::Down, Dir::DownRight), b(false, Dir::Right, 1, 2));
    assert_eq!(bend(Dir::Down, Dir::DownLeft), b(false, Dir::Left, -1, 0));
    assert_eq!(bend(Dir::DownLeft, Dir::Down), b(true, Dir::Right, 1, 2));
    assert_eq!(bend(Dir::DownLeft, Dir::Left), b(true, Dir::Up, -1, 3));
    assert_eq!(bend(Dir::Left, Dir::DownLeft), b(false, Dir::Down, 1, 1));
    assert_eq!(bend(Dir::Left, Dir::UpLeft), b(false, Dir::Up, -1, 3));
    assert_eq!(bend(Dir::UpLeft, Dir::Left), b(true, Dir::Down, 1, 1));
    assert_eq!(bend(Dir::UpLeft, Dir::Up), b(true, Dir::Right, -1, 2));
}

#[test]
fn no_bend_between_other_pairs() {
    let mut some = 0;
    for (i, a) in DIRS.iter().enumerate() {
        for (j, b) in DIRS.iter().enumerate() {
            let next = (i + 1) % 8 == j || (j + 1) % 8 == i;
            assert_eq!(bend(*a, *b).is_some(), next);
            if next {
                some += 1;
            }
        }
    }
    assert_eq!(some, 16);
}

#[test]
fn turn_centre_from_the_start() {
    let g = open_grid();
    let t = Turn::new(&g, c(0, 0, Dir::Right), c(48, 16, Dir::UpRight));
    assert_eq!(t.start(), c(0, 0, Dir::Right));
    assert_eq!(t.end(), c(48, 16, Dir::UpRight));
    assert_eq!((t.center_x, t.center_y), (0, 80));
    assert_eq!(t.bend, Bend { at_end: false, toward: Dir::Up, sign: 1, quarter: 3 });
    assert_eq!(t.len(&g), 51);
}

#[test]
fn turn_centre_from_the_end() {
    let g = open_grid();
    let t = Turn::new(&g, c(32, 16, Dir::UpRight), c(48, 64, Dir::Up));
    assert_eq!((t.center_x, t.center_y), (48 - 80, 64));
    assert_eq!(t.bend, Bend { at_end: true, toward: Dir::Left, sign: 1, quarter: 0 });
}

#[test]
fn turn_centre_with_an_odd_cell_rounds_toward_zero() {
    let g = Grid::new(33, Pos(-1000, -1000), Pos(1000, 1000)).unwrap();
    let t = Turn::new(&g, c(0, 0, Dir::Right), c(49, 16, Dir::UpRight));
    assert_eq!((t.center_x, t.center_y), (0, 82));
    let t = Turn::new(&g, c(0, 0, Dir::Right), c(49, -16, Dir::DownRight));
    assert_eq!((t.center_x, t.center_y), (0, -82));
}

#[test]
fn turn_ends_lie_on_the_circle() {
    let g = open_grid();
    for d in DIRS {
        for (x, y) in [(64, 48), (48, 64)] {
            let a = c(x, y, d);
            for (b, _) in a.gen_connections(&g) {
                if b.dir != a.dir {
                    let t = Turn::new(&g, a, b);
                    for p in [a.pos, b.pos] {
                        let dx = p.0 as i64 - t.center_x;
                        let dy = p.1 as i64 - t.center_y;
                        assert_eq!(dx * dx + dy * dy, 80 * 80);
                    }
                }
            }
        }
    }
}

#[test]
fn track_from_picks_the_kind() {
    let g = open_grid();
    let a = c(0, 0, Dir::Right);
    assert_eq!(Track::from(&g, a, c(32, 0, Dir::Right)), Track::Strt(Straight::new(a, c(32, 0, Dir::Right))));
    let a = c(0, 16, Dir::UpLeft);
    assert_eq!(Track::from(&g, a, c(-16, 32, Dir::UpLeft)), Track::Diag(Diagonal::new(a, c(-16, 32, Dir::UpLeft))));
    let a = c(0, 0, Dir::Right);
    let b = c(48, -16, Dir::DownRight);
    assert_eq!(Track::from(&g, a, b), Track::Turn(Turn::new(&g, a, b)));
}

#[test]
fn track_parts_and_lengths() {
    let g = open_grid();
    let a = c(0, 0, Dir::Right);
    let s = Track::from(&g, a, c(32, 0, Dir::Right));
    assert_eq!((s.start(), s.end(), s.len(&g)), (a, c(32, 0, Dir::Right), 32));
    let t = Track::from(&g, a, c(48, 16, Dir::UpRight));
    assert_eq!((t.start(), t.end(), t.len(&g)), (a, c(48, 16, Dir::UpRight), 51));
    let a = c(0, 16, Dir::UpRight);
    let d = Track::from(&g, a, c(16, 32, Dir::UpRight));
    assert_eq!((d.start(), d.end(), d.len(&g)), (a, c(16, 32, Dir::UpRight), 45));
}

#[test]
fn assemble_pairs_each_connection_with_the_next() {
    let g = open_grid();
    let way = vec![c(0, 0, Dir::Right), c(32, 0, Dir::Right), c(80, 16, Dir::UpRight), c(96, 32, Dir::UpRight)];
    let pieces = assemble(&g, &way);
    assert_eq!(pieces.len(), 3);
    assert_eq!(pieces[0], Track::Strt(Straight::new(way[0], way[1])));
    assert_eq!(pieces[1], Track::Turn(Turn::new(&g, way[1], way[2])));
    assert_eq!(pieces[2], Track::Diag(Diagonal::new(way[2], way[3])));
}

#[test]
fn assemble_of_short_ways_is_empty() {
    let g = open_grid();
    assert_eq!(assemble(&g, &Vec::new()), vec![]);
    assert_eq!(assemble(&g, &vec![c(0, 0, Dir::Right)]), vec![]);
}

#[test]
fn every_found_path_assembles() {
    let g = Grid::new(32, Pos(0, 0), Pos(320, 320)).unwrap();
    for d in DIRS {
        for goal in [Pos(48, 208), Pos(272, 48), Pos(160, 144), Pos(16, 32)] {
            if let Some(way) = find_path(&g, c(160, 176, d), goal) {
                let pieces = assemble(&g, &way);
                assert_eq!(pieces.len(), way.len() - 1);
                for (i, p) in pieces.iter().enumerate() {
                    assert_eq!(p.start(), way[i]);
                    assert_eq!(p.end(), way[i + 1]);
                }
            }
        }
    }
}

#[test]
fn path_proposes_and_lays_pieces() {
    let g = open_grid();
    let mut path = Path::new(Pos(0, 0), Dir::Right);
    assert_eq!(path.start, c(0, 0, Dir::Right));
    assert!(path.path.is_empty());
    assert!(path.poss_path.is_none());

    path.add_path(&g, Pos(64, 0));
    let want = vec![
        Track::Strt(Straight::new(c(0, 0, Dir::Right), c(32, 0, Dir::Right))),
        Track::Strt(Straight::new(c(32, 0, Dir::Right), c(64, 0, Dir::Right))),
    ];
    assert_eq!(path.poss_path, Some(want.clone()));
    assert_eq!(path.start, c(0, 0, Dir::Right));
    assert!(path.path.is_empty());

    path.push();
    assert_eq!(path.path, want);
    assert!(path.poss_path.is_none());
    assert_eq!(path.start, c(64, 0, Dir::Right));

    path.add_path(&g, Pos(112, 16));
    path.push();
    assert_eq!(path.path.len(), 3);
    assert_eq!(path.start, c(112, 16, Dir::UpRight));
}

#[test]
fn path_without_a_way_proposes_nothing() {
    let g = Grid::new(32, Pos(0, 0), Pos(200, 200)).unwrap();
    let mut path = Path::new(Pos(32, 32), Dir::Right);
    path.add_path(&g, Pos(64, 32));
    assert!(path.poss_path.is_some());
    path.add_path(&g, Pos(500, 32));
    assert!(path.poss_path.is_none());
    path.push();
    assert!(path.path.is_empty());
    assert_eq!(path.start, c(32, 32, Dir::Right));
    assert_eq!(path.as_pieces(), None);
}

#[test]
fn push_of_an_empty_proposal_keeps_the_start() {
    let g = open_grid();
    let mut path = Path::new(Pos(0, 0), Dir::Right);
    path.add_path(&g, Pos(0, 0));
    assert_eq!(path.poss_path, Some(vec![]));
    path.push();
    assert_eq!(path.start, c(0, 0, Dir::Right));
    assert!(path.path.is_empty());
}

#[test]
fn as_pieces_gives_laid_and_proposed_pieces() {
    let g = open_grid();
    let mut path = Path::new(Pos(0, 0), Dir::Right);
    path.add_path(&g, Pos(32, 0));
    path.push();
    path.add_path(&g, Pos(64, 0));
    let pieces = path.as_pieces().unwrap();
    assert_eq!(
        pieces,
        vec![
            Track::Strt(Straight::new(c(0, 0, Dir::Right), c(32, 0, Dir::Right))),
            Track::Strt(Straight::new(c(32, 0, Dir::Right), c(64, 0, Dir::Right))),
        ]
    );
}
