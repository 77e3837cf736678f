use train_thing::grid::Grid;
use train_thing::path::track::Straight;
use train_thing::path::track::Track;
use train_thing::path::Connection;
use train_thing::path::Dir;
use train_thing::path::Pos;
use train_thing::train::Segment;
use train_thing::train::Train;
use train_thing::train::UNITS;

fn open_grid() -> Grid {
    Grid::new(32, Pos(-1000, -1000), Pos(1000, 1000)).unwrap()
}

fn straights(n: i32) -> Vec<Track> {
    (0..n)
        .map(|i| {
            Track::Strt(Straight::new(
                Connection::new(Pos(32 * i, 0), Dir::Right),
                Connection::new(Pos(32 * i + 32, 0), Dir::Right),
            ))
        })
        .collect()
}

fn state(s: &Segment) -> (i64, usize, i64) {
    (s.speed, s.track, s.dist)
}

#[test]
fn units_in_a_pixel() {
    assert_eq!(UNITS, 1000);
}

#[test]
fn segment_past_the_end_stops_there_and_turns_back() {
    let g = open_grid();
    let tracks = straights(1);
    let mut s = Segment::new(10, 0, 40_000);
    s.update(&g, &tracks, 0);
    assert_eq!(state(&s), (-10, 0, 32_000));
}

#[test]
fn segment_runs_against_the_end() {
    let g = open_grid();
    let tracks = straights(1);
    let mut s = Segment::new(10, 0, 30_000);
    s.update(&g, &tracks, 500);
    assert_eq!(state(&s), (-10, 0, 32_000));
    s.update(&g, &tracks, 500);
    assert_eq!(state(&s), (-10, 0, 27_000));
}

#[test]
fn segment_within_a_piece() {
    let g = open_grid();
    let tracks = straights(2);
    let mut s = Segment::new(200, 0, 0);
    s.update(&g, &tracks, 16);
    assert_eq!(state(&s), (200, 0, 3_200));
    s.update(&g, &tracks, 0);
    assert_eq!(state(&s), (200, 0, 3_200));
}

#[test]
fn segment_at_the_exact_end_of_a_piece_stays_on_it() {
    let g = open_grid();
    let tracks = straights(2);
    let mut s = Segment::new(10, 0, 31_000);
    s.update(&g, &tracks, 100);
    assert_eq!(state(&s), (10, 0, 32_000));
}

#[test]
fn segment_moves_on_to_the_next_piece() {
    let g = open_grid();
    let tracks = straights(2);
    let mut s = Segment::new(10, 0, 30_000);
    s.update(&g, &tracks, 500);
    assert_eq!(state(&s), (10, 1, 3_000));
}

#[test]
fn segment_crosses_several_pieces() {
    let g = open_grid();
    let tracks = straights(5);
    let mut s = Segment::new(100, 0, 1_000);
    s.update(&g, &tracks, 1_000);
    assert_eq!(state(&s), (100, 3, 5_000));
    s.update(&g, &tracks, 1_000);
    assert_eq!(state(&s), (-100, 4, 32_000));
}

#[test]
fn segment_moves_back_to_the_piece_before() {
    let g = open_grid();
    let tracks = straights(2);
    let mut s = Segment::new(-10, 1, 1_000);
    s.update(&g, &tracks, 300);
    assert_eq!(state(&s), (-10, 0, 30_000));
}

#[test]
fn segment_before_the_start_stops_there_and_turns_forward() {
    let g = open_grid();
    let tracks = straights(2);
    let mut s = Segment::new(-10, 0, 1_000);
    s.update(&g, &tracks, 200);
    assert_eq!(state(&s), (10, 0, 0));
    let mut s = Segment::new(-100, 1, 1_000);
    s.update(&g, &tracks, 5_000);
    assert_eq!(state(&s), (100, 0, 0));
}

#[test]
fn segment_with_extreme_values() {
    let g = open_grid();
    let tracks = straights(3);
    let mut s = Segment::new(i32::MIN, 2, i64::MIN);
    s.update(&g, &tracks, u32::MAX);
    assert_eq!(state(&s), (-(i32::MIN as i64), 0, 0));
    let mut s = Segment::new(i32::MAX, 0, i64::MAX);
    s.update(&g, &tracks, u32::MAX);
    assert_eq!(state(&s), (-(i32::MAX as i64), 2, 32_000));
}

#[test]
fn train_has_pairs_of_segments() {
    let t = Train::new(200, 0, 0, (2, 10_000, 40_000));
    let got: Vec<(i64, usize, i64)> = t.segments.iter().map(state).collect();
    assert_eq!(got, vec![(200, 0, 0), (200, 0, 40_000), (200, 0, 50_000), (200, 0, 90_000)]);
    let t = Train::new(-7, 3, 500, (0, 10_000, 40_000));
    assert!(t.segments.is_empty());
}

#[test]
fn train_update_moves_every_segment() {
    let g = open_grid();
    let tracks = straights(4);
    let mut t = Train::new(100, 0, 0, (2, 10_000, 40_000));
    t.update(&g, &tracks, 100);
    let got: Vec<(i64, usize, i64)> = t.segments.iter().map(state).collect();
    // 10 pixels further: 10, 50, 60 and 100 pixels from the start of the track
    assert_eq!(got, vec![(100, 0, 10_000), (100, 1, 18_000), (100, 1, 28_000), (100, 3, 4_000)]);
}
