use track_laying::placement::TrackParams;
use track_laying::track_types::TrackPos;
use track_laying::utils::Octant;

fn params() -> TrackParams {
    TrackParams { radius: 6 }
}

#[test]
fn straight_ahead_is_one_segment() {
    let path = params().place_tracks((0, 0), Octant(0), (0, 5), false);
    assert_eq!(
        path,
        vec![TrackPos::new((0, 0), Octant(0)), TrackPos::new((0, 5), Octant(0))]
    );
}

#[test]
fn nearly_straight_within_tolerance_is_straight() {
    // sine of the angle 1/101 < 1/100
    let path = params().place_vec_tracks((0, 0), Octant(0), (1, 100), false);
    assert_eq!(path, vec![((0, 0), Octant(0)), ((1, 100), Octant(0))]);
    // sine 1/sqrt(2501) > 1/100: not straight
    let path = params().place_vec_tracks((0, 0), Octant(0), (1, 50), false);
    assert_ne!(path.len(), 2);
}

#[test]
fn target_far_east_turns_one_octant_clockwise() {
    let path = params().place_tracks((0, 0), Octant(0), (20, 0), false);
    assert_eq!(path.len(), 2);
    assert_eq!(path[0], TrackPos::new((0, 0), Octant(0)));
    assert_eq!(path[1], TrackPos::new((2, 4), Octant(1)));
}

#[test]
fn target_far_west_turns_one_octant_counter_clockwise() {
    let path = params().place_tracks((0, 0), Octant(0), (-20, 0), false);
    assert_eq!(path.len(), 2);
    assert_eq!(path[1], TrackPos::new((-2, 4), Octant(7)));
}

#[test]
fn target_ahead_and_aside_runs_straight_then_turns() {
    // ahead 30, aside 10: run straight, then turn toward the target
    let path = params().place_vec_tracks((0, 0), Octant(0), (10, 30), false);
    // lead = 30 - 10 - 4 + 2 = 18
    assert_eq!(
        path,
        vec![((0, 0), Octant(0)), ((0, 18), Octant(0)), ((2, 22), Octant(1))]
    );
}

#[test]
fn diagonal_facing_turns_use_rounded_half_diagonal() {
    // radius 6 from facing north-east toward the east: (round(6/sqrt 2), 6 - 4)
    let turn = params().get_turn(Octant(1), 1);
    assert_eq!(turn, (4, 2));
    let turn = params().get_turn(Octant(0), 1);
    assert_eq!(turn, (2, 4));
    let turn = params().get_turn(Octant(0), -1);
    assert_eq!(turn, (-2, 4));
}

#[test]
fn bend_reaches_the_target_when_allowed() {
    // 3 aside, 10 ahead: bend of ratio 3/2 of the turn (2, 4) -> (3, 6)
    let path = params().place_vec_tracks((0, 0), Octant(0), (3, 10), true);
    assert_eq!(
        path,
        vec![((0, 0), Octant(0)), ((0, 4), Octant(0)), ((3, 10), Octant(0))]
    );
}

#[test]
fn bend_sharper_than_two_turns_is_not_taken() {
    // 10 aside, 12 ahead: the bend (10, 20) is over twice the turn
    let path = params().place_vec_tracks((0, 0), Octant(0), (10, 12), true);
    assert_eq!(path.last().unwrap().1, Octant(1));
}

#[test]
fn target_on_start_gives_start_alone() {
    let path = params().place_vec_tracks((3, 3), Octant(2), (3, 3), true);
    assert_eq!(path, vec![((3, 3), Octant(2))]);
}

#[test]
fn target_behind_turns_at_once() {
    let path = params().place_vec_tracks((0, 0), Octant(0), (0, -10), false);
    assert_eq!(path, vec![((0, 0), Octant(0)), ((2, 4), Octant(1))]);
}
