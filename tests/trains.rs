use rand::rngs::StdRng;
use rand::SeedableRng;
use track_laying::track_graph::{Network, TrackData, TrackDirection, TrackEdge};
use track_laying::track_types::{TrackPos, TrackSegment};
use track_laying::train::{
    accelerate, drive_train, move_along, steer_exit, update_autonomous, update_train, Driving,
    Steering, Train, MAX_SPEED, SAMPLE_ONE,
};
use track_laying::utils::Octant;

fn straight_network(length: u64) -> (Network, usize) {
    let mut net = Network::new();
    let s = TrackSegment::from_directed(
        TrackPos::new((0, 0), Octant(0)),
        TrackPos::new((0, 10), Octant(0)),
    );
    let id = net.add_track(s, length);
    (net, id)
}

#[test]
fn motion_without_junction_advances_by_distance_over_length() {
    let (net, id) = straight_network(10_000_000);
    let mut train = Train::new(id, 0);
    train.speed = 300_000;
    let mut rng = StdRng::seed_from_u64(1);
    // 300000 units/s for one second over 10^7 units
    update_train(&mut train, &net, 1_000_000, &mut rng);
    assert_eq!(train.sample, 30_000);
    assert_eq!(train.speed, 300_000);
    assert_eq!(train.track_edge, TrackEdge::pos(id));
    assert_eq!(train.curve_param(), 30_000);

    // from a later point, a quarter second
    train.sample = 500_000;
    update_train(&mut train, &net, 250_000, &mut rng);
    assert_eq!(train.sample, 507_500);
}

#[test]
fn motion_with_uneven_steps_drops_only_the_remainder() {
    let (net, id) = straight_network(7);
    let mut train = Train::new(id, 0);
    train.speed = 1;
    let mut rng = StdRng::seed_from_u64(1);
    update_train(&mut train, &net, 5_000_000, &mut rng);
    // 5 units over 7: 5 * 10^6 / 7
    assert_eq!(train.sample, 714_285);
}

#[test]
fn dead_end_stops_the_train() {
    let (net, id) = straight_network(1_000);
    let mut train = Train::new(id, SAMPLE_ONE);
    train.speed = 5_000;
    let mut rng = StdRng::seed_from_u64(1);
    update_train(&mut train, &net, 100_000, &mut rng);
    assert_eq!(train.speed, 0);
    assert_eq!(train.sample, SAMPLE_ONE);
    assert_eq!(train.track_edge, TrackEdge::pos(id));
    // and stays put
    update_train(&mut train, &net, 100_000, &mut rng);
    assert_eq!(train.sample, SAMPLE_ONE);
}

#[test]
fn reaching_the_end_stops_at_a_dead_end_within_one_tick() {
    let (net, id) = straight_network(1_000);
    let mut train = Train::new(id, 900_000);
    train.speed = 300_000;
    let mut rng = StdRng::seed_from_u64(1);
    update_train(&mut train, &net, 1_000_000, &mut rng);
    assert_eq!(train.sample, SAMPLE_ONE);
    assert_eq!(train.speed, 0);
}

#[test]
fn train_on_removed_track_stays() {
    let (mut net, id) = straight_network(1_000);
    let mut train = Train::new(id, 10);
    train.speed = 300_000;
    net.remove_track(id);
    let mut rng = StdRng::seed_from_u64(1);
    update_train(&mut train, &net, 1_000_000, &mut rng);
    assert_eq!(train.sample, 10);
    assert_eq!(train.speed, 300_000);
}

#[test]
fn junction_crossing_continues_on_the_next_segment() {
    let mut net = Network::new();
    let a = TrackPos::new((0, 0), Octant(0));
    let b = TrackPos::new((0, 5), Octant(0));
    let c = TrackPos::new((0, 10), Octant(0));
    let s1 = net.add_track(TrackSegment::from_directed(a, b), 1_000);
    let s2 = net.add_track(TrackSegment::from_directed(b, c), 1_000);
    let mut train = Train::new(s1, 500_000);
    train.speed = 1_000;
    let mut steering = Steering { left: false, right: false, reversed: false };
    // 1000 units: 500 to the junction, 500 beyond it
    update_train(&mut train, &net, 1_000_000, &mut steering);
    assert_eq!(train.track_edge, TrackEdge::pos(s2));
    assert_eq!(train.sample, 500_000);
}

#[test]
fn random_exit_is_one_of_the_branches() {
    let mut net = Network::new();
    let a = TrackPos::new((0, 0), Octant(0));
    let b = TrackPos::new((0, 5), Octant(0));
    let c = TrackPos::new((0, 10), Octant(0));
    let d = TrackPos::new((2, 9), Octant(1));
    let s1 = net.add_track(TrackSegment::from_directed(a, b), 1_000);
    let s2 = net.add_track(TrackSegment::from_directed(b, c), 1_000_000);
    let s3 = net.add_track(TrackSegment::from_directed(b, d), 1_000_000);
    for seed in 0..20 {
        let mut rng = StdRng::seed_from_u64(seed);
        let mut train = Train::new(s1, SAMPLE_ONE);
        train.speed = 1_000;
        update_autonomous(&mut train, &net, 1_000, &mut rng);
        assert!(train.track_edge == TrackEdge::pos(s2) || train.track_edge == TrackEdge::pos(s3));
        assert_ne!(train.sample, 0);
        assert_eq!(train.speed, 1_200);
    }
}

#[test]
fn steering_picks_the_branch_nearest_the_aim() {
    let b = TrackPos::new((0, 5), Octant(4));
    let straight = TrackData {
        segment: TrackSegment::from_directed(TrackPos::new((0, 5), Octant(0)), TrackPos::new((0, 10), Octant(0))),
        length: 1,
    };
    let right = TrackData {
        segment: TrackSegment::from_directed(TrackPos::new((0, 5), Octant(0)), TrackPos::new((2, 9), Octant(1))),
        length: 1,
    };
    let exits = vec![(TrackEdge::pos(0), straight), (TrackEdge::pos(1), right)];
    let ahead = Steering { left: false, right: false, reversed: false };
    assert_eq!(steer_exit(ahead, &b, &exits), 0);
    let turn_right = Steering { left: false, right: true, reversed: false };
    assert_eq!(steer_exit(turn_right, &b, &exits), 1);
    // in reverse the sides swap
    let reversed_right = Steering { left: false, right: true, reversed: true };
    assert_eq!(steer_exit(reversed_right, &b, &exits), 0);
}

#[test]
fn move_along_clamps_at_the_end() {
    let data = TrackData {
        segment: TrackSegment::from_directed(TrackPos::new((0, 0), Octant(0)), TrackPos::new((0, 1), Octant(0))),
        length: 2_000,
    };
    let mut train = Train::new(0, 600_000);
    let used = move_along(&data, &mut train, 5_000);
    assert_eq!(train.sample, SAMPLE_ONE);
    assert_eq!(used, 800);
    let used = move_along(&data, &mut train, 5_000);
    assert_eq!(used, 0);
}

#[test]
fn flip_turns_the_train_round() {
    let mut train = Train::new(3, 250_000);
    train.speed = -40;
    train.flip();
    assert_eq!(train.sample, 750_000);
    assert_eq!(train.direction(), TrackDirection::NEG);
    assert_eq!(train.speed, 40);
    assert_eq!(train.curve_param(), 250_000);
}

#[test]
fn throttle_clamps_and_reverses() {
    let mut train = Train::new(0, 100_000);
    let mut driving = Driving(TrackDirection::POS);
    accelerate(&mut train, &mut driving, true, false, 500_000);
    assert_eq!(train.speed, 100_000);
    accelerate(&mut train, &mut driving, true, false, 10_000_000);
    assert_eq!(train.speed, MAX_SPEED);
    let mut train = Train::new(0, 100_000);
    train.speed = 50_000;
    accelerate(&mut train, &mut driving, false, true, 1_000_000);
    assert_eq!(train.speed, 150_000);
    assert_eq!(train.sample, 900_000);
    assert_eq!(train.direction(), TrackDirection::NEG);
    assert_eq!(driving.0, TrackDirection::NEG);
}

#[test]
fn driving_moves_forward() {
    let (net, id) = straight_network(10_000_000);
    let mut train = Train::new(id, 0);
    let mut driving = Driving(TrackDirection::POS);
    drive_train(&mut train, &mut driving, &net, true, false, false, false, 1_000_000);
    assert_eq!(train.speed, 200_000);
    assert_eq!(train.sample, 20_000);
}

#[test]
fn steering_turns_one_octant() {
    // arriving northbound at (0, 5): one exit to the north-east, one to the east
    let b = TrackPos::new((0, 5), Octant(4));
    let north_east = TrackData {
        segment: TrackSegment::from_directed(TrackPos::new((0, 5), Octant(0)), TrackPos::new((3, 8), Octant(1))),
        length: 1,
    };
    let east = TrackData {
        segment: TrackSegment::from_directed(TrackPos::new((0, 5), Octant(0)), TrackPos::new((4, 5), Octant(2))),
        length: 1,
    };
    let exits = vec![(TrackEdge::pos(0), east), (TrackEdge::pos(1), north_east)];
    let turn_right = Steering { left: false, right: true, reversed: false };
    assert_eq!(steer_exit(turn_right, &b, &exits), 1);
    let both = Steering { left: true, right: true, reversed: false };
    assert_eq!(steer_exit(both, &b, &exits), 1);
    let reversed_left = Steering { left: true, right: false, reversed: true };
    assert_eq!(steer_exit(reversed_left, &b, &exits), 1);
}

#[test]
fn dead_end_stops_even_a_crawling_train() {
    let (net, id) = straight_network(1_000);
    let mut train = Train::new(id, SAMPLE_ONE);
    train.speed = 1;
    let mut rng = StdRng::seed_from_u64(1);
    update_train(&mut train, &net, 1, &mut rng);
    assert_eq!(train.speed, 0);
    assert_eq!(train.sample, SAMPLE_ONE);
}

#[test]
fn train_at_a_junction_goes_on_along_the_picked_exit() {
    let mut net = Network::new();
    let a = TrackPos::new((0, 0), Octant(0));
    let b = TrackPos::new((0, 5), Octant(0));
    let c = TrackPos::new((0, 10), Octant(0));
    let s1 = net.add_track(TrackSegment::from_directed(a, b), 1_000);
    let s2 = net.add_track(TrackSegment::from_directed(b, c), 1_000_000);
    let mut train = Train::new(s1, SAMPLE_ONE);
    train.speed = 1_000;
    let mut steering = Steering { left: true, right: false, reversed: false };
    update_train(&mut train, &net, 1_000_000, &mut steering);
    assert_eq!(train.track_edge, TrackEdge::pos(s2));
    assert_eq!(train.sample, 1_000);
    assert_eq!(train.speed, 1_000);
}
