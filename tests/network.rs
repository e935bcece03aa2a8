use track_laying::track_graph::{Network, TrackDirection, TrackEdge};
use track_laying::track_types::{TrackPos, TrackSegment};
use track_laying::utils::Octant;

fn seg(a: TrackPos, b: TrackPos) -> TrackSegment {
    TrackSegment::from_directed(a, b)
}

#[test]
fn added_track_has_both_directions() {
    let mut net = Network::new();
    let a = TrackPos::new((0, 0), Octant(0));
    let b = TrackPos::new((0, 5), Octant(0));
    let s = seg(a, b);
    let id = net.add_track(s, 160_000);
    assert_eq!(id, 0);

    // arriving at the start from beyond, the segment leads on forward
    let exits = net.get_exits(&s.start.inverse());
    assert_eq!(exits.len(), 1);
    assert_eq!(exits[0].0, TrackEdge::pos(id));
    assert_eq!(exits[0].1.segment, s);
    assert_eq!(exits[0].1.get_pos(exits[0].0.direction), s.end);

    // arriving at the end from beyond, it leads back
    let exits = net.get_exits(&s.end.inverse());
    assert_eq!(exits.len(), 1);
    assert_eq!(exits[0].0, TrackEdge::neg(id));
    assert_eq!(exits[0].1.get_pos(exits[0].0.direction), s.start);

    net.remove_track(id);
    assert!(net.get_exits(&s.start.inverse()).is_empty());
    assert!(net.get_exits(&s.end.inverse()).is_empty());
    assert!(net.get(id).is_none());
}

#[test]
fn identities_increase() {
    let mut net = Network::new();
    let a = TrackPos::new((0, 0), Octant(2));
    let b = TrackPos::new((3, 0), Octant(2));
    let c = TrackPos::new((6, 0), Octant(2));
    assert_eq!(net.add_track(seg(a, b), 1), 0);
    assert_eq!(net.add_track(seg(b, c), 1), 1);
    net.remove_track(0);
    assert_eq!(net.add_track(seg(a, b), 1), 2);
    assert!(net.get(0).is_none());
    assert_eq!(net.get(1).unwrap().length, 1);
    assert_eq!(net.get_data(TrackEdge::neg(2)).unwrap().segment, seg(a, b));
}

#[test]
fn removing_a_missing_track_does_nothing() {
    let mut net = Network::new();
    let a = TrackPos::new((0, 0), Octant(2));
    let b = TrackPos::new((3, 0), Octant(2));
    let id = net.add_track(seg(a, b), 7);
    net.remove_track(id + 5);
    assert_eq!(net.get(id).unwrap().length, 7);
    assert_eq!(net.get_exits(&a.inverse()).len(), 1);
}

#[test]
fn junction_offers_every_branch() {
    let mut net = Network::new();
    let a = TrackPos::new((0, 0), Octant(0));
    let b = TrackPos::new((0, 5), Octant(0));
    let c = TrackPos::new((0, 10), Octant(0));
    let d = TrackPos::new((2, 9), Octant(1));
    let s1 = net.add_track(seg(a, b), 1);
    let s2 = net.add_track(seg(b, c), 1);
    let s3 = net.add_track(seg(b, d), 1);
    // arriving at b along s1
    let arrival = net.get(s1).unwrap().get_pos(TrackDirection::POS);
    let exits = net.get_exits(&arrival);
    let mut ids: Vec<usize> = exits.iter().map(|e| e.0.track).collect();
    ids.sort();
    assert_eq!(ids, vec![s2, s3]);
    assert!(exits.iter().all(|e| e.0.direction == TrackDirection::POS));
}

#[test]
fn connections_list_the_nodes_at_a_tile() {
    let mut net = Network::new();
    let a = TrackPos::new((0, 0), Octant(0));
    let b = TrackPos::new((0, 5), Octant(0));
    let id = net.add_track(seg(a, b), 1);
    let at_a = net.get_connections((0, 0));
    assert_eq!(at_a, [true, false, false, false, true, false, false, false]);
    let at_b = net.get_connections((0, 5));
    assert_eq!(at_b, [true, false, false, false, true, false, false, false]);
    assert_eq!(net.get_connections((1, 1)), [false; 8]);
    // nodes stay after their edges go
    net.remove_track(id);
    assert_eq!(net.get_connections((0, 0))[0], true);
}

#[test]
fn direction_helpers() {
    assert!(TrackDirection::POS.is_pos());
    assert!(!TrackDirection::NEG.is_pos());
    assert_eq!(TrackDirection::POS.inverse(), TrackDirection::NEG);
    assert_eq!(TrackDirection::NEG.signum(), -1);
    assert_eq!(TrackDirection::POS.signum(), 1);
    let d = track_laying::track_graph::TrackData {
        segment: seg(TrackPos::new((0, 0), Octant(2)), TrackPos::new((4, 0), Octant(2))),
        length: 3,
    };
    assert_eq!(d.start_tile(), (0, 0));
    assert_eq!(d.end_tile(), (4, 0));
    assert_eq!(d.get_pos(TrackDirection::NEG), TrackPos::new((0, 0), Octant(2)));
}
