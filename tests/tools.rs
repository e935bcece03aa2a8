use track_laying::placement::TrackParams;
use track_laying::placement_tool::{
    cleanup_track_placement, track_placement_tool, PlacementState, ToolInput,
};
use track_laying::track_graph::{Network, TrackDirection, TrackEdge};
use track_laying::track_types::{TrackPos, TrackSegment};
use track_laying::train::{place_train, Driving, TrainPlacementEvent, SAMPLE_ONE};
use track_laying::utils::Octant;

fn click(x: i64, y: i64) -> ToolInput {
    ToolInput { mouse: Some((x, y)), left_click: true, right_click: false, shift: false }
}

fn hover(x: i64, y: i64) -> ToolInput {
    ToolInput { mouse: Some((x, y)), left_click: false, right_click: false, shift: false }
}

#[test]
fn tool_picks_start_facing_then_lays_a_segment() {
    let net = Network::new();
    let params = TrackParams { radius: 6 };
    let mut state = PlacementState::new();

    let out = track_placement_tool(&mut state, &net, &params, click(16, 16));
    assert_eq!(state.start, Some((0, 0)));
    assert_eq!(state.facing, None);
    assert_eq!(state.facing_options, [true; 8]);
    assert!(out.preview.is_empty() && out.place.is_none());

    // the cursor east of the center highlights octant 2
    let out = track_placement_tool(&mut state, &net, &params, hover(90, 20));
    assert_eq!(out.highlighted, Some(2));
    // north-west of it, octant 7
    let out = track_placement_tool(&mut state, &net, &params, hover(-50, 80));
    assert_eq!(out.highlighted, Some(7));
    let out = track_placement_tool(&mut state, &net, &params, click(16, 100));
    assert_eq!(out.highlighted, Some(0));
    assert_eq!(state.facing, Some(Octant(0)));

    let segment = TrackSegment::from_directed(
        TrackPos::new((0, 0), Octant(0)),
        TrackPos::new((0, 5), Octant(0)),
    );
    let out = track_placement_tool(&mut state, &net, &params, hover(16, 176));
    assert_eq!(out.preview, vec![segment]);
    assert_eq!(out.place, None);
    let out = track_placement_tool(&mut state, &net, &params, click(16, 176));
    assert_eq!(out.place, Some(segment));
    assert_eq!(state.start, Some((0, 5)));
    assert_eq!(state.facing, Some(Octant(0)));

    let right = ToolInput { mouse: Some((0, 0)), left_click: false, right_click: true, shift: false };
    track_placement_tool(&mut state, &net, &params, right);
    assert_eq!(state.start, None);
    assert_eq!(state.facing, None);
}

#[test]
fn tool_offers_the_open_facings_of_a_junction() {
    let mut net = Network::new();
    net.add_track(
        TrackSegment::from_directed(TrackPos::new((0, 0), Octant(0)), TrackPos::new((0, 5), Octant(0))),
        1,
    );
    let params = TrackParams { radius: 6 };
    let mut state = PlacementState::new();
    track_placement_tool(&mut state, &net, &params, click(16, 176));
    assert_eq!(state.facing_options, [true, false, false, false, true, false, false, false]);
    // east of the tile: only north and south are offered; the first of the tie wins
    let out = track_placement_tool(&mut state, &net, &params, hover(100, 176));
    assert_eq!(out.highlighted, Some(0));
    // with shift every facing is offered
    let mut state = PlacementState::new();
    let shift = ToolInput { mouse: Some((16, 176)), left_click: true, right_click: false, shift: true };
    track_placement_tool(&mut state, &net, &params, shift);
    assert_eq!(state.facing_options, [true; 8]);
}

#[test]
fn tool_without_cursor_does_nothing() {
    let net = Network::new();
    let params = TrackParams { radius: 6 };
    let mut state = PlacementState::new();
    let none = ToolInput { mouse: None, left_click: true, right_click: true, shift: false };
    let out = track_placement_tool(&mut state, &net, &params, none);
    assert_eq!(state.start, None);
    assert!(out.preview.is_empty() && out.place.is_none() && out.highlighted.is_none());
}

#[test]
fn leaving_the_tool_drops_the_picks() {
    let net = Network::new();
    let params = TrackParams { radius: 6 };
    let mut state = PlacementState::new();
    track_placement_tool(&mut state, &net, &params, click(16, 16));
    cleanup_track_placement(&mut state);
    assert_eq!(state.start, None);
    assert_eq!(state.facing, None);
}

#[test]
fn trains_are_placed_only_on_stored_tracks() {
    let mut net = Network::new();
    let id = net.add_track(
        TrackSegment::from_directed(TrackPos::new((0, 0), Octant(0)), TrackPos::new((0, 5), Octant(0))),
        1,
    );
    let (train, driving) =
        place_train(&net, TrainPlacementEvent { track: id, sample: 400_000, shift: false }).unwrap();
    assert_eq!(train.track_edge, TrackEdge::pos(id));
    assert_eq!(train.sample, 400_000);
    assert_eq!(train.speed, 0);
    assert_eq!(driving, Some(Driving(TrackDirection::POS)));
    let (train, driving) =
        place_train(&net, TrainPlacementEvent { track: id, sample: 5 * SAMPLE_ONE, shift: true }).unwrap();
    assert_eq!(train.sample, SAMPLE_ONE);
    assert_eq!(driving, None);
    assert!(place_train(&net, TrainPlacementEvent { track: id + 1, sample: 0, shift: true }).is_none());
}

#[test]
fn track_ids_list_stored_segments_in_order() {
    let mut net = Network::new();
    let a = TrackPos::new((0, 0), Octant(2));
    let b = TrackPos::new((3, 0), Octant(2));
    for _ in 0..4 {
        net.add_track(TrackSegment::from_directed(a, b), 1);
    }
    net.remove_track(1);
    assert_eq!(net.track_ids(), vec![0, 2, 3]);
}
