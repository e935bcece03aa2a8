use track_laying::track_types::{TrackPos, TrackSegment};
use track_laying::utils::{
    octant_to_unit, pos_to_tile, pos_to_tile_vec, pos_to_vec, tile_to_center, tile_to_vec,
    tile_vec_to_center, tile_vec_to_pos, Octant,
};

#[test]
fn octant_rotations_wrap_modulo_eight() {
    assert_eq!(Octant(0).left(), Octant(7));
    assert_eq!(Octant(7).right(), Octant(0));
    assert_eq!(Octant(3).right(), Octant(4));
    assert_eq!(Octant(6).inverse(), Octant(2));
    assert_eq!(Octant(1).inverse(), Octant(5));
    assert_eq!(Octant(7).perp(), Octant(1));
    assert_eq!(Octant(5).plus(Octant(6)), Octant(3));
    assert_eq!(Octant(0).plus(Octant(-1)), Octant(7));
    assert_eq!(Octant::from_index(13), Octant(5));
    let o: Octant = 21usize.into();
    assert_eq!(o, Octant(5));
}

#[test]
fn octant_steps_run_clockwise_from_north() {
    assert_eq!(octant_to_unit(Octant(0)), (0, 1));
    assert_eq!(octant_to_unit(Octant(1)), (1, 1));
    assert_eq!(octant_to_unit(Octant(2)), (1, 0));
    assert_eq!(octant_to_unit(Octant(3)), (1, -1));
    assert_eq!(octant_to_unit(Octant(4)), (0, -1));
    assert_eq!(octant_to_unit(Octant(5)), (-1, -1));
    assert_eq!(octant_to_unit(Octant(6)), (-1, 0));
    assert_eq!(octant_to_unit(Octant(7)), (-1, 1));
}

#[test]
fn world_positions_map_to_tiles() {
    // round(p / 32 - 1/2), halves away from zero
    assert_eq!(pos_to_tile((0, 0)), (-1, -1));
    assert_eq!(pos_to_tile((16, 31)), (0, 0));
    assert_eq!(pos_to_tile((31, 33)), (0, 1));
    assert_eq!(pos_to_tile((32, 48)), (1, 1));
    assert_eq!(pos_to_tile((-1, -16)), (-1, -1));
    assert_eq!(pos_to_tile((-32, -33)), (-2, -2));
    assert_eq!(pos_to_vec((100, 64)), (3, 2));
    assert_eq!(pos_to_tile_vec((100, 64)), (3, 2));
}

#[test]
fn tiles_map_to_world_positions() {
    assert_eq!(tile_vec_to_pos((2, -3)), (64, -96));
    assert_eq!(tile_vec_to_center((2, -3)), (80, -80));
    assert_eq!(tile_to_center((0, 0)), (16, 16));
    assert_eq!(tile_to_vec((4, 5)), (4, 5));
}

#[test]
fn track_pos_inverse_keeps_tile() {
    let p = TrackPos::new((3, 4), Octant(6));
    let q = p.inverse();
    assert_eq!(q.tile, (3, 4));
    assert_eq!(q.facing, Octant(2));
    assert_eq!(q.inverse(), p);
}

#[test]
fn segment_is_stored_smaller_tile_first() {
    let a = TrackPos::new((5, 0), Octant(6));
    let b = TrackPos::new((0, 0), Octant(6));
    let s = TrackSegment::from_directed(a, b);
    assert_eq!(s.start, TrackPos::new((0, 0), Octant(2)));
    assert_eq!(s.end, TrackPos::new((5, 0), Octant(6)));
}

#[test]
fn segment_is_the_same_laid_either_way() {
    let a = TrackPos::new((0, 0), Octant(0));
    let b = TrackPos::new((2, 4), Octant(1));
    let forward = TrackSegment::from_directed(a, b);
    let backward = TrackSegment::from_directed(b.inverse(), a.inverse());
    assert_eq!(forward, backward);
    assert_eq!(forward.start, a);
    assert_eq!(forward.end, TrackPos::new((2, 4), Octant(5)));
}

#[test]
fn segment_on_one_tile_is_the_same_laid_either_way() {
    let a = TrackPos::new((1, 1), Octant(3));
    let b = TrackPos::new((1, 1), Octant(0));
    let forward = TrackSegment::from_directed(a, b);
    let backward = TrackSegment::from_directed(b.inverse(), a.inverse());
    assert_eq!(forward, backward);
}
