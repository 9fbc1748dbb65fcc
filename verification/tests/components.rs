use brickmap::bitset::BitSet;
use brickmap::brick::Brick;
use brickmap::config::VolumeConfig;
use brickmap::coord::{brick_height, Vec3};
use brickmap::height::HeightField;
use brickmap::mask::SubregionOccupancyMask;
use brickmap::slot::{SlotRef, BRICK_SHIFT, SUBCHUNK_SHIFT};
use brickmap::subchunk::Subchunk;
use brickmap::superchunk::Superchunk;

#[test]
fn bitset_starts_empty_with_headroom() {
    let bits = BitSet::new(64);
    assert_eq!(bits.capacity(), 64);
    assert_eq!(bits.words(), &vec![0, 0, 0]);
    assert!(bits.is_empty());
    for i in 0..64 {
        assert!(!bits.is_set(i));
    }
}

#[test]
fn bitset_packs_a_position_into_word_and_bit() {
    let mut bits = BitSet::new(64);
    bits.set(33);
    assert_eq!(bits.words(), &vec![0, 2, 0]);
    assert!(bits.is_set(33));
    assert!(!bits.is_set(32));
    assert!(!bits.is_set(1));
    assert!(!bits.is_empty());
    bits.set(0);
    bits.set(31);
    bits.set(33);
    assert_eq!(bits.words(), &vec![0x8000_0001, 2, 0]);
}

#[test]
fn brick_sets_and_reads_voxels() {
    let config = VolumeConfig::new(16, 4).unwrap();
    let mut brick = Brick::new(&config);
    assert_eq!(brick.low_dim(), 4);
    assert!(brick.is_empty());
    assert_eq!(brick.words().len(), 3);
    let local = Vec3::new(1, 2, 3).linear(4);
    assert_eq!(local, 1 + 2 * 4 + 3 * 16);
    brick.set(local);
    assert!(brick.is_set(local));
    assert!(!brick.is_set(local - 1));
    assert!(!brick.is_empty());
    assert_eq!(brick.words(), &vec![0, 1 << (57 - 32), 0]);
}

#[test]
fn slot_round_trips_through_both_shifts() {
    for shift in [BRICK_SHIFT, SUBCHUNK_SHIFT] {
        let limit: u32 = 1 << (32 - shift);
        for index in [0, 1, 2, 77, limit - 1] {
            let slot = SlotRef::encode(index, true, shift).unwrap();
            assert_eq!(slot.raw, (index << shift) | 1);
            assert_eq!(slot.decode(shift), (index, true));
            assert!(slot.present());
            assert_eq!(slot.index(shift), index);
            let absent = SlotRef::encode(index, false, shift).unwrap();
            assert_eq!(absent.raw, index << shift);
            assert_eq!(absent.decode(shift), (index, false));
        }
    }
}

#[test]
fn slot_round_trips_for_every_shift() {
    for shift in 1..32u32 {
        let top: u32 = 0xffff_ffff >> shift;
        for index in [0, top / 2, top] {
            let slot = SlotRef::encode(index, true, shift).unwrap();
            assert_eq!(slot.decode(shift), (index, true));
        }
        assert_eq!(SlotRef { raw: 0 }.decode(shift), (0, false));
    }
}

#[test]
fn slot_rejects_what_does_not_fit() {
    assert!(SlotRef::encode(256, true, BRICK_SHIFT).is_none());
    assert!(SlotRef::encode(255, true, BRICK_SHIFT).is_some());
    assert!(SlotRef::encode(8192, true, SUBCHUNK_SHIFT).is_none());
    assert!(SlotRef::encode(8191, true, SUBCHUNK_SHIFT).is_some());
    assert!(SlotRef::encode(0, true, 0).is_none());
    assert!(SlotRef::encode(0, true, 32).is_none());
    assert!(SlotRef::encode(1, true, 31).is_some());
    assert!(SlotRef::encode(2, true, 31).is_none());
}

#[test]
fn zero_slot_refers_to_nothing() {
    let slot = SlotRef::empty();
    assert_eq!(slot.raw, 0);
    for shift in 0..40 {
        assert!(!slot.decode(shift).1);
    }
    assert_eq!(SlotRef { raw: 0xffff_fffe }.decode(40), (0, false));
}

#[test]
fn vec3_parts_and_parity() {
    let v = Vec3::new(2, 4, 6);
    assert_eq!((v.x, v.y, v.z), (2, 4, 6));
    assert!(v.is_even());
    let w = Vec3::from([3, 4, 6]);
    assert_eq!(w, Vec3 { x: 3, y: 4, z: 6 });
    assert!(!w.is_even());
    assert!(!Vec3::new(2, 5, 6).is_even());
    assert!(!Vec3::new(2, 4, 7).is_even());
    assert!(Vec3::new(0, 0, 0).is_even());
    assert_eq!(Vec3::new(3, 5, 7).linear(16), 3 + 5 * 16 + 7 * 256);
}

#[test]
fn config_accepts_the_sides_that_fit_the_slots() {
    assert!(VolumeConfig::new(16, 4).is_some());
    assert!(VolumeConfig::new(1, 1).is_some());
    assert!(VolumeConfig::new(20, 6).is_some());
    assert!(VolumeConfig::new(21, 4).is_none());
    assert!(VolumeConfig::new(16, 7).is_none());
    assert!(VolumeConfig::new(0, 4).is_none());
    assert!(VolumeConfig::new(16, 0).is_none());
    let config = VolumeConfig::new(16, 4).unwrap();
    assert_eq!(config.top_dim(), 16);
    assert_eq!(config.low_dim(), 4);
    assert_eq!(config.resolution(), 256);
    assert_eq!(config.brick_volume(), 64);
    assert_eq!(config.grid_volume(), 4096);
}

#[test]
fn config_splits_and_joins_coordinates() {
    let config = VolumeConfig::new(16, 4).unwrap();
    let (sup, chunk, local) = config.split(Vec3::new(29, 34, 255));
    assert_eq!(sup, Vec3::new(1, 2, 15));
    assert_eq!(chunk, Vec3::new(3, 0, 3));
    assert_eq!(local, Vec3::new(1, 2, 3));
    assert_eq!(config.join_axis(1, 3, 1), 29);
    assert_eq!(config.join_axis(2, 0, 2), 34);
    assert_eq!(config.join_axis(15, 3, 3), 255);
}

#[test]
fn brick_height_is_the_position_of_the_column() {
    let config = VolumeConfig::new(16, 4).unwrap();
    assert_eq!(brick_height(&config, 1, 2, 3, 0, 1, 2), 29 + 34 * 256);
    assert_eq!(brick_height(&config, 0, 0, 0, 0, 0, 0), 0);
    assert_eq!(brick_height(&config, 15, 15, 3, 3, 3, 3), 255 + 255 * 256);
}

#[test]
fn height_field_reads_samples_row_by_row() {
    let field = HeightField::from_samples(3, vec![0, 1, 2, 10, 11, 12, 20, 21, 22]).unwrap();
    assert_eq!(field.dim(), 3);
    assert_eq!(field.height(0, 0), 0);
    assert_eq!(field.height(2, 0), 2);
    assert_eq!(field.height(1, 2), 21);
    assert_eq!(field.sample(5), 12);
    assert!(HeightField::from_samples(3, vec![0; 8]).is_none());
    assert!(HeightField::from_samples(3, vec![0; 10]).is_none());
}

#[test]
fn mask_indexes_by_halved_coordinates() {
    let config = VolumeConfig::new(16, 4).unwrap();
    let mut mask = SubregionOccupancyMask::new(&config);
    assert_eq!(mask.words().len(), 512 / 32 + 1);
    assert!(mask.words().iter().all(|w| *w == 0));
    mask.mark(Vec3::new(2, 4, 6));
    let position = 1 + 2 * 8 + 3 * 64;
    assert_eq!(mask.words()[position / 32], 1 << (position % 32));
    assert!(mask.is_marked(Vec3::new(2, 4, 6)));
    assert!(mask.is_marked(Vec3::new(3, 5, 7)));
    assert!(!mask.is_marked(Vec3::new(4, 4, 6)));
    assert!(!mask.is_marked(Vec3::new(0, 0, 0)));
    mask.mark(Vec3::new(14, 14, 14));
    assert!(mask.is_marked(Vec3::new(15, 15, 15)));
    assert_eq!(mask.words()[15], 1 << 31);
}

#[test]
fn mask_of_an_odd_grid_has_a_sample_for_the_last_cell() {
    let config = VolumeConfig::new(3, 2).unwrap();
    let mut mask = SubregionOccupancyMask::new(&config);
    mask.mark(Vec3::new(2, 2, 2));
    assert!(mask.is_marked(Vec3::new(2, 2, 2)));
    assert!(!mask.is_marked(Vec3::new(1, 1, 1)));
    assert_eq!(mask.words(), &vec![1 << 7]);
}

fn brick_with(config: &VolumeConfig, local: usize) -> Brick {
    let mut brick = Brick::new(config);
    brick.set(local);
    brick
}

#[test]
fn subchunk_assigns_positions_in_the_order_of_adding() {
    let config = VolumeConfig::new(16, 4).unwrap();
    let mut sub = Subchunk::new(&config);
    assert_eq!(sub.low_dim(), 4);
    assert!(sub.is_empty());
    assert_eq!(sub.brick_indices().len(), 64);
    assert!(sub.brick_indices().iter().all(|s| s.raw == 0));
    assert!(sub.lookup(Vec3::new(1, 1, 1)).is_none());

    assert_eq!(sub.add_brick(Vec3::new(1, 1, 1), brick_with(&config, 5)), 0);
    assert_eq!(sub.add_brick(Vec3::new(0, 0, 0), brick_with(&config, 6)), 1);
    assert_eq!(sub.add_brick(Vec3::new(3, 3, 3), brick_with(&config, 7)), 2);
    assert_eq!(sub.brick_count(), 3);
    assert!(!sub.is_empty());
    assert_eq!(sub.brick_indices()[1 + 4 + 16].raw, 1);
    assert_eq!(sub.brick_indices()[0].raw, (1 << 24) | 1);
    assert_eq!(sub.brick_indices()[63].raw, (2 << 24) | 1);
    assert_eq!(sub.brick_indices().iter().filter(|s| s.present()).count(), 3);

    assert!(sub.lookup(Vec3::new(1, 1, 1)).unwrap().is_set(5));
    assert!(sub.lookup(Vec3::new(0, 0, 0)).unwrap().is_set(6));
    assert!(sub.lookup(Vec3::new(3, 3, 3)).unwrap().is_set(7));
    assert!(!sub.lookup(Vec3::new(3, 3, 3)).unwrap().is_set(5));
    assert!(sub.lookup(Vec3::new(2, 2, 2)).is_none());
    assert!(sub.bricks()[1].is_set(6));
}

#[test]
fn subchunk_takes_a_brick_in_every_cell() {
    let config = VolumeConfig::new(2, 6).unwrap();
    let mut sub = Subchunk::new(&config);
    let mut expected = 0;
    for x in 0..6 {
        for y in 0..6 {
            for z in 0..6 {
                assert_eq!(sub.add_brick(Vec3::new(x, y, z), brick_with(&config, 0)), expected);
                expected += 1;
            }
        }
    }
    assert_eq!(sub.brick_count(), 216);
    assert_eq!(sub.brick_indices()[215].decode(BRICK_SHIFT), (215, true));
}

fn subchunk_with(config: &VolumeConfig, local: usize) -> Subchunk {
    let mut sub = Subchunk::new(config);
    sub.add_brick(Vec3::new(0, 0, 0), brick_with(config, local));
    sub
}

#[test]
fn superchunk_assigns_positions_and_marks_even_cells() {
    let config = VolumeConfig::new(16, 4).unwrap();
    let mut volume = Superchunk::new(&config);
    assert_eq!(volume.config(), config);
    assert_eq!(volume.subchunk_indices().len(), 4096);
    assert_eq!(volume.subchunk_count(), 0);
    assert_eq!(volume.count_occupied(), 0);

    assert_eq!(volume.add_subchunk(Vec3::new(3, 4, 6), subchunk_with(&config, 1)), 0);
    assert_eq!(volume.add_subchunk(Vec3::new(2, 4, 6), subchunk_with(&config, 2)), 1);
    assert_eq!(volume.subchunk_count(), 2);
    assert_eq!(volume.subchunk_indices()[3 + 4 * 16 + 6 * 256].raw, 1);
    assert_eq!(volume.subchunk_indices()[2 + 4 * 16 + 6 * 256].raw, (1 << 19) | 1);
    assert!(volume.subregion().is_marked(Vec3::new(2, 4, 6)));
    let marked: u32 = volume.subregion().words().iter().map(|w| w.count_ones()).sum();
    assert_eq!(marked, 1);

    assert!(volume.lookup(Vec3::new(3, 4, 6)).unwrap().bricks()[0].is_set(1));
    assert!(volume.lookup(Vec3::new(2, 4, 6)).unwrap().bricks()[0].is_set(2));
    assert!(volume.lookup(Vec3::new(2, 4, 7)).is_none());

    assert!(volume.query(Vec3::new(3 * 16 + 1, 4 * 16, 6 * 16)));
    assert!(!volume.query(Vec3::new(3 * 16, 4 * 16, 6 * 16)));
    assert!(volume.query(Vec3::new(2 * 16 + 2, 4 * 16, 6 * 16)));
    assert!(!volume.query(Vec3::new(0, 0, 0)));
}

#[test]
fn count_occupied_counts_the_voxels_below_the_heights() {
    let config = VolumeConfig::new(2, 2).unwrap();
    let mut heights = vec![0; 64];
    heights[0] = 1;
    heights[9] = 8;
    heights[63] = 5;
    let field = HeightField::from_samples(8, heights).unwrap();
    let volume = brickmap::builder::VolumeBuilder::new(config, field).unwrap().generate();
    assert_eq!(volume.count_occupied(), 1 + 8 + 5);
}
