use brickmap::builder::VolumeBuilder;
use brickmap::config::VolumeConfig;
use brickmap::coord::Vec3;
use brickmap::height::HeightField;
use brickmap::slot::SlotRef;
use brickmap::superchunk::Superchunk;

fn build(top: u32, low: u32, heights: Vec<u32>) -> Superchunk {
    let config = VolumeConfig::new(top, low).unwrap();
    let res = config.resolution();
    let field = HeightField::from_samples(res, heights).unwrap();
    VolumeBuilder::new(config, field).unwrap().generate()
}

fn count_occupied(volume: &Superchunk) -> u32 {
    let res = volume.config().resolution();
    let mut n = 0;
    for x in 0..res {
        for y in 0..res {
            for z in 0..res {
                if volume.query(Vec3::new(x, y, z)) {
                    n += 1;
                }
            }
        }
    }
    n
}

#[test]
fn constant_height_three_fills_the_bottom_three_layers() {
    let volume = build(2, 2, vec![3; 64]);
    for x in 0..8 {
        for y in 0..8 {
            for z in 0..8 {
                assert_eq!(volume.query(Vec3::new(x, y, z)), z < 3);
            }
        }
    }
    assert_eq!(count_occupied(&volume), 192);
}

#[test]
fn constant_height_three_has_the_expected_subchunk_slots() {
    let volume = build(2, 2, vec![3; 64]);
    let slots: Vec<u32> = volume.subchunk_indices().iter().map(|s| s.raw).collect();
    assert_eq!(
        slots,
        vec![1, (2 << 19) | 1, (1 << 19) | 1, (3 << 19) | 1, 0, 0, 0, 0]
    );
    assert_eq!(volume.subchunk_count(), 4);
    assert_eq!(volume.subchunks().len(), 4);
}

#[test]
fn constant_height_three_has_the_expected_brick_slots_and_words() {
    let volume = build(2, 2, vec![3; 64]);
    for sub in volume.subchunks() {
        let slots: Vec<u32> = sub.brick_indices().iter().map(|s| s.raw).collect();
        assert_eq!(
            slots,
            vec![
                1,
                (4 << 24) | 1,
                (2 << 24) | 1,
                (6 << 24) | 1,
                (1 << 24) | 1,
                (5 << 24) | 1,
                (3 << 24) | 1,
                (7 << 24) | 1
            ]
        );
        assert_eq!(sub.brick_count(), 8);
        for (k, brick) in sub.bricks().iter().enumerate() {
            let expected: u32 = if k % 2 == 0 { 0xff } else { 0x0f };
            assert_eq!(brick.words(), &vec![expected]);
        }
    }
}

#[test]
fn constant_height_three_marks_the_single_mask_sample() {
    let volume = build(2, 2, vec![3; 64]);
    assert!(volume.subregion().is_marked(Vec3::new(0, 0, 0)));
    assert!(volume.subregion().is_marked(Vec3::new(1, 1, 1)));
    assert_eq!(volume.subregion().words(), &vec![1]);
}

#[test]
fn zero_height_leaves_the_volume_empty() {
    let volume = build(2, 2, vec![0; 64]);
    assert_eq!(count_occupied(&volume), 0);
    assert_eq!(volume.subchunk_count(), 0);
    assert!(volume.subchunk_indices().iter().all(|s| s.raw == 0));
    assert!(!volume.subregion().is_marked(Vec3::new(0, 0, 0)));
    assert!(volume.lookup(Vec3::new(0, 0, 0)).is_none());
}

#[test]
fn zero_height_column_has_an_empty_bottom_brick() {
    let mut heights = vec![5; 64];
    heights[2 + 3 * 8] = 0;
    let volume = build(2, 2, heights);
    for z in 0..8 {
        assert!(!volume.query(Vec3::new(2, 3, z)));
    }
    assert!(volume.query(Vec3::new(3, 3, 0)));
    assert!(volume.query(Vec3::new(2, 2, 4)));
    assert!(!volume.query(Vec3::new(2, 2, 5)));
}

#[test]
fn full_height_fills_every_column() {
    let volume = build(2, 2, vec![8; 64]);
    assert_eq!(count_occupied(&volume), 512);
    let taller = build(2, 2, vec![1000; 64]);
    assert_eq!(count_occupied(&taller), 512);
    assert_eq!(taller.subchunk_count(), 8);
}

#[test]
fn query_agrees_with_the_heights_on_a_slope() {
    let config = VolumeConfig::new(3, 2).unwrap();
    let res = config.resolution();
    assert_eq!(res, 12);
    let mut heights = Vec::new();
    for y in 0..res {
        for x in 0..res {
            heights.push((x + 2 * y) % 14);
        }
    }
    let field = HeightField::from_samples(res, heights).unwrap();
    let volume = VolumeBuilder::new(config, field).unwrap().generate();
    for x in 0..res {
        for y in 0..res {
            for z in 0..res {
                assert_eq!(volume.query(Vec3::new(x, y, z)), z < (x + 2 * y) % 14);
            }
        }
    }
}

#[test]
fn every_present_slot_refers_into_its_list() {
    let mut heights = Vec::new();
    for i in 0..(12 * 12) {
        heights.push((i * 7) % 13);
    }
    let volume = build(3, 2, heights);
    for slot in volume.subchunk_indices() {
        if slot.present() {
            assert!((slot.index(19) as usize) < volume.subchunk_count());
        } else {
            assert_eq!(slot.raw, 0);
        }
    }
    for sub in volume.subchunks() {
        assert!(!sub.is_empty());
        for slot in sub.brick_indices() {
            if slot.present() {
                assert!((slot.index(24) as usize) < sub.brick_count());
            }
        }
        for brick in sub.bricks() {
            assert!(!brick.is_empty());
        }
    }
}

#[test]
fn generation_is_deterministic() {
    let mut heights = Vec::new();
    for i in 0..64u32 {
        heights.push((i * 5) % 9);
    }
    let a = build(2, 2, heights.clone());
    let b = build(2, 2, heights);
    assert_eq!(a.subchunk_indices(), b.subchunk_indices());
    assert_eq!(a.subregion().words(), b.subregion().words());
    assert_eq!(a.subchunks().len(), b.subchunks().len());
    for (x, y) in a.subchunks().iter().zip(b.subchunks().iter()) {
        assert_eq!(x.brick_indices(), y.brick_indices());
        assert_eq!(x.bricks().len(), y.bricks().len());
        for (p, q) in x.bricks().iter().zip(y.bricks().iter()) {
            assert_eq!(p.words(), q.words());
        }
    }
}

#[test]
fn builder_wants_one_height_for_each_column() {
    let config = VolumeConfig::new(2, 2).unwrap();
    let field = HeightField::from_samples(4, vec![1; 16]).unwrap();
    assert!(VolumeBuilder::new(config, field).is_none());
    assert!(HeightField::from_samples(8, vec![1; 63]).is_none());
    assert!(HeightField::from_samples(0, vec![]).is_some());
}

#[test]
fn slot_of_the_first_subchunk_is_one() {
    let volume = build(2, 2, vec![1; 64]);
    assert_eq!(volume.subchunk_indices()[0], SlotRef { raw: 1 });
}
