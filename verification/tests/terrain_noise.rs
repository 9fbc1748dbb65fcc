use brickmap::builder::VolumeBuilder;
use brickmap::config::VolumeConfig;
use brickmap::coord::Vec3;
use brickmap::height::HeightField;
use noise::{NoiseFn, Perlin};

fn sampled_heights(seed: u32, res: u32, amplitude: f64, frequency: f64) -> Vec<u32> {
    let perlin = Perlin::new(seed);
    let mut heights = vec![0; (res * res) as usize];
    for x in 0..res {
        for y in 0..res {
            let sample = perlin.get([frequency * (x as f64) - 1.0, frequency * (y as f64) - 1.0]);
            heights[(x + y * res) as usize] = (sample * amplitude).abs() as u32;
        }
    }
    heights
}

#[test]
fn volume_of_a_noise_terrain_answers_by_height() {
    let config = VolumeConfig::new(4, 4).unwrap();
    let res = config.resolution();
    let heights = sampled_heights(342234, res, 64.0, 1.0 / 32.0);
    assert!(heights.iter().any(|h| *h > 0));
    let field = HeightField::from_samples(res, heights.clone()).unwrap();
    let volume = VolumeBuilder::new(config, field).unwrap().generate();
    let mut expected: u32 = 0;
    for x in 0..res {
        for y in 0..res {
            let h = heights[(x + y * res) as usize];
            expected += h.min(res);
            for z in 0..res {
                assert_eq!(volume.query(Vec3::new(x, y, z)), z < h);
            }
        }
    }
    assert_eq!(volume.count_occupied(), expected);
}

#[test]
fn same_seed_gives_the_same_volume() {
    let config = VolumeConfig::new(4, 4).unwrap();
    let res = config.resolution();
    let build = || {
        let heights = sampled_heights(7, res, 64.0, 1.0 / 32.0);
        let field = HeightField::from_samples(res, heights).unwrap();
        VolumeBuilder::new(config, field).unwrap().generate()
    };
    let a = build();
    let b = build();
    assert_eq!(a.subchunk_indices(), b.subchunk_indices());
    assert_eq!(a.subregion().words(), b.subregion().words());
    assert_eq!(a.subchunk_count(), b.subchunk_count());
    for (x, y) in a.subchunks().iter().zip(b.subchunks().iter()) {
        assert_eq!(x.brick_indices(), y.brick_indices());
        for (p, q) in x.bricks().iter().zip(y.bricks().iter()) {
            assert_eq!(p.words(), q.words());
        }
    }
}
