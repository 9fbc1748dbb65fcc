//! What holds of every volume that is built from a terrain.

use vstd::prelude::*;
use crate::builder::VolumeBuilder;
use crate::slot::{BRICK_SHIFT, SUBCHUNK_SHIFT};
use crate::subchunk::Subchunk;
use crate::superchunk::Superchunk;
use crate::terrain::lemma_occupied_iff_solid;

verus! {

/// A query of a volume built from a terrain answers whether the voxel lies
/// below the height of its column.
pub proof fn lemma_query_is_solid(builder: VolumeBuilder, volume: Superchunk, x: int, y: int, z: int)
    requires
        builder.wf(),
        volume.spec_config() == builder.spec_config(),
        volume@ == builder.spec_terrain().volume(),
        0 <= x < builder.spec_terrain().resolution(),
        0 <= y < builder.spec_terrain().resolution(),
        0 <= z < builder.spec_terrain().resolution(),
    ensures
        volume.spec_query(x, y, z) == (z < builder.spec_terrain().height(x, y)),
{
    builder.lemma_terrain_wf();
    lemma_occupied_iff_solid(builder.spec_terrain(), x, y, z);
}

/// No slot of a well-formed subchunk refers past the end of its list of
/// bricks.
pub proof fn lemma_subchunk_no_dangling(sub: Subchunk, c: int)
    requires
        sub.wf(),
        0 <= c < sub@.slots.len(),
        sub@.slots[c].spec_present(),
    ensures
        sub@.slots[c].spec_index(BRICK_SHIFT) < sub@.bricks.len(),
{
    sub.lemma_view_wf();
}

/// No slot of a well-formed volume refers past the end of its list of
/// subchunks, and no slot of a subchunk in that list refers past the end of
/// the subchunk's list of bricks.
pub proof fn lemma_volume_no_dangling(volume: Superchunk)
    requires
        volume.wf(),
    ensures
        forall|s: int|
            0 <= s < volume@.slots.len() && (#[trigger] volume@.slots[s]).spec_present()
                ==> volume@.slots[s].spec_index(SUBCHUNK_SHIFT) < volume@.subchunks.len(),
        forall|k: int, c: int|
            0 <= k < volume@.subchunks.len() && 0 <= c < volume@.subchunks[k].slots.len() && (
            #[trigger] volume@.subchunks[k].slots[c]).spec_present()
                ==> volume@.subchunks[k].slots[c].spec_index(BRICK_SHIFT)
                < volume@.subchunks[k].bricks.len(),
{
    volume.lemma_view_wf();
    let low = volume.spec_config().spec_low_dim();
    assert forall|k: int, c: int|
        0 <= k < volume@.subchunks.len() && 0 <= c < volume@.subchunks[k].slots.len() && (
        #[trigger] volume@.subchunks[k].slots[c]).spec_present()
        implies volume@.subchunks[k].slots[c].spec_index(BRICK_SHIFT)
        < volume@.subchunks[k].bricks.len() by {
        assert(volume@.subchunks[k].wf(low));
    }
}

/// Two volumes built from the same dimensions and the same heights hold the
/// same slots, the same bricks in the same order, and the same mask.
pub proof fn lemma_generation_deterministic(
    first: VolumeBuilder,
    second: VolumeBuilder,
    a: Superchunk,
    b: Superchunk,
)
    requires
        first.spec_terrain() == second.spec_terrain(),
        a@ == first.spec_terrain().volume(),
        b@ == second.spec_terrain().volume(),
    ensures
        a@ == b@,
{
}

/// Two well-formed volumes of the same dimensions that hold the same are
/// stored bit for bit alike: the same slots, the same words in each brick,
/// and the same words in the mask.
pub proof fn lemma_same_view_same_words(a: Superchunk, b: Superchunk)
    requires
        a.wf(),
        b.wf(),
        a.spec_config() == b.spec_config(),
        a@ == b@,
    ensures
        a@.slots == b@.slots,
        a.spec_subregion().spec_words() == b.spec_subregion().spec_words(),
        a.spec_subchunks().len() == b.spec_subchunks().len(),
        forall|k: int|
            0 <= k < a.spec_subchunks().len() ==> (#[trigger] a.spec_subchunks()[k])@.slots
                == b.spec_subchunks()[k]@.slots && a.spec_subchunks()[k].spec_bricks().len()
                == b.spec_subchunks()[k].spec_bricks().len(),
        forall|k: int, j: int|
            0 <= k < a.spec_subchunks().len() && 0 <= j < a.spec_subchunks()[k].spec_bricks().len()
                ==> (#[trigger] a.spec_subchunks()[k].spec_bricks()[j]).spec_words()
                == b.spec_subchunks()[k].spec_bricks()[j].spec_words(),
{
    a.lemma_parts();
    b.lemma_parts();
    a.spec_subregion().lemma_words_by_view(&b.spec_subregion());
    assert forall|k: int| 0 <= k < a.spec_subchunks().len() implies (
    #[trigger] a.spec_subchunks()[k])@.slots == b.spec_subchunks()[k]@.slots
        && a.spec_subchunks()[k].spec_bricks().len() == b.spec_subchunks()[k].spec_bricks().len() by {
        a.spec_subchunks()[k].lemma_bricks();
        b.spec_subchunks()[k].lemma_bricks();
    }
    assert forall|k: int, j: int|
        0 <= k < a.spec_subchunks().len() && 0 <= j < a.spec_subchunks()[k].spec_bricks().len()
        implies (#[trigger] a.spec_subchunks()[k].spec_bricks()[j]).spec_words()
        == b.spec_subchunks()[k].spec_bricks()[j].spec_words() by {
        let sa = a.spec_subchunks()[k];
        let sb = b.spec_subchunks()[k];
        sa.lemma_bricks();
        sb.lemma_bricks();
        sa.spec_bricks()[j].lemma_words_by_view(&sb.spec_bricks()[j]);
    }
}

/// Over a column of height zero no voxel of a built volume is occupied, and
/// so none of the lowest brick of that column.
pub proof fn lemma_zero_height_column_is_empty(
    builder: VolumeBuilder,
    volume: Superchunk,
    x: int,
    y: int,
    z: int,
)
    requires
        builder.wf(),
        volume.spec_config() == builder.spec_config(),
        volume@ == builder.spec_terrain().volume(),
        0 <= x < builder.spec_terrain().resolution(),
        0 <= y < builder.spec_terrain().resolution(),
        0 <= z < builder.spec_terrain().resolution(),
        builder.spec_terrain().height(x, y) == 0,
    ensures
        !volume.spec_query(x, y, z),
{
    lemma_query_is_solid(builder, volume, x, y, z);
}

/// Over a column at least as high as the volume every voxel of a built
/// volume is occupied.
pub proof fn lemma_full_height_column_is_solid(
    builder: VolumeBuilder,
    volume: Superchunk,
    x: int,
    y: int,
    z: int,
)
    requires
        builder.wf(),
        volume.spec_config() == builder.spec_config(),
        volume@ == builder.spec_terrain().volume(),
        0 <= x < builder.spec_terrain().resolution(),
        0 <= y < builder.spec_terrain().resolution(),
        0 <= z < builder.spec_terrain().resolution(),
        builder.spec_terrain().height(x, y) >= builder.spec_terrain().resolution(),
    ensures
        volume.spec_query(x, y, z),
{
    lemma_query_is_solid(builder, volume, x, y, z);
}

} // verus!
