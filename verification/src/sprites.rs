//! Drawable-slot data handed to a renderer: a transform per slot and a
//! sprite-sheet region per slot, plus the helpers that blank slots when a
//! screen is torn down.

use vstd::prelude::*;

verus! {

/// One rectangular cell of a texture atlas: texture layer, texel origin,
/// depth marker, and cell extent. A negative width marks a horizontally
/// mirrored cell.
#[derive(Clone, Copy, PartialEq, Eq, Structural, Debug)]
pub struct SheetRegion {
    pub layer: i64,
    pub x: i64,
    pub y: i64,
    pub z: i64,
    pub w: i64,
    pub h: i64,
}

/// The placement of one drawable slot in the world: center, extent and
/// rotation.
#[derive(Clone, Copy, PartialEq, Eq, Structural, Debug)]
pub struct Transform {
    pub x: i64,
    pub y: i64,
    pub w: i64,
    pub h: i64,
    pub rot: i64,
}

/// The blank sheet region: a slot holding it draws nothing.
pub open spec fn sheet_region_zero() -> SheetRegion {
    SheetRegion { layer: 0, x: 0, y: 0, z: 0, w: 0, h: 0 }
}

/// The blank transform: a slot holding it draws nothing.
pub open spec fn transform_zero() -> Transform {
    Transform { x: 0, y: 0, w: 0, h: 0, rot: 0 }
}

impl SheetRegion {
    /// A sheet region from its six components.
    pub fn new(layer: i64, x: i64, y: i64, z: i64, w: i64, h: i64) -> (r: SheetRegion)
        ensures
            r == (SheetRegion { layer, x, y, z, w, h }),
    {
        SheetRegion { layer, x, y, z, w, h }
    }

    /// The blank sheet region.
    pub fn zeroed() -> (r: SheetRegion)
        ensures
            r == sheet_region_zero(),
    {
        SheetRegion { layer: 0, x: 0, y: 0, z: 0, w: 0, h: 0 }
    }
}

impl Transform {
    /// The blank transform.
    pub fn zeroed() -> (r: Transform)
        ensures
            r == transform_zero(),
    {
        Transform { x: 0, y: 0, w: 0, h: 0, rot: 0 }
    }
}

/// Blanks the first `count` drawable slots and every font slot, leaving the
/// remaining drawable slots as they were. Called when a screen is replaced
/// wholesale, so that no stale sprite or glyph survives into the next one.
pub fn clear_sprites(
    trfs: &mut Vec<Transform>,
    uvs: &mut Vec<SheetRegion>,
    count: usize,
    font_trfs: &mut Vec<Transform>,
    font_uvs: &mut Vec<SheetRegion>,
)
    requires
        count <= old(trfs)@.len(),
        count <= old(uvs)@.len(),
        old(font_trfs)@.len() == old(font_uvs)@.len(),
    ensures
        final(trfs)@.len() == old(trfs)@.len(),
        final(uvs)@.len() == old(uvs)@.len(),
        forall|i: int| 0 <= i < count ==> final(trfs)@[i] == transform_zero(),
        forall|i: int| 0 <= i < count ==> final(uvs)@[i] == sheet_region_zero(),
        forall|i: int| count <= i < final(trfs)@.len() ==> final(trfs)@[i] == old(trfs)@[i],
        forall|i: int| count <= i < final(uvs)@.len() ==> final(uvs)@[i] == old(uvs)@[i],
        final(font_trfs)@.len() == old(font_trfs)@.len(),
        final(font_uvs)@.len() == old(font_uvs)@.len(),
        forall|i: int| 0 <= i < final(font_trfs)@.len() ==> final(font_trfs)@[i] == transform_zero(),
        forall|i: int| 0 <= i < final(font_uvs)@.len() ==> final(font_uvs)@[i] == sheet_region_zero(),
{
    let mut i: usize = 0;
    while i < count
        invariant
            i <= count,
            count <= trfs@.len(),
            count <= uvs@.len(),
            trfs@.len() == old(trfs)@.len(),
            uvs@.len() == old(uvs)@.len(),
            forall|k: int| 0 <= k < i ==> trfs@[k] == transform_zero(),
            forall|k: int| 0 <= k < i ==> uvs@[k] == sheet_region_zero(),
            forall|k: int| i <= k < trfs@.len() ==> trfs@[k] == old(trfs)@[k],
            forall|k: int| i <= k < uvs@.len() ==> uvs@[k] == old(uvs)@[k],
        decreases count - i,
    {
        trfs[i] = Transform::zeroed();
        uvs[i] = SheetRegion::zeroed();
        i += 1;
    }
    let num_font = font_trfs.len();
    let mut j: usize = 0;
    while j < num_font
        invariant
            j <= num_font,
            num_font == font_trfs@.len(),
            num_font == font_uvs@.len(),
            font_trfs@.len() == old(font_trfs)@.len(),
            font_uvs@.len() == old(font_uvs)@.len(),
            forall|k: int| 0 <= k < j ==> font_trfs@[k] == transform_zero(),
            forall|k: int| 0 <= k < j ==> font_uvs@[k] == sheet_region_zero(),
        decreases num_font - j,
    {
        font_trfs[j] = Transform::zeroed();
        font_uvs[j] = SheetRegion::zeroed();
        j += 1;
    }
}

/// Blanks the single slot of a background layer so that the background no
/// longer draws.
pub fn remove_background(trfs: &mut Vec<Transform>, uvs: &mut Vec<SheetRegion>)
    requires
        old(trfs)@.len() >= 1,
        old(uvs)@.len() >= 1,
    ensures
        final(trfs)@ == old(trfs)@.update(0, transform_zero()),
        final(uvs)@ == old(uvs)@.update(0, sheet_region_zero()),
{
    trfs[0] = Transform::zeroed();
    uvs[0] = SheetRegion::zeroed();
}

} // verus!
