use vstd::prelude::*;

use roxlap_formats::kv6::{Kv6, ParseError};
use roxlap_formats::VoxColor;

use crate::voxel_model::VoxelModel;

verus! {

/// A parsed `.kv6` voxel model.
#[verifier::external_type_specification]
#[verifier::external_body]
pub struct ExKv6(Kv6);

/// Why a `.kv6` file did not parse.
#[verifier::external_type_specification]
#[verifier::external_body]
pub struct ExKv6ParseError(ParseError);

/// Whether `roxlap_formats::kv6::parse` accepts `bytes`.
pub uninterp spec fn kv6_parses(bytes: Seq<u8>) -> bool;

/// The little-endian `u32` stored at byte `at` of `b`.
pub open spec fn le_u32(b: Seq<u8>, at: int) -> u32 {
    (b[at] + b[at + 1] * 0x100 + b[at + 2] * 0x1_0000 + b[at + 3] * 0x100_0000) as u32
}

/// `b` starts with the `.kv6` magic `"Kvxl"`.
pub open spec fn kv6_magic(b: Seq<u8>) -> bool {
    &&& b.len() >= 4
    &&& b[0] == 0x4b
    &&& b[1] == 0x76
    &&& b[2] == 0x78
    &&& b[3] == 0x6c
}

/// The model extent `(xsiz, ysiz, zsiz)` recorded in a `.kv6` header: the
/// three little-endian words after the magic.
pub open spec fn kv6_header_extent(b: Seq<u8>) -> [u32; 3] {
    [le_u32(b, 4), le_u32(b, 8), le_u32(b, 12)]
}

/// `roxlap_formats::kv6::parse`. It succeeds exactly when `kv6_parses`
/// holds of the bytes; success needs at least the 32-byte header starting
/// with the magic, and the parsed extent is the one in the header. The
/// returned array is the parsed model's `[xsiz, ysiz, zsiz]`. What the
/// body sections hold, and why a parse failed, is not stated.
#[verifier::external_body]
fn parse_kv6(bytes: &[u8]) -> (r: Result<(Kv6, [u32; 3]), ParseError>)
    ensures
        r is Ok == kv6_parses(bytes@),
        r is Ok ==> bytes@.len() >= 32 && kv6_magic(bytes@),
        r matches Ok((_, e)) ==> e == kv6_header_extent(bytes@),
{
    match roxlap_formats::kv6::parse(bytes) {
        Ok(kv6) => {
            let extent = [kv6.xsiz, kv6.ysiz, kv6.zsiz];
            Ok((kv6, extent))
        },
        Err(err) => Err(err),
    }
}

/// The ship's model file could not be read as a `.kv6` model.
#[derive(Clone, Copy, Debug, PartialEq, Eq, Structural)]
pub enum ModelFileError {
    Malformed,
}

/// The ship's parsed model with the placement derived from its extent.
pub struct MinerModelSource {
    /// The parsed model, as stored in the file.
    pub kv6: Kv6,
    /// Twice the pivot used in place of the file's own: the geometric
    /// centre of the model's box (its extent).
    pub doubled_pivot: [u32; 3],
    /// Twice the radius of the ship's point light: the largest extent.
    pub doubled_radius: u32,
}

/// Largest of three extents.
pub open spec fn max3(e: [u32; 3]) -> u32 {
    if e[0] >= e[1] && e[0] >= e[2] {
        e[0]
    } else if e[1] >= e[2] {
        e[1]
    } else {
        e[2]
    }
}

/// `max3` is the largest of the three extents: no extent exceeds it, and it
/// is one of them.
pub proof fn lemma_max3_is_largest(e: [u32; 3])
    ensures
        max3(e) >= e[0],
        max3(e) >= e[1],
        max3(e) >= e[2],
        max3(e) == e[0] || max3(e) == e[1] || max3(e) == e[2],
{
}

/// Parse the ship's `.kv6` model and derive its placement: the pivot is
/// moved to the centre of the model's box, whatever the file stores, and
/// the light radius is half the largest extent (both returned doubled, so
/// they stay whole numbers; the nose lies half the z extent ahead).
pub fn load_miner_model(bytes: &[u8]) -> (r: Result<MinerModelSource, ModelFileError>)
    ensures
        r is Ok <==> kv6_parses(bytes@),
        r matches Ok(m) ==> {
            let e = kv6_header_extent(bytes@);
            &&& m.doubled_pivot == e
            &&& m.doubled_radius == max3(e)
            &&& m.doubled_radius >= e[0] && m.doubled_radius >= e[1] && m.doubled_radius >= e[2]
            &&& (m.doubled_radius == e[0] || m.doubled_radius == e[1] || m.doubled_radius == e[2])
        },
        r matches Err(e) ==> e == ModelFileError::Malformed,
{
    match parse_kv6(bytes) {
        Ok((kv6, extent)) => {
            let doubled_radius = if extent[0] >= extent[1] && extent[0] >= extent[2] {
                extent[0]
            } else if extent[1] >= extent[2] {
                extent[1]
            } else {
                extent[2]
            };
            Ok(MinerModelSource { kv6, doubled_pivot: extent, doubled_radius })
        },
        Err(_) => Err(ModelFileError::Malformed),
    }
}

/// `roxlap_formats::kv6::Kv6::from_fn_shaded` over the volume, each voxel
/// answered by the verified `VoxelModel::voxel_color`: the surface-only
/// `.kv6` shape of the volume. The source builds it with the given extent,
/// and calls the closure only on in-bounds voxels. Which surface voxels and
/// shading it emits is not stated.
#[verifier::external_body]
pub fn sprite_model_to_kv6(model: &VoxelModel) -> (r: (Kv6, [u32; 3]))
    requires
        model.wf(),
        model.dims[1] * 0xffff <= u32::MAX,
    ensures
        r.1 == model.dims,
{
    let [mx, my, mz] = model.dims;
    let kv6 = Kv6::from_fn_shaded(mx, my, mz, |x, y, z| model.voxel_color(x, y, z).map(VoxColor));
    let extent = [kv6.xsiz, kv6.ysiz, kv6.zsiz];
    (kv6, extent)
}

} // verus!
