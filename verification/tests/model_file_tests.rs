use roxlap_formats::kv6::{serialize, Kv6};
use roxlap_formats::VoxColor;
use roxlap_game_demo::model_file::{load_miner_model, sprite_model_to_kv6, ModelFileError};
use roxlap_game_demo::sprites::build_crystal;
use roxlap_game_demo::voxel_model::VoxelModel;

fn model_bytes(x: u32, y: u32, z: u32) -> Vec<u8> {
    let kv6 = Kv6::from_fn_shaded(x, y, z, |_, _, _| Some(VoxColor(0x80_80_80_80)));
    serialize(&kv6)
}

#[test]
fn miner_model_placement_follows_its_extent() {
    let m = load_miner_model(&model_bytes(3, 5, 7)).unwrap();
    assert_eq!(m.doubled_pivot, [3, 5, 7]);
    assert_eq!(m.doubled_radius, 7);
    assert_eq!([m.kv6.xsiz, m.kv6.ysiz, m.kv6.zsiz], [3, 5, 7]);
    let m = load_miner_model(&model_bytes(9, 2, 4)).unwrap();
    assert_eq!(m.doubled_radius, 9);
}

#[test]
fn malformed_model_files_are_rejected() {
    assert_eq!(load_miner_model(&[]).err(), Some(ModelFileError::Malformed));
    let mut bytes = model_bytes(2, 2, 2);
    bytes[0] = b'X';
    assert_eq!(load_miner_model(&bytes).err(), Some(ModelFileError::Malformed));
    let bytes = model_bytes(2, 2, 2);
    assert!(load_miner_model(&bytes[..20]).is_err());
}

#[test]
fn surface_of_the_crystal_is_its_six_arms() {
    let (kv6, extent) = sprite_model_to_kv6(&build_crystal());
    assert_eq!(extent, [3, 3, 3]);
    // The centre voxel is enclosed by the six arms, so only they remain.
    assert_eq!(kv6.voxels.len(), 6);
}

#[test]
fn surface_of_a_solid_cube_skips_its_core() {
    let n = 125;
    let m = VoxelModel::from_dense([5, 5, 5], &vec![true; n], &vec![0x80_11_22_33; n]);
    let (kv6, extent) = sprite_model_to_kv6(&m);
    assert_eq!(extent, [5, 5, 5]);
    assert_eq!(kv6.voxels.len(), 125 - 27);
    assert!(kv6.voxels.iter().all(|v| v.col == 0x80_11_22_33));
}
