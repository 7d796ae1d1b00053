use amethyst_voxel::io::load_vox;
use amethyst_voxel::material::{ColoredMaterial, VoxelMaterial, VoxelMaterialId, VoxelMaterialStorage};
use amethyst_voxel::vox::{
    bit, build_palette, model_voxels, read_chunks, read_vox, rgba_to_material, PaletteEdit, PaletteOp,
    PaletteStyle, VoxError, VoxFormat,
};
use amethyst_voxel::voxel::{Data, NestedVoxel, SimpleVoxel, Voxel};

fn le(v: u32) -> [u8; 4] {
    v.to_le_bytes()
}

fn chunk(id: &[u8; 4], content: &[u8], children: &[u8]) -> Vec<u8> {
    let mut v = id.to_vec();
    v.extend_from_slice(&le(content.len() as u32));
    v.extend_from_slice(&le(children.len() as u32));
    v.extend_from_slice(content);
    v.extend_from_slice(children);
    v
}

fn file(version: u32, main_id: &[u8; 4], children: &[u8]) -> Vec<u8> {
    let mut v = b"VOX ".to_vec();
    v.extend_from_slice(&le(version));
    v.extend_from_slice(&chunk(main_id, &[], children));
    v
}

fn size_chunk(w: u32, h: u32, d: u32) -> Vec<u8> {
    let mut c = Vec::new();
    c.extend_from_slice(&le(w));
    c.extend_from_slice(&le(h));
    c.extend_from_slice(&le(d));
    chunk(b"SIZE", &c, &[])
}

fn xyzi_chunk(voxels: &[(u8, u8, u8, u8)]) -> Vec<u8> {
    let mut c = le(voxels.len() as u32).to_vec();
    for &(x, y, z, i) in voxels {
        c.extend_from_slice(&[x, y, z, i]);
    }
    chunk(b"XYZI", &c, &[])
}

fn sample() -> Vec<u8> {
    let mut children = size_chunk(2, 3, 4);
    children.extend_from_slice(&xyzi_chunk(&[(0, 1, 2, 5), (1, 0, 0, 9)]));
    children.extend_from_slice(&chunk(b"NOTE", &[1, 2, 3], &[]));
    file(150, b"MAIN", &children)
}

#[test]
fn reads_sizes_and_voxels() {
    let contents = read_vox(&sample()).unwrap();
    assert_eq!(contents.sizes, vec![(2, 3, 4)]);
    assert_eq!(contents.models, vec![vec![(0, 1, 2, 5), (1, 0, 0, 9)]]);
    assert!(contents.palette.is_empty());
}

#[test]
fn little_endian_sizes() {
    let mut children = size_chunk(0x0403_0201, 0x100, 1);
    children.extend_from_slice(&xyzi_chunk(&[]));
    let contents = read_vox(&file(200, b"MAIN", &children)).unwrap();
    assert_eq!(contents.sizes, vec![(0x0403_0201, 256, 1)]);
    assert_eq!(contents.models, vec![Vec::new()]);
}

#[test]
fn chunks_of_main() {
    let chunks = read_chunks(&sample()).unwrap();
    assert_eq!(chunks.len(), 3);
    assert_eq!(&chunks[0].id, b"SIZE");
    assert_eq!(chunks[0].content.len(), 12);
    assert_eq!(&chunks[2].id, b"NOTE");
    assert_eq!(chunks[2].content, vec![1, 2, 3]);
}

#[test]
fn nested_chunks_are_checked() {
    let inner = chunk(b"XTRA", &[7], &[]);
    let mut children = chunk(b"PACK", &[], &inner);
    children.extend_from_slice(&size_chunk(1, 1, 1));
    let chunks = read_chunks(&file(150, b"MAIN", &children)).unwrap();
    assert_eq!(chunks.len(), 2);
    assert_eq!(&chunks[0].id, b"PACK");
    assert!(chunks[0].content.is_empty());
}

#[test]
fn old_version_is_invalid() {
    assert_eq!(read_vox(&file(149, b"MAIN", &[])).err(), Some(VoxError::InvalidData));
}

#[test]
fn main_chunk_must_be_main() {
    assert_eq!(read_vox(&file(150, b"MAIM", &[])).err(), Some(VoxError::InvalidData));
}

#[test]
fn short_files_end_unexpectedly() {
    assert_eq!(read_vox(&[]).err(), Some(VoxError::UnexpectedEnd));
    assert_eq!(read_vox(b"VOX \x96\x00\x00").err(), Some(VoxError::UnexpectedEnd));
    let whole = sample();
    assert_eq!(read_vox(&whole[..whole.len() - 1]).err(), Some(VoxError::UnexpectedEnd));
    assert_eq!(read_vox(&whole[..12]).err(), Some(VoxError::UnexpectedEnd));
}

#[test]
fn children_must_add_up() {
    let mut v = b"VOX ".to_vec();
    v.extend_from_slice(&le(150));
    let child = size_chunk(1, 1, 1);
    v.extend_from_slice(b"MAIN");
    v.extend_from_slice(&le(0));
    v.extend_from_slice(&le(child.len() as u32 - 1));
    v.extend_from_slice(&child);
    assert_eq!(read_vox(&v).err(), Some(VoxError::InvalidData));
}

#[test]
fn short_chunk_contents() {
    let bad_size = chunk(b"SIZE", &[1, 0, 0, 0, 1, 0, 0, 0], &[]);
    assert_eq!(read_vox(&file(150, b"MAIN", &bad_size)).err(), Some(VoxError::UnexpectedEnd));
    let mut c = le(2).to_vec();
    c.extend_from_slice(&[1, 1, 1, 1]);
    let bad_xyzi = chunk(b"XYZI", &c, &[]);
    assert_eq!(read_vox(&file(150, b"MAIN", &bad_xyzi)).err(), Some(VoxError::UnexpectedEnd));
    let bad_rgba = chunk(b"RGBA", &[0; 1019], &[]);
    assert_eq!(read_vox(&file(150, b"MAIN", &bad_rgba)).err(), Some(VoxError::UnexpectedEnd));
}

#[test]
fn palette_chunks() {
    let mut rgba = Vec::new();
    for i in 0..256u32 {
        rgba.extend_from_slice(&[i as u8, 1, 2, 3]);
    }
    let mut matt = Vec::new();
    matt.extend_from_slice(&le(4));
    matt.extend_from_slice(&le(3));
    matt.extend_from_slice(&le(0.5f32.to_bits()));
    matt.extend_from_slice(&le(0b11));
    matt.extend_from_slice(&le(0.25f32.to_bits()));
    matt.extend_from_slice(&le(0.75f32.to_bits()));
    let mut children = chunk(b"RGBA", &rgba, &[]);
    children.extend_from_slice(&chunk(b"MATT", &matt, &[]));
    let contents = read_vox(&file(150, b"MAIN", &children)).unwrap();
    assert_eq!(contents.palette.len(), 2);
    match &contents.palette[0] {
        PaletteOp::Colors(c) => {
            assert_eq!(c.len(), 255);
            assert_eq!(c[0], (0, 1, 2, 3));
            assert_eq!(c[254], (254, 1, 2, 3));
        }
        PaletteOp::Matt(_) => panic!("expected colors"),
    }
    match &contents.palette[1] {
        PaletteOp::Matt(m) => {
            assert_eq!(m.id, 4);
            assert_eq!(m.ty, 3);
            assert_eq!(f32::from_bits(m.weight), 0.5);
            assert_eq!(m.props, 3);
            assert_eq!(m.roughness.map(f32::from_bits), Some(0.75));
        }
        PaletteOp::Colors(_) => panic!("expected a material"),
    }
}

#[test]
fn matt_needs_its_properties() {
    let mut matt = Vec::new();
    matt.extend_from_slice(&le(1));
    matt.extend_from_slice(&le(0));
    matt.extend_from_slice(&le(0));
    matt.extend_from_slice(&le(0b100));
    let short = chunk(b"MATT", &matt, &[]);
    assert_eq!(read_vox(&file(150, b"MAIN", &short)).err(), Some(VoxError::UnexpectedEnd));
    matt.extend_from_slice(&le(0));
    let whole = chunk(b"MATT", &matt, &[]);
    let contents = read_vox(&file(150, b"MAIN", &whole)).unwrap();
    match &contents.palette[0] {
        PaletteOp::Matt(m) => assert_eq!(m.roughness, None),
        PaletteOp::Colors(_) => panic!("expected a material"),
    }
}

#[test]
fn bits() {
    assert!(bit(0b1010, 1));
    assert!(!bit(0b1010, 2));
    assert!(bit(0x8000_0000, 31));
}

#[test]
fn format_name() {
    assert_eq!(VoxFormat.name(), "MagicaVoxel");
}

#[test]
fn default_palette_unpacks_colors() {
    let p = build_palette(PaletteStyle::asset(), &Vec::new());
    assert_eq!(p.len(), 256);
    // 0xffccffff: r = 0xff, g = 0xff, b = 0xcc, a = 0xff
    assert_eq!(p[2].albedo, [0xff, 0xff, 0xcc]);
    assert_eq!(p[2].alpha, 0xff);
    assert_eq!(p[2].metallic, 8);
    assert_eq!(p[2].roughness, 240);
    assert_eq!(p[0].alpha, 0);
    let w = build_palette(PaletteStyle::world(), &Vec::new());
    assert_eq!(w[2].metallic, 0);
    assert_eq!(w[2].roughness, 255);
}

#[test]
fn palette_edits_apply_in_order() {
    let colors: Vec<(u8, u8, u8, u8)> = (0..255u32).map(|i| (i as u8, 2, 3, 4)).collect();
    let edits = vec![
        PaletteEdit::Colors(colors),
        PaletteEdit::Material { id: 5, ty: 1, metallic: 100, roughness: 50 },
        PaletteEdit::Material { id: 6, ty: 3, metallic: 1, roughness: 2 },
        PaletteEdit::Material { id: 7, ty: 9, metallic: 1, roughness: 2 },
    ];
    let p = build_palette(PaletteStyle::world(), &edits);
    assert_eq!(p.len(), 256);
    assert_eq!(p[0].albedo, ColoredMaterial::default().albedo);
    assert_eq!(p[0].roughness, 250);
    assert_eq!(p[1].albedo, [0, 2, 3]);
    assert_eq!(p[5].albedo, [4, 2, 3]);
    assert_eq!(p[5].metallic, 100);
    assert_eq!(p[5].roughness, 50);
    assert_eq!(p[6].emission, p[6].albedo);
    assert_eq!(p[6].metallic, 1);
    assert_eq!(p[7].metallic, 0);
    assert_eq!(p[7].roughness, 255);
    assert_eq!(p[7].emission, [0, 0, 0]);
}

#[test]
fn rgba_materials() {
    let m = rgba_to_material(PaletteStyle::asset(), 1, 2, 3, 4);
    assert_eq!(m.albedo, [1, 2, 3]);
    assert_eq!(m.alpha, 4);
    assert_eq!(m.emission, [0, 0, 0]);
    assert_eq!((m.metallic, m.roughness), (8, 240));
}

#[test]
fn model_indices() {
    let v = model_voxels((2, 3, 4), &vec![(1, 2, 3, 7), (0, 0, 0, 1)]);
    assert_eq!(v, vec![(1 + 2 * 2 + 3 * 6, 7), (0, 1)]);
}

#[derive(Clone, Copy, Debug, Default, PartialEq)]
struct Block;

impl Data for Block {
    type Child = SimpleVoxel;
    const SUBDIV: usize = 2;

    fn lemma_subdiv_valid() {}

    fn spec_visible(&self) -> bool {
        true
    }

    fn spec_render(&self) -> bool {
        false
    }

    fn spec_skin(&self) -> Option<u8> {
        None
    }

    fn visible(&self) -> bool {
        true
    }

    fn render(&self) -> bool {
        false
    }

    fn skin(&self) -> Option<u8> {
        None
    }
}

#[test]
fn load_vox_centres_models() {
    let mut children = size_chunk(2, 2, 2);
    children.extend_from_slice(&xyzi_chunk(&[(0, 0, 0, 5), (1, 1, 1, 0), (1, 0, 1, 2)]));
    children.extend_from_slice(&size_chunk(9, 1, 1));
    children.extend_from_slice(&xyzi_chunk(&[(0, 0, 0, 3), (8, 0, 0, 4), (3, 0, 0, 6)]));
    let contents = read_vox(&file(150, b"MAIN", &children)).unwrap();
    let palette = build_palette(PaletteStyle::world(), &Vec::new());
    let mut store: VoxelMaterialStorage<ColoredMaterial, ()> = VoxelMaterialStorage::new();
    store.create(&ColoredMaterial::default());
    let models: Vec<NestedVoxel<Block>> = load_vox(&contents, &palette, &mut store);
    assert_eq!(store.len(), 257);
    assert_eq!(models.len(), 2);
    let first = &models[0];
    assert!(first.is_detail());
    // (0, 0, 0) moves to (1, 1, 1) = 1 + 4 + 16
    assert_eq!(first.get(21).unwrap().material(), Some(VoxelMaterialId(1 + 5)));
    // color 0 is empty: (1, 1, 1) -> (2, 2, 2) stays empty
    assert_eq!(first.get(2 + 8 + 32).unwrap().material(), None);
    // (1, 0, 1) -> (2, 1, 2)
    assert_eq!(first.get(2 + 4 + 32).unwrap().material(), Some(VoxelMaterialId(1 + 2)));
    let visible = (0..64).filter(|&i| first.child_visible(i)).count();
    assert_eq!(visible, 2);
    // a model of 9 along x starts 2 to the left (rounded toward zero): x = 3 lands at 1
    let second = &models[1];
    assert_eq!(second.get(1 + 4 + 16).unwrap().material(), Some(VoxelMaterialId(1 + 6)));
    let visible = (0..64).filter(|&i| second.child_visible(i)).count();
    assert_eq!(visible, 1);
}

#[test]
fn palettes_always_have_256_entries() {
    let edits = vec![
        PaletteEdit::Material { id: 255, ty: 0, metallic: 1, roughness: 1 },
        PaletteEdit::Colors(vec![(1, 1, 1, 1); 255]),
        PaletteEdit::Material { id: 0, ty: 2, metallic: 1, roughness: 1 },
    ];
    assert_eq!(build_palette(PaletteStyle::asset(), &edits).len(), 256);
}

#[test]
fn loading_twice_reuses_materials() {
    let mut children = size_chunk(1, 1, 1);
    children.extend_from_slice(&xyzi_chunk(&[(0, 0, 0, 9)]));
    let contents = read_vox(&file(150, b"MAIN", &children)).unwrap();
    let palette = build_palette(PaletteStyle::world(), &Vec::new());
    let mut store: VoxelMaterialStorage<ColoredMaterial, ()> = VoxelMaterialStorage::new();
    let first: Vec<NestedVoxel<Block>> = load_vox(&contents, &palette, &mut store);
    let second: Vec<NestedVoxel<Block>> = load_vox(&contents, &palette, &mut store);
    assert_eq!(store.len(), 256);
    // size 1 in a width of 4: offset (4 - 1) / 2 = 1
    let at = 1 + 4 + 16;
    assert_eq!(first[0].get(at).unwrap().material(), Some(VoxelMaterialId(9)));
    assert_eq!(second[0].get(at).unwrap().material(), Some(VoxelMaterialId(9)));
}

#[test]
fn load_vox_adds_only_new_palette_materials() {
    let mut children = size_chunk(1, 1, 1);
    children.extend_from_slice(&xyzi_chunk(&[(0, 0, 0, 3)]));
    let contents = read_vox(&file(150, b"MAIN", &children)).unwrap();
    let palette = build_palette(PaletteStyle::world(), &Vec::new());
    let mut store: VoxelMaterialStorage<ColoredMaterial, ()> = VoxelMaterialStorage::new();
    store.create(&palette[3]);
    let models: Vec<NestedVoxel<Block>> = load_vox(&contents, &palette, &mut store);
    // entry 3 was already stored; the other 255 entries follow in palette order
    assert_eq!(store.len(), 256);
    assert!(store.material(0).identical(&palette[3]));
    assert!(store.material(1).identical(&palette[0]));
    assert!(store.material(3).identical(&palette[2]));
    assert!(store.material(4).identical(&palette[4]));
    assert_eq!(models[0].get(1 + 4 + 16).unwrap().material(), Some(VoxelMaterialId(0)));
}
