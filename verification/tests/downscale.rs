use sprite_atlas::anim::Anim;
use sprite_atlas::img::{Image, Pix};
use sprite_atlas::sprite_maker::{makeSprites, makeSpritesSd, Preset, SpriteFormat};

fn solid(w: u32, h: u32, p: (u8, u8, u8, u8)) -> Image {
    let mut img = Image::new(w, h);
    for y in 0..h {
        for x in 0..w {
            img.put_pixel(x, y, Pix { r: p.0, g: p.1, b: p.2, a: p.3 });
        }
    }
    img
}

fn px(img: &Image, x: u32, y: u32) -> (u8, u8, u8, u8) {
    let p = img.get_pixel(x, y);
    (p.r, p.g, p.b, p.a)
}

/// A hand-built full-resolution atlas: one 8x8 image holding a 2x2 grid of
/// 4x4 solid-color cells.
fn hd_four_cells() -> sprite_atlas::sprite_maker::FactorioSprites {
    let colors = [
        (255, 0, 0, 255),
        (0, 255, 0, 255),
        (0, 0, 255, 255),
        (255, 255, 0, 255),
    ];
    let mut img = Image::new(8, 8);
    for idx in 0..4u32 {
        let (r, g, b, a) = colors[idx as usize];
        let cx = (idx % 2) * 4;
        let cy = (idx / 2) * 4;
        for y in 0..4 {
            for x in 0..4 {
                img.put_pixel(cx + x, cy + y, Pix { r, g, b, a });
            }
        }
    }
    sprite_atlas::sprite_maker::FactorioSprites {
        images: vec![img],
        slice: 2,
        lines_per_file: 2,
        width: 4,
        height: 4,
    }
}

fn four_cell_format() -> SpriteFormat {
    SpriteFormat {
        extra_offset_x2: (0, 0),
        radial_offsets_x2: vec![(0, 0)],
        direction_count: 4,
        used_directions: None,
        animation_length: 1,
        empty_pad: 0,
        source_range_index: (0, 1),
        split_anim: false,
    }
}

#[test]
fn downscale_halves_cell_dimensions() {
    let hd = hd_four_cells();
    let sd = makeSpritesSd(&hd, &four_cell_format());
    assert_eq!(sd.width, hd.width / 2);
    assert_eq!(sd.height, hd.height / 2);
    assert_eq!(sd.width, 2);
    assert_eq!(sd.height, 2);
    // The halved tier re-derives its own tiling against its own atlas
    // bound.
    assert_eq!(sd.slice, 1024);
    assert_eq!(sd.lines_per_file, 1024);
    assert_eq!(sd.images.len(), 1);
    assert_eq!(sd.images[0].width, 2048);
    assert_eq!(sd.images[0].height, 2048);
}

#[test]
fn downscale_remaps_cells_into_new_tiling() {
    // The source tiling is 2x2 cells in one image; the halved tiling is
    // 1024 columns wide, so the four cells land side by side on row 0.
    let hd = hd_four_cells();
    let sd = makeSpritesSd(&hd, &four_cell_format());
    let img = &sd.images[0];
    let expected = [
        (255, 0, 0, 255),
        (0, 255, 0, 255),
        (0, 0, 255, 255),
        (255, 255, 0, 255),
    ];
    for idx in 0..4u32 {
        for y in 0..2 {
            for x in 0..2 {
                assert_eq!(px(img, idx * 2 + x, y), expected[idx as usize]);
            }
        }
    }
    // Past the populated cells everything is transparent.
    assert_eq!(px(img, 8, 0), (0, 0, 0, 0));
    assert_eq!(px(img, 0, 2), (0, 0, 0, 0));
    assert_eq!(px(img, 500, 500), (0, 0, 0, 0));
}

#[test]
fn downscale_ignores_unpopulated_tail_cells() {
    // Only three of the four source cells are populated.
    let hd = hd_four_cells();
    let mut fmt = four_cell_format();
    fmt.direction_count = 3;
    let sd = makeSpritesSd(&hd, &fmt);
    let img = &sd.images[0];
    assert_eq!(px(img, 0, 0), (255, 0, 0, 255));
    assert_eq!(px(img, 4, 0), (0, 0, 255, 255));
    assert_eq!(px(img, 6, 0), (0, 0, 0, 0));
}

#[test]
fn full_pipeline_decode_pack_downscale() {
    // Build a container with a real DXT1 diffuse layer, decode it, pack
    // the single frame, and derive the halved-resolution set.
    let mut d = Vec::new();
    let push_u16 = |d: &mut Vec<u8>, x: u16| {
        d.push((x & 0xff) as u8);
        d.push((x >> 8) as u8);
    };
    let push_u32 = |d: &mut Vec<u8>, x: u32| {
        d.push((x & 0xff) as u8);
        d.push(((x >> 8) & 0xff) as u8);
        d.push(((x >> 16) & 0xff) as u8);
        d.push(((x >> 24) & 0xff) as u8);
    };
    // DDS stream: 4x4 white DXT1.
    let mut dds = Vec::new();
    dds.extend_from_slice(b"DDS ");
    push_u32(&mut dds, 124);
    push_u32(&mut dds, 0x1 | 0x2 | 0x4 | 0x1000);
    push_u32(&mut dds, 4);
    push_u32(&mut dds, 4);
    push_u32(&mut dds, 8);
    push_u32(&mut dds, 0);
    push_u32(&mut dds, 0);
    for _ in 0..11 {
        push_u32(&mut dds, 0);
    }
    push_u32(&mut dds, 32);
    push_u32(&mut dds, 0x4);
    dds.extend_from_slice(b"DXT1");
    for _ in 0..5 {
        push_u32(&mut dds, 0);
    }
    push_u32(&mut dds, 0x1000);
    push_u32(&mut dds, 0);
    for _ in 0..3 {
        push_u32(&mut dds, 0);
    }
    dds.extend_from_slice(&[0xff, 0xff, 0xff, 0xff, 0x00, 0x00, 0x00, 0x00]);
    // Container around it.
    push_u32(&mut d, 0x4d49_4e41);
    d.push(1);
    d.push(0);
    push_u16(&mut d, 0);
    push_u16(&mut d, 1); // one layer
    push_u16(&mut d, 0);
    let mut name = [0u8; 32];
    name[..7].copy_from_slice(b"diffuse");
    d.extend_from_slice(&name);
    while d.len() < 0x14c {
        d.push(0);
    }
    push_u16(&mut d, 1); // one frame
    push_u16(&mut d, 0);
    push_u16(&mut d, 4); // canvas
    push_u16(&mut d, 4);
    push_u32(&mut d, 0);
    push_u32(&mut d, 0);
    push_u32(&mut d, dds.len() as u32);
    push_u16(&mut d, 4);
    push_u16(&mut d, 4);
    d.extend_from_slice(&dds);
    push_u16(&mut d, 0); // tex_x
    push_u16(&mut d, 0); // tex_y
    push_u16(&mut d, 0); // x_off
    push_u16(&mut d, 0); // y_off
    push_u16(&mut d, 4); // width
    push_u16(&mut d, 4); // height
    push_u32(&mut d, 0);

    let anim = Anim::fromFile(&d).unwrap();
    let fmt = SpriteFormat {
        extra_offset_x2: (2096, 2096),
        radial_offsets_x2: vec![(0, 0)],
        direction_count: 1,
        used_directions: None,
        animation_length: 1,
        empty_pad: 0,
        source_range_index: (0, 1),
        split_anim: false,
    };
    let hd = makeSprites(&anim, &fmt, (0, 0), Preset::normal).unwrap().unwrap();
    assert_eq!(hd.width, 2100);
    assert_eq!(hd.height, 2100);
    assert_eq!(px(&hd.images[0], 0, 0), (255, 255, 255, 255));
    assert_eq!(px(&hd.images[0], 3, 3), (255, 255, 255, 255));
    assert_eq!(px(&hd.images[0], 4, 0), (0, 0, 0, 0));
    let sd = makeSpritesSd(&hd, &fmt);
    assert_eq!(sd.width, 1050);
    assert_eq!(sd.height, 1050);
    assert_eq!(sd.slice, 1);
    assert_eq!(sd.lines_per_file, 1);
    assert_eq!(sd.images.len(), 1);
}

#[test]
fn downscale_of_solid_even_cells_is_exact() {
    // One 4x4 solid red cell resampled to 2x2 stays solid red: this fails
    // if the resampler hands its input back unchanged (the dimensions and
    // buffer length would not match).
    let hd = sprite_atlas::sprite_maker::FactorioSprites {
        images: vec![solid(4, 4, (255, 0, 0, 255))],
        slice: 1,
        lines_per_file: 1,
        width: 4,
        height: 4,
    };
    let mut fmt = four_cell_format();
    fmt.direction_count = 1;
    let sd = makeSpritesSd(&hd, &fmt);
    let img = &sd.images[0];
    for y in 0..2 {
        for x in 0..2 {
            assert_eq!(px(img, x, y), (255, 0, 0, 255));
        }
    }
}
