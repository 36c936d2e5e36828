use sprite_atlas::anim::{Anim, FrameInfo};
use sprite_atlas::img::{Image, Pix};
use sprite_atlas::sprite_maker::{makeSprites, makeSpritesSd, resolve_directions, Preset, SpriteFormat};

fn blank_anim() -> Anim {
    Anim {
        diffuse: None,
        bright: None,
        teamcolor: None,
        emissive: None,
        normal: None,
        specular: None,
        ao_depth: None,
        frames: Vec::new(),
        width: 4,
        height: 2,
    }
}

fn image_from_rows(w: u32, h: u32, rows: &[&[(u8, u8, u8, u8)]]) -> Image {
    let mut img = Image::new(w, h);
    for (y, row) in rows.iter().enumerate() {
        for (x, &(r, g, b, a)) in row.iter().enumerate() {
            img.put_pixel(x as u32, y as u32, Pix { r, g, b, a });
        }
    }
    img
}

fn basic_format(direction_count: i32, animation_length: i32, range: (i32, i32)) -> SpriteFormat {
    let source_direction_count = (range.1 - range.0) / animation_length;
    SpriteFormat {
        extra_offset_x2: (0, 0),
        radial_offsets_x2: vec![(0, 0); source_direction_count as usize],
        direction_count,
        used_directions: None,
        animation_length,
        empty_pad: 0,
        source_range_index: range,
        split_anim: false,
    }
}

fn frame(tex_x: u16, tex_y: u16, w: u16, h: u16) -> FrameInfo {
    FrameInfo { tex_x, tex_y, x_off: 0, y_off: 0, width: w, height: h, unknown: 0 }
}

const T: (u8, u8, u8, u8) = (0, 0, 0, 0);

fn px(img: &Image, x: u32, y: u32) -> (u8, u8, u8, u8) {
    let p = img.get_pixel(x, y);
    (p.r, p.g, p.b, p.a)
}

#[test]
fn missing_albedo_yields_no_result() {
    let mut anim = blank_anim();
    anim.frames.push(frame(0, 0, 1, 1));
    let mut fmt = basic_format(1, 1, (0, 1));
    fmt.extra_offset_x2 = (2096, 2098);
    assert!(makeSprites(&anim, &fmt, (0, 0), Preset::normal).unwrap().is_none());
}

#[test]
fn missing_mask_layer_yields_no_result() {
    let mut anim = blank_anim();
    anim.diffuse = Some(image_from_rows(1, 1, &[&[(9, 9, 9, 255)]]));
    anim.frames.push(frame(0, 0, 1, 1));
    let mut fmt = basic_format(1, 1, (0, 1));
    fmt.extra_offset_x2 = (2096, 2098);
    assert!(makeSprites(&anim, &fmt, (0, 0), Preset::mask).unwrap().is_none());
    assert!(makeSprites(&anim, &fmt, (0, 0), Preset::light).unwrap().is_none());
    assert!(makeSprites(&anim, &fmt, (0, 0), Preset::normal).unwrap().is_some());
}

#[test]
fn normal_preset_places_frame_at_pivot() {
    // Canvas 4x2, one 2x1 frame; the extra offset inflates the doubled
    // pivot to (2100, 2100) so the cell is 2100x2100 and the frame's
    // top-left corner lands exactly at the cell origin.
    let mut anim = blank_anim();
    anim.diffuse = Some(image_from_rows(2, 1, &[&[(11, 0, 0, 255), (22, 0, 0, 255)]]));
    anim.frames.push(frame(0, 0, 2, 1));
    let mut fmt = basic_format(1, 1, (0, 1));
    fmt.extra_offset_x2 = (2096, 2098);
    let out = makeSprites(&anim, &fmt, (0, 0), Preset::normal).unwrap().unwrap();
    assert_eq!(out.width, 2100);
    assert_eq!(out.height, 2100);
    assert_eq!(out.slice, 1);
    assert_eq!(out.lines_per_file, 1);
    assert_eq!(out.images.len(), 1);
    let img = &out.images[0];
    assert_eq!(img.width, 2100);
    assert_eq!(img.height, 2100);
    assert_eq!(px(img, 0, 0), (11, 0, 0, 255));
    assert_eq!(px(img, 1, 0), (22, 0, 0, 255));
    // Outside the frame rectangle everything is fully transparent.
    assert_eq!(px(img, 2, 0), T);
    assert_eq!(px(img, 0, 1), T);
    assert_eq!(px(img, 1500, 900), T);
}

#[test]
fn pivot_alignment_offsets_placement() {
    // Two frames with different pivots: the cell is sized for the worst
    // case, and the frame with the smaller doubled pivot (2096 vs 2100)
    // lands (2100-2096)/2 = 2 pixels right of its cell origin.
    let mut anim = blank_anim();
    anim.diffuse = Some(image_from_rows(
        4,
        1,
        &[&[(10, 0, 0, 255), (11, 0, 0, 255), (20, 0, 0, 255), (21, 0, 0, 255)]],
    ));
    anim.frames.push(frame(0, 0, 2, 1));
    anim.frames.push(FrameInfo { tex_x: 2, tex_y: 0, x_off: 2, y_off: 0, width: 2, height: 1, unknown: 0 });
    let mut fmt = basic_format(2, 1, (0, 2));
    fmt.extra_offset_x2 = (2096, 2098);
    let out = makeSprites(&anim, &fmt, (0, 0), Preset::normal).unwrap().unwrap();
    assert_eq!(out.width, 2100);
    assert_eq!(out.images.len(), 2);
    assert_eq!(px(&out.images[0], 0, 0), (10, 0, 0, 255));
    assert_eq!(px(&out.images[1], 0, 0), T);
    assert_eq!(px(&out.images[1], 1, 0), T);
    assert_eq!(px(&out.images[1], 2, 0), (20, 0, 0, 255));
    assert_eq!(px(&out.images[1], 3, 0), (21, 0, 0, 255));
}

#[test]
fn mirrored_direction_flips_pixels() {
    // Three source directions (frames 2x1 side by side in a 6x1 texture),
    // four output directions at step 1: rank 3 samples direction
    // 2*(3-1)-3 = 1, mirrored.
    let mut anim = blank_anim();
    anim.width = 4;
    anim.height = 2;
    anim.diffuse = Some(image_from_rows(
        6,
        1,
        &[&[
            (10, 0, 0, 255),
            (11, 0, 0, 255),
            (20, 0, 0, 255),
            (21, 0, 0, 255),
            (30, 0, 0, 255),
            (31, 0, 0, 255),
        ]],
    ));
    for i in 0..3u16 {
        anim.frames.push(frame(2 * i, 0, 2, 1));
    }
    let mut fmt = basic_format(4, 1, (0, 3));
    fmt.extra_offset_x2 = (2096, 2098);
    let out = makeSprites(&anim, &fmt, (0, 0), Preset::normal).unwrap().unwrap();
    assert_eq!(out.images.len(), 4);
    // Ranks 0..2 sample directions 0..2 unmirrored.
    assert_eq!(px(&out.images[0], 0, 0), (10, 0, 0, 255));
    assert_eq!(px(&out.images[1], 0, 0), (20, 0, 0, 255));
    assert_eq!(px(&out.images[1], 1, 0), (21, 0, 0, 255));
    assert_eq!(px(&out.images[2], 0, 0), (30, 0, 0, 255));
    // Rank 3 is the mirrored sample of direction 1: the placement uses the
    // mirrored pivot formula, (2100 - 2*2 + 2100)/2 = 2098, and the pixel
    // columns are flipped.
    assert_eq!(px(&out.images[3], 0, 0), T);
    assert_eq!(px(&out.images[3], 2098, 0), (21, 0, 0, 255));
    assert_eq!(px(&out.images[3], 2099, 0), (20, 0, 0, 255));
}

#[test]
fn mask_preset_writes_exactly_where_red_is_positive() {
    let mut anim = blank_anim();
    anim.diffuse = Some(image_from_rows(
        2,
        2,
        &[
            &[(1, 2, 3, 255), (4, 5, 6, 255)],
            &[(7, 8, 9, 255), (10, 11, 12, 255)],
        ],
    ));
    anim.teamcolor = Some(image_from_rows(
        2,
        2,
        &[
            &[(200, 0, 0, 255), (0, 99, 99, 255)],
            &[(0, 0, 0, 0), (1, 0, 0, 0)],
        ],
    ));
    anim.frames.push(frame(0, 0, 2, 2));
    let mut fmt = basic_format(1, 1, (0, 1));
    fmt.extra_offset_x2 = (2096, 2098);
    let out = makeSprites(&anim, &fmt, (0, 0), Preset::mask).unwrap().unwrap();
    let img = &out.images[0];
    // Written exactly where the mask's red channel is positive: two of the
    // four pixels.
    assert_eq!(px(img, 0, 0), (1, 2, 3, 255));
    assert_eq!(px(img, 1, 0), T);
    assert_eq!(px(img, 0, 1), T);
    assert_eq!(px(img, 1, 1), (10, 11, 12, 255));
}

#[test]
fn light_preset_sets_alpha_to_channel_maximum() {
    let mut anim = blank_anim();
    anim.diffuse = Some(image_from_rows(2, 1, &[&[(0, 0, 0, 255), (0, 0, 0, 255)]]));
    anim.emissive = Some(image_from_rows(
        2,
        1,
        &[&[(10, 200, 30, 7), (5, 1, 9, 0)]],
    ));
    anim.frames.push(frame(0, 0, 2, 1));
    let mut fmt = basic_format(1, 1, (0, 1));
    fmt.extra_offset_x2 = (2096, 2098);
    let out = makeSprites(&anim, &fmt, (0, 0), Preset::light).unwrap().unwrap();
    let img = &out.images[0];
    assert_eq!(px(img, 0, 0), (10, 200, 30, 200));
    assert_eq!(px(img, 1, 0), (5, 1, 9, 9));
}

#[test]
fn padding_and_unpopulated_cells_stay_transparent() {
    // Cell 2100x1050: one column, three rows per image. Two directions and
    // one leading padding cell: rows 0 (padding), 1 and 2 populated by the
    // two directions; a second image would not be needed.
    let mut anim = blank_anim();
    anim.diffuse = Some(image_from_rows(
        2,
        1,
        &[&[(10, 0, 0, 255), (11, 0, 0, 255)]],
    ));
    anim.frames.push(frame(0, 0, 2, 1));
    anim.frames.push(frame(0, 0, 2, 1));
    let mut fmt = basic_format(2, 1, (0, 2));
    fmt.extra_offset_x2 = (2096, 1048);
    fmt.empty_pad = 1;
    let out = makeSprites(&anim, &fmt, (0, 0), Preset::normal).unwrap().unwrap();
    assert_eq!(out.width, 2100);
    assert_eq!(out.height, 1050);
    assert_eq!(out.slice, 1);
    assert_eq!(out.lines_per_file, 3);
    assert_eq!(out.images.len(), 1);
    let img = &out.images[0];
    // The padding cell (row 0) is fully transparent.
    assert_eq!(px(img, 0, 0), T);
    assert_eq!(px(img, 1, 0), T);
    assert_eq!(px(img, 500, 500), T);
    // The two populated cells show the sampled frames.
    assert_eq!(px(img, 0, 1050), (10, 0, 0, 255));
    assert_eq!(px(img, 1, 1050), (11, 0, 0, 255));
    assert_eq!(px(img, 0, 2100), (10, 0, 0, 255));
    // Within populated cells, everything outside the frame rectangle is
    // transparent.
    assert_eq!(px(img, 2, 1050), T);
    assert_eq!(px(img, 900, 2500), T);
}

#[test]
fn explicit_direction_list_is_used() {
    let mut anim = blank_anim();
    anim.diffuse = Some(image_from_rows(
        4,
        1,
        &[&[(10, 0, 0, 255), (11, 0, 0, 255), (20, 0, 0, 255), (21, 0, 0, 255)]],
    ));
    anim.frames.push(frame(0, 0, 2, 1));
    anim.frames.push(frame(2, 0, 2, 1));
    let mut fmt = basic_format(2, 1, (0, 2));
    fmt.extra_offset_x2 = (2096, 2098);
    fmt.used_directions = Some(vec![1, 0]);
    let out = makeSprites(&anim, &fmt, (0, 0), Preset::normal).unwrap().unwrap();
    assert_eq!(px(&out.images[0], 0, 0), (20, 0, 0, 255));
    assert_eq!(px(&out.images[1], 0, 0), (10, 0, 0, 255));
}

#[test]
fn direction_resolution_scenario() {
    // A 17-frame range with animation length 1 and 32 requested
    // directions: 17 source directions, step 2*16/32 = 1, directions
    // 0..31; ranks 17..31 are mirrored samples of 15..1.
    let fmt = basic_format(32, 1, (0, 17));
    let dirs = resolve_directions(&fmt);
    assert_eq!(dirs.len(), 32);
    for (k, &v) in dirs.iter().enumerate() {
        assert_eq!(v, k as i32);
    }
    let source_direction_count = 17;
    for v in 17..32 {
        let effective = 2 * (source_direction_count - 1) - v;
        assert_eq!(effective, 32 - v);
        assert!((1..=15).contains(&effective));
    }
}

#[test]
fn split_per_direction_uses_one_image_per_run() {
    // Two directions, one frame each, split per direction: cells-per-image
    // is forced to the animation length, so each direction gets its own
    // image even though one grid would hold both.
    let mut anim = blank_anim();
    anim.diffuse = Some(image_from_rows(
        4,
        1,
        &[&[(10, 0, 0, 255), (11, 0, 0, 255), (20, 0, 0, 255), (21, 0, 0, 255)]],
    ));
    anim.frames.push(frame(0, 0, 2, 1));
    anim.frames.push(frame(2, 0, 2, 1));
    let mut fmt = basic_format(2, 1, (0, 2));
    fmt.extra_offset_x2 = (2096, 1048);
    fmt.split_anim = true;
    let out = makeSprites(&anim, &fmt, (0, 0), Preset::normal).unwrap().unwrap();
    assert_eq!(out.images.len(), 2);
    assert_eq!(px(&out.images[0], 0, 0), (10, 0, 0, 255));
    assert_eq!(px(&out.images[1], 0, 0), (20, 0, 0, 255));
    // The rest of each image's grid stays transparent.
    assert_eq!(px(&out.images[0], 0, 1050), T);
    assert_eq!(px(&out.images[1], 0, 1050), T);
}

#[test]
fn radial_offsets_shift_per_angle_index() {
    // Two source directions with different radial adjustments: direction 1
    // gets +4 on its doubled pivot, so the cell grows to 2104 and direction
    // 0's frame lands (2104-2100)/2 = 2 pixels into its cell while
    // direction 1's frame lands at its cell origin.
    let mut anim = blank_anim();
    anim.diffuse = Some(image_from_rows(
        4,
        1,
        &[&[(10, 0, 0, 255), (11, 0, 0, 255), (20, 0, 0, 255), (21, 0, 0, 255)]],
    ));
    anim.frames.push(frame(0, 0, 2, 1));
    anim.frames.push(frame(2, 0, 2, 1));
    let mut fmt = basic_format(2, 1, (0, 2));
    fmt.extra_offset_x2 = (2096, 2098);
    fmt.radial_offsets_x2 = vec![(0, 0), (4, 0)];
    let out = makeSprites(&anim, &fmt, (0, 0), Preset::normal).unwrap().unwrap();
    assert_eq!(out.width, 2104);
    assert_eq!(out.images.len(), 2);
    assert_eq!(px(&out.images[0], 0, 0), T);
    assert_eq!(px(&out.images[0], 2, 0), (10, 0, 0, 255));
    assert_eq!(px(&out.images[0], 3, 0), (11, 0, 0, 255));
    assert_eq!(px(&out.images[1], 0, 0), (20, 0, 0, 255));
    assert_eq!(px(&out.images[1], 1, 0), (21, 0, 0, 255));
}
