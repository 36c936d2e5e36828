use sprite_atlas::anim::{Anim, AnimError};

fn push_u16(d: &mut Vec<u8>, x: u16) {
    d.push((x & 0xff) as u8);
    d.push((x >> 8) as u8);
}

fn push_u32(d: &mut Vec<u8>, x: u32) {
    d.push((x & 0xff) as u8);
    d.push(((x >> 8) & 0xff) as u8);
    d.push(((x >> 16) & 0xff) as u8);
    d.push(((x >> 24) & 0xff) as u8);
}

struct LayerSpec {
    name: &'static str,
    data: Vec<u8>,
    width: u16,
    height: u16,
}

fn container(
    layers: &[LayerSpec],
    frames: &[(u16, u16, i16, i16, u16, u16, u32)],
    canvas_w: u16,
    canvas_h: u16,
) -> Vec<u8> {
    let mut d = Vec::new();
    push_u32(&mut d, 0x4d49_4e41); // magic "ANIM"
    d.push(1); // scale
    d.push(0); // type
    push_u16(&mut d, 0); // reserved
    push_u16(&mut d, layers.len() as u16);
    push_u16(&mut d, 0); // entry count
    for layer in layers {
        let mut name = [0u8; 32];
        name[..layer.name.len()].copy_from_slice(layer.name.as_bytes());
        d.extend_from_slice(&name);
    }
    while d.len() < 0x14c {
        d.push(0);
    }
    push_u16(&mut d, frames.len() as u16);
    push_u16(&mut d, 0); // reference id
    push_u16(&mut d, canvas_w);
    push_u16(&mut d, canvas_h);
    push_u32(&mut d, 0); // frame table offset (unused)
    for layer in layers {
        push_u32(&mut d, 0); // offset (unused by the decoder)
        push_u32(&mut d, layer.data.len() as u32);
        push_u16(&mut d, layer.width);
        push_u16(&mut d, layer.height);
    }
    for layer in layers {
        d.extend_from_slice(&layer.data);
    }
    for &(tex_x, tex_y, x_off, y_off, w, h, unknown) in frames {
        push_u16(&mut d, tex_x);
        push_u16(&mut d, tex_y);
        push_u16(&mut d, x_off as u16);
        push_u16(&mut d, y_off as u16);
        push_u16(&mut d, w);
        push_u16(&mut d, h);
        push_u32(&mut d, unknown);
    }
    d
}

/// A minimal DDS stream: a 4x4 white DXT1 texture.
fn white_dds_4x4() -> Vec<u8> {
    let mut d = Vec::new();
    d.extend_from_slice(b"DDS ");
    push_u32(&mut d, 124); // header size
    push_u32(&mut d, 0x1 | 0x2 | 0x4 | 0x1000); // caps|height|width|pixelformat
    push_u32(&mut d, 4); // height
    push_u32(&mut d, 4); // width
    push_u32(&mut d, 8); // pitch / linear size
    push_u32(&mut d, 0); // depth
    push_u32(&mut d, 0); // mipmap count
    for _ in 0..11 {
        push_u32(&mut d, 0); // reserved
    }
    push_u32(&mut d, 32); // pixel format size
    push_u32(&mut d, 0x4); // fourcc flag
    d.extend_from_slice(b"DXT1");
    for _ in 0..5 {
        push_u32(&mut d, 0); // bit count and masks
    }
    push_u32(&mut d, 0x1000); // caps: texture
    push_u32(&mut d, 0); // caps2
    for _ in 0..3 {
        push_u32(&mut d, 0); // caps3, caps4, reserved
    }
    // One DXT1 block: both palette colors white, all indices 0.
    d.extend_from_slice(&[0xff, 0xff, 0xff, 0xff, 0x00, 0x00, 0x00, 0x00]);
    d
}

#[test]
fn decode_header_and_frames() {
    let bytes = container(
        &[LayerSpec { name: "diffuse", data: Vec::new(), width: 0, height: 0 }],
        &[
            (3, 5, -2, 7, 11, 13, 0xdeadbeef),
            (0, 0, 0, 0, 1, 1, 0),
        ],
        64,
        48,
    );
    let anim = Anim::fromFile(&bytes).unwrap();
    assert_eq!(anim.width, 64);
    assert_eq!(anim.height, 48);
    assert_eq!(anim.frames.len(), 2);
    assert_eq!(anim.frames[0].tex_x, 3);
    assert_eq!(anim.frames[0].tex_y, 5);
    assert_eq!(anim.frames[0].x_off, -2);
    assert_eq!(anim.frames[0].y_off, 7);
    assert_eq!(anim.frames[0].width, 11);
    assert_eq!(anim.frames[0].height, 13);
    assert_eq!(anim.frames[0].unknown, 0xdeadbeef);
    // A zero-size layer stream yields no texture for that name.
    assert!(anim.diffuse.is_none());
}

#[test]
fn decode_rejects_bad_magic() {
    let mut bytes = container(&[], &[], 4, 4);
    bytes[0] = b'X';
    assert!(matches!(Anim::fromFile(&bytes), Err(AnimError::MalformedContainer)));
}

#[test]
fn decode_rejects_truncated_header() {
    let bytes = container(&[], &[], 4, 4);
    assert!(matches!(Anim::fromFile(&bytes[..10]), Err(AnimError::MalformedContainer)));
    assert!(matches!(Anim::fromFile(&[]), Err(AnimError::MalformedContainer)));
}

#[test]
fn decode_rejects_truncated_frame_table() {
    let bytes = container(&[], &[(0, 0, 0, 0, 1, 1, 0)], 4, 4);
    let cut = bytes.len() - 4;
    assert!(matches!(Anim::fromFile(&bytes[..cut]), Err(AnimError::MalformedContainer)));
}

#[test]
fn decode_rejects_malformed_texture_stream() {
    // A non-empty stream that is not a valid texture.
    let bytes = container(
        &[LayerSpec { name: "diffuse", data: vec![1, 2, 3, 4], width: 4, height: 4 }],
        &[],
        4,
        4,
    );
    assert!(matches!(Anim::fromFile(&bytes), Err(AnimError::MalformedContainer)));
}

#[test]
fn decode_dxt1_layer() {
    let dds = white_dds_4x4();
    let bytes = container(
        &[LayerSpec { name: "diffuse", data: dds, width: 4, height: 4 }],
        &[(0, 0, 1, 2, 4, 4, 0)],
        4,
        4,
    );
    let anim = Anim::fromFile(&bytes).unwrap();
    let diffuse = anim.diffuse.as_ref().expect("diffuse layer decoded");
    assert_eq!(diffuse.width, 4);
    assert_eq!(diffuse.height, 4);
    for y in 0..4 {
        for x in 0..4 {
            let p = diffuse.get_pixel(x, y);
            assert_eq!((p.r, p.g, p.b, p.a), (255, 255, 255, 255));
        }
    }
}

#[test]
fn unknown_layer_names_are_decoded_and_dropped() {
    let dds = white_dds_4x4();
    let bytes = container(
        &[LayerSpec { name: "mystery", data: dds, width: 4, height: 4 }],
        &[],
        4,
        4,
    );
    let anim = Anim::fromFile(&bytes).unwrap();
    assert!(anim.diffuse.is_none());
    assert!(anim.bright.is_none());
    assert!(anim.teamcolor.is_none());
}

#[test]
fn get_frame_crops_and_pivot() {
    let dds = white_dds_4x4();
    let bytes = container(
        &[LayerSpec { name: "diffuse", data: dds, width: 4, height: 4 }],
        &[(1, 1, 1, 2, 2, 2, 0)],
        10,
        12,
    );
    let anim = Anim::fromFile(&bytes).unwrap();
    let frame = anim.getFrame(0).unwrap().expect("frame in range");
    // Doubled pivot: (canvas_w - 2*x_off, canvas_h - 2*y_off).
    assert_eq!(frame.center_x2, (10 - 2, 12 - 4));
    assert_eq!(frame.width, 2);
    assert_eq!(frame.height, 2);
    let sub = frame.diffuse.as_ref().expect("cropped sub-image");
    assert_eq!(sub.width, 2);
    assert_eq!(sub.height, 2);
    assert_eq!(sub.get_pixel(0, 0).r, 255);
    assert!(frame.teamcolor.is_none());
}

#[test]
fn get_frame_out_of_range_is_none() {
    let bytes = container(&[], &[(0, 0, 0, 0, 1, 1, 0)], 4, 4);
    let anim = Anim::fromFile(&bytes).unwrap();
    assert!(anim.getFrame(1).unwrap().is_none());
    assert!(anim.getFrame(0).unwrap().is_some());
}

#[test]
fn source_direction_round_trip() {
    // An 85-frame range with animation length 5 implies 17 source
    // directions, and the derivation is exact.
    let frames: Vec<(u16, u16, i16, i16, u16, u16, u32)> =
        (0..85).map(|_| (0, 0, 0, 0, 1, 1, 0)).collect();
    let bytes = container(&[], &frames, 4, 4);
    let anim = Anim::fromFile(&bytes).unwrap();
    assert_eq!(anim.frames.len(), 85);
    let range_len = anim.frames.len() as i32;
    let animation_length = 5;
    assert_eq!(range_len % animation_length, 0);
    let source_direction_count = range_len / animation_length;
    assert_eq!(source_direction_count, 17);
    assert_eq!(source_direction_count * animation_length, range_len);
}

#[test]
fn get_frame_clamps_rectangle_to_layer_bounds() {
    // The frame's source rectangle reaches past the 4x4 layer texture: the
    // crop's origin and size are clamped onto the layer.
    let dds = white_dds_4x4();
    let bytes = container(
        &[LayerSpec { name: "diffuse", data: dds, width: 4, height: 4 }],
        &[(3, 2, 0, 0, 4, 4, 0)],
        4,
        4,
    );
    let anim = Anim::fromFile(&bytes).unwrap();
    let frame = anim.getFrame(0).unwrap().expect("frame in range");
    // The descriptor's size is reported as-is...
    assert_eq!(frame.width, 4);
    assert_eq!(frame.height, 4);
    // ...but the cropped sub-image holds only what the layer can supply.
    let sub = frame.diffuse.as_ref().expect("cropped sub-image");
    assert_eq!(sub.width, 1);
    assert_eq!(sub.height, 2);
    assert_eq!(sub.get_pixel(0, 0).r, 255);
}
