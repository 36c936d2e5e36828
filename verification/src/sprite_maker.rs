//! The atlas packer.
//!
//! Given a decoded container, a frame-range selection and a compositing
//! preset, [`makeSprites`] lays the selected frames out on a fixed grid of
//! cells inside one or more fixed-size atlas images, mirroring directions
//! past the stored half-circle and compositing pixels per preset.
//! [`makeSpritesSd`] re-tiles a packed atlas set at half resolution.
//!
//! The whole output is pinned down pixel-by-pixel: [`atlas_pixel`] states,
//! for every coordinate of every output image, which source pixel (if any)
//! it holds.

use vstd::prelude::*;
use vstd::arithmetic::div_mod::lemma_fundamental_div_mod_converse;
use crate::anim::{frame_matches, Anim, Frame, FrameInfo};
use crate::codec::{lanczos_rgba_of, resize_lanczos};
use crate::img::{crop_start, image_bytes, lemma_image_bytes, Image, Pix};

verus! {

/// Compositing rule: which layers contribute to an atlas and how.
#[allow(non_camel_case_types)]
#[derive(Clone, Copy, Debug, PartialEq, Eq, Structural)]
pub enum Preset {
    normal,
    mask,
    light,
}

/// A frame-range selection: which source frames to pack and how to lay them
/// out. The radial pivot adjustment is supplied per angle index, already
/// rounded to integers (it is a pure function of the angle, precomputed by
/// the caller).
pub struct SpriteFormat {
    pub extra_offset_x2: (i32, i32),
    pub radial_offsets_x2: Vec<(i32, i32)>,
    pub direction_count: i32,
    pub used_directions: Option<Vec<i32>>,
    pub animation_length: i32,
    pub empty_pad: i32,
    pub source_range_index: (i32, i32),
    pub split_anim: bool,
}

/// A packed atlas set: the images plus the tile-grid geometry (`slice`
/// columns, `lines_per_file` rows usable per image, `width` x `height`
/// cells).
pub struct FactorioSprites {
    pub images: Vec<Image>,
    pub slice: i32,
    pub lines_per_file: i32,
    pub width: i32,
    pub height: i32,
}

/// How many frames the selection spans.
pub open spec fn range_len(f: SpriteFormat) -> int {
    f.source_range_index.1 - f.source_range_index.0
}

/// How many directions the source data stores (half-circle coverage).
pub open spec fn src_dir_count(f: SpriteFormat) -> int {
    range_len(f) / (f.animation_length as int)
}

/// The even angular step used when no explicit direction list is given.
pub open spec fn dir_step(f: SpriteFormat) -> int {
    2 * (src_dir_count(f) - 1) / (f.direction_count as int)
}

/// The source direction sampled for output direction rank `k` (may lie past
/// the stored half-circle, denoting a mirrored sample).
pub open spec fn used_dir(f: SpriteFormat, k: int) -> int {
    match f.used_directions {
        Some(v) => v@[k] as int,
        None => k * dir_step(f),
    }
}

/// Whether direction rank `k` is a mirrored sample.
pub open spec fn is_mirrored(f: SpriteFormat, k: int) -> bool {
    used_dir(f, k) >= src_dir_count(f)
}

/// The stored direction that rank `k` actually samples (reflecting mirrored
/// values back onto the stored half-circle).
pub open spec fn eff_dir(f: SpriteFormat, k: int) -> int {
    if is_mirrored(f, k) {
        2 * (src_dir_count(f) - 1) - used_dir(f, k)
    } else {
        used_dir(f, k)
    }
}

/// The descriptor of the selection's `i`-th frame (`i` relative to the
/// range start).
pub open spec fn frame_at(a: Anim, f: SpriteFormat, i: int) -> FrameInfo {
    a.frames@[f.source_range_index.0 + i]
}

/// The radial pivot adjustment for relative frame `i`: the entry for its
/// angle index.
pub open spec fn radial_at(f: SpriteFormat, i: int) -> (int, int) {
    let j = i % src_dir_count(f);
    (f.radial_offsets_x2@[j].0 as int, f.radial_offsets_x2@[j].1 as int)
}

/// Relative frame `i`'s adjusted doubled pivot, x component: the frame's
/// own doubled pivot plus the base, radial and extra offsets.
pub open spec fn center_x(a: Anim, f: SpriteFormat, base: (i32, i32), i: int) -> int {
    a.width - 2 * frame_at(a, f, i).x_off + base.0 + radial_at(f, i).0 + f.extra_offset_x2.0
}

/// Relative frame `i`'s adjusted doubled pivot, y component.
pub open spec fn center_y(a: Anim, f: SpriteFormat, base: (i32, i32), i: int) -> int {
    a.height - 2 * frame_at(a, f, i).y_off + base.1 + radial_at(f, i).1 + f.extra_offset_x2.1
}

pub open spec fn max2(a: int, b: int) -> int {
    if a >= b {
        a
    } else {
        b
    }
}

/// The cell width needed by the first `n` frames: each frame needs
/// `max(c, 2*w - c)` so that it fits symmetrically around its own pivot.
pub open spec fn cell_w_prefix(a: Anim, f: SpriteFormat, base: (i32, i32), n: int) -> int
    decreases n,
{
    if n <= 0 {
        0
    } else {
        let c = center_x(a, f, base, n - 1);
        let w = frame_at(a, f, n - 1).width as int;
        max2(cell_w_prefix(a, f, base, n - 1), max2(c, 2 * w - c))
    }
}

/// The cell height needed by the first `n` frames.
pub open spec fn cell_h_prefix(a: Anim, f: SpriteFormat, base: (i32, i32), n: int) -> int
    decreases n,
{
    if n <= 0 {
        0
    } else {
        let c = center_y(a, f, base, n - 1);
        let h = frame_at(a, f, n - 1).height as int;
        max2(cell_h_prefix(a, f, base, n - 1), max2(c, 2 * h - c))
    }
}

/// The atlas cell width: the worst case over all selected frames.
pub open spec fn cell_w(a: Anim, f: SpriteFormat, base: (i32, i32)) -> int {
    cell_w_prefix(a, f, base, range_len(f))
}

/// The atlas cell height.
pub open spec fn cell_h(a: Anim, f: SpriteFormat, base: (i32, i32)) -> int {
    cell_h_prefix(a, f, base, range_len(f))
}

/// Columns per atlas image.
pub open spec fn col_count(a: Anim, f: SpriteFormat, base: (i32, i32)) -> int {
    max2(1, 4096int / cell_w(a, f, base))
}

/// Rows per atlas image.
pub open spec fn row_count(a: Anim, f: SpriteFormat, base: (i32, i32)) -> int {
    max2(1, 4096int / cell_h(a, f, base))
}

/// Cells per image: the full grid, unless the selection is split per
/// direction, in which case each direction's run gets its own image.
pub open spec fn frames_per_img(a: Anim, f: SpriteFormat, base: (i32, i32)) -> int {
    if f.split_anim {
        f.animation_length as int
    } else {
        col_count(a, f, base) * row_count(a, f, base)
    }
}

/// How many cells the selection populates, counting the leading padding.
pub open spec fn padded_cells(f: SpriteFormat) -> int {
    f.direction_count * f.animation_length + f.empty_pad
}

/// How many atlas images the selection needs.
pub open spec fn image_count(a: Anim, f: SpriteFormat, base: (i32, i32)) -> int {
    (padded_cells(f) + frames_per_img(a, f, base) - 1) / frames_per_img(a, f, base)
}

/// The linear output slot of (direction rank, animation rank).
pub open spec fn slot_of(f: SpriteFormat, k: int, t: int) -> int {
    k * f.animation_length + t + f.empty_pad
}

/// The relative source frame sampled by (direction rank `k`, animation rank
/// `t`): the source stores frames grouped by animation rank.
pub open spec fn src_rel_frame(f: SpriteFormat, k: int, t: int) -> int {
    t * src_dir_count(f) + eff_dir(f, k)
}

/// The horizontal pixel offset of slot (`k`, `t`)'s frame inside its cell:
/// centered on the adjusted pivot, with the mirrored formula when the
/// direction is a mirrored sample.
pub open spec fn dest_off_x(a: Anim, f: SpriteFormat, base: (i32, i32), k: int, t: int) -> int {
    let i = src_rel_frame(f, k, t);
    let c = center_x(a, f, base, i);
    let w = frame_at(a, f, i).width as int;
    let cw = cell_w(a, f, base);
    if is_mirrored(f, k) {
        (cw - 2 * w + c) / 2
    } else {
        (cw - c) / 2
    }
}

/// The vertical pixel offset of slot (`k`, `t`)'s frame inside its cell.
pub open spec fn dest_off_y(a: Anim, f: SpriteFormat, base: (i32, i32), k: int, t: int) -> int {
    let i = src_rel_frame(f, k, t);
    let c = center_y(a, f, base, i);
    let ch = cell_h(a, f, base);
    (ch - c) / 2
}

/// The alpha a glow pixel gets: the maximum of its color channels.
pub open spec fn glow_alpha(p: Pix) -> u8 {
    if p.r >= p.g && p.r >= p.b {
        p.r
    } else if p.g >= p.b {
        p.g
    } else {
        p.b
    }
}

/// What the preset writes for relative frame `i` at in-frame source
/// coordinates (`sx`, `y`): `None` means the destination pixel is left
/// untouched.
pub open spec fn composited(
    a: Anim,
    f: SpriteFormat,
    preset: Preset,
    i: int,
    sx: int,
    y: int,
) -> Option<Pix> {
    let fi = frame_at(a, f, i);
    match preset {
        Preset::normal => Some(a.diffuse->0.pix(fi.tex_x + sx, fi.tex_y + y)),
        Preset::mask => if a.teamcolor->0.pix(fi.tex_x + sx, fi.tex_y + y).r > 0 {
            Some(a.diffuse->0.pix(fi.tex_x + sx, fi.tex_y + y))
        } else {
            None
        },
        Preset::light => {
            let p = a.emissive->0.pix(fi.tex_x + sx, fi.tex_y + y);
            Some(Pix { r: p.r, g: p.g, b: p.b, a: glow_alpha(p) })
        },
    }
}

/// The layers a preset needs: the albedo always, plus the team-color mask
/// or the emissive layer.
pub open spec fn layers_present(a: Anim, preset: Preset) -> bool {
    &&& a.diffuse is Some
    &&& (preset == Preset::mask ==> a.teamcolor is Some)
    &&& (preset == Preset::light ==> a.emissive is Some)
}

/// The pixel at (`x`, `y`) of output image `k`, for every coordinate of
/// every output image — restricted to the slots below `bound` (the full
/// atlas uses `bound == padded_cells(f)`). A coordinate is governed by the
/// grid cell it falls in; it shows a source pixel exactly when that cell
/// holds a populated slot, the coordinate falls inside the slot's frame
/// rectangle, and the preset writes that pixel; otherwise it is fully
/// transparent.
pub open spec fn atlas_pixel_upto(
    a: Anim,
    f: SpriteFormat,
    base: (i32, i32),
    preset: Preset,
    k: int,
    x: int,
    y: int,
    bound: int,
) -> Pix {
    let cw = cell_w(a, f, base);
    let ch = cell_h(a, f, base);
    let cc = col_count(a, f, base);
    let fpi = frames_per_img(a, f, base);
    let col = x / cw;
    let row = y / ch;
    let pos = row * cc + col;
    let s = k * fpi + pos;
    if pos < fpi && f.empty_pad <= s < bound {
        let dk = (s - f.empty_pad) / (f.animation_length as int);
        let t = (s - f.empty_pad) % (f.animation_length as int);
        let i = src_rel_frame(f, dk, t);
        let fi = frame_at(a, f, i);
        let x0 = col * cw + dest_off_x(a, f, base, dk, t);
        let y0 = row * ch + dest_off_y(a, f, base, dk, t);
        if x0 <= x < x0 + fi.width && y0 <= y < y0 + fi.height {
            let sx = if is_mirrored(f, dk) {
                fi.width - 1 - (x - x0)
            } else {
                x - x0
            };
            match composited(a, f, preset, i, sx, y - y0) {
                Some(p) => p,
                None => Pix::transparent(),
            }
        } else {
            Pix::transparent()
        }
    } else {
        Pix::transparent()
    }
}

/// The pixel at (`x`, `y`) of output image `k` of the finished atlas.
pub open spec fn atlas_pixel(
    a: Anim,
    f: SpriteFormat,
    base: (i32, i32),
    preset: Preset,
    k: int,
    x: int,
    y: int,
) -> Pix {
    atlas_pixel_upto(a, f, base, preset, k, x, y, padded_cells(f))
}

/// The frame rectangles the preset reads lie inside the layers it reads.
pub open spec fn rect_in_layers(a: Anim, preset: Preset, fi: FrameInfo) -> bool {
    &&& (preset == Preset::normal || preset == Preset::mask) && a.diffuse is Some
        ==> fi.tex_x + fi.width <= a.diffuse->0.width
            && fi.tex_y + fi.height <= a.diffuse->0.height
    &&& preset == Preset::mask && a.teamcolor is Some
        ==> fi.tex_x + fi.width <= a.teamcolor->0.width
            && fi.tex_y + fi.height <= a.teamcolor->0.height
    &&& preset == Preset::light && a.emissive is Some
        ==> fi.tex_x + fi.width <= a.emissive->0.width
            && fi.tex_y + fi.height <= a.emissive->0.height
}

/// What a packing call requires of its inputs. Beyond the structural rules
/// of a selection (an exact direction division, a direction list of the
/// right length, in-range directions, frames inside the layers the preset
/// reads), the numeric bounds keep all the integer arithmetic exact: a
/// selection outside them could not be packed on this machine at all.
pub open spec fn pack_wf(a: Anim, f: SpriteFormat, base: (i32, i32), preset: Preset) -> bool {
    &&& a.wf()
    &&& 1 <= f.animation_length
    &&& 1 <= f.direction_count
    &&& range_len(f) <= 0x100000
    &&& 0 <= f.empty_pad
    &&& 0 <= f.source_range_index.0 <= f.source_range_index.1
    &&& f.source_range_index.1 <= a.frames@.len()
    &&& range_len(f) % (f.animation_length as int) == 0
    &&& 1 <= src_dir_count(f)
    &&& (f.used_directions matches Some(v) ==> {
        &&& v@.len() == f.direction_count
        &&& forall|k: int| 0 <= k < v@.len()
            ==> 0 <= #[trigger] v@[k] && v@[k] <= 2 * (src_dir_count(f) - 1)
    })
    &&& f.radial_offsets_x2@.len() >= src_dir_count(f)
    &&& forall|j: int| 0 <= j < f.radial_offsets_x2@.len()
        ==> -0x100000 <= (#[trigger] f.radial_offsets_x2@[j]).0 <= 0x100000
            && -0x100000 <= f.radial_offsets_x2@[j].1 <= 0x100000
    &&& -0x100000 <= base.0 <= 0x100000
    &&& -0x100000 <= base.1 <= 0x100000
    &&& -0x100000 <= f.extra_offset_x2.0 <= 0x100000
    &&& -0x100000 <= f.extra_offset_x2.1 <= 0x100000
    &&& forall|i: int| 0 <= i < range_len(f)
        ==> rect_in_layers(a, preset, #[trigger] frame_at(a, f, i))
    &&& 1 <= cell_w(a, f, base)
    &&& 1 <= cell_h(a, f, base)
    &&& padded_cells(f) <= 0x40000000
    &&& (f.split_anim ==> f.animation_length
        <= col_count(a, f, base) * row_count(a, f, base))
    &&& 4 * (col_count(a, f, base) * cell_w(a, f, base))
        * (row_count(a, f, base) * cell_h(a, f, base)) <= usize::MAX
}

/// `out` is the atlas set that packing (`a`, `f`, `base`, `preset`)
/// produces: the stated tile geometry, the stated image count, and every
/// pixel of every image as [`atlas_pixel`] gives it.
pub open spec fn packs_to(
    a: Anim,
    f: SpriteFormat,
    base: (i32, i32),
    preset: Preset,
    out: FactorioSprites,
) -> bool {
    &&& out.slice == col_count(a, f, base)
    &&& out.lines_per_file == row_count(a, f, base)
    &&& out.width == cell_w(a, f, base)
    &&& out.height == cell_h(a, f, base)
    &&& out.images@.len() == image_count(a, f, base)
    &&& forall|k: int| 0 <= k < out.images@.len() ==> {
        &&& (#[trigger] out.images@[k]).wf()
        &&& out.images@[k].width == col_count(a, f, base) * cell_w(a, f, base)
        &&& out.images@[k].height == row_count(a, f, base) * cell_h(a, f, base)
    }
    &&& forall|k: int, x: int, y: int|
        0 <= k < out.images@.len() && 0 <= x < out.images@[k].width
            && 0 <= y < out.images@[k].height
            ==> (#[trigger] out.images@[k].pix(x, y))
                == atlas_pixel(a, f, base, preset, k, x, y)
}

/// What the preset writes at in-frame coordinates (`x`, `y`) of a cropped
/// frame (`None`: the destination pixel is left untouched). For a mirrored
/// sample the source column is read right-to-left.
pub open spec fn frame_pix(fr: Frame, preset: Preset, mirrored: bool, x: int, y: int) -> Option<
    Pix,
> {
    let sx = if mirrored {
        fr.width - 1 - x
    } else {
        x
    };
    match preset {
        Preset::normal => Some(fr.diffuse->0.pix(sx, y)),
        Preset::mask => if fr.teamcolor->0.pix(sx, y).r > 0 {
            Some(fr.diffuse->0.pix(sx, y))
        } else {
            None
        },
        Preset::light => {
            let p = fr.emissive->0.pix(sx, y);
            Some(Pix { r: p.r, g: p.g, b: p.b, a: glow_alpha(p) })
        },
    }
}

/// The cropped sub-images a preset reads are present, well-formed, and
/// exactly the frame's size.
pub open spec fn frame_crops_ok(fr: Frame, preset: Preset) -> bool {
    &&& 0 <= fr.width <= 0x10000
    &&& 0 <= fr.height <= 0x10000
    &&& (preset == Preset::normal || preset == Preset::mask) ==> {
        &&& fr.diffuse matches Some(d)
        &&& fr.diffuse->0.wf()
        &&& fr.diffuse->0.width == fr.width
        &&& fr.diffuse->0.height == fr.height
    }
    &&& preset == Preset::mask ==> {
        &&& fr.teamcolor matches Some(m)
        &&& fr.teamcolor->0.wf()
        &&& fr.teamcolor->0.width == fr.width
        &&& fr.teamcolor->0.height == fr.height
    }
    &&& preset == Preset::light ==> {
        &&& fr.emissive matches Some(e)
        &&& fr.emissive->0.wf()
        &&& fr.emissive->0.width == fr.width
        &&& fr.emissive->0.height == fr.height
    }
}

/// Composite one frame into the cell whose top-left frame corner is
/// (`x0`, `y0`): per preset, write or skip each pixel of the frame's
/// rectangle; everything outside it is untouched.
fn composite_cell(img: &mut Image, fr: &Frame, preset: Preset, mirrored: bool, x0: u32, y0: u32)
    requires
        old(img).wf(),
        frame_crops_ok(*fr, preset),
        x0 + fr.width <= old(img).width,
        y0 + fr.height <= old(img).height,
    ensures
        final(img).wf(),
        final(img).width == old(img).width,
        final(img).height == old(img).height,
        forall|x: int, y: int|
            0 <= x < fr.width && 0 <= y < fr.height
                ==> (#[trigger] final(img).pix(x0 + x, y0 + y)) == match frame_pix(
                    *fr, preset, mirrored, x, y,
                ) {
                    Some(p) => p,
                    None => old(img).pix(x0 + x, y0 + y),
                },
        forall|x: int, y: int|
            0 <= x < old(img).width && 0 <= y < old(img).height
                && !(x0 <= x < x0 + fr.width && y0 <= y < y0 + fr.height)
                ==> (#[trigger] final(img).pix(x, y)) == old(img).pix(x, y),
{
    let w = fr.width as u32;
    let h = fr.height as u32;
    let mut x: u32 = 0;
    while x < w
        invariant
            img.wf(),
            img.width == old(img).width,
            img.height == old(img).height,
            frame_crops_ok(*fr, preset),
            w == fr.width,
            h == fr.height,
            x <= w,
            x0 + w <= img.width,
            y0 + h <= img.height,
            forall|a: int, b: int|
                0 <= a < x && 0 <= b < h
                    ==> (#[trigger] img.pix(x0 + a, y0 + b)) == match frame_pix(
                        *fr, preset, mirrored, a, b,
                    ) {
                        Some(p) => p,
                        None => old(img).pix(x0 + a, y0 + b),
                    },
            forall|a: int, b: int|
                0 <= a < img.width && 0 <= b < img.height
                    && !(x0 <= a < x0 + x && y0 <= b < y0 + h)
                    ==> (#[trigger] img.pix(a, b)) == old(img).pix(a, b),
        decreases w - x,
    {
        let sx: u32 = if mirrored {
            w - x - 1
        } else {
            x
        };
        let mut y: u32 = 0;
        while y < h
            invariant
                img.wf(),
                img.width == old(img).width,
                img.height == old(img).height,
                frame_crops_ok(*fr, preset),
                w == fr.width,
                h == fr.height,
                x < w,
                y <= h,
                x0 + w <= img.width,
                y0 + h <= img.height,
                sx == if mirrored { w - x - 1 } else { x as int },
                forall|a: int, b: int|
                    0 <= a < x && 0 <= b < h
                        ==> (#[trigger] img.pix(x0 + a, y0 + b)) == match frame_pix(
                            *fr, preset, mirrored, a, b,
                        ) {
                            Some(p) => p,
                            None => old(img).pix(x0 + a, y0 + b),
                        },
                forall|b: int|
                    0 <= b < y
                        ==> (#[trigger] img.pix(x0 + x, y0 + b)) == match frame_pix(
                            *fr, preset, mirrored, x as int, b,
                        ) {
                            Some(p) => p,
                            None => old(img).pix(x0 + x, y0 + b),
                        },
                forall|a: int, b: int|
                    0 <= a < img.width && 0 <= b < img.height
                        && !(x0 <= a < x0 + x && y0 <= b < y0 + h)
                        && !(a == x0 + x && y0 <= b < y0 + y)
                        ==> (#[trigger] img.pix(a, b)) == old(img).pix(a, b),
            decreases h - y,
        {
            match preset {
                Preset::normal => {
                    let p = match &fr.diffuse {
                        Some(d) => d.get_pixel(sx, y),
                        None => vstd::pervasive::unreached(),
                    };
                    img.put_pixel(x0 + x, y0 + y, p);
                },
                Preset::mask => {
                    let masked = match &fr.teamcolor {
                        Some(m) => m.get_pixel(sx, y).r > 0,
                        None => vstd::pervasive::unreached(),
                    };
                    if masked {
                        let p = match &fr.diffuse {
                            Some(d) => d.get_pixel(sx, y),
                            None => vstd::pervasive::unreached(),
                        };
                        img.put_pixel(x0 + x, y0 + y, p);
                    }
                },
                Preset::light => {
                    let p = match &fr.emissive {
                        Some(e) => e.get_pixel(sx, y),
                        None => vstd::pervasive::unreached(),
                    };
                    let alpha = if p.r >= p.g && p.r >= p.b {
                        p.r
                    } else if p.g >= p.b {
                        p.g
                    } else {
                        p.b
                    };
                    img.put_pixel(x0 + x, y0 + y, Pix { r: p.r, g: p.g, b: p.b, a: alpha });
                },
            }
            y = y + 1;
        }
        x = x + 1;
    }
}

/// Euclidean division of a non-negative value gives a non-negative
/// quotient no larger than the dividend.
proof fn lemma_div_nonneg_le(x: int, d: int)
    requires
        0 <= x,
        0 < d,
    ensures
        0 <= x / d <= x,
        x == d * (x / d) + x % d,
        0 <= x % d < d,
{
    vstd::arithmetic::div_mod::lemma_fundamental_div_mod(x, d);
    vstd::arithmetic::div_mod::lemma_mod_bound(x, d);
    assert(0 <= x / d && x / d <= x) by (nonlinear_arith)
        requires 0 < d, 0 <= x, x == d * (x / d) + x % d, 0 <= x % d < d;
}

/// Euclidean division of a value inside `[0, n*d)` by `d` gives a quotient
/// inside `[0, n)`.
proof fn lemma_div_range(x: int, d: int, n: int)
    requires
        0 < d,
        0 <= x < n * d,
    ensures
        0 <= x / d < n,
        x == d * (x / d) + x % d,
        0 <= x % d < d,
{
    vstd::arithmetic::div_mod::lemma_fundamental_div_mod(x, d);
    vstd::arithmetic::div_mod::lemma_mod_bound(x, d);
    assert(0 <= x / d && x / d < n) by (nonlinear_arith)
        requires 0 < d, 0 <= x, x < n * d, x == d * (x / d) + x % d, 0 <= x % d < d;
}

/// A tile grid over cells of size `cell` against the atlas bound `lim` has
/// at most `lim` columns and spans at most `max(lim, cell)` pixels.
proof fn lemma_tile_bound(cell: int, cols: int, lim: int)
    requires
        1 <= cell,
        1 <= lim <= 4096,
        cols == max2(1, lim / cell),
    ensures
        1 <= cols <= lim,
        cols * cell <= max2(lim, cell),
{
    lemma_div_nonneg_le(lim, cell);
    if cell <= lim {
        assert(1 <= lim / cell) by (nonlinear_arith)
            requires 1 <= cell <= lim,
                lim == cell * (lim / cell) + lim % cell,
                0 <= lim % cell < cell;
        assert(cols * cell <= lim) by (nonlinear_arith)
            requires cols == lim / cell, 1 <= cell,
                lim == cell * (lim / cell) + lim % cell,
                0 <= lim % cell;
    } else {
        lemma_fundamental_div_mod_converse(lim, cell, 0, lim);
        assert(cols == 1);
    }
}

/// The cell size accommodates every selected frame: it is at least each
/// frame's pivot and mirrored-pivot extent.
proof fn lemma_cell_prefix_ge(a: Anim, f: SpriteFormat, base: (i32, i32), j: int, n: int)
    requires
        0 <= j < n,
    ensures
        cell_w_prefix(a, f, base, n) >= center_x(a, f, base, j),
        cell_w_prefix(a, f, base, n)
            >= 2 * frame_at(a, f, j).width - center_x(a, f, base, j),
        cell_h_prefix(a, f, base, n) >= center_y(a, f, base, j),
        cell_h_prefix(a, f, base, n)
            >= 2 * frame_at(a, f, j).height - center_y(a, f, base, j),
    decreases n,
{
    if j < n - 1 {
        lemma_cell_prefix_ge(a, f, base, j, n - 1);
    }
}

/// Resolve the selection's direction list: the explicit list when one is
/// given, else `direction_count` directions at the even step.
pub fn resolve_directions(format: &SpriteFormat) -> (r: Vec<i32>)
    requires
        1 <= format.animation_length,
        1 <= format.direction_count,
        0 <= format.source_range_index.0 <= format.source_range_index.1,
        range_len(*format) <= 0x100000,
        1 <= src_dir_count(*format),
        format.used_directions matches Some(v) ==> {
            &&& v@.len() == format.direction_count
            &&& forall|k: int| 0 <= k < v@.len()
                ==> 0 <= #[trigger] v@[k] && v@[k] <= 2 * (src_dir_count(*format) - 1)
        },
    ensures
        r@.len() == format.direction_count,
        forall|k: int| 0 <= k < r@.len() ==> #[trigger] r@[k] == used_dir(*format, k),
        forall|k: int| 0 <= k < r@.len()
            ==> 0 <= #[trigger] r@[k] && r@[k] <= 2 * (src_dir_count(*format) - 1),
{
    let dc = format.direction_count;
    match &format.used_directions {
        Some(v) => {
            let mut out: Vec<i32> = Vec::new();
            let mut k: usize = 0;
            let n = v.len();
            while k < n
                invariant
                    k <= n,
                    n == v@.len(),
                    out@.len() == k,
                    forall|j: int| 0 <= j < k ==> #[trigger] out@[j] == v@[j],
                decreases n - k,
            {
                out.push(v[k]);
                k = k + 1;
            }
            out
        },
        None => {
            let rl = format.source_range_index.1 - format.source_range_index.0;
            let sdc = rl / format.animation_length;
            proof {
                lemma_div_nonneg_le(rl as int, format.animation_length as int);
            }
            let step = 2 * (sdc - 1) / dc;
            proof {
                lemma_div_nonneg_le(2 * (sdc - 1) as int, dc as int);
                assert(dc * step <= 2 * (sdc - 1));
                assert(step * dc == dc * step) by (nonlinear_arith);
            }
            let mut out: Vec<i32> = Vec::new();
            let mut k: i32 = 0;
            while k < dc
                invariant
                    0 <= k <= dc,
                    sdc == src_dir_count(*format),
                    1 <= sdc,
                    step == dir_step(*format),
                    0 <= step,
                    step * dc <= 2 * (sdc - 1),
                    sdc <= 0x100000,
                    out@.len() == k,
                    forall|j: int| 0 <= j < k ==> #[trigger] out@[j] == j * step,
                    forall|j: int| 0 <= j < k
                        ==> 0 <= #[trigger] out@[j] && out@[j] <= 2 * (sdc - 1),
                decreases dc - k,
            {
                proof {
                    assert(0 <= k * step && k * step <= (k + 1) * step
                        && (k + 1) * step <= dc * step && dc * step == step * dc
                        && k * step + step == (k + 1) * step) by (nonlinear_arith)
                        requires 0 <= step, 0 <= k, k + 1 <= dc;
                }
                out.push(k * step);
                k = k + 1;
            }
            out
        },
    }
}

/// Pack a selection of frames into a fresh atlas set.
///
/// Returns `Ok(None)` exactly when a layer the preset needs is absent from
/// the container; otherwise returns the atlas set whose geometry and whose
/// every pixel [`packs_to`] pins down. Never returns an error.
#[allow(non_snake_case)]
#[verifier::rlimit(100)]
pub fn makeSprites(
    anim: &Anim,
    format: &SpriteFormat,
    base_offset_x2: (i32, i32),
    preset: Preset,
) -> (r: Result<Option<FactorioSprites>, crate::anim::AnimError>)
    requires
        pack_wf(*anim, *format, base_offset_x2, preset),
    ensures
        r is Ok,
        match r {
            Ok(Some(out)) => layers_present(*anim, preset)
                && packs_to(*anim, *format, base_offset_x2, preset, out),
            Ok(None) => !layers_present(*anim, preset),
            Err(_) => false,
        },
{
    let base = base_offset_x2;
    // A preset whose required layer is missing yields no result.
    let present = match preset {
        Preset::normal => anim.diffuse.is_some(),
        Preset::mask => anim.diffuse.is_some() && anim.teamcolor.is_some(),
        Preset::light => anim.diffuse.is_some() && anim.emissive.is_some(),
    };
    if !present {
        return Ok(None);
    }

    let r0 = format.source_range_index.0;
    let rl = format.source_range_index.1 - r0;
    let al = format.animation_length;
    let dc = format.direction_count;
    let pad = format.empty_pad;
    let sdc = rl / al;
    proof {
        lemma_div_nonneg_le(rl as int, al as int);
        assert(al * sdc <= rl);
        assert(al * sdc == rl);
    }
    let rl_us = rl as usize;

    // Crop the selected frames.
    let mut frames: Vec<Frame> = Vec::new();
    let mut i: usize = 0;
    while i < rl_us
        invariant
            pack_wf(*anim, *format, base, preset),
            r0 == format.source_range_index.0,
            rl_us == range_len(*format),
            i <= rl_us,
            frames@.len() == i,
            forall|j: int| 0 <= j < i
                ==> frame_matches(*anim, r0 + j, #[trigger] frames@[j]),
        decreases rl_us - i,
    {
        match anim.getFrame(r0 as usize + i) {
            Ok(Some(fr)) => frames.push(fr),
            _ => {
                proof {
                    assert(false);
                }
            },
        }
        i = i + 1;
    }

    let directions = resolve_directions(format);

    // Adjust each frame's doubled pivot by the base, radial and extra
    // offsets.
    let mut centers: Vec<(i32, i32)> = Vec::new();
    let mut i: usize = 0;
    while i < rl_us
        invariant
            pack_wf(*anim, *format, base, preset),
            r0 == format.source_range_index.0,
            rl_us == range_len(*format),
            sdc == src_dir_count(*format),
            1 <= sdc,
            i <= rl_us,
            frames@.len() == rl_us,
            forall|j: int| 0 <= j < rl_us
                ==> frame_matches(*anim, r0 + j, #[trigger] frames@[j]),
            centers@.len() == i,
            forall|j: int| 0 <= j < i
                ==> (#[trigger] centers@[j]).0 == center_x(*anim, *format, base, j)
                    && centers@[j].1 == center_y(*anim, *format, base, j),
            forall|j: int| 0 <= j < i
                ==> -0x340000 <= (#[trigger] centers@[j]).0 <= 0x340000
                    && -0x340000 <= centers@[j].1 <= 0x340000,
        decreases rl_us - i,
    {
        let fr = &frames[i];
        let j = (i as i32) % sdc;
        proof {
            vstd::arithmetic::div_mod::lemma_mod_bound(i as int, sdc as int);
        }
        let rad = format.radial_offsets_x2[j as usize];
        let cx = fr.center_x2.0 + base.0 + rad.0 + format.extra_offset_x2.0;
        let cy = fr.center_x2.1 + base.1 + rad.1 + format.extra_offset_x2.1;
        centers.push((cx, cy));
        i = i + 1;
    }

    // The cell size: the worst case over all selected frames, symmetric
    // around each frame's own pivot.
    let mut fw: i32 = 0;
    let mut fh: i32 = 0;
    let mut i: usize = 0;
    while i < rl_us
        invariant
            pack_wf(*anim, *format, base, preset),
            r0 == format.source_range_index.0,
            rl_us == range_len(*format),
            i <= rl_us,
            frames@.len() == rl_us,
            forall|j: int| 0 <= j < rl_us
                ==> frame_matches(*anim, r0 + j, #[trigger] frames@[j]),
            centers@.len() == rl_us,
            forall|j: int| 0 <= j < rl_us
                ==> (#[trigger] centers@[j]).0 == center_x(*anim, *format, base, j)
                    && centers@[j].1 == center_y(*anim, *format, base, j),
            fw == cell_w_prefix(*anim, *format, base, i as int),
            fh == cell_h_prefix(*anim, *format, base, i as int),
            0 <= fw <= 0x340000,
            0 <= fh <= 0x340000,
        decreases rl_us - i,
    {
        let c = centers[i];
        let fr = &frames[i];
        let wcand = 2 * (fr.width) - c.0;
        let hcand = 2 * (fr.height) - c.1;
        if c.0 > fw {
            fw = c.0;
        }
        if wcand > fw {
            fw = wcand;
        }
        if c.1 > fh {
            fh = c.1;
        }
        if hcand > fh {
            fh = hcand;
        }
        i = i + 1;
    }
    proof {
        assert(fw == cell_w(*anim, *format, base));
        assert(fh == cell_h(*anim, *format, base));
    }

    // Tiling parameters.
    let cc = {
        let q = 4096 / fw;
        if q >= 1 {
            q
        } else {
            1
        }
    };
    let rc = {
        let q = 4096 / fh;
        if q >= 1 {
            q
        } else {
            1
        }
    };
    proof {
        lemma_div_nonneg_le(4096int, fw as int);
        lemma_div_nonneg_le(4096int, fh as int);
        assert(cc == col_count(*anim, *format, base));
        assert(rc == row_count(*anim, *format, base));
        lemma_tile_bound(fw as int, cc as int, 4096);
        lemma_tile_bound(fh as int, rc as int, 4096);
        assert(cc * fw <= 0x340000 && rc * fh <= 0x340000);
        assert(1 <= cc * rc && cc * rc <= 4096 * 4096) by (nonlinear_arith)
            requires 1 <= cc <= 4096, 1 <= rc <= 4096;
    }
    let fpi = if format.split_anim {
        al
    } else {
        cc * rc
    };
    let total = dc * al + pad;
    let img_cnt = (total + fpi - 1) / fpi;
    proof {
        assert(al <= dc * al) by (nonlinear_arith)
            requires 1 <= dc, 1 <= al;
        lemma_div_nonneg_le((total + fpi - 1) as int, fpi as int);
        assert(img_cnt == image_count(*anim, *format, base));
        // The populated slots all land inside the allocated images.
        assert(total <= img_cnt * fpi) by (nonlinear_arith)
            requires
                total + fpi - 1 == fpi * img_cnt + ((total + fpi - 1) as int) % (fpi as int),
                0 <= ((total + fpi - 1) as int) % (fpi as int) < fpi;
    }
    let img_w = cc * fw;
    let img_h = rc * fh;

    // Fresh, fully transparent atlas images.
    let imgs = img_cnt as usize;
    let mut output: Vec<Image> = Vec::new();
    let mut k: usize = 0;
    while k < imgs
        invariant
            imgs == image_count(*anim, *format, base),
            img_w == col_count(*anim, *format, base) * cell_w(*anim, *format, base),
            img_h == row_count(*anim, *format, base) * cell_h(*anim, *format, base),
            0 <= img_w,
            0 <= img_h,
            4 * img_w * img_h <= usize::MAX,
            k <= imgs,
            output@.len() == k,
            forall|j: int| 0 <= j < k ==> {
                &&& (#[trigger] output@[j]).wf()
                &&& output@[j].width == img_w
                &&& output@[j].height == img_h
            },
            forall|j: int, x: int, y: int|
                0 <= j < k && 0 <= x < img_w && 0 <= y < img_h
                    ==> (#[trigger] output@[j].pix(x, y)) == Pix::transparent(),
        decreases imgs - k,
    {
        output.push(Image::new(img_w as u32, img_h as u32));
        k = k + 1;
    }

    // Composite every (direction rank, animation rank) slot.
    let mut ori: i32 = 0;
    while ori < dc
        invariant
            pack_wf(*anim, *format, base, preset),
            layers_present(*anim, preset),
            r0 == format.source_range_index.0,
            rl_us == range_len(*format),
            al == format.animation_length,
            dc == format.direction_count,
            pad == format.empty_pad,
            sdc == src_dir_count(*format),
            1 <= sdc,
            al as int * sdc as int == rl_us as int,
            fw == cell_w(*anim, *format, base),
            fh == cell_h(*anim, *format, base),
            0 <= fw <= 0x340000,
            0 <= fh <= 0x340000,
            cc == col_count(*anim, *format, base),
            rc == row_count(*anim, *format, base),
            fpi == frames_per_img(*anim, *format, base),
            total == padded_cells(*format),
            total <= img_cnt * fpi,
            imgs == img_cnt,
            imgs == image_count(*anim, *format, base),
            img_w == cc * fw,
            img_h == rc * fh,
            img_w <= 0x340000,
            img_h <= 0x340000,
            frames@.len() == rl_us,
            forall|j: int| 0 <= j < rl_us
                ==> frame_matches(*anim, r0 + j, #[trigger] frames@[j]),
            centers@.len() == rl_us,
            forall|j: int| 0 <= j < rl_us
                ==> (#[trigger] centers@[j]).0 == center_x(*anim, *format, base, j)
                    && centers@[j].1 == center_y(*anim, *format, base, j),
            forall|j: int| 0 <= j < rl_us
                ==> -0x340000 <= (#[trigger] centers@[j]).0 <= 0x340000
                    && -0x340000 <= centers@[j].1 <= 0x340000,
            directions@.len() == dc,
            forall|j: int| 0 <= j < dc
                ==> #[trigger] directions@[j] == used_dir(*format, j),
            forall|j: int| 0 <= j < dc
                ==> 0 <= #[trigger] directions@[j]
                    && directions@[j] <= 2 * (src_dir_count(*format) - 1),
            0 <= ori <= dc,
            output@.len() == imgs,
            forall|j: int| 0 <= j < imgs ==> {
                &&& (#[trigger] output@[j]).wf()
                &&& output@[j].width == img_w
                &&& output@[j].height == img_h
            },
            forall|j: int, x: int, y: int|
                0 <= j < imgs && 0 <= x < img_w && 0 <= y < img_h
                    ==> (#[trigger] output@[j].pix(x, y)) == atlas_pixel_upto(
                        *anim, *format, base, preset, j, x, y, ori * al + pad,
                    ),
        decreases dc - ori,
    {
        let mut t: i32 = 0;
        while t < al
            invariant
                pack_wf(*anim, *format, base, preset),
                layers_present(*anim, preset),
                r0 == format.source_range_index.0,
                rl_us == range_len(*format),
                al == format.animation_length,
                dc == format.direction_count,
                pad == format.empty_pad,
                sdc == src_dir_count(*format),
                1 <= sdc,
                al as int * sdc as int == rl_us as int,
                fw == cell_w(*anim, *format, base),
                fh == cell_h(*anim, *format, base),
                0 <= fw <= 0x340000,
                0 <= fh <= 0x340000,
                cc == col_count(*anim, *format, base),
                rc == row_count(*anim, *format, base),
                fpi == frames_per_img(*anim, *format, base),
                total == padded_cells(*format),
                total <= img_cnt * fpi,
                imgs == img_cnt,
                imgs == image_count(*anim, *format, base),
                img_w == cc * fw,
                img_h == rc * fh,
                img_w <= 0x340000,
                img_h <= 0x340000,
                frames@.len() == rl_us,
                forall|j: int| 0 <= j < rl_us
                    ==> frame_matches(*anim, r0 + j, #[trigger] frames@[j]),
                centers@.len() == rl_us,
                forall|j: int| 0 <= j < rl_us
                    ==> (#[trigger] centers@[j]).0 == center_x(*anim, *format, base, j)
                        && centers@[j].1 == center_y(*anim, *format, base, j),
                forall|j: int| 0 <= j < rl_us
                    ==> -0x340000 <= (#[trigger] centers@[j]).0 <= 0x340000
                        && -0x340000 <= centers@[j].1 <= 0x340000,
                directions@.len() == dc,
                forall|j: int| 0 <= j < dc
                    ==> #[trigger] directions@[j] == used_dir(*format, j),
                forall|j: int| 0 <= j < dc
                    ==> 0 <= #[trigger] directions@[j]
                        && directions@[j] <= 2 * (src_dir_count(*format) - 1),
                0 <= ori < dc,
                0 <= t <= al,
                output@.len() == imgs,
                forall|j: int| 0 <= j < imgs ==> {
                    &&& (#[trigger] output@[j]).wf()
                    &&& output@[j].width == img_w
                    &&& output@[j].height == img_h
                },
                forall|j: int, x: int, y: int|
                    0 <= j < imgs && 0 <= x < img_w && 0 <= y < img_h
                        ==> (#[trigger] output@[j].pix(x, y)) == atlas_pixel_upto(
                            *anim, *format, base, preset, j, x, y, ori * al + t + pad,
                        ),
            decreases al - t,
        {
            proof {
                assert(0 <= ori * al && ori * al + al <= dc * al) by (nonlinear_arith)
                    requires 0 <= ori, ori + 1 <= dc, 1 <= al;
            }
            let out_idx = ori * al + t + pad;
            let img_idx = out_idx / fpi;
            let pos = out_idx % fpi;
            let row_idx = pos / cc;
            let col_idx = pos % cc;
            proof {
                assert(1 <= fpi) by (nonlinear_arith)
                    requires fpi == al || fpi == cc * rc, 1 <= al, 1 <= cc, 1 <= rc;
                lemma_div_range(out_idx as int, fpi as int, img_cnt as int);
                assert(fpi <= cc * rc) by (nonlinear_arith)
                    requires fpi == al || fpi == cc * rc,
                        al <= cc * rc || fpi == cc * rc;
                lemma_div_range(pos as int, cc as int, rc as int);
            }
            let mut source_ori = directions[ori as usize];
            let mirrored = source_ori >= sdc;
            if mirrored {
                source_ori = 2 * (sdc - 1) - source_ori;
            }
            proof {
                assert(source_ori == eff_dir(*format, ori as int));
                assert(0 <= source_ori < sdc);
                assert(0 <= t * sdc && t * sdc + source_ori < al * sdc) by (nonlinear_arith)
                    requires 0 <= t, t + 1 <= al, 0 <= source_ori, source_ori < sdc, 1 <= sdc;
            }
            let source_idx = t * sdc + source_ori;
            let fr = &frames[source_idx as usize];
            let c = centers[source_idx as usize];
            proof {
                lemma_cell_prefix_ge(*anim, *format, base, source_idx as int, rl_us as int);
                let fi = frame_at(*anim, *format, source_idx as int);
                assert(frame_matches(*anim, r0 + source_idx as int, frames@[source_idx as int]));
                assert(fr.width == fi.width && fr.height == fi.height);
                assert(fw >= c.0 && fw >= 2 * fr.width - c.0);
                assert(fh >= c.1 && fh >= 2 * fr.height - c.1);
            }
            let off_x = if mirrored {
                (fw - 2 * fr.width + c.0) / 2
            } else {
                (fw - c.0) / 2
            };
            let off_y = (fh - c.1) / 2;
            proof {
                lemma_div_nonneg_le((fw - c.0) as int, 2);
                lemma_div_nonneg_le((fw - 2 * fr.width + c.0) as int, 2);
                lemma_div_nonneg_le((fh - c.1) as int, 2);
                assert(0 <= off_x && off_x + fr.width <= fw);
                assert(0 <= off_y && off_y + fr.height <= fh);
                assert(source_idx == src_rel_frame(*format, ori as int, t as int));
                assert(off_x == dest_off_x(*anim, *format, base, ori as int, t as int));
                assert(off_y == dest_off_y(*anim, *format, base, ori as int, t as int));
            }
            proof {
                assert(0 <= col_idx * fw && col_idx * fw + fw <= cc * fw) by (nonlinear_arith)
                    requires 0 <= col_idx, col_idx + 1 <= cc, 1 <= fw;
                assert(0 <= row_idx * fh && row_idx * fh + fh <= rc * fh) by (nonlinear_arith)
                    requires 0 <= row_idx, row_idx + 1 <= rc, 1 <= fh;
            }
            let start_x = col_idx * fw + off_x;
            let start_y = row_idx * fh + off_y;
            proof {
                // The crops the preset reads exist and have the frame's size.
                assert(frame_crops_ok(frames@[source_idx as int], preset));
            }
            let ghost old_out = output@;
            composite_cell(
                &mut output[img_idx as usize],
                fr,
                preset,
                mirrored,
                start_x as u32,
                start_y as u32,
            );
            proof {
                let ga = *anim;
                let gf = *format;
                let cw = fw as int;
                let chh = fh as int;
                let ccc = cc as int;
                let gfpi = fpi as int;
                let s = out_idx as int;
                let gfr = frames@[source_idx as int];
                let fi = frame_at(ga, gf, source_idx as int);
                assert(gfr.width == fi.width && gfr.height == fi.height);
                assert forall|j: int, x: int, y: int|
                    0 <= j < imgs && 0 <= x < img_w && 0 <= y < img_h
                        implies (#[trigger] output@[j].pix(x, y)) == atlas_pixel_upto(
                            ga, gf, base, preset, j, x, y, s + 1,
                        ) by {
                    lemma_div_range(x, cw, ccc);
                    lemma_div_range(y, chh, rc as int);
                    let col = x / cw;
                    let row = y / chh;
                    let p = row * ccc + col;
                    let g = j * gfpi + p;
                    if j != img_idx as int {
                        assert(output@[j] == old_out[j]);
                        if 0 <= p < gfpi && g == s {
                            lemma_fundamental_div_mod_converse(s, gfpi, j, p);
                            assert(false);
                        }
                    } else {
                        if start_x <= x < start_x + gfr.width
                            && start_y <= y < start_y + gfr.height {
                            lemma_fundamental_div_mod_converse(
                                x, cw, col_idx as int, x - col_idx * cw,
                            );
                            lemma_fundamental_div_mod_converse(
                                y, chh, row_idx as int, y - row_idx * chh,
                            );
                            assert(col == col_idx as int && row == row_idx as int);
                            assert(row_idx as int * ccc == ccc * (row_idx as int))
                                by (nonlinear_arith);
                            assert(j * gfpi == gfpi * j) by (nonlinear_arith);
                            assert(p == pos as int);
                            assert(g == s);
                            lemma_fundamental_div_mod_converse(
                                s - pad, al as int, ori as int, t as int,
                            );
                            let xx = x - start_x;
                            let yy = y - start_y;
                            assert(0 <= xx < gfr.width && 0 <= yy < gfr.height);
                            assert(output@[j].pix(start_x + xx, start_y + yy)
                                == match frame_pix(gfr, preset, mirrored, xx, yy) {
                                    Some(q) => q,
                                    None => old_out[j].pix(start_x + xx, start_y + yy),
                                });
                            lemma_frame_pix_composited(
                                ga, gf, base, preset, source_idx as int, gfr,
                                mirrored, xx, yy,
                            );
                        } else {
                            assert(output@[j].pix(x, y) == old_out[j].pix(x, y));
                            if 0 <= p < gfpi && g == s {
                                // The governing cell is this slot's cell, but
                                // the coordinate misses the frame rectangle.
                                lemma_fundamental_div_mod_converse(s, gfpi, j, p);
                                lemma_fundamental_div_mod_converse(
                                    s - pad, al as int, ori as int, t as int,
                                );
                                assert(p == pos as int);
                                assert(row_idx as int * ccc == ccc * (row_idx as int))
                                    by (nonlinear_arith);
                                assert(j * gfpi == gfpi * j) by (nonlinear_arith);
                                lemma_div_range(pos as int, ccc, rc as int);
                                lemma_fundamental_div_mod_converse(
                                    p, ccc, row as int, col as int,
                                );
                                assert(col == col_idx as int && row == row_idx as int);
                                assert(!(start_x <= x < start_x + fi.width
                                    && start_y <= y < start_y + fi.height));
                            }
                        }
                    }
                }
            }
            t = t + 1;
        }
        proof {
            assert((ori + 1) * al == ori * al + al) by (nonlinear_arith);
        }
        ori = ori + 1;
    }

    proof {
        assert(dc * al + pad == padded_cells(*format));
    }
    Ok(Some(FactorioSprites {
        images: output,
        slice: cc,
        lines_per_file: rc,
        width: fw,
        height: fh,
    }))
}

/// Bridge between the frame-level and the container-level pixel statement:
/// reading a cropped sub-image equals reading the layer at the frame's
/// source rectangle.
proof fn lemma_frame_pix_composited(
    a: Anim,
    f: SpriteFormat,
    base: (i32, i32),
    preset: Preset,
    i: int,
    fr: Frame,
    mirrored: bool,
    x: int,
    y: int,
)
    requires
        0 <= i < range_len(f),
        frame_matches(a, f.source_range_index.0 + i, fr),
        rect_in_layers(a, preset, frame_at(a, f, i)),
        layers_present(a, preset),
        0 <= x < frame_at(a, f, i).width,
        0 <= y < frame_at(a, f, i).height,
    ensures
        frame_pix(fr, preset, mirrored, x, y) == composited(
            a, f, preset, i,
            if mirrored { frame_at(a, f, i).width - 1 - x } else { x },
            y,
        ),
{
    let fi = frame_at(a, f, i);
    let sx = if mirrored { fi.width - 1 - x } else { x };
    assert(0 <= sx < fi.width);
    assert(fr.width == fi.width);
    match preset {
        Preset::normal => {
            let l = a.diffuse->0;
            let sub = fr.diffuse->0;
            assert(crop_start(fi.tex_x as int, l.width as int) == fi.tex_x);
            assert(sub.pix(sx, y) == l.pix(fi.tex_x + sx, fi.tex_y + y));
        },
        Preset::mask => {
            let l = a.diffuse->0;
            let sub = fr.diffuse->0;
            assert(crop_start(fi.tex_x as int, l.width as int) == fi.tex_x);
            assert(sub.pix(sx, y) == l.pix(fi.tex_x + sx, fi.tex_y + y));
            let m = a.teamcolor->0;
            let msub = fr.teamcolor->0;
            assert(crop_start(fi.tex_x as int, m.width as int) == fi.tex_x);
            assert(msub.pix(sx, y) == m.pix(fi.tex_x + sx, fi.tex_y + y));
        },
        Preset::light => {
            let e = a.emissive->0;
            let esub = fr.emissive->0;
            assert(crop_start(fi.tex_x as int, e.width as int) == fi.tex_x);
            assert(esub.pix(sx, y) == e.pix(fi.tex_x + sx, fi.tex_y + y));
        },
    }
}

/// The halved-resolution cell width (integer floor).
pub open spec fn sd_cell_w(hd: FactorioSprites) -> int {
    hd.width as int / 2
}

/// The halved-resolution cell height (integer floor).
pub open spec fn sd_cell_h(hd: FactorioSprites) -> int {
    hd.height as int / 2
}

/// Columns per image at the halved-resolution tier (atlas bound 2048).
pub open spec fn sd_col_count(hd: FactorioSprites) -> int {
    max2(1, 2048int / sd_cell_w(hd))
}

/// Rows per image at the halved-resolution tier.
pub open spec fn sd_row_count(hd: FactorioSprites) -> int {
    max2(1, 2048int / sd_cell_h(hd))
}

/// Cells per image at the halved-resolution tier.
pub open spec fn sd_frames_per_img(hd: FactorioSprites, f: SpriteFormat) -> int {
    if f.split_anim {
        f.animation_length as int
    } else {
        sd_col_count(hd) * sd_row_count(hd)
    }
}

/// How many images the halved-resolution set holds.
pub open spec fn sd_image_count(hd: FactorioSprites, f: SpriteFormat) -> int {
    (padded_cells(f) + sd_frames_per_img(hd, f) - 1) / sd_frames_per_img(hd, f)
}

/// The RGBA bytes of full-resolution cell `idx`, read from its image, row
/// and column in the full-resolution tiling.
pub open spec fn hd_cell_bytes(hd: FactorioSprites, idx: int) -> Seq<u8> {
    let w = hd.width as int;
    let h = hd.height as int;
    let img = hd.images@[idx / (hd.lines_per_file * hd.slice)];
    let row = (idx / hd.slice as int) % hd.lines_per_file as int;
    let col = idx % hd.slice as int;
    Seq::new((4 * w * h) as nat, |b: int| {
        let p = img.pix(col * w + (b / 4) % w, row * h + (b / 4) / w);
        let chan = b % 4;
        if chan == 0 {
            p.r
        } else if chan == 1 {
            p.g
        } else if chan == 2 {
            p.b
        } else {
            p.a
        }
    })
}

/// The pixel at (`x`, `y`) of halved-resolution image `k`, considering only
/// the cells below `bound`: the coordinate's grid cell holds a populated
/// slot exactly when its linear index is below the populated-cell count;
/// the cell then shows the Lanczos-resampled full-resolution cell, else it
/// is fully transparent.
pub open spec fn sd_pixel_upto(
    hd: FactorioSprites,
    f: SpriteFormat,
    k: int,
    x: int,
    y: int,
    bound: int,
) -> Pix {
    let sw = sd_cell_w(hd);
    let sh = sd_cell_h(hd);
    let cc = sd_col_count(hd);
    let rc = sd_row_count(hd);
    let col = x / sw;
    let row = y / sh;
    let idx = k * (cc * rc) + row * cc + col;
    if 0 <= idx < bound {
        let rb = lanczos_rgba_of(
            hd_cell_bytes(hd, idx),
            hd.width as u32,
            hd.height as u32,
            sw as u32,
            sh as u32,
        );
        let b = 4 * ((y - row * sh) * sw + (x - col * sw));
        Pix { r: rb[b], g: rb[b + 1], b: rb[b + 2], a: rb[b + 3] }
    } else {
        Pix::transparent()
    }
}

/// The pixel at (`x`, `y`) of halved-resolution image `k`.
pub open spec fn sd_pixel(hd: FactorioSprites, f: SpriteFormat, k: int, x: int, y: int) -> Pix {
    sd_pixel_upto(hd, f, k, x, y, padded_cells(f))
}

/// What downscaling requires of its inputs: a well-formed full-resolution
/// set whose tiling covers every populated cell, cells at least 2 pixels in
/// each dimension (so the halved cell is non-empty), and the numeric bounds
/// that keep the arithmetic exact.
pub open spec fn sd_wf(hd: FactorioSprites, f: SpriteFormat) -> bool {
    &&& 2 <= hd.width <= 0x340000
    &&& 2 <= hd.height <= 0x340000
    &&& 1 <= hd.slice
    &&& 1 <= hd.lines_per_file
    &&& hd.slice * hd.width <= 0x40000000
    &&& hd.lines_per_file * hd.height <= 0x40000000
    &&& hd.lines_per_file * hd.slice <= 0x40000000
    &&& forall|k: int| 0 <= k < hd.images@.len() ==> {
        &&& (#[trigger] hd.images@[k]).wf()
        &&& hd.images@[k].width == hd.slice * hd.width
        &&& hd.images@[k].height == hd.lines_per_file * hd.height
    }
    &&& 1 <= f.animation_length
    &&& 1 <= f.direction_count
    &&& 0 <= f.empty_pad
    &&& padded_cells(f) <= 0x40000000
    &&& padded_cells(f) <= hd.images@.len() * (hd.lines_per_file * hd.slice)
    &&& (f.split_anim ==> f.animation_length <= sd_col_count(hd) * sd_row_count(hd))
    &&& 4 * (sd_col_count(hd) * sd_cell_w(hd)) * (sd_row_count(hd) * sd_cell_h(hd))
        <= usize::MAX
}

/// `out` is the halved-resolution atlas set derived from `hd`: halved cell
/// size, its own tiling against the smaller atlas bound, and every pixel as
/// [`sd_pixel`] gives it.
pub open spec fn sd_packs_to(hd: FactorioSprites, f: SpriteFormat, out: FactorioSprites) -> bool {
    &&& out.width == sd_cell_w(hd)
    &&& out.height == sd_cell_h(hd)
    &&& out.slice == sd_col_count(hd)
    &&& out.lines_per_file == sd_row_count(hd)
    &&& out.images@.len() == sd_image_count(hd, f)
    &&& forall|k: int| 0 <= k < out.images@.len() ==> {
        &&& (#[trigger] out.images@[k]).wf()
        &&& out.images@[k].width == sd_col_count(hd) * sd_cell_w(hd)
        &&& out.images@[k].height == sd_row_count(hd) * sd_cell_h(hd)
    }
    &&& forall|k: int, x: int, y: int|
        0 <= k < out.images@.len() && 0 <= x < out.images@[k].width
            && 0 <= y < out.images@[k].height
            ==> (#[trigger] out.images@[k].pix(x, y)) == sd_pixel(hd, f, k, x, y)
}

/// Derive the halved-resolution atlas set: crop every populated
/// full-resolution cell, resample it to the halved cell size, and place it
/// at the same linear index in the halved tiling.
#[allow(non_snake_case)]
pub fn makeSpritesSd(hd_sprites: &FactorioSprites, format: &SpriteFormat) -> (r: FactorioSprites)
    requires
        sd_wf(*hd_sprites, *format),
    ensures
        sd_packs_to(*hd_sprites, *format, r),
{
    let al = format.animation_length;
    let dc = format.direction_count;
    let pad = format.empty_pad;
    let hdw = hd_sprites.width;
    let hdh = hd_sprites.height;
    let slice = hd_sprites.slice;
    let lpf = hd_sprites.lines_per_file;
    let sdw = hdw / 2;
    let sdh = hdh / 2;
    proof {
        lemma_div_nonneg_le(hdw as int, 2);
        lemma_div_nonneg_le(hdh as int, 2);
        assert(1 <= sdw && 1 <= sdh);
    }
    let cc = {
        let q = 2048 / sdw;
        if q >= 1 {
            q
        } else {
            1
        }
    };
    let rc = {
        let q = 2048 / sdh;
        if q >= 1 {
            q
        } else {
            1
        }
    };
    proof {
        lemma_div_nonneg_le(2048int, sdw as int);
        lemma_div_nonneg_le(2048int, sdh as int);
        assert(cc == sd_col_count(*hd_sprites));
        assert(rc == sd_row_count(*hd_sprites));
        lemma_tile_bound(sdw as int, cc as int, 2048);
        lemma_tile_bound(sdh as int, rc as int, 2048);
        assert(cc * sdw <= 0x340000 && rc * sdh <= 0x340000);
        assert(1 <= cc * rc && cc * rc <= 2048 * 2048) by (nonlinear_arith)
            requires 1 <= cc <= 2048, 1 <= rc <= 2048;
    }
    let fpi = if format.split_anim {
        al
    } else {
        cc * rc
    };
    let total = dc * al + pad;
    let img_cnt = (total + fpi - 1) / fpi;
    proof {
        assert(al <= dc * al) by (nonlinear_arith)
            requires 1 <= dc, 1 <= al;
        lemma_div_nonneg_le((total + fpi - 1) as int, fpi as int);
        assert(img_cnt == sd_image_count(*hd_sprites, *format));
        assert(total <= img_cnt * fpi) by (nonlinear_arith)
            requires
                total + fpi - 1 == fpi * img_cnt + ((total + fpi - 1) as int) % (fpi as int),
                0 <= ((total + fpi - 1) as int) % (fpi as int) < fpi;
        // Every populated cell lands inside an allocated image.
        assert(total <= img_cnt * (cc * rc)) by (nonlinear_arith)
            requires total <= img_cnt * fpi, fpi <= cc * rc, 0 <= img_cnt;
    }
    let img_w = cc * sdw;
    let img_h = rc * sdh;

    let imgs = img_cnt as usize;
    let mut output: Vec<Image> = Vec::new();
    let mut k: usize = 0;
    while k < imgs
        invariant
            imgs == sd_image_count(*hd_sprites, *format),
            img_w == sd_col_count(*hd_sprites) * sd_cell_w(*hd_sprites),
            img_h == sd_row_count(*hd_sprites) * sd_cell_h(*hd_sprites),
            0 <= img_w,
            0 <= img_h,
            4 * img_w * img_h <= usize::MAX,
            k <= imgs,
            output@.len() == k,
            forall|j: int| 0 <= j < k ==> {
                &&& (#[trigger] output@[j]).wf()
                &&& output@[j].width == img_w
                &&& output@[j].height == img_h
            },
            forall|j: int, x: int, y: int|
                0 <= j < k && 0 <= x < img_w && 0 <= y < img_h
                    ==> (#[trigger] output@[j].pix(x, y)) == Pix::transparent(),
        decreases imgs - k,
    {
        output.push(Image::new(img_w as u32, img_h as u32));
        k = k + 1;
    }

    let n_images = hd_sprites.images.len();
    let mut idx: i32 = 0;
    while idx < total
        invariant
            sd_wf(*hd_sprites, *format),
            al == format.animation_length,
            dc == format.direction_count,
            pad == format.empty_pad,
            hdw == hd_sprites.width,
            hdh == hd_sprites.height,
            slice == hd_sprites.slice,
            lpf == hd_sprites.lines_per_file,
            sdw == sd_cell_w(*hd_sprites),
            sdh == sd_cell_h(*hd_sprites),
            1 <= sdw,
            1 <= sdh,
            cc == sd_col_count(*hd_sprites),
            rc == sd_row_count(*hd_sprites),
            1 <= cc <= 2048,
            1 <= rc <= 2048,
            total == padded_cells(*format),
            total <= img_cnt * (cc * rc),
            imgs == img_cnt,
            imgs == sd_image_count(*hd_sprites, *format),
            img_w == cc * sdw,
            img_h == rc * sdh,
            n_images == hd_sprites.images@.len(),
            0 <= idx <= total,
            output@.len() == imgs,
            forall|j: int| 0 <= j < imgs ==> {
                &&& (#[trigger] output@[j]).wf()
                &&& output@[j].width == img_w
                &&& output@[j].height == img_h
            },
            forall|j: int, x: int, y: int|
                0 <= j < imgs && 0 <= x < img_w && 0 <= y < img_h
                    ==> (#[trigger] output@[j].pix(x, y)) == sd_pixel_upto(
                        *hd_sprites, *format, j, x, y, idx as int,
                    ),
        decreases total - idx,
    {
        proof {
            assert(1 <= lpf * slice && lpf * slice <= 0x40000000) by (nonlinear_arith)
                requires 1 <= lpf, 1 <= slice, lpf * slice <= 0x40000000;
            assert(idx < n_images * (lpf * slice));
        }
        let src_img = idx / (lpf * slice);
        let src_row = (idx / slice) % lpf;
        let src_col = idx % slice;
        proof {
            lemma_div_range(idx as int, (lpf * slice) as int, n_images as int);
            lemma_div_nonneg_le(idx as int, slice as int);
            vstd::arithmetic::div_mod::lemma_mod_bound((idx / slice) as int, lpf as int);
            vstd::arithmetic::div_mod::lemma_mod_bound(idx as int, slice as int);
            assert(0 <= src_col * hdw && src_col * hdw + hdw <= slice * hdw) by (nonlinear_arith)
                requires 0 <= src_col, src_col + 1 <= slice, 1 <= hdw;
            assert(0 <= src_row * hdh && src_row * hdh + hdh <= lpf * hdh) by (nonlinear_arith)
                requires 0 <= src_row, src_row + 1 <= lpf, 1 <= hdh;
        }
        let cell = hd_sprites.images[src_img as usize].crop(
            (src_col * hdw) as u32,
            (src_row * hdh) as u32,
            hdw as u32,
            hdh as u32,
        );
        proof {
            assert(cell.width == hdw && cell.height == hdh);
            lemma_image_bytes(cell);
            let w = hdw as int;
            let h = hdh as int;
            assert forall|b: int| 0 <= b < 4 * w * h
                implies image_bytes(cell)[b] == hd_cell_bytes(*hd_sprites, idx as int)[b] by {
                vstd::arithmetic::div_mod::lemma_fundamental_div_mod(b, 4);
                vstd::arithmetic::div_mod::lemma_mod_bound(b, 4);
                let pi = b / 4;
                assert(0 <= pi && pi < w * h) by (nonlinear_arith)
                    requires 0 <= b < 4 * w * h, b == 4 * pi + b % 4, 0 <= b % 4 < 4;
                vstd::arithmetic::div_mod::lemma_fundamental_div_mod(pi, w);
                vstd::arithmetic::div_mod::lemma_mod_bound(pi, w);
                assert(0 <= pi / w && pi / w < h) by (nonlinear_arith)
                    requires 0 <= pi < w * h, pi == w * (pi / w) + pi % w,
                        0 <= pi % w < w, 0 < w;
            }
            assert(cell.data@ =~= hd_cell_bytes(*hd_sprites, idx as int));
        }
        let resized = resize_lanczos(&cell, sdw as u32, sdh as u32);
        proof {
            assert(1 <= cc * rc && cc * rc <= 2048 * 2048) by (nonlinear_arith)
                requires 1 <= cc <= 2048, 1 <= rc <= 2048;
        }
        let out_img = idx / (cc * rc);
        let out_row = (idx / cc) % rc;
        let out_col = idx % cc;
        proof {
            assert(idx < img_cnt * (cc * rc));
            lemma_div_range(idx as int, (cc * rc) as int, img_cnt as int);
            lemma_div_nonneg_le(idx as int, cc as int);
            vstd::arithmetic::div_mod::lemma_fundamental_div_mod(
                (idx / cc) as int, rc as int,
            );
            vstd::arithmetic::div_mod::lemma_mod_bound((idx / cc) as int, rc as int);
            vstd::arithmetic::div_mod::lemma_mod_bound(idx as int, cc as int);
            assert(0 <= out_col * sdw && out_col * sdw + sdw <= cc * sdw) by (nonlinear_arith)
                requires 0 <= out_col, out_col + 1 <= cc, 1 <= sdw;
            assert(0 <= out_row * sdh && out_row * sdh + sdh <= rc * sdh) by (nonlinear_arith)
                requires 0 <= out_row, out_row + 1 <= rc, 1 <= sdh;
            // The linear index decomposes against the halved tiling.
            vstd::arithmetic::div_mod::lemma_div_denominator(idx as int, cc as int, rc as int);
            assert(idx == (cc * rc) * out_img + (out_row * cc + out_col)) by (nonlinear_arith)
                requires
                    idx == cc * (idx as int / cc as int) + out_col,
                    idx as int / cc as int == rc * ((idx as int / cc as int) / rc as int)
                        + out_row,
                    (idx as int / cc as int) / rc as int == out_img;
            assert(0 <= out_row * cc + out_col && out_row * cc + out_col < cc * rc)
                by (nonlinear_arith)
                requires 0 <= out_col, out_col + 1 <= cc, 0 <= out_row, out_row + 1 <= rc;
        }
        let ghost old_out = output@;
        Image::blit(
            &mut output[out_img as usize],
            &resized,
            (out_col * sdw) as u32,
            (out_row * sdh) as u32,
        );
        proof {
            let ghd = *hd_sprites;
            let gf = *format;
            let sw = sdw as int;
            let sh = sdh as int;
            let gcc = cc as int;
            let grc = rc as int;
            assert forall|j: int, x: int, y: int|
                0 <= j < imgs && 0 <= x < img_w && 0 <= y < img_h
                    implies (#[trigger] output@[j].pix(x, y)) == sd_pixel_upto(
                        ghd, gf, j, x, y, idx + 1,
                    ) by {
                lemma_div_range(x, sw, gcc);
                lemma_div_range(y, sh, grc);
                let col = x / sw;
                let row = y / sh;
                assert(0 <= row * gcc + col && row * gcc + col < gcc * grc)
                    by (nonlinear_arith)
                    requires 0 <= col, col + 1 <= gcc, 0 <= row, row + 1 <= grc;
                let g = j * (gcc * grc) + (row * gcc + col);
                assert(0 <= g) by (nonlinear_arith)
                    requires g == j * (gcc * grc) + (row * gcc + col), 0 <= j,
                        0 <= row * gcc + col, 1 <= gcc, 1 <= grc;
                if j == out_img as int && col == out_col as int && row == out_row as int {
                    assert(g == idx) by (nonlinear_arith)
                        requires
                            g == j * (gcc * grc) + (row * gcc + col),
                            idx == (gcc * grc) * out_img + (out_row * gcc + out_col),
                            j == out_img as int, col == out_col as int,
                            row == out_row as int;
                    let xx = x - out_col * sw;
                    let yy = y - out_row * sh;
                    assert(out_col * sw <= x < out_col * sw + sw) by (nonlinear_arith)
                        requires col == out_col as int, x == sw * col + x % sw,
                            0 <= x % sw < sw;
                    assert(out_row * sh <= y < out_row * sh + sh) by (nonlinear_arith)
                        requires row == out_row as int, y == sh * row + y % sh,
                            0 <= y % sh < sh;
                    assert(output@[j].pix(x, y) == resized.pix(xx, yy));
                    assert(resized.pix(xx, yy) == sd_pixel_upto(ghd, gf, j, x, y, idx + 1));
                } else {
                    // Untouched: the blit covers exactly cell
                    // (out_col, out_row) of image out_img.
                    if j != out_img as int {
                        assert(output@[j] == old_out[j]);
                    } else {
                        if out_col * sw <= x < out_col * sw + sw
                            && out_row * sh <= y < out_row * sh + sh {
                            lemma_fundamental_div_mod_converse(
                                x, sw, out_col as int, x - out_col * sw,
                            );
                            lemma_fundamental_div_mod_converse(
                                y, sh, out_row as int, y - out_row * sh,
                            );
                            assert(false);
                        }
                    }
                    assert(output@[j].pix(x, y) == old_out[j].pix(x, y));
                    if g == idx as int {
                        lemma_fundamental_div_mod_converse(
                            g, gcc * grc, j, row * gcc + col,
                        );
                        lemma_fundamental_div_mod_converse(
                            idx as int, gcc * grc, out_img as int,
                            out_row as int * gcc + out_col as int,
                        );
                        assert(j == out_img as int
                            && row * gcc + col == out_row * gcc + out_col);
                        lemma_fundamental_div_mod_converse(
                            row * gcc + col, gcc, row, col,
                        );
                        lemma_fundamental_div_mod_converse(
                            out_row as int * gcc + out_col as int, gcc,
                            out_row as int, out_col as int,
                        );
                        assert(col == out_col as int && row == out_row as int);
                        assert(false);
                    }
                }
            }
        }
        idx = idx + 1;
    }

    FactorioSprites {
        images: output,
        slice: cc,
        lines_per_file: rc,
        width: sdw,
        height: sdh,
    }
}

/// Round trip of the direction derivation: when the selection's range is an
/// exact multiple of the animation length, the derived source direction
/// count times the animation length reproduces the range length.
pub proof fn lemma_source_direction_round_trip(f: SpriteFormat)
    requires
        1 <= f.animation_length,
        0 <= range_len(f),
        range_len(f) % (f.animation_length as int) == 0,
    ensures
        src_dir_count(f) * (f.animation_length as int) == range_len(f),
{
    vstd::arithmetic::div_mod::lemma_fundamental_div_mod(
        range_len(f), f.animation_length as int,
    );
    assert(src_dir_count(f) * (f.animation_length as int)
        == (f.animation_length as int) * src_dir_count(f)) by (nonlinear_arith);
}

/// Where slot (`k`, `t`) lands: its image, and the top-left corner of its
/// frame rectangle inside that image.
pub open spec fn slot_img(a: Anim, f: SpriteFormat, base: (i32, i32), k: int, t: int) -> int {
    slot_of(f, k, t) / frames_per_img(a, f, base)
}

pub open spec fn slot_x0(a: Anim, f: SpriteFormat, base: (i32, i32), k: int, t: int) -> int {
    (slot_of(f, k, t) % frames_per_img(a, f, base)) % col_count(a, f, base) * cell_w(a, f, base)
        + dest_off_x(a, f, base, k, t)
}

pub open spec fn slot_y0(a: Anim, f: SpriteFormat, base: (i32, i32), k: int, t: int) -> int {
    (slot_of(f, k, t) % frames_per_img(a, f, base)) / col_count(a, f, base) * cell_h(a, f, base)
        + dest_off_y(a, f, base, k, t)
}


/// Every resolved direction value lies on the doubled half-circle, and its
/// effective (reflected) direction lies inside the stored half-circle.
proof fn lemma_used_dir_bounds(
    a: Anim,
    f: SpriteFormat,
    base: (i32, i32),
    preset: Preset,
    k: int,
)
    requires
        pack_wf(a, f, base, preset),
        0 <= k < f.direction_count,
    ensures
        0 <= used_dir(f, k) <= 2 * (src_dir_count(f) - 1),
        0 <= eff_dir(f, k) < src_dir_count(f),
{
    match f.used_directions {
        Some(v) => {},
        None => {
            let dc = f.direction_count as int;
            let step = dir_step(f);
            lemma_div_nonneg_le(2 * (src_dir_count(f) - 1), dc);
            assert(dc * step <= 2 * (src_dir_count(f) - 1));
            assert(0 <= k * step && k * step <= dc * step) by (nonlinear_arith)
                requires 0 <= step, 0 <= k, k <= dc;
        },
    }
}

/// What the atlas shows inside slot (`k`, `t`)'s frame rectangle: the
/// preset's composited pixel of the sampled source frame, read left-right
/// flipped when the direction is a mirrored sample; a pixel the preset
/// skips stays fully transparent.
pub proof fn lemma_atlas_slot_pixel(
    a: Anim,
    f: SpriteFormat,
    base: (i32, i32),
    preset: Preset,
    k: int,
    t: int,
    x: int,
    y: int,
)
    requires
        pack_wf(a, f, base, preset),
        0 <= k < f.direction_count,
        0 <= t < f.animation_length,
        0 <= x < frame_at(a, f, src_rel_frame(f, k, t)).width,
        0 <= y < frame_at(a, f, src_rel_frame(f, k, t)).height,
    ensures
        atlas_pixel(
            a, f, base, preset, slot_img(a, f, base, k, t),
            slot_x0(a, f, base, k, t) + x, slot_y0(a, f, base, k, t) + y,
        ) == match composited(
            a, f, preset, src_rel_frame(f, k, t),
            if is_mirrored(f, k) {
                frame_at(a, f, src_rel_frame(f, k, t)).width - 1 - x
            } else {
                x
            },
            y,
        ) {
            Some(p) => p,
            None => Pix::transparent(),
        },
{
    let al = f.animation_length as int;
    let dc = f.direction_count as int;
    let pad = f.empty_pad as int;
    let cw = cell_w(a, f, base);
    let ch = cell_h(a, f, base);
    let cc = col_count(a, f, base);
    let rcn = row_count(a, f, base);
    let fpi = frames_per_img(a, f, base);
    let s = slot_of(f, k, t);
    let i = src_rel_frame(f, k, t);
    let fi = frame_at(a, f, i);
    lemma_tile_bound(cw, cc, 4096);
    lemma_tile_bound(ch, rcn, 4096);
    assert(1 <= fpi && fpi <= cc * rcn) by (nonlinear_arith)
        requires fpi == al || fpi == cc * rcn, 1 <= al, 1 <= cc, 1 <= rcn,
            al <= cc * rcn || fpi == cc * rcn;
    assert(0 <= k * al && k * al + t < dc * al) by (nonlinear_arith)
        requires 0 <= k, k + 1 <= dc, 0 <= t, t < al;
    assert(pad <= s < padded_cells(f));
    let ki = s / fpi;
    let pos = s % fpi;
    vstd::arithmetic::div_mod::lemma_fundamental_div_mod(s, fpi);
    vstd::arithmetic::div_mod::lemma_mod_bound(s, fpi);
    let row = pos / cc;
    let col = pos % cc;
    vstd::arithmetic::div_mod::lemma_fundamental_div_mod(pos, cc);
    vstd::arithmetic::div_mod::lemma_mod_bound(pos, cc);
    assert(0 <= row && row < rcn) by (nonlinear_arith)
        requires 0 <= pos < fpi, fpi <= cc * rcn, pos == cc * row + col, 0 <= col < cc,
            1 <= cc;
    // The frame rectangle lies inside cell (col, row).
    lemma_used_dir_bounds(a, f, base, preset, k);
    assert(0 <= t * src_dir_count(f) && i < al * src_dir_count(f)) by (nonlinear_arith)
        requires 0 <= t, t + 1 <= al, 0 <= eff_dir(f, k),
            eff_dir(f, k) < src_dir_count(f), 1 <= src_dir_count(f),
            i == t * src_dir_count(f) + eff_dir(f, k);
    vstd::arithmetic::div_mod::lemma_fundamental_div_mod(range_len(f), al);
    assert(al * src_dir_count(f) == range_len(f));
    lemma_cell_prefix_ge(a, f, base, i, range_len(f));
    let c = center_x(a, f, base, i);
    let cy = center_y(a, f, base, i);
    let offx = dest_off_x(a, f, base, k, t);
    let offy = dest_off_y(a, f, base, k, t);
    lemma_div_nonneg_le(cw - c, 2);
    lemma_div_nonneg_le(cw - 2 * fi.width + c, 2);
    lemma_div_nonneg_le(ch - cy, 2);
    assert(0 <= offx && offx + fi.width <= cw);
    assert(0 <= offy && offy + fi.height <= ch);
    let gx = slot_x0(a, f, base, k, t) + x;
    let gy = slot_y0(a, f, base, k, t) + y;
    assert(col * cw <= gx < col * cw + cw) by (nonlinear_arith)
        requires gx == col * cw + offx + x, 0 <= offx, 0 <= x,
            offx + fi.width <= cw, x < fi.width;
    assert(row * ch <= gy < row * ch + ch) by (nonlinear_arith)
        requires gy == row * ch + offy + y, 0 <= offy, 0 <= y,
            offy + fi.height <= ch, y < fi.height;
    lemma_fundamental_div_mod_converse(gx, cw, col, gx - col * cw);
    lemma_fundamental_div_mod_converse(gy, ch, row, gy - row * ch);
    assert(gx / cw == col && gy / ch == row);
    assert(gy / ch * cc + gx / cw == pos) by (nonlinear_arith)
        requires gx / cw == col, gy / ch == row, pos == cc * row + col;
    assert(ki * fpi + pos == s) by (nonlinear_arith)
        requires s == fpi * ki + pos;
    lemma_fundamental_div_mod_converse(s - pad, al, k, t);
}

/// Mirror symmetry: a direction rank whose `used_directions` value `v` lies
/// past the stored half-circle shows, at each in-frame coordinate, the
/// horizontally flipped pixel of source direction `2*(sdc-1) - v`.
pub proof fn lemma_mirror_symmetry(
    a: Anim,
    f: SpriteFormat,
    base: (i32, i32),
    preset: Preset,
    k: int,
    t: int,
    x: int,
    y: int,
)
    requires
        pack_wf(a, f, base, preset),
        0 <= k < f.direction_count,
        0 <= t < f.animation_length,
        used_dir(f, k) >= src_dir_count(f),
        0 <= x < frame_at(a, f, src_rel_frame(f, k, t)).width,
        0 <= y < frame_at(a, f, src_rel_frame(f, k, t)).height,
    ensures
        src_rel_frame(f, k, t) == t * src_dir_count(f)
            + (2 * (src_dir_count(f) - 1) - used_dir(f, k)),
        atlas_pixel(
            a, f, base, preset, slot_img(a, f, base, k, t),
            slot_x0(a, f, base, k, t) + x, slot_y0(a, f, base, k, t) + y,
        ) == match composited(
            a, f, preset, src_rel_frame(f, k, t),
            frame_at(a, f, src_rel_frame(f, k, t)).width - 1 - x, y,
        ) {
            Some(p) => p,
            None => Pix::transparent(),
        },
{
    lemma_atlas_slot_pixel(a, f, base, preset, k, t, x, y);
}

/// Tiling coverage, first half: the grid of one image holds at least
/// `min(cells_per_image, populated cells)` cells.
pub proof fn lemma_tiling_coverage(a: Anim, f: SpriteFormat, base: (i32, i32), preset: Preset)
    requires
        pack_wf(a, f, base, preset),
    ensures
        col_count(a, f, base) * row_count(a, f, base) >= if frames_per_img(a, f, base)
            <= padded_cells(f) {
            frames_per_img(a, f, base)
        } else {
            padded_cells(f)
        },
{
    let cc = col_count(a, f, base);
    let rcn = row_count(a, f, base);
    lemma_tile_bound(cell_w(a, f, base), cc, 4096);
    lemma_tile_bound(cell_h(a, f, base), rcn, 4096);
    assert(frames_per_img(a, f, base) <= cc * rcn);
}

/// Tiling coverage, second half: two distinct populated slots never share a
/// destination rectangle — they land on different images or on different
/// grid cells, and their frame rectangles are disjoint.
pub proof fn lemma_slot_rects_disjoint(
    a: Anim,
    f: SpriteFormat,
    base: (i32, i32),
    preset: Preset,
    k1: int,
    t1: int,
    k2: int,
    t2: int,
)
    requires
        pack_wf(a, f, base, preset),
        0 <= k1 < f.direction_count,
        0 <= t1 < f.animation_length,
        0 <= k2 < f.direction_count,
        0 <= t2 < f.animation_length,
        !(k1 == k2 && t1 == t2),
    ensures
        slot_of(f, k1, t1) != slot_of(f, k2, t2),
        slot_img(a, f, base, k1, t1) != slot_img(a, f, base, k2, t2)
            || slot_x0(a, f, base, k1, t1) + frame_at(a, f, src_rel_frame(f, k1, t1)).width
                <= slot_x0(a, f, base, k2, t2)
            || slot_x0(a, f, base, k2, t2) + frame_at(a, f, src_rel_frame(f, k2, t2)).width
                <= slot_x0(a, f, base, k1, t1)
            || slot_y0(a, f, base, k1, t1) + frame_at(a, f, src_rel_frame(f, k1, t1)).height
                <= slot_y0(a, f, base, k2, t2)
            || slot_y0(a, f, base, k2, t2) + frame_at(a, f, src_rel_frame(f, k2, t2)).height
                <= slot_y0(a, f, base, k1, t1),
{
    let al = f.animation_length as int;
    let pad = f.empty_pad as int;
    let s1 = slot_of(f, k1, t1);
    let s2 = slot_of(f, k2, t2);
    lemma_fundamental_div_mod_converse(s1 - pad, al, k1, t1);
    lemma_fundamental_div_mod_converse(s2 - pad, al, k2, t2);
    assert(s1 != s2);
    if slot_img(a, f, base, k1, t1) == slot_img(a, f, base, k2, t2) {
        let cw = cell_w(a, f, base);
        let ch = cell_h(a, f, base);
        let cc = col_count(a, f, base);
        let rcn = row_count(a, f, base);
        let fpi = frames_per_img(a, f, base);
        lemma_tile_bound(cw, cc, 4096);
        lemma_tile_bound(ch, rcn, 4096);
        assert(1 <= fpi) by (nonlinear_arith)
            requires fpi == al || fpi == cc * rcn, 1 <= al, 1 <= cc, 1 <= rcn;
        vstd::arithmetic::div_mod::lemma_fundamental_div_mod(s1, fpi);
        vstd::arithmetic::div_mod::lemma_mod_bound(s1, fpi);
        vstd::arithmetic::div_mod::lemma_fundamental_div_mod(s2, fpi);
        vstd::arithmetic::div_mod::lemma_mod_bound(s2, fpi);
        let p1 = s1 % fpi;
        let p2 = s2 % fpi;
        assert(p1 != p2) by (nonlinear_arith)
            requires s1 != s2, s1 == fpi * (s1 / fpi) + p1, s2 == fpi * (s2 / fpi) + p2,
                s1 / fpi == s2 / fpi;
        vstd::arithmetic::div_mod::lemma_fundamental_div_mod(p1, cc);
        vstd::arithmetic::div_mod::lemma_mod_bound(p1, cc);
        vstd::arithmetic::div_mod::lemma_fundamental_div_mod(p2, cc);
        vstd::arithmetic::div_mod::lemma_mod_bound(p2, cc);
        assert(p1 / cc != p2 / cc || p1 % cc != p2 % cc);
        let i1 = src_rel_frame(f, k1, t1);
        let i2 = src_rel_frame(f, k2, t2);
        lemma_used_dir_bounds(a, f, base, preset, k1);
        lemma_used_dir_bounds(a, f, base, preset, k2);
        assert(0 <= i1 && 0 <= i2 && i1 < al * src_dir_count(f) && i2 < al * src_dir_count(f))
            by (nonlinear_arith)
            requires 0 <= t1, t1 + 1 <= al, 0 <= t2, t2 + 1 <= al,
                0 <= eff_dir(f, k1), eff_dir(f, k1) < src_dir_count(f),
                0 <= eff_dir(f, k2), eff_dir(f, k2) < src_dir_count(f),
                1 <= src_dir_count(f),
                i1 == t1 * src_dir_count(f) + eff_dir(f, k1),
                i2 == t2 * src_dir_count(f) + eff_dir(f, k2);
        vstd::arithmetic::div_mod::lemma_fundamental_div_mod(range_len(f), al);
        assert(al * src_dir_count(f) == range_len(f));
        lemma_cell_prefix_ge(a, f, base, i1, range_len(f));
        lemma_cell_prefix_ge(a, f, base, i2, range_len(f));
        lemma_div_nonneg_le(cw - center_x(a, f, base, i1), 2);
        lemma_div_nonneg_le(cw - 2 * frame_at(a, f, i1).width + center_x(a, f, base, i1), 2);
        lemma_div_nonneg_le(ch - center_y(a, f, base, i1), 2);
        lemma_div_nonneg_le(cw - center_x(a, f, base, i2), 2);
        lemma_div_nonneg_le(cw - 2 * frame_at(a, f, i2).width + center_x(a, f, base, i2), 2);
        lemma_div_nonneg_le(ch - center_y(a, f, base, i2), 2);
        if p1 % cc != p2 % cc {
            assert(p1 % cc * cw + cw <= p2 % cc * cw || p2 % cc * cw + cw <= p1 % cc * cw)
                by (nonlinear_arith)
                requires p1 % cc != p2 % cc, 0 <= p1 % cc, 0 <= p2 % cc, 1 <= cw;
        } else {
            assert(p1 / cc * ch + ch <= p2 / cc * ch || p2 / cc * ch + ch <= p1 / cc * ch)
                by (nonlinear_arith)
                requires p1 / cc != p2 / cc, 0 <= ch, 1 <= ch;
        }
    }
}

/// Transparency of the padding and of the unpopulated tail: a coordinate
/// whose grid cell holds no populated slot is fully transparent, on every
/// image of the atlas.
pub proof fn lemma_padding_transparent(
    a: Anim,
    f: SpriteFormat,
    base: (i32, i32),
    preset: Preset,
    k: int,
    x: int,
    y: int,
)
    requires
        pack_wf(a, f, base, preset),
        0 <= k,
        0 <= x,
        0 <= y,
        k * frames_per_img(a, f, base) + y / cell_h(a, f, base) * col_count(a, f, base)
            + x / cell_w(a, f, base) >= padded_cells(f),
    ensures
        atlas_pixel(a, f, base, preset, k, x, y) == Pix::transparent(),
{
}

/// Mask preset, counted: inside one frame, the set of coordinates the mask
/// preset writes is exactly the set of coordinates whose team-color pixel
/// has a positive red channel — so the two counts are equal.
pub proof fn lemma_mask_written_count(a: Anim, f: SpriteFormat, i: int)
    ensures
        ({
            let fi = frame_at(a, f, i);
            let written = Set::new(|q: (int, int)|
                0 <= q.0 < fi.width && 0 <= q.1 < fi.height
                    && composited(a, f, Preset::mask, i, q.0, q.1) is Some);
            let red = Set::new(|q: (int, int)|
                0 <= q.0 < fi.width && 0 <= q.1 < fi.height
                    && a.teamcolor->0.pix(fi.tex_x + q.0, fi.tex_y + q.1).r > 0);
            written =~= red && written.len() == red.len()
        }),
{
    let fi = frame_at(a, f, i);
    let written = Set::new(|q: (int, int)|
        0 <= q.0 < fi.width && 0 <= q.1 < fi.height
            && composited(a, f, Preset::mask, i, q.0, q.1) is Some);
    let red = Set::new(|q: (int, int)|
        0 <= q.0 < fi.width && 0 <= q.1 < fi.height
            && a.teamcolor->0.pix(fi.tex_x + q.0, fi.tex_y + q.1).r > 0);
    assert(written =~= red);
}

/// Downscale dimension law: the derived set's cell size is exactly half the
/// full-resolution cell size in each dimension, rounded down.
pub proof fn lemma_downscale_dims(hd: FactorioSprites, f: SpriteFormat, out: FactorioSprites)
    requires
        sd_packs_to(hd, f, out),
    ensures
        out.width == hd.width as int / 2,
        out.height == hd.height as int / 2,
{
}

} // verus!
