//! Decoder for the layered sprite-animation container.
//!
//! A container is a single little-endian binary blob: a fixed header, a
//! table of 32-byte padded layer names, a second header block at the fixed
//! absolute offset `0x14c`, one info record per layer, the layers'
//! block-compressed texture streams back to back, and finally the frame
//! descriptor table. [`Anim::fromFile`] reconstructs the in-memory model or
//! fails with [`AnimError::MalformedContainer`]; it never fails on a
//! well-formed container.

use vstd::prelude::*;
use vstd::slice::{slice_index_get, slice_subrange, slice_to_vec};
use crate::codec::{decode_dds, dds_rgba_of};
use crate::img::{crop_len, crop_start, Image};

verus! {

/// The four magic bytes every container starts with.
pub const ANIM_MAGIC: u32 = 0x4d494e41;

/// Decoding failure: the container bytes do not form a well-formed
/// container, or a layer's texture stream does not decode.
#[derive(Clone, Copy, Debug, PartialEq, Eq, Structural)]
pub enum AnimError {
    MalformedContainer,
}

/// The fixed vocabulary of layer names a container may carry.
#[derive(Clone, Copy, Debug, PartialEq, Eq, Structural)]
pub enum LayerKind {
    Diffuse,
    Bright,
    Teamcolor,
    Emissive,
    Normal,
    Specular,
    AoDepth,
}

/// The byte spelling of each known layer name.
pub open spec fn kind_name(k: LayerKind) -> Seq<u8> {
    match k {
        LayerKind::Diffuse => seq![100u8, 105u8, 102u8, 102u8, 117u8, 115u8, 101u8],
        LayerKind::Bright => seq![98u8, 114u8, 105u8, 103u8, 104u8, 116u8],
        LayerKind::Teamcolor => seq![116u8, 101u8, 97u8, 109u8, 99u8, 111u8, 108u8, 111u8, 114u8],
        LayerKind::Emissive => seq![101u8, 109u8, 105u8, 115u8, 115u8, 105u8, 118u8, 101u8],
        LayerKind::Normal => seq![110u8, 111u8, 114u8, 109u8, 97u8, 108u8],
        LayerKind::Specular => seq![115u8, 112u8, 101u8, 99u8, 117u8, 108u8, 97u8, 114u8],
        LayerKind::AoDepth => seq![97u8, 111u8, 95u8, 100u8, 101u8, 112u8, 116u8, 104u8],
    }
}

/// Which known layer a name denotes, if any.
pub open spec fn spec_classify(s: Seq<u8>) -> Option<LayerKind> {
    if s == kind_name(LayerKind::Diffuse) {
        Some(LayerKind::Diffuse)
    } else if s == kind_name(LayerKind::Bright) {
        Some(LayerKind::Bright)
    } else if s == kind_name(LayerKind::Teamcolor) {
        Some(LayerKind::Teamcolor)
    } else if s == kind_name(LayerKind::Emissive) {
        Some(LayerKind::Emissive)
    } else if s == kind_name(LayerKind::Normal) {
        Some(LayerKind::Normal)
    } else if s == kind_name(LayerKind::Specular) {
        Some(LayerKind::Specular)
    } else if s == kind_name(LayerKind::AoDepth) {
        Some(LayerKind::AoDepth)
    } else {
        None
    }
}

/// The little-endian unsigned 16-bit value at offset `p`.
pub open spec fn le16(s: Seq<u8>, p: int) -> int {
    s[p] + 256 * s[p + 1]
}

/// The little-endian unsigned 32-bit value at offset `p`.
pub open spec fn le32(s: Seq<u8>, p: int) -> int {
    s[p] + 256 * s[p + 1] + 65536 * s[p + 2] + 16777216 * s[p + 3]
}

/// The little-endian signed (two's-complement) 16-bit value at offset `p`.
pub open spec fn le16s(s: Seq<u8>, p: int) -> int {
    if le16(s, p) < 32768 {
        le16(s, p)
    } else {
        le16(s, p) - 65536
    }
}

/// A name field truncated at its first zero byte.
pub open spec fn trunc_at_zero(s: Seq<u8>) -> Seq<u8>
    decreases s.len(),
{
    if s.len() == 0 {
        s
    } else if s[0] == 0 {
        Seq::empty()
    } else {
        seq![s[0]] + trunc_at_zero(s.drop_first())
    }
}

/// If the first `e` bytes are non-zero and byte `e` (when it exists) is
/// zero, the truncated name is exactly the first `e` bytes.
proof fn lemma_trunc_at_zero(s: Seq<u8>, e: int)
    requires
        0 <= e <= s.len(),
        forall|j: int| 0 <= j < e ==> s[j] != 0,
        e == s.len() || s[e] == 0,
    ensures
        trunc_at_zero(s) == s.subrange(0, e),
    decreases s.len(),
{
    if s.len() == 0 {
        assert(s.subrange(0, e) =~= s);
    } else if s[0] == 0 {
        assert(e == 0);
        assert(s.subrange(0, 0) =~= Seq::<u8>::empty());
    } else {
        assert(e >= 1);
        let t = s.drop_first();
        assert(forall|j: int| 0 <= j < e - 1 ==> t[j] == s[j + 1] && t[j] != 0);
        lemma_trunc_at_zero(t, e - 1);
        assert(trunc_at_zero(s) =~= s.subrange(0, e));
    }
}

fn take_u16(d: &[u8], pos: usize) -> (r: u16)
    requires
        pos + 2 <= d@.len(),
    ensures
        r == le16(d@, pos as int),
{
    let n = d.len();
    let s = slice_subrange(d, pos, pos + 2);
    s[0] as u16 + s[1] as u16 * 256
}

fn take_u32(d: &[u8], pos: usize) -> (r: u32)
    requires
        pos + 4 <= d@.len(),
    ensures
        r == le32(d@, pos as int),
{
    let n = d.len();
    let s = slice_subrange(d, pos, pos + 4);
    s[0] as u32 + s[1] as u32 * 256 + s[2] as u32 * 65536 + s[3] as u32 * 16777216
}

fn take_i16(d: &[u8], pos: usize) -> (r: i16)
    requires
        pos + 2 <= d@.len(),
    ensures
        r == le16s(d@, pos as int),
{
    let v = take_u16(d, pos);
    if v >= 32768 {
        ((v as i32) - 65536) as i16
    } else {
        v as i16
    }
}

/// Classify a (already truncated) layer name.
fn classify_name(name: &[u8]) -> (r: Option<LayerKind>)
    ensures
        r == spec_classify(name@),
{
    let n = name.len();
    if n == 7 && name[0] == 100 && name[1] == 105 && name[2] == 102 && name[3] == 102
        && name[4] == 117 && name[5] == 115 && name[6] == 101 {
        proof { assert(name@ =~= kind_name(LayerKind::Diffuse)); }
        Some(LayerKind::Diffuse)
    } else if n == 6 && name[0] == 98 && name[1] == 114 && name[2] == 105 && name[3] == 103
        && name[4] == 104 && name[5] == 116 {
        proof { assert(name@ =~= kind_name(LayerKind::Bright)); }
        Some(LayerKind::Bright)
    } else if n == 9 && name[0] == 116 && name[1] == 101 && name[2] == 97 && name[3] == 109
        && name[4] == 99 && name[5] == 111 && name[6] == 108 && name[7] == 111
        && name[8] == 114 {
        proof { assert(name@ =~= kind_name(LayerKind::Teamcolor)); }
        Some(LayerKind::Teamcolor)
    } else if n == 8 && name[0] == 101 && name[1] == 109 && name[2] == 105 && name[3] == 115
        && name[4] == 115 && name[5] == 105 && name[6] == 118 && name[7] == 101 {
        proof { assert(name@ =~= kind_name(LayerKind::Emissive)); }
        Some(LayerKind::Emissive)
    } else if n == 6 && name[0] == 110 && name[1] == 111 && name[2] == 114 && name[3] == 109
        && name[4] == 97 && name[5] == 108 {
        proof { assert(name@ =~= kind_name(LayerKind::Normal)); }
        Some(LayerKind::Normal)
    } else if n == 8 && name[0] == 115 && name[1] == 112 && name[2] == 101 && name[3] == 99
        && name[4] == 117 && name[5] == 108 && name[6] == 97 && name[7] == 114 {
        proof { assert(name@ =~= kind_name(LayerKind::Specular)); }
        Some(LayerKind::Specular)
    } else if n == 8 && name[0] == 97 && name[1] == 111 && name[2] == 95 && name[3] == 100
        && name[4] == 101 && name[5] == 112 && name[6] == 116 && name[7] == 104 {
        proof { assert(name@ =~= kind_name(LayerKind::AoDepth)); }
        Some(LayerKind::AoDepth)
    } else {
        proof {
            assert(name@.len() == n);
            assert(name@ != kind_name(LayerKind::Diffuse)) by {
                if name@ == kind_name(LayerKind::Diffuse) {
                    assert(name@[0] == 100 && name@[1] == 105 && name@[2] == 102
                        && name@[3] == 102 && name@[4] == 117 && name@[5] == 115
                        && name@[6] == 101);
                }
            }
            assert(name@ != kind_name(LayerKind::Bright)) by {
                if name@ == kind_name(LayerKind::Bright) {
                    assert(name@[0] == 98 && name@[1] == 114 && name@[2] == 105
                        && name@[3] == 103 && name@[4] == 104 && name@[5] == 116);
                }
            }
            assert(name@ != kind_name(LayerKind::Teamcolor)) by {
                if name@ == kind_name(LayerKind::Teamcolor) {
                    assert(name@[0] == 116 && name@[1] == 101 && name@[2] == 97
                        && name@[3] == 109 && name@[4] == 99 && name@[5] == 111
                        && name@[6] == 108 && name@[7] == 111 && name@[8] == 114);
                }
            }
            assert(name@ != kind_name(LayerKind::Emissive)) by {
                if name@ == kind_name(LayerKind::Emissive) {
                    assert(name@[0] == 101 && name@[1] == 109 && name@[2] == 105
                        && name@[3] == 115 && name@[4] == 115 && name@[5] == 105
                        && name@[6] == 118 && name@[7] == 101);
                }
            }
            assert(name@ != kind_name(LayerKind::Normal)) by {
                if name@ == kind_name(LayerKind::Normal) {
                    assert(name@[0] == 110 && name@[1] == 111 && name@[2] == 114
                        && name@[3] == 109 && name@[4] == 97 && name@[5] == 108);
                }
            }
            assert(name@ != kind_name(LayerKind::Specular)) by {
                if name@ == kind_name(LayerKind::Specular) {
                    assert(name@[0] == 115 && name@[1] == 112 && name@[2] == 101
                        && name@[3] == 99 && name@[4] == 117 && name@[5] == 108
                        && name@[6] == 97 && name@[7] == 114);
                }
            }
            assert(name@ != kind_name(LayerKind::AoDepth)) by {
                if name@ == kind_name(LayerKind::AoDepth) {
                    assert(name@[0] == 97 && name@[1] == 111 && name@[2] == 95
                        && name@[3] == 100 && name@[4] == 101 && name@[5] == 112
                        && name@[6] == 116 && name@[7] == 104);
                }
            }
        }
        None
    }
}

/// One frame descriptor: a source rectangle in texture space, a signed
/// pivot offset, and one reserved field preserved verbatim.
#[derive(Clone, Copy, Debug, PartialEq, Eq, Structural)]
pub struct FrameInfo {
    pub tex_x: u16,
    pub tex_y: u16,
    pub x_off: i16,
    pub y_off: i16,
    pub width: u16,
    pub height: u16,
    pub unknown: u32,
}

/// One layer's info record, paired with its truncated name.
pub struct LayerInfo {
    name: Vec<u8>,
    offset: u32,
    size: u32,
    width: u16,
    height: u16,
}

/// A decoded container: up to seven named layer textures, the frame
/// descriptor table, and the canvas dimensions.
pub struct Anim {
    pub diffuse: Option<Image>,
    pub bright: Option<Image>,
    pub teamcolor: Option<Image>,
    pub emissive: Option<Image>,
    pub normal: Option<Image>,
    pub specular: Option<Image>,
    pub ao_depth: Option<Image>,
    pub frames: Vec<FrameInfo>,
    pub width: u16,
    pub height: u16,
}

/// One frame's cropped view: the doubled pivot, the frame size, and one
/// cropped sub-image per layer present in the container.
pub struct Frame {
    pub center_x2: (i32, i32),
    pub width: i32,
    pub height: i32,
    pub diffuse: Option<Image>,
    pub bright: Option<Image>,
    pub teamcolor: Option<Image>,
    pub emissive: Option<Image>,
    pub normal: Option<Image>,
    pub specular: Option<Image>,
    pub ao_depth: Option<Image>,
}

/// The layer count stored in the first header block.
pub open spec fn spec_layer_count(d: Seq<u8>) -> int {
    le16(d, 8)
}

/// Layer `i`'s name: 32 padded bytes truncated at the first zero.
pub open spec fn spec_name_field(d: Seq<u8>, i: int) -> Seq<u8> {
    trunc_at_zero(d.subrange(12 + 32 * i, 12 + 32 * i + 32))
}

/// The frame count stored in the second header block.
pub open spec fn spec_frame_count(d: Seq<u8>) -> int {
    le16(d, 0x14c)
}

pub open spec fn spec_canvas_width(d: Seq<u8>) -> int {
    le16(d, 0x150)
}

pub open spec fn spec_canvas_height(d: Seq<u8>) -> int {
    le16(d, 0x152)
}

/// The byte size of layer `i`'s texture stream, from its info record.
pub open spec fn spec_layer_size(d: Seq<u8>, i: int) -> int {
    le32(d, 0x158 + 12 * i + 4)
}

/// The sum of the first `n` layers' stream sizes.
pub open spec fn spec_size_sum(d: Seq<u8>, n: int) -> int
    decreases n,
{
    if n <= 0 {
        0
    } else {
        spec_size_sum(d, n - 1) + spec_layer_size(d, n - 1)
    }
}

/// Where layer `i`'s texture stream starts: the streams follow the info
/// records back to back.
pub open spec fn spec_layer_data_off(d: Seq<u8>, i: int) -> int {
    0x158 + 12 * spec_layer_count(d) + spec_size_sum(d, i)
}

/// Layer `i`'s texture stream.
pub open spec fn spec_layer_slice(d: Seq<u8>, i: int) -> Seq<u8> {
    d.subrange(spec_layer_data_off(d, i), spec_layer_data_off(d, i) + spec_layer_size(d, i))
}

/// Where the frame descriptor table starts: right after the last stream.
pub open spec fn spec_frames_off(d: Seq<u8>) -> int {
    spec_layer_data_off(d, spec_layer_count(d))
}

/// Frame `i` as stored in the 16-byte descriptor records.
pub open spec fn spec_frame(d: Seq<u8>, i: int) -> FrameInfo {
    let p = spec_frames_off(d) + 16 * i;
    FrameInfo {
        tex_x: le16(d, p) as u16,
        tex_y: le16(d, p + 2) as u16,
        x_off: le16s(d, p + 4) as i16,
        y_off: le16s(d, p + 6) as i16,
        width: le16(d, p + 8) as u16,
        height: le16(d, p + 10) as u16,
        unknown: le32(d, p + 12) as u32,
    }
}

/// Which of the first `n` layers supplies kind `k`'s texture: the last
/// layer with that name and a non-empty stream wins.
pub open spec fn spec_layer_slot(d: Seq<u8>, k: LayerKind, n: int) -> Option<int>
    decreases n,
{
    if n <= 0 {
        None
    } else if spec_name_field(d, n - 1) == kind_name(k) && spec_layer_size(d, n - 1) != 0 {
        Some(n - 1)
    } else {
        spec_layer_slot(d, k, n - 1)
    }
}

/// The container parses: every read lands inside the blob, the magic
/// matches, and every non-empty layer stream decodes.
pub open spec fn parse_ok(d: Seq<u8>) -> bool {
    &&& d.len() >= 12
    &&& le32(d, 0) == ANIM_MAGIC
    &&& d.len() >= 12 + 32 * spec_layer_count(d)
    &&& d.len() >= 0x158 + 12 * spec_layer_count(d)
    &&& d.len() >= spec_frames_off(d) + 16 * spec_frame_count(d)
    &&& forall|i: int|
        0 <= i < spec_layer_count(d) && spec_layer_size(d, i) != 0
            ==> (#[trigger] dds_rgba_of(spec_layer_slice(d, i))) is Some
}

/// `o` is kind `k`'s texture for the first `n` layers of `d`.
pub open spec fn matches_layer_upto(d: Seq<u8>, k: LayerKind, o: Option<Image>, n: int) -> bool {
    match spec_layer_slot(d, k, n) {
        None => o is None,
        Some(i) => match dds_rgba_of(spec_layer_slice(d, i)) {
            Some(t) => match o {
                Some(img) => img.wf() && img.width == t.0 && img.height == t.1
                    && img.data@ == t.2,
                None => false,
            },
            None => false,
        },
    }
}

/// `a` is the in-memory model of the container bytes `d`.
pub open spec fn decodes_to(d: Seq<u8>, a: Anim) -> bool {
    &&& a.width == spec_canvas_width(d)
    &&& a.height == spec_canvas_height(d)
    &&& a.frames@.len() == spec_frame_count(d)
    &&& forall|i: int| 0 <= i < spec_frame_count(d) ==> a.frames@[i] == spec_frame(d, i)
    &&& matches_layer_upto(d, LayerKind::Diffuse, a.diffuse, spec_layer_count(d))
    &&& matches_layer_upto(d, LayerKind::Bright, a.bright, spec_layer_count(d))
    &&& matches_layer_upto(d, LayerKind::Teamcolor, a.teamcolor, spec_layer_count(d))
    &&& matches_layer_upto(d, LayerKind::Emissive, a.emissive, spec_layer_count(d))
    &&& matches_layer_upto(d, LayerKind::Normal, a.normal, spec_layer_count(d))
    &&& matches_layer_upto(d, LayerKind::Specular, a.specular, spec_layer_count(d))
    &&& matches_layer_upto(d, LayerKind::AoDepth, a.ao_depth, spec_layer_count(d))
}

/// Prefix sums of layer sizes are monotone (sizes are non-negative).
proof fn lemma_size_sum_mono(d: Seq<u8>, i: int, j: int)
    requires
        0 <= i <= j,
    ensures
        spec_size_sum(d, i) <= spec_size_sum(d, j),
    decreases j,
{
    if i < j {
        lemma_size_sum_mono(d, i, j - 1);
    }
}

impl Anim {
    /// Every layer texture that is present is well-formed.
    pub open spec fn wf(self) -> bool {
        &&& (self.diffuse matches Some(l) ==> l.wf())
        &&& (self.bright matches Some(l) ==> l.wf())
        &&& (self.teamcolor matches Some(l) ==> l.wf())
        &&& (self.emissive matches Some(l) ==> l.wf())
        &&& (self.normal matches Some(l) ==> l.wf())
        &&& (self.specular matches Some(l) ==> l.wf())
        &&& (self.ao_depth matches Some(l) ==> l.wf())
    }
}

/// `sub` is the crop of `layer` (when present) at `fi`'s source rectangle,
/// clamped to the layer's bounds.
pub open spec fn is_frame_crop(layer: Option<Image>, sub: Option<Image>, fi: FrameInfo) -> bool {
    match layer {
        None => sub is None,
        Some(l) => match sub {
            None => false,
            Some(s) => {
                &&& s.wf()
                &&& s.width == crop_len(fi.tex_x as int, fi.width as int, l.width as int)
                &&& s.height == crop_len(fi.tex_y as int, fi.height as int, l.height as int)
                &&& forall|x: int, y: int|
                    0 <= x < s.width && 0 <= y < s.height
                        ==> s.pix(x, y) == l.pix(
                            crop_start(fi.tex_x as int, l.width as int) + x,
                            crop_start(fi.tex_y as int, l.height as int) + y,
                        )
            },
        },
    }
}

/// `f` is frame `idx` of `a`: the doubled pivot is derived from the canvas
/// size and the stored offset, and each present layer is cropped at the
/// frame's source rectangle.
pub open spec fn frame_matches(a: Anim, idx: int, f: Frame) -> bool {
    let fi = a.frames@[idx];
    &&& f.center_x2.0 == a.width - 2 * fi.x_off
    &&& f.center_x2.1 == a.height - 2 * fi.y_off
    &&& f.width == fi.width
    &&& f.height == fi.height
    &&& is_frame_crop(a.diffuse, f.diffuse, fi)
    &&& is_frame_crop(a.bright, f.bright, fi)
    &&& is_frame_crop(a.teamcolor, f.teamcolor, fi)
    &&& is_frame_crop(a.emissive, f.emissive, fi)
    &&& is_frame_crop(a.normal, f.normal, fi)
    &&& is_frame_crop(a.specular, f.specular, fi)
    &&& is_frame_crop(a.ao_depth, f.ao_depth, fi)
}

/// Crop one optional layer at a frame's source rectangle.
fn crop_layer(layer: &Option<Image>, fi: &FrameInfo) -> (r: Option<Image>)
    requires
        layer matches Some(l) ==> l.wf(),
    ensures
        is_frame_crop(*layer, r, *fi),
{
    match layer {
        Some(l) => Some(l.crop(fi.tex_x as u32, fi.tex_y as u32, fi.width as u32, fi.height as u32)),
        None => None,
    }
}

impl Anim {
    /// Decode a container from its raw bytes.
    ///
    /// Succeeds exactly on the containers [`parse_ok`] accepts, and the
    /// result is then the model [`decodes_to`] describes.
    #[allow(non_snake_case)]
    pub fn fromFile(data: &[u8]) -> (r: Result<Anim, AnimError>)
        ensures
            r is Ok <==> parse_ok(data@),
            r matches Ok(a) ==> decodes_to(data@, a) && a.wf(),
    {
        let n = data.len();
        if n < 12 {
            return Err(AnimError::MalformedContainer);
        }
        let magic = take_u32(data, 0);
        if magic != ANIM_MAGIC {
            return Err(AnimError::MalformedContainer);
        }
        let layer_count = take_u16(data, 8) as usize;
        if n < 12 + 32 * layer_count {
            return Err(AnimError::MalformedContainer);
        }
        if n < 0x158 + 12 * layer_count {
            return Err(AnimError::MalformedContainer);
        }
        let frame_count = take_u16(data, 0x14c) as usize;
        let width = take_u16(data, 0x150);
        let height = take_u16(data, 0x152);

        let ghost d = data@;

        // Read the layer info records and their names.
        let mut layer_infos: Vec<LayerInfo> = Vec::new();
        let mut i: usize = 0;
        while i < layer_count
            invariant
                i <= layer_count,
                layer_count == spec_layer_count(d),
                d == data@,
                n == d.len(),
                n >= 12 + 32 * layer_count,
                n >= 0x158 + 12 * layer_count,
                layer_infos@.len() == i,
                forall|j: int| 0 <= j < i ==> (#[trigger] layer_infos@[j].name)@
                    == spec_name_field(d, j),
                forall|j: int| 0 <= j < i ==> (#[trigger] layer_infos@[j].size)
                    == spec_layer_size(d, j),
            decreases layer_count - i,
        {
            let name_start = 12 + 32 * i;
            let raw = slice_subrange(data, name_start, name_start + 32);
            let mut e: usize = 0;
            while e < 32 && *slice_index_get(raw, e) != 0
                invariant
                    e <= 32,
                    raw@.len() == 32,
                    forall|j: int| 0 <= j < e ==> raw@[j] != 0,
                decreases 32 - e,
            {
                e = e + 1;
            }
            proof {
                lemma_trunc_at_zero(raw@, e as int);
            }
            let name_slice = slice_subrange(raw, 0, e);
            let rec_off = 0x158 + 12 * i;
            layer_infos.push(LayerInfo {
                name: slice_to_vec(name_slice),
                offset: take_u32(data, rec_off),
                size: take_u32(data, rec_off + 4),
                width: take_u16(data, rec_off + 8),
                height: take_u16(data, rec_off + 10),
            });
            i = i + 1;
        }

        // Decode the layer texture streams, sequentially.
        let mut diffuse: Option<Image> = None;
        let mut bright: Option<Image> = None;
        let mut teamcolor: Option<Image> = None;
        let mut emissive: Option<Image> = None;
        let mut normal_layer: Option<Image> = None;
        let mut specular: Option<Image> = None;
        let mut ao_depth: Option<Image> = None;
        let mut pos: usize = 0x158 + 12 * layer_count;
        let mut i: usize = 0;
        while i < layer_count
            invariant
                i <= layer_count,
                layer_count == spec_layer_count(d),
                d == data@,
                n == d.len(),
                pos == spec_layer_data_off(d, i as int),
                pos <= n,
                layer_infos@.len() == layer_count,
                forall|j: int| 0 <= j < layer_count ==> (#[trigger] layer_infos@[j].name)@
                    == spec_name_field(d, j),
                forall|j: int| 0 <= j < layer_count ==> (#[trigger] layer_infos@[j].size)
                    == spec_layer_size(d, j),
                forall|j: int|
                    0 <= j < i && spec_layer_size(d, j) != 0
                        ==> (#[trigger] dds_rgba_of(spec_layer_slice(d, j))) is Some,
                matches_layer_upto(d, LayerKind::Diffuse, diffuse, i as int),
                matches_layer_upto(d, LayerKind::Bright, bright, i as int),
                matches_layer_upto(d, LayerKind::Teamcolor, teamcolor, i as int),
                matches_layer_upto(d, LayerKind::Emissive, emissive, i as int),
                matches_layer_upto(d, LayerKind::Normal, normal_layer, i as int),
                matches_layer_upto(d, LayerKind::Specular, specular, i as int),
                matches_layer_upto(d, LayerKind::AoDepth, ao_depth, i as int),
            decreases layer_count - i,
        {
            let size = layer_infos[i].size as usize;
            if size > n - pos {
                proof {
                    lemma_size_sum_mono(d, i + 1, layer_count as int);
                }
                return Err(AnimError::MalformedContainer);
            }
            if size > 0 {
                let stream = slice_subrange(data, pos, pos + size);
                proof {
                    assert(stream@ =~= spec_layer_slice(d, i as int));
                }
                match decode_dds(stream) {
                    None => {
                        return Err(AnimError::MalformedContainer);
                    },
                    Some(img) => {
                        match classify_name(layer_infos[i].name.as_slice()) {
                            Some(LayerKind::Diffuse) => diffuse = Some(img),
                            Some(LayerKind::Bright) => bright = Some(img),
                            Some(LayerKind::Teamcolor) => teamcolor = Some(img),
                            Some(LayerKind::Emissive) => emissive = Some(img),
                            Some(LayerKind::Normal) => normal_layer = Some(img),
                            Some(LayerKind::Specular) => specular = Some(img),
                            Some(LayerKind::AoDepth) => ao_depth = Some(img),
                            None => {},
                        }
                    },
                }
            }
            pos = pos + size;
            i = i + 1;
        }

        // Read the frame descriptor table.
        if n - pos < 16 * frame_count {
            return Err(AnimError::MalformedContainer);
        }
        let mut frames: Vec<FrameInfo> = Vec::new();
        let mut i: usize = 0;
        while i < frame_count
            invariant
                i <= frame_count,
                frame_count == spec_frame_count(d),
                d == data@,
                n == d.len(),
                pos == spec_frames_off(d),
                n - pos >= 16 * frame_count,
                frames@.len() == i,
                forall|j: int| 0 <= j < i ==> frames@[j] == spec_frame(d, j),
            decreases frame_count - i,
        {
            let p = pos + 16 * i;
            frames.push(FrameInfo {
                tex_x: take_u16(data, p),
                tex_y: take_u16(data, p + 2),
                x_off: take_i16(data, p + 4),
                y_off: take_i16(data, p + 6),
                width: take_u16(data, p + 8),
                height: take_u16(data, p + 10),
                unknown: take_u32(data, p + 12),
            });
            i = i + 1;
        }

        Ok(Anim {
            diffuse,
            bright,
            teamcolor,
            emissive,
            normal: normal_layer,
            specular,
            ao_depth,
            frames,
            width,
            height,
        })
    }

    /// Crop frame `idx` out of every present layer.
    ///
    /// Returns `Ok(None)` exactly when `idx` is past the frame table; never
    /// fails.
    #[allow(non_snake_case)]
    pub fn getFrame(&self, idx: usize) -> (r: Result<Option<Frame>, AnimError>)
        requires
            self.wf(),
        ensures
            match r {
                Ok(Some(f)) => idx < self.frames@.len() && frame_matches(*self, idx as int, f),
                Ok(None) => idx >= self.frames@.len(),
                Err(_) => false,
            },
    {
        if idx >= self.frames.len() {
            return Ok(None);
        }
        let fi = self.frames[idx];
        let center_x2 = (
            self.width as i32 - 2 * fi.x_off as i32,
            self.height as i32 - 2 * fi.y_off as i32,
        );
        Ok(Some(Frame {
            center_x2,
            width: fi.width as i32,
            height: fi.height as i32,
            diffuse: crop_layer(&self.diffuse, &fi),
            bright: crop_layer(&self.bright, &fi),
            teamcolor: crop_layer(&self.teamcolor, &fi),
            emissive: crop_layer(&self.emissive, &fi),
            normal: crop_layer(&self.normal, &fi),
            specular: crop_layer(&self.specular, &fi),
            ao_depth: crop_layer(&self.ao_depth, &fi),
        }))
    }
}

} // verus!
