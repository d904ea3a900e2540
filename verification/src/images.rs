//! Decoded pictures, and the packing of metallic and roughness maps.

use vstd::prelude::*;

verus! {

/// A decoded picture: rows of red, green, blue and alpha bytes.
pub struct Picture {
    pub width: u32,
    pub height: u32,
    pub rgba: Vec<u8>,
}

/// Size and bytes of a picture.
pub type PictureModel = (u32, u32, Seq<u8>);

impl View for Picture {
    type V = PictureModel;

    open spec fn view(&self) -> PictureModel {
        (self.width, self.height, self.rgba@)
    }
}

/// A picture holds four bytes for each of its pixels.
pub open spec fn whole(p: PictureModel) -> bool {
    p.2.len() == 4 * p.0 * p.1
}

/// Size and RGBA bytes of the picture that `image::load_from_memory` makes of the
/// bytes of a file, or `None` where it makes none.
pub uninterp spec fn decoded_picture(bytes: Seq<u8>) -> Option<PictureModel>;

/// The RGBA bytes of the picture that a file holds, resized to a width and a height by
/// `DynamicImage::resize_exact` with the triangle filter.
pub uninterp spec fn resized_rgba(bytes: Seq<u8>, width: u32, height: u32) -> Seq<u8>;

/// `image::load_from_memory` and `DynamicImage::to_rgba8`: the picture that the
/// bytes hold, with four bytes per pixel, or `None` where they hold none. The result
/// depends on the bytes alone: a file is decoded in integers, by whatever code the
/// processor has, and a gray level is spread over the colors channel by channel.
#[verifier::external_body]
pub(crate) fn decode_picture(bytes: &[u8]) -> (r: Option<Picture>)
    ensures
        match r {
            Some(p) => decoded_picture(bytes@) == Some(p@) && whole(p@),
            None => decoded_picture(bytes@) is None,
        },
{
    let rgba = image::load_from_memory(bytes).ok()?.to_rgba8();
    let (width, height) = rgba.dimensions();
    Some(Picture { width, height, rgba: rgba.into_raw() })
}

/// The longest side that a picture can have before and after it is resized. Within it
/// single precision tells the pixels of a row apart, so that every pixel of the result
/// has one to be made of.
pub const MAX_RESIZED_SIDE: u32 = 65536;

/// `DynamicImage::resize_exact` with the triangle filter on the picture that the
/// bytes hold, as RGBA: a picture of exactly the size asked for, and `None` where
/// the bytes hold no picture. The colors depend on the bytes and the size alone: the
/// filter adds, multiplies and divides in single precision, in a fixed order. No side
/// may be too long, and the buffers that it works in must be representable.
#[verifier::external_body]
pub(crate) fn resize_by_triangle(bytes: &[u8], width: u32, height: u32) -> (r: Option<Picture>)
    requires
        0 < width <= MAX_RESIZED_SIDE,
        0 < height <= MAX_RESIZED_SIDE,
        16 * width * height <= isize::MAX,
        decoded_picture(bytes@) matches Some(p) ==> p.0 <= MAX_RESIZED_SIDE && p.1
            <= MAX_RESIZED_SIDE && 16 * p.0 * height <= isize::MAX,
    ensures
        r matches Some(p) ==> p@ == (width, height, resized_rgba(bytes@, width, height)) && whole(
            p@,
        ),
        r is Some <==> decoded_picture(bytes@) is Some,
{
    let source = image::load_from_memory(bytes).ok()?;
    let rgba = source.resize_exact(width, height, image::imageops::FilterType::Triangle).to_rgba8();
    Some(Picture { width, height, rgba: rgba.into_raw() })
}

/// Byte `k` of the packed texture: green holds roughness and blue metallic, each
/// from the red channel of its map and 255 where there is none; red is zero and
/// alpha 255.
pub open spec fn packed_byte(metal: Option<Seq<u8>>, rough: Option<Seq<u8>>, k: int) -> u8 {
    let red = k - k % 4;
    if k % 4 == 0 {
        0
    } else if k % 4 == 1 {
        match rough {
            Some(p) => p[red],
            None => 255,
        }
    } else if k % 4 == 2 {
        match metal {
            Some(p) => p[red],
            None => 255,
        }
    } else {
        255
    }
}

/// The packed texture of `pixels` pixels.
pub open spec fn packed(metal: Option<Seq<u8>>, rough: Option<Seq<u8>>, pixels: nat) -> Seq<u8> {
    Seq::new(4 * pixels, |k: int| packed_byte(metal, rough, k))
}

/// The RGBA bytes of a map, if there is one.
pub open spec fn bytes_of(p: Option<Picture>) -> Option<Seq<u8>> {
    match p {
        Some(p) => Some(p.rgba@),
        None => None,
    }
}

/// Packs two maps of `pixels` pixels each.
pub fn pack_maps(metal: &Option<Picture>, rough: &Option<Picture>, pixels: usize) -> (r: Vec<u8>)
    requires
        4 * pixels <= usize::MAX,
        *metal matches Some(p) ==> p.rgba@.len() == 4 * pixels,
        *rough matches Some(p) ==> p.rgba@.len() == 4 * pixels,
    ensures
        r@ == packed(bytes_of(*metal), bytes_of(*rough), pixels as nat),
{
    let mut out: Vec<u8> = Vec::new();
    let mut i: usize = 0;
    let ghost all = packed(bytes_of(*metal), bytes_of(*rough), pixels as nat);
    while i < pixels
        invariant
            i <= pixels,
            4 * pixels <= usize::MAX,
            *metal matches Some(p) ==> p.rgba@.len() == 4 * pixels,
            *rough matches Some(p) ==> p.rgba@.len() == 4 * pixels,
            all == packed(bytes_of(*metal), bytes_of(*rough), pixels as nat),
            out@ == all.take(4 * i),
        decreases pixels - i,
    {
        let g: u8 = match rough {
            Some(p) => p.rgba[4 * i],
            None => 255,
        };
        let b: u8 = match metal {
            Some(p) => p.rgba[4 * i],
            None => 255,
        };
        assert((4 * i) % 4 == 0 && (4 * i + 1) % 4 == 1 && (4 * i + 2) % 4 == 2 && (4 * i + 3) % 4
            == 3);
        out.push(0);
        out.push(g);
        out.push(b);
        out.push(255);
        assert(out@ == all.take(4 * (i + 1)));
        i += 1;
    }
    assert(all.take(4 * pixels) == all);
    out
}

/// Width and height of an optional picture.
pub open spec fn size_of(p: Option<Picture>) -> Option<(u32, u32)> {
    match p {
        Some(p) => Some((p.width, p.height)),
        None => None,
    }
}

/// The size that both maps are brought to: that of the one with more pixels, and
/// of the metallic one where they have the same number.
pub open spec fn common_size(metal: Option<(u32, u32)>, rough: Option<(u32, u32)>) -> Option<
    (u32, u32),
> {
    match (metal, rough) {
        (Some(m), Some(r)) => if r.0 * r.1 > m.0 * m.1 {
            Some(r)
        } else {
            Some(m)
        },
        (Some(m), None) => Some(m),
        (None, Some(r)) => Some(r),
        (None, None) => None,
    }
}

/// The picture of an optional file.
pub open spec fn decoded_of(bytes: Option<Seq<u8>>) -> Option<PictureModel> {
    match bytes {
        Some(b) => decoded_picture(b),
        None => None,
    }
}

/// Width and height of an optional file's picture.
pub open spec fn decoded_size(bytes: Option<Seq<u8>>) -> Option<(u32, u32)> {
    match decoded_of(bytes) {
        Some(p) => Some((p.0, p.1)),
        None => None,
    }
}

/// The RGBA bytes of an optional file's picture at a size: as they are decoded where
/// it has that size, and else resized.
pub open spec fn map_of(bytes: Option<Seq<u8>>, size: (u32, u32)) -> Option<Seq<u8>> {
    match decoded_of(bytes) {
        Some(p) => if (p.0, p.1) == size {
            Some(p.2)
        } else {
            Some(resized_rgba(bytes->0, size.0, size.1))
        },
        None => None,
    }
}

/// A picture of size `from` can be resized to `to`: no side is too long, and the
/// buffers can be held in memory.
pub open spec fn resizable(from: (u32, u32), to: (u32, u32)) -> bool {
    &&& from.0 <= MAX_RESIZED_SIDE && from.1 <= MAX_RESIZED_SIDE
    &&& to.0 <= MAX_RESIZED_SIDE && to.1 <= MAX_RESIZED_SIDE
    &&& 16 * to.0 * to.1 <= isize::MAX
    &&& 16 * from.0 * to.1 <= isize::MAX
}

/// A picture has a size or can be brought to it, and its texture can be addressed in
/// 32 bits.
pub open spec fn workable(from: Option<(u32, u32)>, size: (u32, u32)) -> bool {
    &&& 4 * size.0 * size.1 <= u32::MAX
    &&& from matches Some(from) ==> from == size || resizable(from, size)
}

/// The bytes of an optional file.
pub open spec fn file_view(file: Option<Vec<u8>>) -> Option<Seq<u8>> {
    match file {
        Some(b) => Some(b@),
        None => None,
    }
}

/// What packing two maps gives.
pub enum MetalRough {
    /// Neither file holds a picture.
    Missing,
    /// The maps cannot be brought to a common size.
    TooLarge,
    /// The packed texture.
    Packed { width: u32, height: u32, pixels: Vec<u8> },
}

/// What packing two files gives: roughness in green and metallic in blue, each from
/// the red channel of its own file.
pub open spec fn is_metal_rough(r: MetalRough, metal: Option<Seq<u8>>, rough: Option<Seq<u8>>) -> bool {
    match common_size(decoded_size(metal), decoded_size(rough)) {
        None => r is Missing,
        Some(size) => if !workable(decoded_size(metal), size) || !workable(
            decoded_size(rough),
            size,
        ) {
            r is TooLarge
        } else {
            r matches MetalRough::Packed { width, height, pixels } && {
                &&& (width, height) == size
                &&& pixels@ == packed(
                    map_of(metal, size),
                    map_of(rough, size),
                    (width * height) as nat,
                )
            }
        },
    }
}

fn fits(p: &Option<Picture>, width: u32, height: u32) -> (r: bool)
    ensures
        r == workable(size_of(*p), (width, height)),
{
    let size: u128 = area(width, height) as u128;
    assert(4 * width * height == 4 * (width * height) && 16 * width * height == 16 * (width
        * height)) by (nonlinear_arith);
    if 4 * size > u32::MAX as u128 {
        return false;
    }
    match p {
        Some(q) => {
            let w: u32 = q.width;
            let work: u128 = area(w, height) as u128;
            assert(16 * w * height == 16 * (w * height)) by (nonlinear_arith);
            w == width && q.height == height || w <= MAX_RESIZED_SIDE && q.height
                <= MAX_RESIZED_SIDE && width <= MAX_RESIZED_SIDE && height <= MAX_RESIZED_SIDE
                && 16 * size <= isize::MAX as u128 && 16 * work <= isize::MAX as u128
        },
        None => true,
    }
}

/// Chooses the size that two maps are brought to; see `common_size`.
pub fn choose_size(metal: &Option<Picture>, rough: &Option<Picture>) -> (r: Option<(u32, u32)>)
    ensures
        r == common_size(size_of(*metal), size_of(*rough)),
{
    match (metal, rough) {
        (Some(p), Some(q)) => {
            let a: u64 = area(p.width, p.height);
            let b: u64 = area(q.width, q.height);
            if b > a {
                Some((q.width, q.height))
            } else {
                Some((p.width, p.height))
            }
        },
        (Some(p), None) => Some((p.width, p.height)),
        (None, Some(q)) => Some((q.width, q.height)),
        (None, None) => None,
    }
}

/// The view of an optional picture.
pub open spec fn picture_view(p: Option<Picture>) -> Option<PictureModel> {
    match p {
        Some(p) => Some(p@),
        None => None,
    }
}

/// Brings a decoded picture to a size, from its file where the size differs.
fn bring(bytes: &Option<Vec<u8>>, picture: Option<Picture>, width: u32, height: u32) -> (r: Option<
    Picture,
>)
    requires
        decoded_of(file_view(*bytes)) == picture_view(picture),
        picture matches Some(p) ==> whole(p@),
        workable(decoded_size(file_view(*bytes)), (width, height)),
        width > 0,
        height > 0,
    ensures
        bytes_of(r) == map_of(file_view(*bytes), (width, height)),
        r matches Some(p) ==> whole(p@) && p.width == width && p.height == height,
{
    match picture {
        None => None,
        Some(p) => if p.width == width && p.height == height {
            Some(p)
        } else {
            match bytes {
                Some(b) => resize_by_triangle(b.as_slice(), width, height),
                None => None,
            }
        },
    }
}

fn decode_file(bytes: &Option<Vec<u8>>) -> (r: Option<Picture>)
    ensures
        decoded_of(file_view(*bytes)) == picture_view(r),
        r matches Some(p) ==> whole(p@),
{
    match bytes {
        Some(b) => decode_picture(b.as_slice()),
        None => None,
    }
}

/// Decodes two gray maps and packs them into one texture. A map of another size
/// is resized to the larger of the two.
pub fn pack_metal_rough(metal: &Option<Vec<u8>>, rough: &Option<Vec<u8>>) -> (r: MetalRough)
    ensures
        is_metal_rough(r, file_view(*metal), file_view(*rough)),
{
    let m = decode_file(metal);
    let g = decode_file(rough);
    assert(decoded_size(file_view(*metal)) == size_of(m) && decoded_size(file_view(*rough))
        == size_of(g));
    let (width, height) = match choose_size(&m, &g) {
        Some(size) => size,
        None => {
            return MetalRough::Missing;
        },
    };
    if !fits(&m, width, height) || !fits(&g, width, height) {
        return MetalRough::TooLarge;
    }
    let pixels: u64 = area(width, height);
    let ghost size = (width, height);
    assert(4 * width * height == 4 * (width * height)) by (nonlinear_arith);
    if pixels == 0 {
        let none: Vec<u8> = Vec::new();
        assert(none@ == packed(
            map_of(file_view(*metal), size),
            map_of(file_view(*rough), size),
            0,
        ));
        return MetalRough::Packed { width, height, pixels: none };
    }
    assert(width > 0 && height > 0) by (nonlinear_arith)
        requires
            width * height > 0,
            width >= 0,
            height >= 0,
    ;
    let m = bring(metal, m, width, height);
    let g = bring(rough, g, width, height);
    MetalRough::Packed { width, height, pixels: pack_maps(&m, &g, pixels as usize) }
}

fn area(width: u32, height: u32) -> (r: u64)
    ensures
        r == width * height,
{
    assert(width as int * height as int <= 0xffff_ffff * 0xffff_ffff) by (nonlinear_arith)
        requires
            0 <= width <= 0xffff_ffff,
            0 <= height <= 0xffff_ffff,
    ;
    width as u64 * height as u64
}

/// Metallic and roughness do not mix: each channel of the packed texture comes
/// from its own map, and a missing map passes its constant through.
pub proof fn packed_channels_are_independent(
    metal: Option<Seq<u8>>,
    rough: Option<Seq<u8>>,
    pixels: nat,
    i: int,
)
    requires
        0 <= i < pixels,
    ensures
        packed(metal, rough, pixels)[4 * i] == 0,
        packed(metal, rough, pixels)[4 * i + 1] == match rough {
            Some(p) => p[4 * i],
            None => 255,
        },
        packed(metal, rough, pixels)[4 * i + 2] == match metal {
            Some(p) => p[4 * i],
            None => 255,
        },
        packed(metal, rough, pixels)[4 * i + 3] == 255,
{
    assert((4 * i) % 4 == 0 && (4 * i + 1) % 4 == 1 && (4 * i + 2) % 4 == 2 && (4 * i + 3) % 4 == 3);
}

/// Every pixel of a packed texture has roughness in green and metallic in blue, each
/// the red of the same pixel of its own file, and 255 where that file holds no picture.
pub proof fn channels_come_from_their_files(
    r: MetalRough,
    metal: Option<Seq<u8>>,
    rough: Option<Seq<u8>>,
    i: int,
)
    requires
        is_metal_rough(r, metal, rough),
        r is Packed,
        0 <= i < r->width * r->height,
    ensures
        ({
            let pixels = r->pixels@;
            let size = (r->width, r->height);
            &&& pixels.len() == 4 * (r->width * r->height)
            &&& pixels[4 * i] == 0
            &&& pixels[4 * i + 1] == match map_of(rough, size) {
                Some(p) => p[4 * i],
                None => 255,
            }
            &&& pixels[4 * i + 2] == match map_of(metal, size) {
                Some(p) => p[4 * i],
                None => 255,
            }
            &&& pixels[4 * i + 3] == 255
        }),
{
    let size = (r->width, r->height);
    packed_channels_are_independent(
        map_of(metal, size),
        map_of(rough, size),
        (r->width * r->height) as nat,
        i,
    );
}

/// Width and height of the picture that an optional file holds, if it holds one.
pub open spec fn held_size(file: Option<Vec<u8>>) -> Option<(u32, u32)> {
    match file {
        Some(b) => match decoded_picture(b@) {
            Some(p) => Some((p.0, p.1)),
            None => None,
        },
        None => None,
    }
}

/// The red byte of pixel `i` of the picture that an optional file holds, brought to a
/// size; 255 where it holds none.
pub open spec fn red_at(file: Option<Vec<u8>>, width: u32, height: u32, i: int) -> u8 {
    match file {
        Some(b) => match decoded_picture(b@) {
            Some(p) => if p.0 == width && p.1 == height {
                p.2[4 * i]
            } else {
                resized_rgba(b@, width, height)[4 * i]
            },
            None => 255,
        },
        None => 255,
    }
}

/// There is no texture exactly where neither file holds a picture. A texture has the
/// size of one of the pictures, and at least as many pixels as either; where both have
/// as many it is the metallic one's.
pub proof fn the_larger_map_gives_the_size(
    metal: Option<Vec<u8>>,
    rough: Option<Vec<u8>>,
    r: MetalRough,
)
    requires
        call_ensures(pack_metal_rough, (&metal, &rough), r),
    ensures
        r is Missing <==> held_size(metal) is None && held_size(rough) is None,
        r is Packed ==> {
            let size = Some((r->width, r->height));
            &&& size == held_size(metal) || size == held_size(rough)
            &&& held_size(metal) matches Some(m) ==> m.0 * m.1 <= r->width * r->height
            &&& held_size(rough) matches Some(g) ==> g.0 * g.1 <= r->width * r->height
            &&& (held_size(metal) matches Some(m) && m.0 * m.1 == r->width * r->height) ==> size
                == held_size(metal)
        },
{
}

/// Pixel `i` of a texture is fixed but for two bytes: green is the red of the same
/// pixel of the roughness map, and blue that of the metallic one.
pub proof fn pixels_hold_roughness_and_metal(
    metal: Option<Vec<u8>>,
    rough: Option<Vec<u8>>,
    r: MetalRough,
    i: int,
)
    requires
        call_ensures(pack_metal_rough, (&metal, &rough), r),
        r is Packed,
        0 <= i < r->width * r->height,
    ensures
        r->pixels@.len() == 4 * (r->width * r->height),
        r->pixels@[4 * i] == 0,
        r->pixels@[4 * i + 1] == red_at(rough, r->width, r->height, i),
        r->pixels@[4 * i + 2] == red_at(metal, r->width, r->height, i),
        r->pixels@[4 * i + 3] == 255,
{
    channels_come_from_their_files(r, file_view(metal), file_view(rough), i);
}

/// A texture is made wherever its bytes can be counted in 32 bits and the maps either
/// have its size or no side longer than 65536, with buffers that can be held in memory.
pub proof fn ordinary_maps_are_packed(
    metal: Option<Vec<u8>>,
    rough: Option<Vec<u8>>,
    r: MetalRough,
    width: u32,
    height: u32,
)
    requires
        call_ensures(pack_metal_rough, (&metal, &rough), r),
        held_size(metal) is Some || held_size(rough) is Some,
        4 * width * height <= 0xffff_ffff,
    ensures
        held_size(metal) == Some((width, height)) && (held_size(rough) is None || held_size(rough)
            == Some((width, height))) ==> r is Packed,
        held_size(rough) == Some((width, height)) && held_size(metal) is None ==> r is Packed,
        held_size(metal) == Some((width, height)) && (held_size(rough) matches Some(g) && g.0 * g.1
            <= width * height && g.0 <= 65536 && g.1 <= 65536 && width <= 65536 && height <= 65536
            && 16 * width * height <= isize::MAX && 16 * g.0 * height <= isize::MAX) ==> r is Packed,
{
}

/// Two maps are brought to the size of the one with more pixels, and to the metallic
/// one's where they have as many; a single map keeps its own size.
pub proof fn the_larger_size_is_chosen(
    metal: Option<Picture>,
    rough: Option<Picture>,
    r: Option<(u32, u32)>,
)
    requires
        call_ensures(choose_size, (&metal, &rough), r),
    ensures
        metal is None && rough is None <==> r is None,
        metal is Some && rough is None ==> r == Some((metal->0.width, metal->0.height)),
        metal is None && rough is Some ==> r == Some((rough->0.width, rough->0.height)),
        metal is Some && rough is Some ==> {
            let m = metal->0.width * metal->0.height;
            let g = rough->0.width * rough->0.height;
            &&& m >= g ==> r == Some((metal->0.width, metal->0.height))
            &&& m < g ==> r == Some((rough->0.width, rough->0.height))
        },
{
}

/// Two maps are packed pixel by pixel: nothing in red, the red of the roughness map in
/// green, that of the metallic one in blue, and full alpha; a missing map counts as
/// full.
pub proof fn maps_are_packed_pixel_by_pixel(
    metal: Option<Picture>,
    rough: Option<Picture>,
    pixels: usize,
    r: Vec<u8>,
    i: int,
)
    requires
        call_ensures(pack_maps, (&metal, &rough, pixels), r),
        0 <= i < pixels,
    ensures
        r@.len() == 4 * pixels,
        r@[4 * i] == 0,
        r@[4 * i + 1] == if rough is Some {
            rough->0.rgba@[4 * i]
        } else {
            255
        },
        r@[4 * i + 2] == if metal is Some {
            metal->0.rgba@[4 * i]
        } else {
            255
        },
        r@[4 * i + 3] == 255,
{
    packed_channels_are_independent(bytes_of(metal), bytes_of(rough), pixels as nat, i);
}

} // verus!
