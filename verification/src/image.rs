//! Images for the vision encoder: resized, normalized, cut into patches.

use vstd::prelude::*;

use crate::float::F32;

verus! {

// Pixels.

/// An image in whatever form it was decoded to.
#[verifier::external_type_specification]
#[verifier::external_body]
pub struct ExDynamicImage(image::DynamicImage);

/// What `image::DynamicImage::resize_exact` makes of an image, with the triangle
/// filter.
pub uninterp spec fn resized(
    img: image::DynamicImage,
    width: u32,
    height: u32,
) -> image::DynamicImage;

/// The bytes of `image::DynamicImage::to_rgb8`: pixel after pixel, row after row,
/// red, green and blue of each.
pub uninterp spec fn rgb_bytes(img: image::DynamicImage) -> Seq<u8>;

/// The longest side that an image is resized to.
pub const MAX_SIDE: u32 = 0x40_0000;

/// Calls `image::DynamicImage::resize_exact` with the triangle filter. The result
/// depends on the image and the new size alone, and has exactly that size, so
/// three bytes per pixel in RGB. The bounds keep out sizes for which the buffers of
/// the two resampling passes cannot be allocated, and sides so long that the sample
/// positions, which are single-precision numbers, miss every pixel of the source.
#[verifier::external_body]
fn resize(img: &image::DynamicImage, width: u32, height: u32) -> (r: image::DynamicImage)
    requires
        width <= MAX_SIDE,
        height <= MAX_SIDE,
        16 * (u32::MAX * height) <= isize::MAX,
        16 * (width * height) <= isize::MAX,
    ensures
        r == resized(*img, width, height),
        rgb_bytes(r).len() == 3 * (width * height),
{
    img.resize_exact(width, height, image::imageops::FilterType::Triangle)
}

/// Calls `image::DynamicImage::to_rgb8` and takes the bytes out of the result,
/// which depend on the image alone. The bound keeps out images whose bytes cannot be
/// allocated.
#[verifier::external_body]
fn to_rgb(img: &image::DynamicImage) -> (r: Vec<u8>)
    requires
        rgb_bytes(*img).len() <= isize::MAX,
    ensures
        r@ == rgb_bytes(*img),
{
    img.to_rgb8().into_raw()
}

/// 127.5.
pub const HALF_RANGE: u32 = 0x42FF_0000;

/// A byte on a scale from -1 to 1.
pub open spec fn normalized(byte: u8) -> F32 {
    crate::float::difference(
        crate::float::quotient(crate::float::of_nat(byte as nat), F32 { bits: HALF_RANGE }),
        F32 { bits: crate::cask::ONE },
    )
}

/// From -1 to 1.
pub open spec fn in_range(x: F32) -> bool {
    let one = (F32 { bits: crate::cask::ONE }).units();
    x.finite() && -one <= x.units() <= one
}

/// The magnitudes of 127.5 and 2.
proof fn lemma_half_range()
    ensures
        2 * crate::float::magnitude(HALF_RANGE as nat) == 255 * crate::float::exp2(149),
        crate::float::magnitude(0x4000_0000) == 2 * crate::float::exp2(149),
        crate::float::exp2(149) > 0,
{
    let x = crate::float::exp2(149);
    crate::float::lemma_exp2_values();
    crate::float::lemma_exp2_pos(149);
    let half: nat = HALF_RANGE as nat;
    let two: nat = 0x4000_0000;
    let b = crate::float::BINADE as nat;
    crate::float::lemma_exp2_adds(17, 132);
    crate::float::lemma_exp2_adds(23, 127);
    assert(crate::float::exp2(17) == 0x2_0000) by {
        reveal_with_fuel(crate::float::exp2, 18);
    }
    assert(half / b == 133 && half % b == 0x7F_0000);
    assert(two / b == 128 && two % b == 0);
    let y = crate::float::exp2(132);
    assert(x == 0x2_0000 * y) by (nonlinear_arith)
        requires
            crate::float::exp2(17) * y == x,
            crate::float::exp2(17) == 0x2_0000,
    ;
    assert(crate::float::magnitude(half) == 0xFF_0000 * y);
}

/// A byte over 127.5 is at most 2.
proof fn lemma_over_half_range(byte: u8)
    ensures
        ({
            let q = crate::float::quotient(
                crate::float::of_nat(byte as nat),
                F32 { bits: HALF_RANGE },
            );
            q.finite() && 0 <= q.units() <= 2 * crate::float::exp2(149)
        }),
{
    let x = crate::float::exp2(149);
    lemma_half_range();
    crate::float::lemma_exp2_values();
    crate::float::law_small_integers_are_exact(byte as nat);
    let half: nat = HALF_RANGE as nat;
    let two: nat = 0x4000_0000;
    let a = crate::float::of_nat(byte as nat);
    let q = crate::float::quotient(a, F32 { bits: HALF_RANGE });
    let num = crate::float::magnitude(a.word()) * x;
    let den = crate::float::magnitude(half);
    let top = crate::float::magnitude(two);
    assert(num <= top * den) by (nonlinear_arith)
        requires
            num == (byte * x) * x,
            byte <= 255,
            top == 2 * x,
            2 * den == 255 * x,
            x > 0,
    ;
    crate::float::lemma_nearest_at_most(num, den, two);
    if q.word() < two {
        crate::float::lemma_magnitude_monotone(q.word(), two);
    }
}

/// From at most 2, one taken off leaves at most 1 on either side.
proof fn lemma_less_one(q: F32)
    requires
        q.finite(),
        0 <= q.units() <= 2 * crate::float::exp2(149),
    ensures
        in_range(crate::float::difference(q, F32 { bits: crate::cask::ONE })),
{
    let x = crate::float::exp2(149);
    crate::float::lemma_exp2_pos(149);
    crate::float::lemma_magnitude_of_one();
    let s = q.units() - x;
    crate::float::lemma_nearest_at_most(crate::float::abs_int(s), 1, crate::cask::ONE as nat);
    let r = crate::float::difference(q, F32 { bits: crate::cask::ONE });
    if r.word() < crate::cask::ONE {
        crate::float::lemma_magnitude_monotone(r.word(), crate::cask::ONE as nat);
    }
}

/// Every byte comes to lie from -1 to 1.
pub proof fn law_normalized_range(byte: u8)
    ensures
        in_range(normalized(byte)),
{
    lemma_over_half_range(byte);
    lemma_less_one(
        crate::float::quotient(crate::float::of_nat(byte as nat), F32 { bits: HALF_RANGE }),
    );
}

/// Interleaved bytes of three channels as three planes of `area` numbers each.
pub open spec fn planes(bytes: Seq<u8>, area: int) -> Seq<F32> {
    Seq::new((3 * area) as nat, |i: int| normalized(bytes[(i % area) * 3 + i / area]))
}

/// Interleaved bytes of three channels as three planes of normalized numbers.
pub fn to_planes(bytes: &Vec<u8>, area: usize) -> (r: Vec<F32>)
    requires
        bytes@.len() == 3 * area,
    ensures
        r@ == planes(bytes@, area as int),
{
    let total: usize = bytes.len();
    let mut r: Vec<F32> = Vec::new();
    let mut i: usize = 0;
    while i < total
        invariant
            i <= total == bytes@.len() == 3 * area,
            r@.len() == i,
            forall|k: int| 0 <= k < i ==> #[trigger] r@[k] == planes(bytes@, area as int)[k],
        decreases total - i,
    {
        assert(area > 0);
        proof {
            vstd::arithmetic::div_mod::lemma_fundamental_div_mod(i as int, area as int);
            vstd::arithmetic::div_mod::lemma_mod_bound(i as int, area as int);
            let q = i as int / area as int;
            assert(0 <= q <= 2) by (nonlinear_arith)
                requires
                    0 <= i < 3 * area,
                    area > 0,
                    q == i as int / area as int,
            ;
        }
        let channel: usize = i / area;
        let pixel: usize = i % area;
        let v: F32 = F32::from_u64(bytes[pixel * 3 + channel] as u64);
        r.push(v.over(F32 { bits: HALF_RANGE }).minus(F32 { bits: crate::cask::ONE }));
        i = i + 1;
    }
    assert(r@ =~= planes(bytes@, area as int));
    r
}

/// An image resized to a square and normalized: three planes of `target_size`
/// rows of `target_size` numbers between -1 and 1.
pub fn load_and_preprocess(img: &image::DynamicImage, target_size: usize) -> (r: Vec<F32>)
    requires
        target_size <= MAX_SIDE,
        16 * (u32::MAX * target_size) <= isize::MAX,
        3 * (target_size * target_size) <= usize::MAX,
    ensures
        r@ == planes(
            rgb_bytes(resized(*img, target_size as u32, target_size as u32)),
            target_size * target_size,
        ),
        r@.len() == 3 * (target_size * target_size),
        forall|i: int| 0 <= i < r@.len() ==> in_range(#[trigger] r@[i]),
{
    let side: u32 = target_size as u32;
    assert(side * side <= u32::MAX * side) by (nonlinear_arith)
        requires
            side <= u32::MAX,
    ;
    let small: image::DynamicImage = resize(img, side, side);
    let bytes: Vec<u8> = to_rgb(&small);
    let r: Vec<F32> = to_planes(&bytes, target_size * target_size);
    proof {
        let area = target_size * target_size;
        assert forall|i: int| 0 <= i < r@.len() implies in_range(#[trigger] r@[i]) by {
            law_normalized_range(bytes@[(i % area) * 3 + i / area]);
        }
    }
    r
}

// Patches.

/// The shape of an image and of its patches.
#[derive(Debug, Clone, Copy)]
pub struct PatchShape {
    pub channels: usize,
    pub height: usize,
    pub width: usize,
    pub patch_size: usize,
    pub temporal_patch_size: usize,
}

impl PatchShape {
    /// Elements of one channel of a patch.
    pub open spec fn square(self) -> int {
        self.patch_size * self.patch_size
    }

    /// Elements of one frame of a patch.
    pub open spec fn frame(self) -> int {
        self.channels * self.square()
    }

    /// Elements of a patch.
    pub open spec fn patch(self) -> int {
        self.temporal_patch_size * self.frame()
    }

    /// Patches in a row.
    pub open spec fn across(self) -> int {
        self.width as int / self.patch_size as int
    }

    /// Rows of patches.
    pub open spec fn down(self) -> int {
        self.height as int / self.patch_size as int
    }

    pub open spec fn total(self) -> int {
        self.down() * self.across() * self.patch()
    }

    /// All the patches can be addressed.
    pub open spec fn fits(self) -> bool {
        &&& self.square() <= usize::MAX
        &&& self.frame() <= usize::MAX
        &&& self.patch() <= usize::MAX
        &&& self.down() * self.across() <= usize::MAX
        &&& self.total() <= usize::MAX
    }

    /// Where element `i` of the patches comes from in the planes: patches lie row
    /// after row; in a patch, frame after frame, channel after channel, line after
    /// line. Every frame is the same image.
    pub open spec fn source(self, i: int) -> int {
        let n = i / self.patch();
        let in_frame = (i % self.patch()) % self.frame();
        let c = in_frame / self.square();
        let in_square = in_frame % self.square();
        let y = (n / self.across()) * self.patch_size + in_square / (self.patch_size as int);
        let x = (n % self.across()) * self.patch_size + in_square % (self.patch_size as int);
        (c * self.height + y) * self.width + x
    }
}

/// The patches of an image in planes, one after the other.
pub open spec fn patches<T>(chw: Seq<T>, s: PatchShape) -> Seq<T> {
    Seq::new(s.total() as nat, |i: int| chw[s.source(i)])
}

proof fn lemma_source(s: PatchShape, i: int)
    requires
        s.patch_size >= 1,
        0 <= i < s.total(),
    ensures
        s.patch() > 0,
        s.frame() > 0,
        s.square() > 0,
        s.across() > 0,
        0 <= i / s.patch() < s.down() * s.across(),
        0 <= (i / s.patch()) / s.across() < s.down(),
        0 <= (i / s.patch()) % s.across() < s.across(),
        0 <= (i % s.patch()) % s.frame() < s.frame(),
        0 <= ((i % s.patch()) % s.frame()) / s.square() < s.channels,
        0 <= ((i % s.patch()) % s.frame()) % s.square() < s.square(),
        ({
            let n = i / s.patch();
            let q = ((i % s.patch()) % s.frame()) % s.square();
            let p = s.patch_size as int;
            &&& 0 <= q / p < p
            &&& 0 <= q % p < p
            &&& 0 <= (n / s.across()) * p + q / p < s.height
            &&& 0 <= (n % s.across()) * p + q % p < s.width
            &&& 0 <= (n / s.across()) * p
            &&& 0 <= (n % s.across()) * p
        }),
        0 <= s.source(i) < s.channels * s.height * s.width,
{
    let p = s.patch_size as int;
    let sq = s.square();
    let fr = s.frame();
    let pe = s.patch();
    let across = s.across();
    let down = s.down();
    let c0 = s.channels as int;
    let t0 = s.temporal_patch_size as int;
    assert(sq > 0) by (nonlinear_arith)
        requires
            sq == p * p,
            p >= 1,
    ;
    assert(0 <= across && 0 <= down && across * p <= s.width && down * p <= s.height)
        by (nonlinear_arith)
        requires
            p >= 1,
            across == s.width as int / p,
            down == s.height as int / p,
    ;
    let n0 = down * across;
    assert(n0 >= 0) by (nonlinear_arith)
        requires
            n0 == down * across,
            across >= 0,
            down >= 0,
    ;
    assert(fr >= 0) by (nonlinear_arith)
        requires
            fr == c0 * sq,
            c0 >= 0,
            sq > 0,
    ;
    assert(pe >= 0) by (nonlinear_arith)
        requires
            pe == t0 * fr,
            t0 >= 0,
            fr >= 0,
    ;
    assert(pe > 0 && n0 > 0) by (nonlinear_arith)
        requires
            0 <= i < n0 * pe,
            n0 >= 0,
            pe >= 0,
    ;
    assert(fr > 0) by (nonlinear_arith)
        requires
            pe == t0 * fr,
            pe > 0,
            fr >= 0,
    ;
    assert(across > 0) by (nonlinear_arith)
        requires
            n0 == down * across,
            n0 > 0,
            across >= 0,
    ;
    let n = i / pe;
    assert(0 <= n < n0) by (nonlinear_arith)
        requires
            0 <= i < n0 * pe,
            pe > 0,
            n == i / pe,
    ;
    let ny = n / across;
    let nx = n % across;
    assert(0 <= ny < down && 0 <= nx < across) by (nonlinear_arith)
        requires
            0 <= n < down * across,
            across > 0,
            ny == n / across,
            nx == n % across,
    ;
    let r = (i % pe) % fr;
    vstd::arithmetic::div_mod::lemma_mod_bound(i, pe);
    vstd::arithmetic::div_mod::lemma_mod_bound(i % pe, fr);
    let c = r / sq;
    let q = r % sq;
    vstd::arithmetic::div_mod::lemma_mod_bound(r, sq);
    assert(0 <= c < c0) by (nonlinear_arith)
        requires
            0 <= r < c0 * sq,
            sq > 0,
            c == r / sq,
    ;
    let dy = q / p;
    let dx = q % p;
    assert(0 <= dy < p && 0 <= dx < p) by (nonlinear_arith)
        requires
            0 <= q < p * p,
            p >= 1,
            dy == q / p,
            dx == q % p,
    ;
    let y = ny * p + dy;
    let x = nx * p + dx;
    assert(0 <= ny * p && y < s.height) by (nonlinear_arith)
        requires
            0 <= ny < down,
            down * p <= s.height,
            0 <= dy < p,
            y == ny * p + dy,
    ;
    assert(0 <= nx * p && x < s.width) by (nonlinear_arith)
        requires
            0 <= nx < across,
            across * p <= s.width,
            0 <= dx < p,
            x == nx * p + dx,
    ;
    let row = c * s.height + y;
    assert(0 <= row < c0 * s.height) by (nonlinear_arith)
        requires
            0 <= c < c0,
            0 <= y < s.height,
            row == c * s.height + y,
    ;
    let area = c0 * s.height;
    assert(0 <= row * s.width + x < area * s.width) by (nonlinear_arith)
        requires
            0 <= row < area,
            0 <= x < s.width,
    ;
}

/// The patches of an image in planes, one after the other.
pub fn extract_patches<T: Copy>(
    chw: &[T],
    channels: usize,
    height: usize,
    width: usize,
    patch_size: usize,
    temporal_patch_size: usize,
) -> (r: Vec<T>)
    requires
        patch_size >= 1,
        chw@.len() >= channels * height * width,
        (PatchShape { channels, height, width, patch_size, temporal_patch_size }).fits(),
    ensures
        r@ == patches(
            chw@,
            PatchShape { channels, height, width, patch_size, temporal_patch_size },
        ),
{
    let s: PatchShape = PatchShape { channels, height, width, patch_size, temporal_patch_size };
    let len: usize = chw.len();
    let p: usize = s.patch_size;
    let across: usize = s.width / p;
    let down: usize = s.height / p;
    proof {
        let sq = s.square();
        assert(0 <= p * p) by (nonlinear_arith);
        assert(0 <= s.channels * sq) by (nonlinear_arith)
            requires
                sq >= 0,
        ;
        let fr = s.frame();
        assert(0 <= s.temporal_patch_size * fr) by (nonlinear_arith)
            requires
                fr >= 0,
        ;
        assert(0 <= down * across) by (nonlinear_arith);
        let n0 = s.down() * s.across();
        let pe = s.patch();
        assert(0 <= n0 * pe) by (nonlinear_arith)
            requires
                n0 >= 0,
                pe >= 0,
        ;
    }
    let square: usize = p * p;
    let frame: usize = s.channels * square;
    let patch: usize = s.temporal_patch_size * frame;
    let total: usize = down * across * patch;
    let mut r: Vec<T> = Vec::new();
    let mut i: usize = 0;
    while i < total
        invariant
            i <= total == s.total(),
            p == s.patch_size,
            p >= 1,
            across == s.across(),
            square == s.square(),
            frame == s.frame(),
            patch == s.patch(),
            len == chw@.len() >= s.channels * s.height * s.width,
            r@.len() == i,
            forall|k: int| 0 <= k < i ==> #[trigger] r@[k] == chw@[s.source(k)],
        decreases total - i,
    {
        proof {
            lemma_source(s, i as int);
        }
        let n: usize = i / patch;
        let in_frame: usize = (i % patch) % frame;
        let c: usize = in_frame / square;
        let in_square: usize = in_frame % square;
        let y: usize = (n / across) * p + in_square / p;
        let x: usize = (n % across) * p + in_square % p;
        proof {
            let row = c * s.height + y;
            let area = s.channels * s.height;
            assert(0 <= c * s.height && row * s.width >= 0) by (nonlinear_arith)
                requires
                    row == c * s.height + y,
            ;
            assert(s.width >= 1);
            assert(row <= row * s.width) by (nonlinear_arith)
                requires
                    row >= 0,
                    s.width >= 1,
            ;
        }
        let at: usize = (c * s.height + y) * s.width + x;
        assert(at == s.source(i as int));
        r.push(chw[at]);
        i = i + 1;
    }
    assert(r@ =~= patches(chw@, s));
    r
}

} // verus!
