//! Canonical pixel buffers: tightly packed rows of 1 (gray), 3 (RGB) or
//! 4 (RGBA) channels, and the pure conversions between them.

use vstd::prelude::*;

verus! {

/// A decoded image: tightly packed samples, row-major.
pub struct PixelBuffer {
    pub width: u32,
    pub height: u32,
    pub channels: u8,
    pub data: Vec<u8>,
}

impl PixelBuffer {
    /// Well-formed: a recognized channel count and exactly one byte per
    /// sample.
    pub open spec fn wf(&self) -> bool {
        &&& (self.channels == 1 || self.channels == 3 || self.channels == 4)
        &&& self.data@.len() == self.width * self.height * self.channels
    }
}

/// One channel of the naive CMYK conversion: the ink value and the key,
/// each taken against full coverage, multiplied and truncated.
pub open spec fn cmyk_channel(v: u8, k: u8) -> u8 {
    (((255 - v) * (255 - k)) / 255) as u8
}

/// How many pixels a packed CMYK byte string holds: a trailing partial
/// quadruplet counts as one more (degenerate) pixel.
pub open spec fn cmyk_pixel_count(len: nat) -> nat {
    (len + 3) / 4
}

/// The RGB bytes of a packed CMYK byte string; a trailing partial
/// quadruplet degrades to black.
pub open spec fn cmyk_rgb(s: Seq<u8>) -> Seq<u8> {
    Seq::new(
        (cmyk_pixel_count(s.len()) * 3) as nat,
        |j: int|
            {
                let p = j / 3;
                let ch = j % 3;
                if 4 * p + 3 < s.len() {
                    cmyk_channel(s[4 * p + ch], s[4 * p + 3])
                } else {
                    0u8
                }
            },
    )
}

/// One channel of the naive CMYK conversion, executable.
pub fn cmyk_channel_exec(v: u8, k: u8) -> (r: u8)
    ensures
        r == cmyk_channel(v, k),
{
    let a: u32 = 255 - v as u32;
    let b: u32 = 255 - k as u32;
    proof {
        assert(a * b <= 255 * 255) by (nonlinear_arith)
            requires
                a <= 255,
                b <= 255,
        ;
    }
    let prod: u32 = a * b;
    (prod / 255) as u8
}

/// Converts packed CMYK quadruplets to packed RGB triplets, pixel by
/// pixel, with the naive formula.
pub fn cmyk_to_rgb(bytes: &Vec<u8>) -> (r: Vec<u8>)
    ensures
        r@ == cmyk_rgb(bytes@),
{
    let n = bytes.len();
    let mut out: Vec<u8> = Vec::new();
    let mut p: usize = 0;
    let ghost total = cmyk_pixel_count(bytes@.len());
    let chunks = n / 4 + if n % 4 == 0 {
        0
    } else {
        1
    };
    proof {
        assert(total * 3 == cmyk_rgb(bytes@).len());
        assert(chunks == total);
    }
    while p < chunks
        invariant
            0 <= p <= chunks,
            n == bytes@.len(),
            chunks == total,
            total == cmyk_pixel_count(bytes@.len()),
            out@.len() == p * 3,
            forall|j: int| 0 <= j < p * 3 ==> out@[j] == cmyk_rgb(bytes@)[j],
        decreases chunks - p,
    {
        proof {
            assert(p * 3 + 3 <= total * 3) by (nonlinear_arith)
                requires
                    p + 1 <= total,
            ;
        }
        if 4 * p + 3 < n {
            let k = bytes[4 * p + 3];
            let r0 = cmyk_channel_exec(bytes[4 * p], k);
            let r1 = cmyk_channel_exec(bytes[4 * p + 1], k);
            let r2 = cmyk_channel_exec(bytes[4 * p + 2], k);
            out.push(r0);
            out.push(r1);
            out.push(r2);
        } else {
            out.push(0);
            out.push(0);
            out.push(0);
        }
        proof {
            let pp = p as int;
            assert forall|j: int| pp * 3 <= j < pp * 3 + 3 implies out@[j] == cmyk_rgb(bytes@)[j]
                by {
                assert(j / 3 == pp && (j % 3 == j - pp * 3)) by (nonlinear_arith)
                    requires
                        pp * 3 <= j < pp * 3 + 3,
                ;
            }
        }
        p = p + 1;
    }
    proof {
        assert(out@ =~= cmyk_rgb(bytes@));
    }
    out
}

/// The RGBA bytes of a gray buffer: each sample replicated to the three
/// color channels, alpha fully opaque.
pub open spec fn gray_to_rgba(s: Seq<u8>) -> Seq<u8> {
    Seq::new(
        (s.len() * 4) as nat,
        |j: int|
            if j % 4 == 3 {
                255u8
            } else {
                s[j / 4]
            },
    )
}

/// The RGBA bytes of an RGB buffer: color kept, alpha fully opaque.
pub open spec fn rgb_to_rgba(s: Seq<u8>) -> Seq<u8> {
    Seq::new(
        (s.len() / 3 * 4) as nat,
        |j: int|
            if j % 4 == 3 {
                255u8
            } else {
                s[(j / 4) * 3 + j % 4]
            },
    )
}

/// The color plane of an RGBA buffer.
pub open spec fn rgb_plane(s: Seq<u8>) -> Seq<u8> {
    Seq::new((s.len() / 4 * 3) as nat, |j: int| s[(j / 3) * 4 + j % 3])
}

/// The alpha plane of an RGBA buffer.
pub open spec fn alpha_plane(s: Seq<u8>) -> Seq<u8> {
    Seq::new((s.len() / 4) as nat, |j: int| s[j * 4 + 3])
}

/// Promoting an RGB buffer to RGBA and taking the color plane back is
/// the identity on the samples.
pub proof fn lemma_rgb_plane_of_rgba(s: Seq<u8>)
    requires
        s.len() % 3 == 0,
    ensures
        rgb_plane(rgb_to_rgba(s)) == s,
{
    let t = rgb_to_rgba(s);
    assert(t.len() == s.len() / 3 * 4);
    assert(t.len() / 4 * 3 == s.len()) by (nonlinear_arith)
        requires
            s.len() % 3 == 0,
            t.len() == s.len() / 3 * 4,
    ;
    assert forall|j: int| 0 <= j < s.len() implies rgb_plane(t)[j] == s[j] by {
        let q = (j / 3) * 4 + j % 3;
        assert(0 <= q < t.len() && q % 4 == j % 3 && q % 4 != 3 && (q / 4) * 3 + q % 4 == j)
            by (nonlinear_arith)
            requires
                0 <= j < s.len(),
                q == (j / 3) * 4 + j % 3,
                t.len() == s.len() / 3 * 4,
                s.len() % 3 == 0,
        ;
    }
    assert(rgb_plane(t) =~= s);
}

/// Promotes a gray or RGB buffer to RGBA with fully opaque alpha; an
/// RGBA buffer is returned unchanged.
pub fn promote_rgba(buf: PixelBuffer) -> (r: PixelBuffer)
    requires
        buf.wf(),
    ensures
        r.wf(),
        r.width == buf.width,
        r.height == buf.height,
        r.channels == 4,
        buf.channels == 1 ==> r.data@ == gray_to_rgba(buf.data@),
        buf.channels == 3 ==> r.data@ == rgb_to_rgba(buf.data@),
        buf.channels == 4 ==> r.data@ == buf.data@,
        alpha_plane(r.data@) == Seq::new(
            (buf.width * buf.height) as nat,
            |j: int| if buf.channels == 4 { buf.data@[j * 4 + 3] } else { 255u8 },
        ),
{
    let w = buf.width;
    let h = buf.height;
    let ghost pixels = (w * h) as nat;
    if buf.channels == 4 {
        proof {
            assert(alpha_plane(buf.data@) =~= Seq::new(
                pixels,
                |j: int| if buf.channels == 4 { buf.data@[j * 4 + 3] } else { 255u8 },
            )) by {
                assert(buf.data@.len() / 4 == pixels) by (nonlinear_arith)
                    requires
                        buf.data@.len() == pixels * 4,
                ;
            }
        }
        return buf;
    }
    let c = buf.channels as usize;
    let n = buf.data.len();
    let ghost target = if buf.channels == 1 {
        gray_to_rgba(buf.data@)
    } else {
        rgb_to_rgba(buf.data@)
    };
    proof {
        if buf.channels == 3 {
            assert(n / 3 * 4 == pixels * 4 && n / 3 == pixels) by (nonlinear_arith)
                requires
                    n == pixels * 3,
            ;
        }
        assert(target.len() == pixels * 4);
    }
    let mut out: Vec<u8> = Vec::new();
    let mut p: usize = 0;
    let pix_n = n / c;
    proof {
        if buf.channels == 1 {
            assert(pix_n == pixels);
        } else {
            assert(pix_n == pixels) by (nonlinear_arith)
                requires
                    n == pixels * 3,
                    c == 3,
                    pix_n == n as int / c as int,
            ;
        }
    }
    while p < pix_n
        invariant
            0 <= p <= pix_n,
            pix_n == pixels,
            n == buf.data@.len(),
            n == pixels * c,
            c == buf.channels,
            buf.wf(),
            buf.channels == 1 || buf.channels == 3,
            target == if buf.channels == 1 {
                gray_to_rgba(buf.data@)
            } else {
                rgb_to_rgba(buf.data@)
            },
            target.len() == pixels * 4,
            out@.len() == p * 4,
            forall|j: int| 0 <= j < p * 4 ==> out@[j] == target[j],
        decreases pix_n - p,
    {
        proof {
            assert(p * 4 + 4 <= pixels * 4 && (c == 3 ==> p * 3 + 3 <= n) && (c == 1 ==> p < n))
                by (nonlinear_arith)
                requires
                    p + 1 <= pixels,
                    n == pixels * c,
                    1 <= c <= 3,
            ;
        }
        if c == 1 {
            let v = buf.data[p];
            out.push(v);
            out.push(v);
            out.push(v);
            out.push(255);
        } else {
            out.push(buf.data[3 * p]);
            out.push(buf.data[3 * p + 1]);
            out.push(buf.data[3 * p + 2]);
            out.push(255);
        }
        proof {
            let pp = p as int;
            assert forall|j: int| pp * 4 <= j < pp * 4 + 4 implies out@[j] == target[j] by {
                assert(j / 4 == pp && j % 4 == j - pp * 4) by (nonlinear_arith)
                    requires
                        pp * 4 <= j < pp * 4 + 4,
                ;
                if j % 4 != 3 && c == 3 {
                    assert((j / 4) * 3 + j % 4 == pp * 3 + (j - pp * 4));
                }
            }
        }
        p = p + 1;
    }
    proof {
        assert(out@ =~= target);
    }
    let r = PixelBuffer { width: w, height: h, channels: 4, data: out };
    proof {
        assert(r.data@.len() == r.width * r.height * 4) by (nonlinear_arith)
            requires
                r.data@.len() == pixels * 4,
                pixels == w * h,
                r.width == w,
                r.height == h,
        ;
        assert(alpha_plane(r.data@) =~= Seq::new(
            pixels,
            |j: int| if buf.channels == 4 { buf.data@[j * 4 + 3] } else { 255u8 },
        )) by {
            assert(r.data@.len() / 4 == pixels) by (nonlinear_arith)
                requires
                    r.data@.len() == pixels * 4,
            ;
            assert forall|j: int| 0 <= j < pixels implies alpha_plane(r.data@)[j] == 255u8 by {
                assert(r.data@[j * 4 + 3] == target[j * 4 + 3]);
                assert((j * 4 + 3) % 4 == 3 && (j * 4 + 3) / 4 == j) by (nonlinear_arith);
            }
        }
    }
    r
}

/// Sets the alpha plane of an RGBA buffer from one mask sample per
/// pixel; the color planes are untouched.
pub fn apply_alpha(buf: &mut PixelBuffer, mask: &Vec<u8>)
    requires
        old(buf).wf(),
        old(buf).channels == 4,
        mask@.len() >= old(buf).width * old(buf).height,
    ensures
        final(buf).wf(),
        final(buf).width == old(buf).width,
        final(buf).height == old(buf).height,
        final(buf).channels == 4,
        final(buf).data@.len() == old(buf).data@.len(),
        rgb_plane(final(buf).data@) == rgb_plane(old(buf).data@),
        alpha_plane(final(buf).data@) == mask@.take((old(buf).width * old(buf).height) as int),
{
    let ghost pixels = (old(buf).width * old(buf).height) as nat;
    let n = buf.data.len();
    let pix_n = n / 4;
    proof {
        assert(pix_n == pixels && pixels * 4 == n) by (nonlinear_arith)
            requires
                n == pixels * 4,
                pix_n == n as int / 4,
        ;
    }
    let mut p: usize = 0;
    while p < pix_n
        invariant
            0 <= p <= pix_n,
            pix_n == pixels,
            buf.data@.len() == n,
            old(buf).data@.len() == n,
            buf.width == old(buf).width,
            buf.height == old(buf).height,
            buf.channels == old(buf).channels,
            old(buf).channels == 4,
            pixels == old(buf).width * old(buf).height,
            n == pixels * 4,
            mask@.len() >= pixels,
            forall|j: int|
                0 <= j < n && j % 4 != 3 ==> buf.data@[j] == old(buf).data@[j],
            forall|j: int| 0 <= j < p ==> #[trigger] buf.data@[j * 4 + 3] == mask@[j],
            forall|j: int|
                p <= j < pixels ==> #[trigger] buf.data@[j * 4 + 3] == old(buf).data@[j * 4 + 3],
        decreases pix_n - p,
    {
        proof {
            assert(p * 4 + 3 < n && (p * 4 + 3) % 4 == 3 && (p * 4 + 3) / 4 == p)
                by (nonlinear_arith)
                requires
                    p + 1 <= pixels,
                    n == pixels * 4,
            ;
        }
        let v = mask[p];
        buf.data.set(4 * p + 3, v);
        proof {
            assert forall|j: int| p + 1 <= j < pixels implies #[trigger] buf.data@[j * 4 + 3]
                == old(buf).data@[j * 4 + 3] by {
                assert(j * 4 + 3 != p * 4 + 3 && 0 <= j * 4 + 3 < n) by (nonlinear_arith)
                    requires
                        p < j < pixels,
                        n == pixels * 4,
                ;
            }
            assert forall|j: int| 0 <= j <= p implies #[trigger] buf.data@[j * 4 + 3] == mask@[j] by {
                if j < p {
                    assert(j * 4 + 3 != p * 4 + 3 && 0 <= j * 4 + 3 < n) by (nonlinear_arith)
                        requires
                            0 <= j < p,
                            p < pixels,
                            n == pixels * 4,
                    ;
                }
            }
        }
        p = p + 1;
    }
    proof {
        assert(rgb_plane(buf.data@) =~= rgb_plane(old(buf).data@)) by {
            assert forall|j: int| 0 <= j < n / 4 * 3 implies rgb_plane(buf.data@)[j] == rgb_plane(
                old(buf).data@,
            )[j] by {
                assert(0 <= (j / 3) * 4 + j % 3 < n && ((j / 3) * 4 + j % 3) % 4 != 3)
                    by (nonlinear_arith)
                    requires
                        0 <= j < n / 4 * 3,
                        n == pixels * 4,
                ;
            }
        }
        assert(alpha_plane(buf.data@) =~= mask@.take(pixels as int)) by {
            assert(buf.data@.len() / 4 == pixels) by (nonlinear_arith)
                requires
                    buf.data@.len() == pixels * 4,
            ;
        }
    }
}

/// The color plane of an RGBA buffer, packed as RGB triplets.
pub fn split_rgb(buf: &PixelBuffer) -> (r: Vec<u8>)
    requires
        buf.wf(),
        buf.channels == 4,
    ensures
        r@ == rgb_plane(buf.data@),
        r@.len() == buf.width * buf.height * 3,
{
    let n = buf.data.len();
    let ghost pixels = (buf.width * buf.height) as nat;
    let out_n = n / 4 * 3;
    proof {
        assert(n / 4 == pixels && out_n == pixels * 3) by (nonlinear_arith)
            requires
                n == pixels * 4,
                out_n == (n as int / 4) * 3,
        ;
    }
    let mut out: Vec<u8> = Vec::new();
    let mut j: usize = 0;
    while j < out_n
        invariant
            0 <= j <= out_n,
            n == buf.data@.len(),
            n == pixels * 4,
            out_n == n / 4 * 3,
            out_n == pixels * 3,
            out@.len() == j,
            forall|i: int| 0 <= i < j ==> out@[i] == rgb_plane(buf.data@)[i],
        decreases out_n - j,
    {
        proof {
            assert(0 <= (j / 3) * 4 + j % 3 < n) by (nonlinear_arith)
                requires
                    0 <= j < out_n,
                    out_n == pixels * 3,
                    n == pixels * 4,
            ;
        }
        out.push(buf.data[(j / 3) * 4 + j % 3]);
        j = j + 1;
    }
    proof {
        assert(out@ =~= rgb_plane(buf.data@));
    }
    out
}

/// The alpha plane of an RGBA buffer, one byte per pixel.
pub fn split_alpha(buf: &PixelBuffer) -> (r: Vec<u8>)
    requires
        buf.wf(),
        buf.channels == 4,
    ensures
        r@ == alpha_plane(buf.data@),
        r@.len() == buf.width * buf.height,
{
    let n = buf.data.len();
    let ghost pixels = (buf.width * buf.height) as nat;
    let out_n = n / 4;
    proof {
        assert(out_n == pixels) by (nonlinear_arith)
            requires
                n == pixels * 4,
                out_n == n as int / 4,
        ;
    }
    let mut out: Vec<u8> = Vec::new();
    let mut j: usize = 0;
    while j < out_n
        invariant
            0 <= j <= out_n,
            n == buf.data@.len(),
            n == pixels * 4,
            out_n == n / 4,
            out@.len() == j,
            forall|i: int| 0 <= i < j ==> out@[i] == alpha_plane(buf.data@)[i],
        decreases out_n - j,
    {
        proof {
            assert(0 <= j * 4 + 3 < n) by (nonlinear_arith)
                requires
                    0 <= j < out_n,
                    out_n == n as int / 4,
            ;
        }
        out.push(buf.data[j * 4 + 3]);
        j = j + 1;
    }
    proof {
        assert(out@ =~= alpha_plane(buf.data@));
    }
    out
}

} // verus!
