//! Rendering the curl grid to RGBA pixel data, for a host-side texture.

use vstd::prelude::*;
use crate::compute::MAX_CURL;
use crate::field::DistanceField;
use crate::math::{div_floor, SCALE};

verus! {

/// Pixel data for a field visualization: RGBA bytes, row-major from the top
/// row down (so the grid's highest `y` comes first).
pub struct FieldImage {
    pub width: usize,
    pub height: usize,
    pub data: Vec<u8>,
}

/// A curl value mapped to a color channel: clamped to `[0, SCALE]` and
/// rescaled to a byte.
pub open spec fn curl_channel(v: int) -> u8 {
    if v <= 0 {
        0u8
    } else if v >= SCALE {
        255u8
    } else {
        ((v * 255) / (SCALE as int)) as u8
    }
}

/// Computes [`curl_channel`] exactly.
fn curl_channel_exec(v: i64) -> (b: u8)
    requires
        -MAX_CURL <= v <= MAX_CURL,
    ensures
        b == curl_channel(v as int),
{
    if v <= 0 {
        0
    } else if v >= SCALE {
        255
    } else {
        let q = div_floor(v * 255, SCALE);
        proof {
            crate::math::lemma_div_bound_scaled((v as int) * 255, SCALE as int, 255);
        }
        q as u8
    }
}

/// The four RGBA bytes of one curl cell: positive curl in the red channel,
/// negative curl in the green channel, full opacity.
pub open spec fn curl_pixel_ok(data: Seq<u8>, base: int, v: int) -> bool {
    &&& data[base] == curl_channel(v)
    &&& data[base + 1] == curl_channel(-v)
    &&& data[base + 2] == 0u8
    &&& data[base + 3] == 255u8
}

/// A flat RGBA pixel index of an earlier row stays below the current row's
/// start offset.
proof fn lemma_flat_index_lt(rr: int, cc: int, r: int, w: int)
    requires
        0 <= rr < r,
        0 <= cc < w,
    ensures
        0 <= 4 * (rr * w + cc),
        4 * (rr * w + cc) + 3 < 4 * (r * w),
{
    assert(rr * w + cc < r * w) by (nonlinear_arith)
        requires
            0 <= rr < r,
            0 <= cc < w,
    {}
    assert(0 <= rr * w) by (nonlinear_arith)
        requires
            0 <= rr,
            0 < w,
    {}
}

/// Pixel `(r, c)` of the image (row-major, top row first) shows the curl
/// grid cell `(c, h - 1 - r)`.
pub open spec fn curl_pixel_at(
    data: Seq<u8>,
    g: Seq<Vec<i64>>,
    w: int,
    h: int,
    r: int,
    c: int,
) -> bool {
    curl_pixel_ok(data, 4 * (r * w + c), g[c]@[h - 1 - r] as int)
}

/// Render the curl grid of a populated field to RGBA pixel data: row `r` of
/// the image shows grid row `height - 1 - r`, cell `(x, y)` colors the
/// pixel at `(x, height - 1 - y)`.
#[verifier::loop_isolation(false)]
pub fn curl_image(field: &DistanceField) -> (img: FieldImage)
    requires
        field.wf(),
        !field.grids_empty(),
    ensures
        img.width == field.sample_dimensions.0,
        img.height == field.sample_dimensions.1,
        img.data@.len() == 4 * img.width * img.height,
        forall|r: int, c: int|
            0 <= r < img.height && 0 <= c < img.width ==> #[trigger] curl_pixel_at(
                img.data@,
                field.curl_field@,
                img.width as int,
                img.height as int,
                r,
                c,
            ),
{
    let w = field.sample_dimensions.0;
    let h = field.sample_dimensions.1;
    let mut data: Vec<u8> = Vec::new();
    let mut r: usize = 0;
    while r < h
        invariant
            r <= h,
            data@.len() == 4 * (r * w),
            forall|rr: int, cc: int|
                0 <= rr < r && 0 <= cc < w ==> #[trigger] curl_pixel_at(
                    data@,
                    field.curl_field@,
                    w as int,
                    h as int,
                    rr,
                    cc,
                ),
        decreases h - r,
    {
        let y = h - 1 - r;
        let mut c: usize = 0;
        while c < w
            invariant
                c <= w,
                data@.len() == 4 * (r * w) + 4 * c,
                forall|rr: int, cc: int|
                    0 <= rr < r && 0 <= cc < w ==> #[trigger] curl_pixel_at(
                        data@,
                        field.curl_field@,
                        w as int,
                        h as int,
                        rr,
                        cc,
                    ),
                forall|cc: int|
                    0 <= cc < c ==> #[trigger] curl_pixel_at(
                        data@,
                        field.curl_field@,
                        w as int,
                        h as int,
                        r as int,
                        cc,
                    ),
            decreases w - c,
        {
            let v = field.curl_field[c][y];
            let red = curl_channel_exec(v);
            let green = curl_channel_exec(-v);
            assert(4 * ((r as int) * (w as int) + (c as int)) == data@.len());
            let ghost pre = data@;
            data.push(red);
            data.push(green);
            data.push(0);
            data.push(255);
            proof {
                let gw = w as int;
                let gh = h as int;
                let gr = r as int;
                let gc = c as int;
                let cf = field.curl_field@;
                assert forall|rr: int, cc: int|
                    0 <= rr < gr && 0 <= cc < gw implies #[trigger] curl_pixel_at(
                    data@,
                    cf,
                    gw,
                    gh,
                    rr,
                    cc,
                ) by {
                    lemma_flat_index_lt(rr, cc, gr, gw);
                    assert(curl_pixel_at(pre, cf, gw, gh, rr, cc));
                }
                assert forall|cc: int|
                    0 <= cc < gc + 1 implies #[trigger] curl_pixel_at(
                    data@,
                    cf,
                    gw,
                    gh,
                    gr,
                    cc,
                ) by {
                    if cc < gc {
                        assert(curl_pixel_at(pre, cf, gw, gh, gr, cc));
                    } else {
                        assert(data@[4 * (gr * gw + gc)] == red);
                    }
                }
            }
            c += 1;
        }
        proof {
            assert(4 * (((r + 1) as int) * (w as int)) == 4 * ((r as int) * (w as int)) + 4 * (
            w as int)) by (nonlinear_arith);
        }
        r += 1;
    }
    proof {
        assert(4 * ((h as int) * (w as int)) == 4 * (w as int) * (h as int)) by (nonlinear_arith);
    }
    FieldImage { width: w, height: h, data }
}

} // verus!
