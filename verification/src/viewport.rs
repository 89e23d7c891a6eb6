//! The viewport's adaptation of a developed RGBA8 image to the renderer, which
//! takes BGRA8 pixels.

use crate::engine::{rgba_len_for, DevelopedImage};
use vstd::prelude::*;

verus! {

/// `data` with the first and third byte of every complete four-byte pixel
/// exchanged; the bytes of an incomplete trailing pixel stay as they are.
pub open spec fn red_blue_swapped(data: Seq<u8>) -> Seq<u8> {
    Seq::new(
        data.len(),
        |i: int|
            if i < data.len() - data.len() % 4 {
                if i % 4 == 0 {
                    data[i + 2]
                } else if i % 4 == 2 {
                    data[i - 2]
                } else {
                    data[i]
                }
            } else {
                data[i]
            },
    )
}

/// Exchanges the red and blue channel of every complete four-byte pixel,
/// turning RGBA8 into BGRA8 and back.
pub fn swap_red_blue(data: &mut Vec<u8>)
    ensures
        final(data)@ == red_blue_swapped(old(data)@),
{
    let len = data.len();
    let ghost original = data@;
    let full = len - len % 4;
    proof {
        lemma_whole_pixels(len as int);
    }
    let mut i: usize = 0;
    while i < full
        invariant
            len == original.len(),
            full == len - len % 4,
            full % 4 == 0,
            full <= len,
            data@.len() == len,
            i % 4 == 0,
            i <= full,
            forall|j: int| 0 <= j < i ==> #[trigger] data@[j] == red_blue_swapped(original)[j],
            forall|j: int| i <= j < len ==> #[trigger] data@[j] == original[j],
        decreases full - i,
    {
        proof {
            lemma_next_pixel_fits(i as int, full as int);
            lemma_swapped_pixel(original, i as int);
        }
        let red = data[i];
        let blue = data[i + 2];
        data.set(i, blue);
        data.set(i + 2, red);
        assert forall|j: int| 0 <= j < i + 4 implies #[trigger] data@[j] == red_blue_swapped(original)[j] by {
            if j >= i {
                assert(j == i || j == i + 1 || j == i + 2 || j == i + 3);
            }
        }
        i += 4;
    }
    proof {
        lemma_trailing_bytes(original, full as int);
    }
    assert(data@ =~= red_blue_swapped(original));
}

proof fn lemma_whole_pixels(len: int)
    requires
        0 <= len,
    ensures
        (len - len % 4) % 4 == 0,
        0 <= len - len % 4 <= len,
{
    assert((len - len % 4) % 4 == 0 && 0 <= len % 4 < 4) by (nonlinear_arith)
        requires
            0 <= len,
    ;
}

proof fn lemma_next_pixel_fits(i: int, full: int)
    requires
        0 <= i < full,
        i % 4 == 0,
        full % 4 == 0,
    ensures
        i + 4 <= full,
        (i + 4) % 4 == 0,
{
    assert(i + 4 <= full && (i + 4) % 4 == 0) by (nonlinear_arith)
        requires
            0 <= i < full,
            i % 4 == 0,
            full % 4 == 0,
    ;
}

proof fn lemma_swapped_pixel(data: Seq<u8>, i: int)
    requires
        0 <= i,
        i % 4 == 0,
        i + 4 <= data.len() - data.len() % 4,
    ensures
        red_blue_swapped(data)[i] == data[i + 2],
        red_blue_swapped(data)[i + 1] == data[i + 1],
        red_blue_swapped(data)[i + 2] == data[i],
        red_blue_swapped(data)[i + 3] == data[i + 3],
{
    assert((i + 1) % 4 == 1 && (i + 2) % 4 == 2 && (i + 3) % 4 == 3) by (nonlinear_arith)
        requires
            i % 4 == 0,
    ;
}

proof fn lemma_trailing_bytes(data: Seq<u8>, full: int)
    requires
        full == data.len() - data.len() % 4,
    ensures
        forall|j: int| full <= j < data.len() ==> #[trigger] red_blue_swapped(data)[j] == data[j],
{
}

/// Why a developed image cannot be handed to the renderer: its buffer length
/// is not `width * height * 4` (`expected` is `None` when that overflows).
#[derive(Debug, Clone, PartialEq, Eq, Structural)]
pub struct InvalidRgbaBuffer {
    pub expected: Option<usize>,
    pub actual: usize,
}

/// Checks that the engine's buffer holds exactly `width * height` RGBA8 pixels
/// and converts it to the renderer's BGRA8 order.
pub fn prepare_render_pixels(image: DevelopedImage) -> (prepared: Result<DevelopedImage, InvalidRgbaBuffer>)
    ensures
        match prepared {
            Ok(out) => image.rgba_len_is_valid() && out.width == image.width && out.height == image.height
                && out.data@ == red_blue_swapped(image.data@),
            Err(e) => !image.rgba_len_is_valid() && e.expected == rgba_len_for(image.width, image.height)
                && e.actual == image.data@.len(),
        },
{
    let expected = image.expected_rgba_len();
    let actual = image.data.len();
    if !image.has_valid_rgba_len() {
        return Err(InvalidRgbaBuffer { expected, actual });
    }
    let DevelopedImage { width, height, mut data } = image;
    swap_red_blue(&mut data);
    Ok(DevelopedImage { width, height, data })
}

/// Exchanging red and blue twice restores every buffer.
pub proof fn lemma_swap_red_blue_involution(data: Seq<u8>)
    ensures
        red_blue_swapped(red_blue_swapped(data)) == data,
{
    assert(red_blue_swapped(red_blue_swapped(data)) =~= data);
}

/// The exchange keeps the length and the alpha and green channels.
pub proof fn lemma_swap_red_blue_keeps_green_alpha(data: Seq<u8>, i: int)
    requires
        0 <= i < data.len(),
        i % 4 == 1 || i % 4 == 3,
    ensures
        red_blue_swapped(data).len() == data.len(),
        red_blue_swapped(data)[i] == data[i],
{
}

} // verus!
