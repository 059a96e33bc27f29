//! Images for trying the library out.

use vstd::prelude::*;
use crate::raster::{byte_count, lemma_byte_index, max_buffer_bytes, Raster};

verus! {

/// An opaque image of the given size and of one colour.
pub fn generate_test_image(width: u32, height: u32, color: [u8; 3]) -> (image: Raster)
    requires
        byte_count(width as nat, height as nat) <= max_buffer_bytes(),
    ensures
        image@.wf(),
        image@.width == width,
        image@.height == height,
        forall|x: int, y: int, c: int|
            image@.contains(x, y) && 0 <= c < 3 ==> #[trigger] image@.sample(x, y, c) == color[c],
        forall|x: int, y: int| image@.contains(x, y) ==> #[trigger] image@.sample(x, y, 3) == 255,
{
    let mut image = Raster::new(width, height);
    let mut i: usize = 0;
    let len: usize = image.data.len();
    while i < len
        invariant
            i <= len == image.data.len(),
            i % 4 == 0,
            len == byte_count(width as nat, height as nat),
            image.width == width,
            image.height == height,
            forall|k: int| 0 <= k < i && k % 4 < 3 ==> image.data[k] == color[k % 4],
            forall|k: int| 0 <= k < i && k % 4 == 3 ==> image.data[k] == 255,
        decreases len - i,
    {
        image.data[i] = color[0];
        image.data[i + 1] = color[1];
        image.data[i + 2] = color[2];
        image.data[i + 3] = 255;
        i = i + 4;
    }
    proof {
        assert forall|x: int, y: int, c: int| image@.contains(x, y) && 0 <= c < 4 implies (c < 3
            ==> #[trigger] image@.sample(x, y, c) == color[c]) && (c == 3 ==> image@.sample(
            x,
            y,
            c,
        ) == 255) by {
            lemma_byte_index(width as nat, height as nat, x, y, c);
        }
    }
    image
}

} // verus!
