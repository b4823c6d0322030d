//! Small decisions for sorting images by their properties.

use vstd::prelude::*;

verus! {

/// The first of two options that holds a value.
pub fn unwrap_two<T>(l: Option<T>, b: Option<T>) -> (r: T)
    requires
        l is Some || b is Some,
    ensures
        r == match l {
            Some(v) => v,
            None => b->0,
        },
{
    match l {
        Some(val) => val,
        None => b.unwrap(),
    }
}

/// Whether an image of the given width and height is larger than
/// `px_size` in one direction, and is therefore moved.
pub fn is_image_to_move(dimensions: (u32, u32), px_size: u32) -> (r: bool)
    ensures
        r == (dimensions.0 > px_size || dimensions.1 > px_size),
{
    dimensions.0 > px_size || dimensions.1 > px_size
}

/// The sum of the first `n` values.
pub open spec fn sum_of(pixels: Seq<u8>, n: int) -> int
    decreases n,
{
    if n <= 0 {
        0
    } else {
        sum_of(pixels, n - 1) + pixels[n - 1]
    }
}

/// The sum of the values of all pixels of a grey image.
pub fn pixels_sum(pixels: &Vec<u8>) -> (sum: i64)
    requires
        pixels.len() <= 0x80_0000_0000_0000,
    ensures
        sum == sum_of(pixels@, pixels.len() as int),
{
    let mut sum: i64 = 0;
    let mut i: usize = 0;
    while i < pixels.len()
        invariant
            i <= pixels.len(),
            pixels.len() <= 0x80_0000_0000_0000,
            sum == sum_of(pixels@, i as int),
            0 <= sum <= 255 * i,
        decreases pixels.len() - i,
    {
        sum = sum + pixels[i] as i64;
        i += 1;
    }
    sum
}

} // verus!
