//! Textures as the interface sees them: pixel data behind a shared lock.
//! Loading and decoding happen elsewhere; the interface only passes the
//! shared reference on to the draw commands that use it.

use std::sync::Arc;
use std::sync::Mutex;
use vstd::prelude::*;

verus! {

/// `std::sync::Mutex`, declared so that it can stand in fields and
/// signatures. Nothing is claimed about what it guards.
#[verifier::external_type_specification]
#[verifier::external_body]
#[verifier::reject_recursive_types(T)]
pub struct ExMutex<T: ?Sized>(Mutex<T>);

/// Pixel data of an image, row by row, four bytes per pixel.
#[derive(Debug)]
pub struct Texture {
    pub width: u32,
    pub height: u32,
    pub pixels: Vec<u8>,
}

impl Texture {
    pub fn new(width: u32, height: u32, pixels: Vec<u8>) -> (texture: Texture)
        ensures
            texture.width == width,
            texture.height == height,
            texture.pixels == pixels,
    {
        Texture { width, height, pixels }
    }
}

/// `Arc::clone` on a shared texture: another owner of the same allocation.
/// The contract claims that the new reference points at the very mutex the
/// given one points at.
#[verifier::external_body]
pub(crate) fn share(texture: &Arc<Mutex<Texture>>) -> (shared: Arc<Mutex<Texture>>)
    ensures
        shared == *texture,
{
    Arc::clone(texture)
}

} // verus!
