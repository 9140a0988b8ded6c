//! The finished mosaic as it lies on disk: where it is, how large it is,
//! and whether it may become the desktop background.

use vstd::prelude::*;

verus! {

/// Why a finished mosaic cannot be used.
#[derive(Debug, PartialEq, Eq, Clone, Copy, Structural)]
pub enum ArtifactError {
    /// The file holds no bytes.
    EmptyArtifact,
}

/// A finished mosaic on disk. What is recorded here was read back from the
/// file, not taken from the canvas in memory.
#[derive(Debug)]
pub struct FullDisc {
    /// The absolute path of the file.
    pub path: String,
    /// The height of the image in pixels.
    pub height: u32,
    /// The width of the image in pixels.
    pub width: u32,
    /// The size of the file in bytes.
    pub size: u64,
}

impl FullDisc {
    /// Records a mosaic that was written to `path`, with the width and
    /// height in pixels and the size in bytes that the file has.
    pub fn new(path: String, width: u32, height: u32, size: u64) -> (disc: Self)
        ensures
            disc.path == path,
            disc.width == width,
            disc.height == height,
            disc.size == size,
    {
        FullDisc { path, height, width, size }
    }

    /// The width of the image in pixels.
    pub fn width(&self) -> (w: u32)
        ensures
            w == self.width,
    {
        self.width
    }

    /// The height of the image in pixels.
    pub fn height(&self) -> (h: u32)
        ensures
            h == self.height,
    {
        self.height
    }

    /// The size of the file in bytes.
    pub fn size(&self) -> (n: u64)
        ensures
            n == self.size,
    {
        self.size
    }

    /// Whether this is the full mosaic: 11000 pixels wide and high.
    pub fn is_full_size(&self) -> (full: bool)
        ensures
            full == (self.width == 11000 && self.height == 11000),
    {
        self.width == 11000 && self.height == 11000
    }

    /// Clears the mosaic for use as the desktop background: only a file that
    /// holds something may be set.
    pub fn set_this(&self) -> (r: Result<(), ArtifactError>)
        ensures
            r is Ok <==> self.size > 0,
            r is Err ==> r == Err::<(), ArtifactError>(ArtifactError::EmptyArtifact),
    {
        if self.size > 0 {
            Ok(())
        } else {
            Err(ArtifactError::EmptyArtifact)
        }
    }

    /// Records that the file was replaced by a smaller image: the path, the
    /// width and height and the size in bytes that it has now.
    pub fn record_resize(&mut self, path: String, width: u32, height: u32, size: u64)
        ensures
            final(self).path == path,
            final(self).width == width,
            final(self).height == height,
            final(self).size == size,
    {
        self.path = path;
        self.width = width;
        self.height = height;
        self.size = size;
    }
}

} // verus!
