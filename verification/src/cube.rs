//! How the faces and the edges of a unit cube are drawn.

use vstd::prelude::*;

verus! {

/// The two triangles of a face, as positions among its four corners.
pub const FACE_INDICES: [u32; 6] = [0, 1, 2, 0, 2, 3];

/// The corner of the texture that goes with each corner of a face.
pub const FACE_TEXTURE: [[u32; 2]; 4] = [[0, 0], [0, 1], [1, 1], [1, 0]];

/// The twelve edges of the cube, as pairs of positions in
/// `LINE_VERTICES`.
pub const LINE_INDICES: [u32; 24] = [
    0, 3, 0, 1, 0, 7, 5, 4, 5, 2, 5, 6, 2, 3, 2, 1, 4, 3, 4, 7, 6, 1, 6, 7,
];

/// The eight corners of the cube.
pub const LINE_VERTICES: [[u32; 3]; 8] = [
    [0, 0, 0],
    [0, 1, 0],
    [1, 1, 0],
    [1, 0, 0],
    [1, 0, 1],
    [1, 1, 1],
    [0, 1, 1],
    [0, 0, 1],
];

} // verus!
