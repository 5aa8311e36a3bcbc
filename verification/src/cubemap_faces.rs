//! The six faces of a skybox cubemap: their edge length and the row layout of an upload.
//!
//! Faces come in the order of the cube's array layers (+X, -X, +Y, -Y, +Z, -Z). The first
//! face fixes the edge length and must be square; every other face must be as wide.

use vstd::prelude::*;

verus! {

/// Why a set of faces cannot form a cubemap.
#[derive(Clone, Copy, Debug, PartialEq, Eq, Structural)]
pub enum CubemapFaceError {
    /// The first face is not square.
    NotSquare { width: u32, height: u32 },
    /// Face `face` is `width` wide where the first face gave `expected`.
    SizeMismatch { face: usize, width: u32, expected: u32 },
}

/// Every face before `end` is `size` wide.
pub open spec fn widths_agree(faces: Seq<(u32, u32)>, size: u32, end: int) -> bool {
    forall|i: int| 0 <= i < end ==> #[trigger] faces[i].0 == size
}

/// `i` is the first face whose width differs from the first face's.
pub open spec fn first_mismatch(faces: Seq<(u32, u32)>, i: int) -> bool {
    &&& 0 < i < faces.len()
    &&& faces[i].0 != faces[0].0
    &&& widths_agree(faces, faces[0].0, i)
}

/// Edge length of the cubemap whose faces have the given (width, height), in layer order.
pub fn cubemap_face_size(faces: &[(u32, u32)]) -> (size: Result<u32, CubemapFaceError>)
    requires
        faces@.len() >= 1,
    ensures
        faces@[0].0 != faces@[0].1 ==> size == Err::<u32, CubemapFaceError>(
            CubemapFaceError::NotSquare { width: faces@[0].0, height: faces@[0].1 },
        ),
        size is Ok <==> faces@[0].0 == faces@[0].1 && widths_agree(faces@, faces@[0].0, faces@.len() as int),
        size is Ok ==> size == Ok::<u32, CubemapFaceError>(faces@[0].0),
        match size {
            Err(CubemapFaceError::SizeMismatch { face, width, expected }) => {
                &&& faces@[0].0 == faces@[0].1
                &&& first_mismatch(faces@, face as int)
                &&& width == faces@[face as int].0
                &&& expected == faces@[0].0
            },
            _ => true,
        },
{
    let (width, height) = faces[0];
    if width != height {
        return Err(CubemapFaceError::NotSquare { width, height });
    }
    let mut i: usize = 1;
    while i < faces.len()
        invariant
            1 <= i <= faces@.len(),
            width == faces@[0].0,
            width == faces@[0].1,
            widths_agree(faces@, width, i as int),
        decreases faces@.len() - i,
    {
        if faces[i].0 != width {
            return Err(CubemapFaceError::SizeMismatch { face: i, width: faces[i].0, expected: width });
        }
        i = i + 1;
    }
    Ok(width)
}

/// Bytes in one row of a face `size` texels wide at four bytes a texel; `None` when that
/// does not fit in a `u32`.
pub fn face_row_bytes(size: u32) -> (bytes: Option<u32>)
    ensures
        bytes == (if 4 * size <= u32::MAX {
            Some((4 * size) as u32)
        } else {
            None::<u32>
        }),
{
    size.checked_mul(4)
}

} // verus!
