//! Triangle index buffers of the generated meshes.
//!
//! Vertex positions are floating point and are computed elsewhere; which vertices form which
//! triangles depends only on the mesh's subdivision counts, and is computed here.

use vstd::prelude::*;

verus! {

/// The two triangles of the plain flag quad (vertices: bottom-left, bottom-right, top-right,
/// top-left).
pub fn flag_quad_indices() -> (indices: Vec<u16>)
    ensures
        indices@ == seq![0u16, 1, 2, 0, 2, 3],
{
    vec![0, 1, 2, 0, 2, 3]
}

/// The two triangles of the grid cell whose lower-left vertex is `base`, in a grid `cols`
/// vertices wide; indices are stored as 16-bit values.
pub open spec fn flag_cell(base: int, cols: int) -> Seq<u16> {
    seq![
        base as u16,
        (base + 1) as u16,
        (base + cols + 1) as u16,
        base as u16,
        (base + cols + 1) as u16,
        (base + cols) as u16,
    ]
}

/// The triangles of cells `0..i` of row `j` of a flag grid `cols` vertices wide.
pub open spec fn flag_row(j: int, cols: int, i: int) -> Seq<u16>
    decreases i,
{
    if i <= 0 {
        Seq::empty()
    } else {
        flag_row(j, cols, i - 1) + flag_cell(j * cols + (i - 1), cols)
    }
}

/// The triangles of rows `0..j` of a flag grid of `sx` cells per row.
pub open spec fn flag_rows(sx: int, j: int) -> Seq<u16>
    decreases j,
{
    if j <= 0 {
        Seq::empty()
    } else {
        flag_rows(sx, j - 1) + flag_row(j - 1, sx + 1, sx)
    }
}

/// Number of vertices of a flag subdivided `sx × sy` times: `(sx + 1) * (sy + 1)`.
pub open spec fn flag_vertex_count(sx: int, sy: int) -> int {
    (sx + 1) * (sy + 1)
}

/// The index buffer of a flag subdivided into `subdivisions_x × subdivisions_y` cells, two
/// triangles per cell, rows from the bottom, cells from the pole; each index is the vertex
/// number `row * (subdivisions_x + 1) + column` stored in 16 bits.
pub fn flag_grid_indices(subdivisions_x: u32, subdivisions_y: u32) -> (indices: Vec<u16>)
    requires
        flag_vertex_count(subdivisions_x as int, subdivisions_y as int) <= u32::MAX,
    ensures
        indices@ == flag_rows(subdivisions_x as int, subdivisions_y as int),
        indices@.len() == 6 * subdivisions_x * subdivisions_y,
        forall|j: int, i: int| 0 <= j < subdivisions_y && 0 <= i < subdivisions_x ==> #[trigger] flag_cell_at(
            indices@,
            subdivisions_x as int,
            j,
            i,
        ),
{
    proof {
        lemma_flag_grid_triangles(subdivisions_x as int, subdivisions_y as int);
    }
    let sx = subdivisions_x;
    let sy = subdivisions_y;
    assert(sx + 1 <= (sx + 1) * (sy + 1)) by (nonlinear_arith);
    let cols = sx + 1;
    let mut indices: Vec<u16> = Vec::new();
    let mut j: u32 = 0;
    while j < sy
        invariant
            cols == sx + 1,
            (sx + 1) * (sy + 1) <= u32::MAX,
            j <= sy,
            indices@ == flag_rows(sx as int, j as int),
        decreases sy - j,
    {
        let ghost row_start = indices@;
        let mut i: u32 = 0;
        while i < sx
            invariant
                cols == sx + 1,
                (sx + 1) * (sy + 1) <= u32::MAX,
                j < sy,
                i <= sx,
                indices@ == row_start + flag_row(j as int, cols as int, i as int),
            decreases sx - i,
        {
            assert(j * cols + i + cols + 1 <= (sx + 1) * (sy + 1)) by (nonlinear_arith)
                requires
                    cols == sx + 1,
                    j < sy,
                    i < sx,
            ;
            let base = j * cols + i;
            indices.push(base as u16);
            indices.push((base + 1) as u16);
            indices.push((base + cols + 1) as u16);
            indices.push(base as u16);
            indices.push((base + cols + 1) as u16);
            indices.push((base + cols) as u16);
            proof {
                assert(flag_row(j as int, cols as int, i + 1) == flag_row(j as int, cols as int, i as int) + flag_cell(base as int, cols as int));
                assert(indices@ =~= row_start + flag_row(j as int, cols as int, i + 1));
            }
            i = i + 1;
        }
        assert(indices@ =~= flag_rows(sx as int, j + 1));
        j = j + 1;
    }
    indices
}

/// Every value in `s` is below `bound`.
pub open spec fn all_below(s: Seq<u16>, bound: int) -> bool {
    forall|k: int| 0 <= k < s.len() ==> (#[trigger] s[k]) < bound
}

/// Every value in `s` is below `bound`.
pub open spec fn all_below_u32(s: Seq<u32>, bound: int) -> bool {
    forall|k: int| 0 <= k < s.len() ==> (#[trigger] s[k]) < bound
}

proof fn lemma_all_below_concat(a: Seq<u16>, b: Seq<u16>, bound: int)
    requires
        all_below(a, bound),
        all_below(b, bound),
    ensures
        all_below(a + b, bound),
{
    assert forall|k: int| 0 <= k < (a + b).len() implies (#[trigger] (a + b)[k]) < bound by {
        if k < a.len() {
            assert((a + b)[k] == a[k]);
        } else {
            assert((a + b)[k] == b[k - a.len()]);
        }
    }
}

proof fn lemma_flag_row_below(j: int, sx: int, sy: int, i: int)
    requires
        0 <= j < sy,
        0 <= i <= sx,
        flag_vertex_count(sx, sy) <= 0x1_0000,
    ensures
        all_below(flag_row(j, sx + 1, i), flag_vertex_count(sx, sy)),
    decreases i,
{
    if i > 0 {
        lemma_flag_row_below(j, sx, sy, i - 1);
        let cols = sx + 1;
        let base = j * cols + (i - 1);
        assert(0 <= j * cols) by (nonlinear_arith)
            requires
                0 <= j,
                0 < cols,
        ;
        assert(j * cols + cols <= sy * cols) by (nonlinear_arith)
            requires
                j + 1 <= sy,
                0 < cols,
        ;
        assert(sy * cols + cols == (sx + 1) * (sy + 1)) by (nonlinear_arith)
            requires
                cols == sx + 1,
        ;
        assert(0 <= base && base + cols + 1 <= (sx + 1) * (sy + 1));
        let cell = flag_cell(base, cols);
        assert(all_below(cell, flag_vertex_count(sx, sy))) by {
            assert(base as u16 == base);
            assert((base + 1) as u16 == base + 1);
            assert((base + cols + 1) as u16 == base + cols + 1);
            assert((base + cols) as u16 == base + cols);
        }
        lemma_all_below_concat(flag_row(j, cols, i - 1), cell, flag_vertex_count(sx, sy));
    }
}

proof fn lemma_flag_rows_below(sx: int, sy: int, j: int)
    requires
        0 <= sx,
        0 <= j <= sy,
        flag_vertex_count(sx, sy) <= 0x1_0000,
    ensures
        all_below(flag_rows(sx, j), flag_vertex_count(sx, sy)),
    decreases j,
{
    if j > 0 {
        lemma_flag_rows_below(sx, sy, j - 1);
        lemma_flag_row_below(j - 1, sx, sy, sx);
        lemma_all_below_concat(flag_rows(sx, j - 1), flag_row(j - 1, sx + 1, sx), flag_vertex_count(sx, sy));
    }
}

/// The flag grid has two triangles per cell.
proof fn lemma_flag_rows_len(sx: int, j: int)
    requires
        0 <= sx,
        0 <= j,
    ensures
        flag_rows(sx, j).len() == 6 * sx * j,
    decreases j,
{
    if j > 0 {
        lemma_flag_rows_len(sx, j - 1);
        lemma_flag_row_len(j - 1, sx + 1, sx);
        assert(flag_rows(sx, j).len() == flag_rows(sx, j - 1).len() + flag_row(j - 1, sx + 1, sx).len());
        assert(6 * sx * (j - 1) + 6 * sx == 6 * sx * j) by (nonlinear_arith);
    } else {
        assert(6 * sx * j == 0) by (nonlinear_arith)
            requires
                j == 0,
        ;
    }
}

proof fn lemma_flag_row_len(j: int, cols: int, i: int)
    requires
        0 <= i,
    ensures
        flag_row(j, cols, i).len() == 6 * i,
    decreases i,
{
    if i > 0 {
        lemma_flag_row_len(j, cols, i - 1);
    }
}

/// Cell `i` of row `j` of a flag grid `sx` cells wide (vertex rows `sx + 1` wide, lower-left
/// vertex `b = j * (sx + 1) + i`): triangles `(b, b + 1, b + sx + 2)` and
/// `(b, b + sx + 2, b + sx + 1)`, stored in 16 bits, at position `6 * (j * sx + i)`.
pub open spec fn flag_cell_at(ix: Seq<u16>, sx: int, j: int, i: int) -> bool {
    let cols = sx + 1;
    let b = j * cols + i;
    let p = 6 * (j * sx + i);
    &&& 0 <= p
    &&& p + 5 < ix.len()
    &&& ix[p] == b as u16
    &&& ix[p + 1] == (b + 1) as u16
    &&& ix[p + 2] == (b + cols + 1) as u16
    &&& ix[p + 3] == b as u16
    &&& ix[p + 4] == (b + cols + 1) as u16
    &&& ix[p + 5] == (b + cols) as u16
}

/// Index `6 * c + k` of `flag_row(j, cols, i)` is index `k` of cell `c`.
proof fn lemma_flag_row_at(j: int, cols: int, i: int, c: int, k: int)
    requires
        0 <= i,
    ensures
        flag_row(j, cols, i).len() == 6 * i,
        0 <= c < i && 0 <= k < 6 ==> flag_row(j, cols, i)[6 * c + k] == flag_cell(j * cols + c, cols)[k],
    decreases i,
{
    if i > 0 {
        lemma_flag_row_at(j, cols, i - 1, c, k);
    }
}

/// Index `6 * (j * sx + c) + k` of the first `n` rows is index `k` of cell `c` of row `j`.
proof fn lemma_flag_rows_at(sx: int, n: int, j: int, c: int, k: int)
    requires
        0 <= sx,
        0 <= n,
    ensures
        flag_rows(sx, n).len() == 6 * sx * n,
        0 <= j < n && 0 <= c < sx && 0 <= k < 6 ==> flag_rows(sx, n)[6 * (j * sx + c) + k] == flag_cell(
            j * (sx + 1) + c,
            sx + 1,
        )[k],
    decreases n,
{
    lemma_flag_rows_len(sx, n);
    if n > 0 {
        lemma_flag_rows_at(sx, n - 1, j, c, k);
        lemma_flag_row_at(n - 1, sx + 1, sx, c, k);
        lemma_flag_rows_len(sx, n - 1);
        if 0 <= j < n && 0 <= c < sx && 0 <= k < 6 {
            if j < n - 1 {
                assert(6 * (j * sx + c) + k < 6 * sx * (n - 1)) by (nonlinear_arith)
                    requires
                        0 <= j < n - 1,
                        0 <= c < sx,
                        0 <= k < 6,
                ;
                assert(0 <= 6 * (j * sx + c) + k) by (nonlinear_arith)
                    requires
                        0 <= j,
                        0 <= c,
                        0 <= sx,
                        0 <= k,
                ;
            } else {
                assert(6 * (j * sx + c) + k == 6 * sx * (n - 1) + (6 * c + k)) by (nonlinear_arith)
                    requires
                        j == n - 1,
                ;
                assert(6 * c + k < 6 * sx);
            }
        }
    }
}

/// A flag grid's index buffer: every cell of every row has its two triangles, row by row and
/// cell by cell, and there is nothing else: `6 * sx * sy` indices.
pub proof fn lemma_flag_grid_triangles(sx: int, sy: int)
    requires
        0 <= sx,
        0 <= sy,
    ensures
        flag_rows(sx, sy).len() == 6 * sx * sy,
        forall|j: int, i: int| 0 <= j < sy && 0 <= i < sx ==> #[trigger] flag_cell_at(flag_rows(sx, sy), sx, j, i),
{
    lemma_flag_rows_len(sx, sy);
    assert forall|j: int, i: int| 0 <= j < sy && 0 <= i < sx implies #[trigger] flag_cell_at(flag_rows(sx, sy), sx, j, i) by {
        lemma_flag_rows_at(sx, sy, j, i, 0);
        lemma_flag_rows_at(sx, sy, j, i, 1);
        lemma_flag_rows_at(sx, sy, j, i, 2);
        lemma_flag_rows_at(sx, sy, j, i, 3);
        lemma_flag_rows_at(sx, sy, j, i, 4);
        lemma_flag_rows_at(sx, sy, j, i, 5);
        assert(6 * (j * sx + i) + 5 < 6 * sx * sy) by (nonlinear_arith)
            requires
                0 <= j < sy,
                0 <= i < sx,
        ;
        assert(0 <= 6 * (j * sx + i)) by (nonlinear_arith)
            requires
                0 <= j,
                0 <= i,
                0 <= sx,
        ;
    }
}

/// A flag grid whose vertices fit 16-bit indices has `6 * sx * sy` indices, each naming one of
/// its `(sx + 1) * (sy + 1)` vertices.
pub proof fn lemma_flag_grid_indices_in_range(sx: u32, sy: u32)
    requires
        flag_vertex_count(sx as int, sy as int) <= 0x1_0000,
    ensures
        flag_rows(sx as int, sy as int).len() == 6 * sx * sy,
        all_below(flag_rows(sx as int, sy as int), flag_vertex_count(sx as int, sy as int)),
{
    lemma_flag_rows_len(sx as int, sy as int);
    lemma_flag_rows_below(sx as int, sy as int, sy as int);
}

/// The two triangles of face `f` of a box (4 vertices per face, starting at `4 * f`).
pub open spec fn box_face(f: int) -> Seq<u32> {
    let b = 4 * f;
    seq![b as u32, (b + 1) as u32, (b + 2) as u32, b as u32, (b + 2) as u32, (b + 3) as u32]
}

/// The triangles of faces `0..f` of a box.
pub open spec fn box_faces(f: int) -> Seq<u32>
    decreases f,
{
    if f <= 0 {
        Seq::empty()
    } else {
        box_faces(f - 1) + box_face(f - 1)
    }
}

/// The index buffer of a box mesh: six faces of four vertices each, two triangles per face.
pub fn box_mesh_indices() -> (indices: Vec<u32>)
    ensures
        indices@ == box_faces(6),
        indices@ == box_triangles(),
{
    proof {
        lemma_box_triangles();
    }
    let mut indices: Vec<u32> = Vec::new();
    let mut f: u32 = 0;
    while f < 6
        invariant
            f <= 6,
            indices@ == box_faces(f as int),
        decreases 6 - f,
    {
        let base = f * 4;
        indices.push(base);
        indices.push(base + 1);
        indices.push(base + 2);
        indices.push(base);
        indices.push(base + 2);
        indices.push(base + 3);
        assert(indices@ =~= box_faces(f + 1));
        f = f + 1;
    }
    indices
}

/// Vertices of one box mesh: four per face.
pub const BOX_VERTEX_COUNT: u32 = 24;

/// The quad between outer arc vertices `outer + i`, `outer + i + 1` and inner arc vertices
/// `inner + i`, `inner + i + 1`, wound for the front face of an arch.
pub open spec fn arch_front_quad(outer: int, inner: int, i: int) -> Seq<u32> {
    let o1 = outer + i;
    let i1 = inner + i;
    seq![o1 as u32, (o1 + 1) as u32, i1 as u32, i1 as u32, (o1 + 1) as u32, (i1 + 1) as u32]
}

/// The same quad wound for the back face of an arch.
pub open spec fn arch_back_quad(outer: int, inner: int, i: int) -> Seq<u32> {
    let o1 = outer + i;
    let i1 = inner + i;
    seq![o1 as u32, i1 as u32, (o1 + 1) as u32, i1 as u32, (i1 + 1) as u32, (o1 + 1) as u32]
}

/// The index buffer of an arch with `segments` arc segments: two pillar boxes and the top
/// box (24 vertices each), then for the front and then the back face an outer and an inner
/// arc of `segments + 1` vertices each, joined by one quad per segment.
pub open spec fn spec_arch_indices(segments: int) -> Seq<u32> {
    let front = 3 * BOX_VERTEX_COUNT;
    let back = front + 2 * (segments + 1);
    box_faces(6) + box_faces(6).map_values(|v: u32| (v + BOX_VERTEX_COUNT) as u32) + box_faces(6).map_values(
        |v: u32| (v + 2 * BOX_VERTEX_COUNT) as u32,
    ) + concat_parts(|i: int| arch_front_quad(front, front + segments + 1, i), segments) + concat_parts(
        |i: int| arch_back_quad(back, back + segments + 1, i),
        segments,
    )
}

/// Vertices of an arch mesh with `segments` arc segments.
pub open spec fn arch_vertex_count(segments: int) -> int {
    3 * BOX_VERTEX_COUNT + 4 * (segments + 1)
}

/// Appends the quads `0..segments` joining the outer arc at `outer` to the inner arc at
/// `outer + segments + 1`, front or back winding.
fn push_arch_face(indices: &mut Vec<u32>, outer: u32, segments: u32, front: bool)
    requires
        outer + 2 * (segments + 1) <= u32::MAX,
    ensures
        final(indices)@ == old(indices)@ + (if front {
            concat_parts(|i: int| arch_front_quad(outer as int, outer + segments + 1, i), segments as int)
        } else {
            concat_parts(|i: int| arch_back_quad(outer as int, outer + segments + 1, i), segments as int)
        }),
{
    let ghost start = indices@;
    let ghost quad = if front {
        |i: int| arch_front_quad(outer as int, outer + segments + 1, i)
    } else {
        |i: int| arch_back_quad(outer as int, outer + segments + 1, i)
    };
    let inner = outer + segments + 1;
    let mut i: u32 = 0;
    while i < segments
        invariant
            outer + 2 * (segments + 1) <= u32::MAX,
            inner == outer + segments + 1,
            i <= segments,
            quad == (if front {
                |i: int| arch_front_quad(outer as int, outer + segments + 1, i)
            } else {
                |i: int| arch_back_quad(outer as int, outer + segments + 1, i)
            }),
            indices@ == start + concat_parts(quad, i as int),
        decreases segments - i,
    {
        let o1 = outer + i;
        let o2 = outer + i + 1;
        let i1 = inner + i;
        let i2 = inner + i + 1;
        if front {
            indices.push(o1);
            indices.push(o2);
            indices.push(i1);
            indices.push(i1);
            indices.push(o2);
            indices.push(i2);
        } else {
            indices.push(o1);
            indices.push(i1);
            indices.push(o2);
            indices.push(i1);
            indices.push(i2);
            indices.push(o2);
        }
        assert(indices@ =~= start + concat_parts(quad, i + 1));
        i = i + 1;
    }
}

/// The index buffer of an arch with `arch_segments` arc segments (see `spec_arch_indices`).
pub fn arch_mesh_indices(arch_segments: u32) -> (indices: Vec<u32>)
    requires
        arch_vertex_count(arch_segments as int) <= u32::MAX,
    ensures
        indices@ == spec_arch_indices(arch_segments as int),
        indices@.len() == 108 + 12 * arch_segments,
        forall|k: int| 0 <= k < 36 ==> #[trigger] arch_box_at(indices@, k),
        forall|i: int| 0 <= i < arch_segments ==> #[trigger] arch_front_at(indices@, arch_segments as int, i),
        forall|i: int| 0 <= i < arch_segments ==> #[trigger] arch_back_at(indices@, arch_segments as int, i),
{
    proof {
        lemma_arch_triangles(arch_segments as int);
    }
    let boxes = box_mesh_indices();
    let mut indices: Vec<u32> = Vec::new();
    proof {
        assert forall|k: int| 0 <= k < boxes@.len() implies #[trigger] boxes@[k] + 2 * BOX_VERTEX_COUNT <= u32::MAX by {
            lemma_box_faces_below(6);
            assert(boxes@[k] < BOX_VERTEX_COUNT);
        }
    }
    append_offset_indices(&mut indices, &boxes, 0);
    append_offset_indices(&mut indices, &boxes, BOX_VERTEX_COUNT);
    append_offset_indices(&mut indices, &boxes, 2 * BOX_VERTEX_COUNT);
    proof {
        assert(boxes@.map_values(|v: u32| (v + 0) as u32) =~= box_faces(6));
    }
    let front: u32 = 3 * BOX_VERTEX_COUNT;
    let back: u32 = front + 2 * (arch_segments + 1);
    push_arch_face(&mut indices, front, arch_segments, true);
    push_arch_face(&mut indices, back, arch_segments, false);
    indices
}

/// Every index of the first `f` box faces is below `4 * f`.
proof fn lemma_box_faces_below(f: int)
    requires
        0 <= f,
    ensures
        box_faces(f).len() == 6 * f,
        forall|k: int| 0 <= k < box_faces(f).len() ==> #[trigger] box_faces(f)[k] < 4 * f,
    decreases f,
{
    if f > 0 {
        lemma_box_faces_below(f - 1);
        let prev = box_faces(f - 1);
        let face = box_face(f - 1);
        assert forall|k: int| 0 <= k < box_faces(f).len() implies #[trigger] box_faces(f)[k] < 4 * f by {
            if k < prev.len() {
                assert(box_faces(f)[k] == prev[k]);
            } else {
                assert(box_faces(f)[k] == face[k - prev.len()]);
            }
        }
    }
}

/// The index buffer of a wedge (ramp): the back, bottom and slope quads (four vertices
/// each), then the left and right triangles (three each), 18 vertices in all.
pub fn wedge_mesh_indices() -> (indices: Vec<u32>)
    ensures
        indices@ == seq![0u32, 1, 2, 0, 2, 3, 4, 5, 6, 4, 6, 7, 8, 9, 10, 8, 10, 11, 12, 13, 14, 15, 16, 17],
{
    vec![0, 1, 2, 0, 2, 3, 4, 5, 6, 4, 6, 7, 8, 9, 10, 8, 10, 11, 12, 13, 14, 15, 16, 17]
}

/// The top-fan triangle `i` of a hex prism: centre 0, rim vertices 1 to 6.
pub open spec fn hex_top(i: int) -> Seq<u32> {
    seq![0u32, (1 + i) as u32, (1 + (i + 1) % 6) as u32]
}

/// The bottom-fan triangle `i` of a hex prism: centre 7, rim vertices 8 to 13, reversed winding.
pub open spec fn hex_bottom(i: int) -> Seq<u32> {
    seq![7u32, (8 + (i + 1) % 6) as u32, (8 + i) as u32]
}

/// The two triangles of side `i` of a hex prism, whose four vertices start at `14 + 4 * i`.
pub open spec fn hex_side(i: int) -> Seq<u32> {
    let b = 14 + 4 * i;
    seq![b as u32, (b + 3) as u32, (b + 2) as u32, b as u32, (b + 2) as u32, (b + 1) as u32]
}

/// Concatenation of `part(0), ..., part(n - 1)`.
pub open spec fn concat_parts(part: spec_fn(int) -> Seq<u32>, n: int) -> Seq<u32>
    decreases n,
{
    if n <= 0 {
        Seq::empty()
    } else {
        concat_parts(part, n - 1) + part(n - 1)
    }
}

/// The index buffer of one hex prism (38 vertices): the top fan, the bottom fan, then two
/// triangles per side.
pub open spec fn spec_hex_prism_indices() -> Seq<u32> {
    concat_parts(|i: int| hex_top(i), 6) + concat_parts(|i: int| hex_bottom(i), 6) + concat_parts(
        |i: int| hex_side(i),
        6,
    )
}

/// Vertices of one hex prism mesh: 7 on top, 7 at the bottom, 4 per side.
pub const HEX_PRISM_VERTEX_COUNT: u32 = 38;

/// The index buffer of one hex prism mesh.
pub fn hex_prism_mesh_indices() -> (indices: Vec<u32>)
    ensures
        indices@ == spec_hex_prism_indices(),
        indices@ == hex_prism_triangles(),
{
    proof {
        lemma_hex_prism_triangles();
    }
    let mut indices: Vec<u32> = Vec::new();
    let mut i: u32 = 0;
    while i < 6
        invariant
            i <= 6,
            indices@ == concat_parts(|k: int| hex_top(k), i as int),
        decreases 6 - i,
    {
        indices.push(0);
        indices.push(1 + i);
        indices.push(1 + (i + 1) % 6);
        assert(indices@ =~= concat_parts(|k: int| hex_top(k), i + 1));
        i = i + 1;
    }
    let ghost top = indices@;
    let mut i: u32 = 0;
    while i < 6
        invariant
            i <= 6,
            indices@ == top + concat_parts(|k: int| hex_bottom(k), i as int),
        decreases 6 - i,
    {
        indices.push(7);
        indices.push(8 + (i + 1) % 6);
        indices.push(8 + i);
        assert(indices@ =~= top + concat_parts(|k: int| hex_bottom(k), i + 1));
        i = i + 1;
    }
    let ghost top_bottom = indices@;
    let mut i: u32 = 0;
    while i < 6
        invariant
            i <= 6,
            indices@ == top_bottom + concat_parts(|k: int| hex_side(k), i as int),
        decreases 6 - i,
    {
        let b = 14 + 4 * i;
        indices.push(b);
        indices.push(b + 3);
        indices.push(b + 2);
        indices.push(b);
        indices.push(b + 2);
        indices.push(b + 1);
        assert(indices@ =~= top_bottom + concat_parts(|k: int| hex_side(k), i + 1));
        i = i + 1;
    }
    indices
}

/// Every index of the hex prism mesh names one of its 38 vertices, and there are 72 of them.
pub proof fn lemma_hex_prism_indices_in_range()
    ensures
        spec_hex_prism_indices().len() == 72,
        all_below_u32(spec_hex_prism_indices(), HEX_PRISM_VERTEX_COUNT as int),
{
    let top = concat_parts(|i: int| hex_top(i), 6);
    let bottom = concat_parts(|i: int| hex_bottom(i), 6);
    let sides = concat_parts(|i: int| hex_side(i), 6);
    reveal_with_fuel(concat_parts, 7);
    assert(top.len() == 18);
    assert(bottom.len() == 18);
    assert(sides.len() == 36);
    assert(all_below_u32(top, 38));
    assert(all_below_u32(bottom, 38));
    assert(all_below_u32(sides, 38));
    let all = spec_hex_prism_indices();
    assert forall|k: int| 0 <= k < all.len() implies (#[trigger] all[k]) < 38 by {
        if k < 18 {
            assert(all[k] == top[k]);
        } else if k < 36 {
            assert(all[k] == bottom[k - 18]);
        } else {
            assert(all[k] == sides[k - 36]);
        }
    }
}


/// Concatenation of `cell(r, 0), ..., cell(r, i - 1)`.
pub open spec fn row_concat(cell: spec_fn(int, int) -> Seq<u32>, r: int, i: int) -> Seq<u32>
    decreases i,
{
    if i <= 0 {
        Seq::empty()
    } else {
        row_concat(cell, r, i - 1) + cell(r, i - 1)
    }
}

/// Concatenation of the rows `0..r` of a grid `cols` cells wide, each row cell by cell.
pub open spec fn grid_concat(cell: spec_fn(int, int) -> Seq<u32>, cols: int, r: int) -> Seq<u32>
    decreases r,
{
    if r <= 0 {
        Seq::empty()
    } else {
        grid_concat(cell, cols, r - 1) + row_concat(cell, r - 1, cols)
    }
}

/// The triangles of the sphere cell at `ring`, `seg` (vertex rows `stride` wide): the upper
/// triangle except on the first ring, the lower one except on the last ring.
pub open spec fn sphere_cell(ring: int, seg: int, stride: int, rings: int) -> Seq<u32> {
    let c = ring * stride + seg;
    let n = c + stride;
    (if ring != 0 { seq![c as u32, n as u32, (c + 1) as u32] } else { Seq::empty() }) + (if ring != rings - 1 {
        seq![(c + 1) as u32, n as u32, (n + 1) as u32]
    } else {
        Seq::empty()
    })
}

/// The index buffer of a UV sphere of `segments × rings` cells.
pub open spec fn spec_sphere_indices(segments: int, rings: int) -> Seq<u32> {
    grid_concat(|r: int, c: int| sphere_cell(r, c, segments + 1, rings), segments, rings)
}

/// The index buffer of a UV sphere with `segments` slices and `rings` stacks: vertex
/// `ring * (segments + 1) + seg`; each cell gives two triangles, except that the cells
/// touching a pole give only the one that is not degenerate.
pub fn sphere_mesh_indices(segments: u32, rings: u32) -> (indices: Vec<u32>)
    requires
        (rings + 1) * (segments + 1) <= u32::MAX,
    ensures
        indices@ == spec_sphere_indices(segments as int, rings as int),
        indices@.len() == (if rings >= 1 { 6 * segments * (rings - 1) } else { 0 }),
        forall|r: int, s: int| 0 < r < rings && 0 <= s < segments ==> #[trigger] upper_triangle(indices@, segments as int, r, s),
        forall|r: int, s: int| 0 <= r < rings - 1 && 0 <= s < segments ==> #[trigger] lower_triangle(indices@, segments as int, r, s),
{
    proof {
        lemma_sphere_triangles(segments as int, rings as int);
    }
    assert(segments + 1 <= (rings + 1) * (segments + 1)) by (nonlinear_arith);
    let stride = segments + 1;
    let ghost cell = |r: int, c: int| sphere_cell(r, c, segments + 1, rings as int);
    let mut indices: Vec<u32> = Vec::new();
    let mut ring: u32 = 0;
    while ring < rings
        invariant
            stride == segments + 1,
            (rings + 1) * (segments + 1) <= u32::MAX,
            ring <= rings,
            cell == (|r: int, c: int| sphere_cell(r, c, segments + 1, rings as int)),
            indices@ == grid_concat(cell, segments as int, ring as int),
        decreases rings - ring,
    {
        let ghost row_start = indices@;
        let mut seg: u32 = 0;
        while seg < segments
            invariant
                stride == segments + 1,
                (rings + 1) * (segments + 1) <= u32::MAX,
                ring < rings,
                seg <= segments,
                cell == (|r: int, c: int| sphere_cell(r, c, segments + 1, rings as int)),
                indices@ == row_start + row_concat(cell, ring as int, seg as int),
            decreases segments - seg,
        {
            assert(ring * stride + seg + stride + 1 <= (rings + 1) * (segments + 1)) by (nonlinear_arith)
                requires
                    stride == segments + 1,
                    ring < rings,
                    seg < segments,
            ;
            let current = ring * stride + seg;
            let next = current + stride;
            if ring != 0 {
                indices.push(current);
                indices.push(next);
                indices.push(current + 1);
            }
            if ring != rings - 1 {
                indices.push(current + 1);
                indices.push(next);
                indices.push(next + 1);
            }
            assert(indices@ =~= row_start + row_concat(cell, ring as int, seg + 1));
            seg = seg + 1;
        }
        assert(indices@ =~= grid_concat(cell, segments as int, ring + 1));
        ring = ring + 1;
    }
    indices
}

/// The triangles of the dome cell at `ring`, `seg`: the upper triangle except on the first
/// ring, and always the lower one (the rim stays open for the base cap).
pub open spec fn dome_cell(ring: int, seg: int, stride: int) -> Seq<u32> {
    let c = ring * stride + seg;
    let n = c + stride;
    (if ring != 0 { seq![c as u32, n as u32, (c + 1) as u32] } else { Seq::empty() }) + seq![
        (c + 1) as u32,
        n as u32,
        (n + 1) as u32,
    ]
}

/// The base-cap triangle `seg` of a dome: centre `center`, rim starting at `center + 1`.
pub open spec fn dome_cap(seg: int, segments: int, center: int) -> Seq<u32> {
    seq![center as u32, (center + 1 + seg) as u32, (center + 1 + (seg + 1) % segments) as u32]
}

/// The index buffer of a dome of `segments × rings` cells with its flat base cap.
pub open spec fn spec_dome_indices(segments: int, rings: int) -> Seq<u32> {
    let center = (rings + 1) * (segments + 1);
    grid_concat(|r: int, c: int| dome_cell(r, c, segments + 1), segments, rings) + concat_parts(
        |k: int| dome_cap(k, segments, center),
        segments,
    )
}

/// The index buffer of a dome (upper hemisphere) with `segments` slices and `rings` stacks,
/// followed by the fan of its flat base, whose centre comes right after the hemisphere's
/// `(rings + 1) * (segments + 1)` vertices.
pub fn dome_mesh_indices(segments: u32, rings: u32) -> (indices: Vec<u32>)
    requires
        (rings + 1) * (segments + 1) + segments + 1 <= u32::MAX,
    ensures
        indices@ == spec_dome_indices(segments as int, rings as int),
        indices@.len() == 3 * (2 * rings * segments - (if rings > 0 { segments as int } else { 0 })) + 3 * segments,
        forall|r: int, s: int| 0 < r < rings && 0 <= s < segments ==> #[trigger] upper_triangle(indices@, segments as int, r, s),
        forall|r: int, s: int| 0 <= r < rings && 0 <= s < segments ==> #[trigger] lower_triangle(indices@, segments as int, r, s),
        forall|k: int| 0 <= k < segments ==> #[trigger] dome_base(indices@, segments as int, rings as int, k),
{
    proof {
        lemma_dome_triangles(segments as int, rings as int);
    }
    assert(segments + 1 <= (rings + 1) * (segments + 1)) by (nonlinear_arith);
    assert(rings + 1 <= (rings + 1) * (segments + 1)) by (nonlinear_arith);
    let stride = segments + 1;
    let ghost cell = |r: int, c: int| dome_cell(r, c, segments + 1);
    let mut indices: Vec<u32> = Vec::new();
    let mut ring: u32 = 0;
    while ring < rings
        invariant
            stride == segments + 1,
            (rings + 1) * (segments + 1) + segments + 1 <= u32::MAX,
            ring <= rings,
            cell == (|r: int, c: int| dome_cell(r, c, segments + 1)),
            indices@ == grid_concat(cell, segments as int, ring as int),
        decreases rings - ring,
    {
        let ghost row_start = indices@;
        let mut seg: u32 = 0;
        while seg < segments
            invariant
                stride == segments + 1,
                (rings + 1) * (segments + 1) + segments + 1 <= u32::MAX,
                ring < rings,
                seg <= segments,
                cell == (|r: int, c: int| dome_cell(r, c, segments + 1)),
                indices@ == row_start + row_concat(cell, ring as int, seg as int),
            decreases segments - seg,
        {
            assert(ring * stride + seg + stride + 1 <= (rings + 1) * (segments + 1)) by (nonlinear_arith)
                requires
                    stride == segments + 1,
                    ring < rings,
                    seg < segments,
            ;
            let current = ring * stride + seg;
            let next = current + stride;
            if ring != 0 {
                indices.push(current);
                indices.push(next);
                indices.push(current + 1);
            }
            indices.push(current + 1);
            indices.push(next);
            indices.push(next + 1);
            assert(indices@ =~= row_start + row_concat(cell, ring as int, seg + 1));
            seg = seg + 1;
        }
        assert(indices@ =~= grid_concat(cell, segments as int, ring + 1));
        ring = ring + 1;
    }
    let ghost hemisphere = indices@;
    let center = (rings + 1) * stride;
    let ghost cap = |k: int| dome_cap(k, segments as int, center as int);
    let mut seg: u32 = 0;
    while seg < segments
        invariant
            stride == segments + 1,
            center == (rings + 1) * (segments + 1),
            center + segments + 1 <= u32::MAX,
            seg <= segments,
            cap == (|k: int| dome_cap(k, segments as int, center as int)),
            indices@ == hemisphere + concat_parts(cap, seg as int),
        decreases segments - seg,
    {
        let next = (seg + 1) % segments;
        indices.push(center);
        indices.push(center + 1 + seg);
        indices.push(center + 1 + next);
        assert(indices@ =~= hemisphere + concat_parts(cap, seg + 1));
        seg = seg + 1;
    }
    indices
}

/// The two side triangles of cylinder segment `i` (vertices `2i`, `2i + 1` bottom and top).
pub open spec fn cylinder_side(i: int) -> Seq<u32> {
    let b = 2 * i;
    seq![b as u32, (b + 2) as u32, (b + 1) as u32, (b + 1) as u32, (b + 2) as u32, (b + 3) as u32]
}

/// The top-cap triangle `i` of a cylinder (centre `center`, ring after it).
pub open spec fn cylinder_top(i: int, segments: int, center: int) -> Seq<u32> {
    seq![center as u32, (center + 1 + (i + 1) % segments) as u32, (center + 1 + i) as u32]
}

/// The bottom-cap triangle `i` of a cylinder (centre `center`, ring after it).
pub open spec fn cylinder_bottom(i: int, segments: int, center: int) -> Seq<u32> {
    seq![center as u32, (center + 1 + i) as u32, (center + 1 + (i + 1) % segments) as u32]
}

/// The index buffer of a cylinder with `segments` sides.
pub open spec fn spec_cylinder_indices(segments: int) -> Seq<u32> {
    let top_center = 2 * (segments + 1);
    let bottom_center = top_center + 1 + segments;
    concat_parts(|i: int| cylinder_side(i), segments) + concat_parts(
        |i: int| cylinder_top(i, segments, top_center),
        segments,
    ) + concat_parts(|i: int| cylinder_bottom(i, segments, bottom_center), segments)
}

/// The index buffer of a cylinder with `segments` sides: the side quads (vertex pairs
/// bottom/top around the rim, the first pair repeated at the end), then the top cap fan, then
/// the bottom cap fan with reversed winding.
pub fn cylinder_mesh_indices(segments: u32) -> (indices: Vec<u32>)
    requires
        4 * segments + 4 <= u32::MAX,
    ensures
        indices@ == spec_cylinder_indices(segments as int),
        indices@.len() == 12 * segments,
        forall|i: int| 0 <= i < segments ==> #[trigger] cylinder_side_at(indices@, i),
        forall|i: int| 0 <= i < segments ==> #[trigger] cylinder_caps_at(indices@, segments as int, i),
{
    proof {
        lemma_cylinder_triangles(segments as int);
    }
    let mut indices: Vec<u32> = Vec::new();
    let mut i: u32 = 0;
    while i < segments
        invariant
            4 * segments + 4 <= u32::MAX,
            i <= segments,
            indices@ == concat_parts(|k: int| cylinder_side(k), i as int),
        decreases segments - i,
    {
        let base = i * 2;
        indices.push(base);
        indices.push(base + 2);
        indices.push(base + 1);
        indices.push(base + 1);
        indices.push(base + 2);
        indices.push(base + 3);
        assert(indices@ =~= concat_parts(|k: int| cylinder_side(k), i + 1));
        i = i + 1;
    }
    let ghost sides = indices@;
    let top_center = 2 * (segments + 1);
    let top_ring_start = top_center + 1;
    let ghost top = |k: int| cylinder_top(k, segments as int, top_center as int);
    let mut i: u32 = 0;
    while i < segments
        invariant
            4 * segments + 4 <= u32::MAX,
            top_center == 2 * (segments + 1),
            top_ring_start == top_center + 1,
            i <= segments,
            top == (|k: int| cylinder_top(k, segments as int, top_center as int)),
            indices@ == sides + concat_parts(top, i as int),
        decreases segments - i,
    {
        let next = (i + 1) % segments;
        indices.push(top_center);
        indices.push(top_ring_start + next);
        indices.push(top_ring_start + i);
        assert(indices@ =~= sides + concat_parts(top, i + 1));
        i = i + 1;
    }
    let ghost sides_top = indices@;
    let bottom_center = top_ring_start + segments;
    let bottom_ring_start = bottom_center + 1;
    let ghost bottom = |k: int| cylinder_bottom(k, segments as int, bottom_center as int);
    let mut i: u32 = 0;
    while i < segments
        invariant
            4 * segments + 4 <= u32::MAX,
            bottom_center == 3 * segments + 3,
            bottom_ring_start == bottom_center + 1,
            i <= segments,
            bottom == (|k: int| cylinder_bottom(k, segments as int, bottom_center as int)),
            indices@ == sides_top + concat_parts(bottom, i as int),
        decreases segments - i,
    {
        let next = (i + 1) % segments;
        indices.push(bottom_center);
        indices.push(bottom_ring_start + i);
        indices.push(bottom_ring_start + next);
        assert(indices@ =~= sides_top + concat_parts(bottom, i + 1));
        i = i + 1;
    }
    indices
}

/// Appends `indices` shifted by `base` to `all`, as when merging the meshes of several objects
/// into one vertex buffer.
pub fn append_offset_indices(all: &mut Vec<u32>, indices: &Vec<u32>, base: u32)
    requires
        forall|k: int| 0 <= k < indices@.len() ==> #[trigger] indices@[k] + base <= u32::MAX,
    ensures
        final(all)@ == old(all)@ + indices@.map_values(|v: u32| (v + base) as u32),
{
    let ghost start = all@;
    let mut k: usize = 0;
    while k < indices.len()
        invariant
            k <= indices@.len(),
            forall|m: int| 0 <= m < indices@.len() ==> #[trigger] indices@[m] + base <= u32::MAX,
            all@ == start + indices@.take(k as int).map_values(|v: u32| (v + base) as u32),
        decreases indices@.len() - k,
    {
        let v = indices[k];
        all.push(v + base);
        assert(indices@.take(k + 1) =~= indices@.take(k as int).push(v));
        assert(all@ =~= start + indices@.take(k + 1).map_values(|v: u32| (v + base) as u32));
        k = k + 1;
    }
    assert(indices@.take(indices@.len() as int) =~= indices@);
}


/// Every index of `a + b` is below `bound` when every index of `a` and of `b` is.
proof fn lemma_all_below_u32_concat(a: Seq<u32>, b: Seq<u32>, bound: int)
    requires
        all_below_u32(a, bound),
        all_below_u32(b, bound),
    ensures
        all_below_u32(a + b, bound),
{
    assert forall|k: int| 0 <= k < (a + b).len() implies (#[trigger] (a + b)[k]) < bound by {
        if k < a.len() {
            assert((a + b)[k] == a[k]);
        } else {
            assert((a + b)[k] == b[k - a.len()]);
        }
    }
}

/// Every index of `concat_parts(part, n)` is below `bound` when every part's are.
proof fn lemma_concat_parts_below(part: spec_fn(int) -> Seq<u32>, n: int, bound: int)
    requires
        forall|i: int| 0 <= i < n ==> all_below_u32(#[trigger] part(i), bound),
    ensures
        all_below_u32(concat_parts(part, n), bound),
    decreases n,
{
    if n > 0 {
        lemma_concat_parts_below(part, n - 1, bound);
        lemma_all_below_u32_concat(concat_parts(part, n - 1), part(n - 1), bound);
    }
}

/// Every index of rows `0..r` of `grid_concat(cell, cols, r)` is below `bound` when every
/// cell's are.
proof fn lemma_grid_concat_below(cell: spec_fn(int, int) -> Seq<u32>, cols: int, r: int, bound: int)
    requires
        forall|rr: int, c: int| 0 <= rr < r && 0 <= c < cols ==> all_below_u32(#[trigger] cell(rr, c), bound),
    ensures
        all_below_u32(grid_concat(cell, cols, r), bound),
    decreases r,
{
    if r > 0 {
        lemma_grid_concat_below(cell, cols, r - 1, bound);
        lemma_row_concat_below(cell, r - 1, cols, bound);
        lemma_all_below_u32_concat(grid_concat(cell, cols, r - 1), row_concat(cell, r - 1, cols), bound);
    }
}

/// Every index of `row_concat(cell, r, i)` is below `bound` when every cell's are.
proof fn lemma_row_concat_below(cell: spec_fn(int, int) -> Seq<u32>, r: int, i: int, bound: int)
    requires
        forall|c: int| 0 <= c < i ==> all_below_u32(#[trigger] cell(r, c), bound),
    ensures
        all_below_u32(row_concat(cell, r, i), bound),
    decreases i,
{
    if i > 0 {
        lemma_row_concat_below(cell, r, i - 1, bound);
        lemma_all_below_u32_concat(row_concat(cell, r, i - 1), cell(r, i - 1), bound);
    }
}

/// Every index of a box mesh names one of its 24 vertices.
pub proof fn lemma_box_indices_in_range()
    ensures
        all_below_u32(box_faces(6), BOX_VERTEX_COUNT as int),
{
    lemma_box_faces_below(6);
}

/// Every index of an arch mesh names one of its `arch_vertex_count(segments)` vertices.
pub proof fn lemma_arch_indices_in_range(segments: int)
    requires
        0 <= segments,
        arch_vertex_count(segments) <= u32::MAX,
    ensures
        all_below_u32(spec_arch_indices(segments), arch_vertex_count(segments)),
{
    let bound = arch_vertex_count(segments);
    let front = 3 * BOX_VERTEX_COUNT;
    let back = front + 2 * (segments + 1);
    lemma_box_faces_below(6);
    let b0 = box_faces(6);
    let b1 = b0.map_values(|v: u32| (v + BOX_VERTEX_COUNT) as u32);
    let b2 = b0.map_values(|v: u32| (v + 2 * BOX_VERTEX_COUNT) as u32);
    assert(all_below_u32(b1, bound)) by {
        assert forall|k: int| 0 <= k < b1.len() implies (#[trigger] b1[k]) < bound by {
            assert(b0[k] < 24);
        }
    }
    assert(all_below_u32(b2, bound)) by {
        assert forall|k: int| 0 <= k < b2.len() implies (#[trigger] b2[k]) < bound by {
            assert(b0[k] < 24);
        }
    }
    let fq = |i: int| arch_front_quad(front as int, front + segments + 1, i);
    let bq = |i: int| arch_back_quad(back, back + segments + 1, i);
    assert forall|i: int| 0 <= i < segments implies all_below_u32(#[trigger] fq(i), bound) by {}
    assert forall|i: int| 0 <= i < segments implies all_below_u32(#[trigger] bq(i), bound) by {}
    lemma_concat_parts_below(fq, segments, bound);
    lemma_concat_parts_below(bq, segments, bound);
    lemma_all_below_u32_concat(b0, b1, bound);
    lemma_all_below_u32_concat(b0 + b1, b2, bound);
    lemma_all_below_u32_concat(b0 + b1 + b2, concat_parts(fq, segments), bound);
    lemma_all_below_u32_concat(b0 + b1 + b2 + concat_parts(fq, segments), concat_parts(bq, segments), bound);
}

/// The cell at `ring`, `seg` of a grid of `stride`-wide vertex rows reaches at most the
/// vertex below `(rings + 1) * stride`.
proof fn lemma_grid_cell_bound(ring: int, seg: int, stride: int, rings: int)
    requires
        0 <= ring < rings,
        0 <= seg < stride - 1,
    ensures
        0 <= ring * stride + seg,
        ring * stride + seg + stride + 1 < (rings + 1) * stride,
{
    assert(0 <= ring * stride) by (nonlinear_arith)
        requires
            0 <= ring,
            0 <= stride,
    ;
    assert((ring + 1) * stride <= rings * stride) by (nonlinear_arith)
        requires
            ring + 1 <= rings,
            0 <= stride,
    ;
    assert((rings + 1) * stride == rings * stride + stride) by (nonlinear_arith);
    assert((ring + 1) * stride == ring * stride + stride) by (nonlinear_arith);
}

/// Every index of a sphere mesh names one of its `(rings + 1) * (segments + 1)` vertices.
pub proof fn lemma_sphere_indices_in_range(segments: int, rings: int)
    requires
        0 <= segments,
        0 <= rings,
        (rings + 1) * (segments + 1) <= u32::MAX,
    ensures
        all_below_u32(spec_sphere_indices(segments, rings), (rings + 1) * (segments + 1)),
{
    let bound = (rings + 1) * (segments + 1);
    let cell = |r: int, c: int| sphere_cell(r, c, segments + 1, rings);
    assert forall|rr: int, c: int| 0 <= rr < rings && 0 <= c < segments implies all_below_u32(#[trigger] cell(rr, c), bound) by {
        lemma_grid_cell_bound(rr, c, segments + 1, rings);
    }
    lemma_grid_concat_below(cell, segments, rings, bound);
}

/// Every index of a dome mesh names one of its vertices: the `(rings + 1) * (segments + 1)`
/// of the hemisphere, the base centre and the `segments` of the base rim.
pub proof fn lemma_dome_indices_in_range(segments: int, rings: int)
    requires
        0 <= segments,
        0 <= rings,
        (rings + 1) * (segments + 1) + 1 + segments <= u32::MAX,
    ensures
        all_below_u32(spec_dome_indices(segments, rings), (rings + 1) * (segments + 1) + 1 + segments),
{
    let center = (rings + 1) * (segments + 1);
    let bound = center + 1 + segments;
    let cell = |r: int, c: int| dome_cell(r, c, segments + 1);
    assert forall|rr: int, c: int| 0 <= rr < rings && 0 <= c < segments implies all_below_u32(#[trigger] cell(rr, c), bound) by {
        lemma_grid_cell_bound(rr, c, segments + 1, rings);
    }
    lemma_grid_concat_below(cell, segments, rings, bound);
    let cap = |k: int| dome_cap(k, segments, center);
    assert forall|k: int| 0 <= k < segments implies all_below_u32(#[trigger] cap(k), bound) by {
        assert(0 <= (k + 1) % segments < segments);
    }
    lemma_concat_parts_below(cap, segments, bound);
    lemma_all_below_u32_concat(grid_concat(cell, segments, rings), concat_parts(cap, segments), bound);
}

/// `ix` holds the triangle `(a, b, c)` as three consecutive indices.
pub open spec fn has_triangle(ix: Seq<u32>, a: int, b: int, c: int) -> bool {
    exists|p: int| #![trigger ix[p]] 0 <= p && p + 2 < ix.len() && ix[p] == a && ix[p + 1] == b && ix[p + 2] == c
}

/// The upper triangle of the cell at ring `r`, segment `s` of a sphere or dome (vertex rows
/// `segments + 1` wide): the cell's top-left, bottom-left and top-right corners.
pub open spec fn upper_triangle(ix: Seq<u32>, segments: int, r: int, s: int) -> bool {
    let c = r * (segments + 1) + s;
    has_triangle(ix, c, c + segments + 1, c + 1)
}

/// The lower triangle of the cell at ring `r`, segment `s` of a sphere or dome: its
/// top-right, bottom-left and bottom-right corners.
pub open spec fn lower_triangle(ix: Seq<u32>, segments: int, r: int, s: int) -> bool {
    let c = r * (segments + 1) + s;
    has_triangle(ix, c + 1, c + segments + 1, c + segments + 2)
}

/// Triangle `k` of the dome's flat base: its centre, rim vertex `k` and rim vertex `k + 1`
/// (wrapping).
pub open spec fn dome_base(ix: Seq<u32>, segments: int, rings: int, k: int) -> bool {
    let center = (rings + 1) * (segments + 1);
    has_triangle(ix, center, center + 1 + k, center + 1 + (k + 1) % segments)
}

/// Index `len * c + k` of `row_concat(cell, r, i)` is index `k` of cell `c` when every cell of
/// the row has `len` indices.
proof fn lemma_row_concat_at(cell: spec_fn(int, int) -> Seq<u32>, r: int, i: int, len: int, c: int, k: int)
    requires
        0 <= i,
        0 <= len,
        forall|cc: int| 0 <= cc < i ==> (#[trigger] cell(r, cc)).len() == len,
    ensures
        row_concat(cell, r, i).len() == len * i,
        0 <= c < i && 0 <= k < len ==> row_concat(cell, r, i)[len * c + k] == cell(r, c)[k],
    decreases i,
{
    if i > 0 {
        lemma_row_concat_at(cell, r, i - 1, len, c, k);
        assert(cell(r, i - 1).len() == len);
        assert(len * (i - 1) + len == len * i) by (nonlinear_arith);
        if 0 <= c < i && 0 <= k < len {
            if c < i - 1 {
                assert(len * c + k < len * (i - 1)) by (nonlinear_arith)
                    requires
                        0 <= c < i - 1,
                        0 <= k < len,
                ;
                assert(0 <= len * c) by (nonlinear_arith)
                    requires
                        0 <= c,
                        0 <= len,
                ;
            }
        }
    } else {
        assert(len * i == 0) by (nonlinear_arith)
            requires
                i == 0,
        ;
    }
}


/// Where ring `r` of a dome's hemisphere starts: after the pole ring's one triangle per
/// segment and two per segment on each ring between.
pub open spec fn dome_ring_start(segments: int, r: int) -> int {
    if r <= 0 {
        0
    } else {
        3 * segments + 6 * segments * (r - 1)
    }
}

/// Index `k` of the dome cell at ring `rr`, segment `c` sits at
/// `dome_ring_start(rr) + cell length * c + k` of the hemisphere of `r` rings.
proof fn lemma_dome_grid_at(segments: int, r: int, rr: int, c: int, k: int)
    requires
        0 <= segments,
        0 <= r,
    ensures
        grid_concat(|a: int, b: int| dome_cell(a, b, segments + 1), segments, r).len() == dome_ring_start(segments, r),
        ({
            let len = if rr == 0 { 3int } else { 6int };
            0 <= rr < r && 0 <= c < segments && 0 <= k < len ==> grid_concat(
                |a: int, b: int| dome_cell(a, b, segments + 1),
                segments,
                r,
            )[dome_ring_start(segments, rr) + len * c + k] == dome_cell(rr, c, segments + 1)[k]
        }),
    decreases r,
{
    let cell = |a: int, b: int| dome_cell(a, b, segments + 1);
    if r > 0 {
        lemma_dome_grid_at(segments, r - 1, rr, c, k);
        let len = if r - 1 == 0 { 3int } else { 6int };
        assert forall|cc: int| 0 <= cc < segments implies (#[trigger] cell(r - 1, cc)).len() == len by {}
        let lenr = if rr == 0 { 3int } else { 6int };
        lemma_row_concat_at(cell, r - 1, segments, len, c, k);
        assert(dome_ring_start(segments, r - 1) + len * segments == dome_ring_start(segments, r)) by (nonlinear_arith)
            requires
                len == (if r - 1 == 0 { 3int } else { 6int }),
                r > 0,
                dome_ring_start(segments, r - 1) == (if r - 1 <= 0 { 0 } else { 3 * segments + 6 * segments * (r - 2) }),
                dome_ring_start(segments, r) == 3 * segments + 6 * segments * (r - 1),
        ;
        if 0 <= rr < r - 1 && 0 <= c < segments && 0 <= k < lenr {
            assert(dome_ring_start(segments, rr) + lenr * c + k < dome_ring_start(segments, r - 1)) by (nonlinear_arith)
                requires
                    0 <= rr < r - 1,
                    0 <= c < segments,
                    0 <= k < lenr,
                    lenr == (if rr == 0 { 3int } else { 6int }),
                    dome_ring_start(segments, rr) == (if rr <= 0 { 0 } else { 3 * segments + 6 * segments * (rr - 1) }),
                    dome_ring_start(segments, r - 1) == 3 * segments + 6 * segments * (r - 2),
            ;
            assert(0 <= dome_ring_start(segments, rr) + lenr * c + k) by (nonlinear_arith)
                requires
                    0 <= rr,
                    0 <= c,
                    0 <= k,
                    0 <= segments,
                    lenr == (if rr == 0 { 3int } else { 6int }),
                    dome_ring_start(segments, rr) == (if rr <= 0 { 0 } else { 3 * segments + 6 * segments * (rr - 1) }),
            ;
        }
    }
}

/// A position inside the cell at ring `r`, segment `s` lies inside the hemisphere of `rings`
/// rings.
proof fn lemma_dome_pos_bound(segments: int, rings: int, r: int, s: int, o: int)
    requires
        0 <= r < rings,
        0 <= s < segments,
        0 <= o < (if r == 0 { 3int } else { 6int }),
    ensures
        0 <= dome_ring_start(segments, r) + (if r == 0 { 3int } else { 6int }) * s + o < dome_ring_start(segments, rings),
{
    let len = if r == 0 { 3int } else { 6int };
    assert(0 <= dome_ring_start(segments, r) + len * s + o < dome_ring_start(segments, rings)) by (nonlinear_arith)
        requires
            0 <= r < rings,
            0 <= s < segments,
            0 <= o < len,
            len == (if r == 0 { 3int } else { 6int }),
            dome_ring_start(segments, r) == (if r <= 0 { 0 } else { 3 * segments + 6 * segments * (r - 1) }),
            dome_ring_start(segments, rings) == 3 * segments + 6 * segments * (rings - 1),
    ;
}

/// What a dome's index buffer holds, for `segments` slices and `rings` stacks: every cell of
/// every ring below the pole has both its triangles, the cells of the pole ring have their
/// lower triangle, the flat base has one triangle per segment from its centre, and nothing
/// else is there: two triangles per cell less one per pole cell, plus the base.
pub proof fn lemma_dome_triangles(segments: int, rings: int)
    requires
        0 <= segments,
        0 <= rings,
        (rings + 1) * (segments + 1) + segments + 1 <= u32::MAX,
    ensures
        spec_dome_indices(segments, rings).len() == 3 * (2 * rings * segments - (if rings > 0 { segments } else { 0 }))
            + 3 * segments,
        forall|r: int, s: int| 0 < r < rings && 0 <= s < segments ==> #[trigger] upper_triangle(spec_dome_indices(segments, rings), segments, r, s),
        forall|r: int, s: int| 0 <= r < rings && 0 <= s < segments ==> #[trigger] lower_triangle(spec_dome_indices(segments, rings), segments, r, s),
        forall|k: int| 0 <= k < segments ==> #[trigger] dome_base(spec_dome_indices(segments, rings), segments, rings, k),
{
    let ix = spec_dome_indices(segments, rings);
    let cell = |a: int, b: int| dome_cell(a, b, segments + 1);
    let hemi = grid_concat(cell, segments, rings);
    let center = (rings + 1) * (segments + 1);
    let cap = |k: int| dome_cap(k, segments, center);
    lemma_dome_grid_at(segments, rings, 0, 0, 0);
    assert forall|kk: int| 0 <= kk < segments implies (#[trigger] cap(kk)).len() == 3 by {}
    lemma_concat_parts_len(cap, segments, 3);
    assert(dome_ring_start(segments, rings) == 3 * (2 * rings * segments - (if rings > 0 { segments } else { 0 }))) by (nonlinear_arith)
        requires
            dome_ring_start(segments, rings) == (if rings <= 0 { 0 } else { 3 * segments + 6 * segments * (rings - 1) }),
            0 <= rings,
    ;
    assert forall|r: int, s: int| 0 < r < rings && 0 <= s < segments implies #[trigger] upper_triangle(ix, segments, r, s) by {
        lemma_grid_cell_bound(r, s, segments + 1, rings);
        let p = dome_ring_start(segments, r) + 6 * s;
        lemma_dome_grid_at(segments, rings, r, s, 0);
        lemma_dome_grid_at(segments, rings, r, s, 1);
        lemma_dome_grid_at(segments, rings, r, s, 2);
        lemma_dome_pos_bound(segments, rings, r, s, 0);
        lemma_dome_pos_bound(segments, rings, r, s, 2);
        assert(ix[p] == hemi[p] && ix[p + 1] == hemi[p + 1] && ix[p + 2] == hemi[p + 2]);
    }
    assert forall|r: int, s: int| 0 <= r < rings && 0 <= s < segments implies #[trigger] lower_triangle(ix, segments, r, s) by {
        lemma_grid_cell_bound(r, s, segments + 1, rings);
        let len = if r == 0 { 3int } else { 6int };
        let o = if r == 0 { 0int } else { 3int };
        let p = dome_ring_start(segments, r) + len * s + o;
        lemma_dome_grid_at(segments, rings, r, s, o);
        lemma_dome_grid_at(segments, rings, r, s, o + 1);
        lemma_dome_grid_at(segments, rings, r, s, o + 2);
        lemma_dome_pos_bound(segments, rings, r, s, o);
        lemma_dome_pos_bound(segments, rings, r, s, o + 2);
        assert(ix[p] == hemi[p] && ix[p + 1] == hemi[p + 1] && ix[p + 2] == hemi[p + 2]);
    }
    assert forall|k: int| 0 <= k < segments implies #[trigger] dome_base(ix, segments, rings, k) by {
        let p = hemi.len() + 3 * k;
        lemma_concat_parts_at(cap, segments, 3, k, 0);
        lemma_concat_parts_at(cap, segments, 3, k, 1);
        lemma_concat_parts_at(cap, segments, 3, k, 2);
        assert(0 <= (k + 1) % segments < segments);
        assert(ix[p] == concat_parts(cap, segments)[3 * k]);
        assert(ix[p + 1] == concat_parts(cap, segments)[3 * k + 1]);
        assert(ix[p + 2] == concat_parts(cap, segments)[3 * k + 2]);
    }
}

/// `concat_parts(part, n)` has `len * n` indices when every part has `len`.
proof fn lemma_concat_parts_len(part: spec_fn(int) -> Seq<u32>, n: int, len: int)
    requires
        0 <= n,
        0 <= len,
        forall|i: int| 0 <= i < n ==> (#[trigger] part(i)).len() == len,
    ensures
        concat_parts(part, n).len() == len * n,
    decreases n,
{
    if n > 0 {
        lemma_concat_parts_len(part, n - 1, len);
        assert(part(n - 1).len() == len);
        assert(len * (n - 1) + len == len * n) by (nonlinear_arith);
    } else {
        assert(len * n == 0) by (nonlinear_arith)
            requires
                n == 0,
        ;
    }
}

/// Index `len * i + k` of `concat_parts(part, n)` is index `k` of part `i` when every part has
/// `len` indices.
proof fn lemma_concat_parts_at(part: spec_fn(int) -> Seq<u32>, n: int, len: int, i: int, k: int)
    requires
        0 <= n,
        0 <= len,
        forall|j: int| 0 <= j < n ==> (#[trigger] part(j)).len() == len,
    ensures
        0 <= i < n && 0 <= k < len ==> concat_parts(part, n)[len * i + k] == part(i)[k],
    decreases n,
{
    if n > 0 {
        lemma_concat_parts_at(part, n - 1, len, i, k);
        lemma_concat_parts_len(part, n - 1, len);
        if 0 <= i < n - 1 && 0 <= k < len {
            assert(len * i + k < len * (n - 1)) by (nonlinear_arith)
                requires
                    0 <= i < n - 1,
                    0 <= k < len,
            ;
            assert(0 <= len * i) by (nonlinear_arith)
                requires
                    0 <= i,
                    0 <= len,
            ;
        }
    }
}

/// The triangles of a box mesh, face by face: face `f` has vertices `4f..4f + 3` and the
/// triangles `(4f, 4f + 1, 4f + 2)` and `(4f, 4f + 2, 4f + 3)`.
pub open spec fn box_triangles() -> Seq<u32> {
    seq![0u32, 1, 2, 0, 2, 3, 4, 5, 6, 4, 6, 7, 8, 9, 10, 8, 10, 11, 12, 13, 14, 12, 14, 15, 16, 17, 18, 16, 18, 19, 20, 21, 22, 20, 22, 23]
}

/// A box's index buffer is exactly `box_triangles`.
pub proof fn lemma_box_triangles()
    ensures
        box_faces(6) == box_triangles(),
{
    reveal_with_fuel(box_faces, 7);
    assert(box_faces(6) =~= box_triangles());
}

/// The triangles of a hex prism mesh: the top fan round centre 0 over rim 1..6, the bottom
/// fan round centre 7 over rim 8..13 wound the other way, then two triangles per side quad
/// `14 + 4i .. 17 + 4i`.
pub open spec fn hex_prism_triangles() -> Seq<u32> {
    seq![0u32, 1, 2, 0, 2, 3, 0, 3, 4, 0, 4, 5, 0, 5, 6, 0, 6, 1, 7, 9, 8, 7, 10, 9, 7, 11, 10, 7, 12, 11, 7, 13, 12, 7, 8, 13, 14, 17, 16, 14, 16, 15, 18, 21, 20, 18, 20, 19, 22, 25, 24, 22, 24, 23, 26, 29, 28, 26, 28, 27, 30, 33, 32, 30, 32, 31, 34, 37, 36, 34, 36, 35]
}

/// A hex prism's index buffer is exactly `hex_prism_triangles`.
pub proof fn lemma_hex_prism_triangles()
    ensures
        spec_hex_prism_indices() == hex_prism_triangles(),
{
    reveal_with_fuel(concat_parts, 7);
    assert(spec_hex_prism_indices() =~= hex_prism_triangles());
}

/// `ix` holds the triangle `(a, b, c)` at positions `p, p + 1, p + 2`.
pub open spec fn triangle_at(ix: Seq<u32>, p: int, a: int, b: int, c: int) -> bool {
    &&& 0 <= p
    &&& p + 2 < ix.len()
    &&& ix[p] == a
    &&& ix[p + 1] == b
    &&& ix[p + 2] == c
}

/// Side `i` of a cylinder: the quad of bottom/top vertex pairs `2i, 2i + 1` and
/// `2i + 2, 2i + 3`, as triangles `(2i, 2i + 2, 2i + 1)` and `(2i + 1, 2i + 2, 2i + 3)` at
/// positions `6i` and `6i + 3`.
pub open spec fn cylinder_side_at(ix: Seq<u32>, i: int) -> bool {
    &&& triangle_at(ix, 6 * i, 2 * i, 2 * i + 2, 2 * i + 1)
    &&& triangle_at(ix, 6 * i + 3, 2 * i + 1, 2 * i + 2, 2 * i + 3)
}

/// Cap triangle `i` of a cylinder of `segments` sides: the top fan round vertex
/// `2 * (segments + 1)` (rim after it, wound `i + 1` then `i`) at position `6 * segments + 3i`,
/// and the bottom fan round the vertex after the top rim (wound `i` then `i + 1`) at
/// `9 * segments + 3i`.
pub open spec fn cylinder_caps_at(ix: Seq<u32>, segments: int, i: int) -> bool {
    let top = 2 * (segments + 1);
    let bottom = top + 1 + segments;
    &&& triangle_at(ix, 6 * segments + 3 * i, top, top + 1 + (i + 1) % segments, top + 1 + i)
    &&& triangle_at(ix, 9 * segments + 3 * i, bottom, bottom + 1 + i, bottom + 1 + (i + 1) % segments)
}

/// A cylinder's index buffer: two side triangles per segment, then the top fan, then the
/// bottom fan, `12 * segments` indices in all.
pub proof fn lemma_cylinder_triangles(segments: int)
    requires
        0 <= segments,
        4 * segments + 4 <= u32::MAX,
    ensures
        spec_cylinder_indices(segments).len() == 12 * segments,
        forall|i: int| 0 <= i < segments ==> #[trigger] cylinder_side_at(spec_cylinder_indices(segments), i),
        forall|i: int| 0 <= i < segments ==> #[trigger] cylinder_caps_at(spec_cylinder_indices(segments), segments, i),
{
    let ix = spec_cylinder_indices(segments);
    let tc = 2 * (segments + 1);
    let bc = tc + 1 + segments;
    let side = |i: int| cylinder_side(i);
    let top = |i: int| cylinder_top(i, segments, tc);
    let bottom = |i: int| cylinder_bottom(i, segments, bc);
    assert forall|i: int| 0 <= i < segments implies (#[trigger] side(i)).len() == 6 by {}
    assert forall|i: int| 0 <= i < segments implies (#[trigger] top(i)).len() == 3 by {}
    assert forall|i: int| 0 <= i < segments implies (#[trigger] bottom(i)).len() == 3 by {}
    lemma_concat_parts_len(side, segments, 6);
    lemma_concat_parts_len(top, segments, 3);
    lemma_concat_parts_len(bottom, segments, 3);
    let a = concat_parts(side, segments);
    let b = concat_parts(top, segments);
    let c = concat_parts(bottom, segments);
    assert(ix == a + b + c);
    assert forall|i: int| 0 <= i < segments implies #[trigger] cylinder_side_at(ix, i) by {
        lemma_concat_parts_at(side, segments, 6, i, 0);
        lemma_concat_parts_at(side, segments, 6, i, 1);
        lemma_concat_parts_at(side, segments, 6, i, 2);
        lemma_concat_parts_at(side, segments, 6, i, 3);
        lemma_concat_parts_at(side, segments, 6, i, 4);
        lemma_concat_parts_at(side, segments, 6, i, 5);
        assert(6 * i + 5 < 6 * segments);
        assert(ix[6 * i] == a[6 * i]);
        assert(ix[6 * i + 1] == a[6 * i + 1]);
        assert(ix[6 * i + 2] == a[6 * i + 2]);
        assert(ix[6 * i + 3] == a[6 * i + 3]);
        assert(ix[6 * i + 4] == a[6 * i + 4]);
        assert(ix[6 * i + 5] == a[6 * i + 5]);
    }
    assert forall|i: int| 0 <= i < segments implies #[trigger] cylinder_caps_at(ix, segments, i) by {
        assert(0 <= (i + 1) % segments < segments);
        lemma_concat_parts_at(top, segments, 3, i, 0);
        lemma_concat_parts_at(top, segments, 3, i, 1);
        lemma_concat_parts_at(top, segments, 3, i, 2);
        lemma_concat_parts_at(bottom, segments, 3, i, 0);
        lemma_concat_parts_at(bottom, segments, 3, i, 1);
        lemma_concat_parts_at(bottom, segments, 3, i, 2);
        assert(ix[6 * segments + 3 * i] == b[3 * i]);
        assert(ix[6 * segments + 3 * i + 1] == b[3 * i + 1]);
        assert(ix[6 * segments + 3 * i + 2] == b[3 * i + 2]);
        assert(ix[9 * segments + 3 * i] == c[3 * i]);
        assert(ix[9 * segments + 3 * i + 1] == c[3 * i + 1]);
        assert(ix[9 * segments + 3 * i + 2] == c[3 * i + 2]);
    }
}

/// Index `k` of an arch's three boxes: the box triangles of the first pillar, then the same
/// triangles over the second pillar's vertices (24 on) and the top box's (48 on).
pub open spec fn arch_box_at(ix: Seq<u32>, k: int) -> bool {
    &&& ix[k] == box_triangles()[k]
    &&& ix[36 + k] == box_triangles()[k] + 24
    &&& ix[72 + k] == box_triangles()[k] + 48
}

/// Segment `i` of an arch's front face: the quad of outer arc vertices `72 + i`, `73 + i`
/// and inner arc vertices `73 + segments + i`, `74 + segments + i`, as triangles
/// `(o, o + 1, n)` and `(n, o + 1, n + 1)` at positions `108 + 6i` and `111 + 6i`.
pub open spec fn arch_front_at(ix: Seq<u32>, segments: int, i: int) -> bool {
    let o = 72 + i;
    let n = 72 + segments + 1 + i;
    &&& triangle_at(ix, 108 + 6 * i, o, o + 1, n)
    &&& triangle_at(ix, 111 + 6 * i, n, o + 1, n + 1)
}

/// Segment `i` of an arch's back face, whose arcs start after the front's `2 * (segments + 1)`
/// vertices, wound the other way: `(o, n, o + 1)` and `(n, n + 1, o + 1)` after the front quads.
pub open spec fn arch_back_at(ix: Seq<u32>, segments: int, i: int) -> bool {
    let o = 72 + 2 * (segments + 1) + i;
    let n = o + segments + 1;
    &&& triangle_at(ix, 108 + 6 * segments + 6 * i, o, n, o + 1)
    &&& triangle_at(ix, 111 + 6 * segments + 6 * i, n, n + 1, o + 1)
}

/// An arch's index buffer: the three boxes (pillars and top), then one quad per segment on
/// the front face and one on the back, `108 + 12 * segments` indices in all.
pub proof fn lemma_arch_triangles(segments: int)
    requires
        0 <= segments,
        arch_vertex_count(segments) <= u32::MAX,
    ensures
        spec_arch_indices(segments).len() == 108 + 12 * segments,
        forall|k: int| 0 <= k < 36 ==> #[trigger] arch_box_at(spec_arch_indices(segments), k),
        forall|i: int| 0 <= i < segments ==> #[trigger] arch_front_at(spec_arch_indices(segments), segments, i),
        forall|i: int| 0 <= i < segments ==> #[trigger] arch_back_at(spec_arch_indices(segments), segments, i),
{
    let ix = spec_arch_indices(segments);
    lemma_box_triangles();
    lemma_box_faces_below(6);
    let b0 = box_faces(6);
    let b1 = b0.map_values(|v: u32| (v + BOX_VERTEX_COUNT) as u32);
    let b2 = b0.map_values(|v: u32| (v + 2 * BOX_VERTEX_COUNT) as u32);
    let front = 3 * BOX_VERTEX_COUNT;
    let back = front + 2 * (segments + 1);
    let fq = |i: int| arch_front_quad(front as int, front + segments + 1, i);
    let bq = |i: int| arch_back_quad(back, back + segments + 1, i);
    assert forall|i: int| 0 <= i < segments implies (#[trigger] fq(i)).len() == 6 by {}
    assert forall|i: int| 0 <= i < segments implies (#[trigger] bq(i)).len() == 6 by {}
    lemma_concat_parts_len(fq, segments, 6);
    lemma_concat_parts_len(bq, segments, 6);
    let f = concat_parts(fq, segments);
    let b = concat_parts(bq, segments);
    assert(ix == b0 + b1 + b2 + f + b);
    assert forall|k: int| 0 <= k < 36 implies #[trigger] arch_box_at(ix, k) by {
        assert(b0[k] < 24);
        assert(ix[k] == b0[k]);
        assert(ix[36 + k] == b1[k]);
        assert(ix[72 + k] == b2[k]);
    }
    assert forall|i: int| 0 <= i < segments implies #[trigger] arch_front_at(ix, segments, i) by {
        lemma_concat_parts_at(fq, segments, 6, i, 0);
        lemma_concat_parts_at(fq, segments, 6, i, 1);
        lemma_concat_parts_at(fq, segments, 6, i, 2);
        lemma_concat_parts_at(fq, segments, 6, i, 3);
        lemma_concat_parts_at(fq, segments, 6, i, 4);
        lemma_concat_parts_at(fq, segments, 6, i, 5);
        assert(6 * i + 5 < 6 * segments);
        assert(ix[108 + 6 * i] == f[6 * i]);
        assert(ix[108 + 6 * i + 1] == f[6 * i + 1]);
        assert(ix[108 + 6 * i + 2] == f[6 * i + 2]);
        assert(ix[108 + 6 * i + 3] == f[6 * i + 3]);
        assert(ix[108 + 6 * i + 4] == f[6 * i + 4]);
        assert(ix[108 + 6 * i + 5] == f[6 * i + 5]);
    }
    assert forall|i: int| 0 <= i < segments implies #[trigger] arch_back_at(ix, segments, i) by {
        lemma_concat_parts_at(bq, segments, 6, i, 0);
        lemma_concat_parts_at(bq, segments, 6, i, 1);
        lemma_concat_parts_at(bq, segments, 6, i, 2);
        lemma_concat_parts_at(bq, segments, 6, i, 3);
        lemma_concat_parts_at(bq, segments, 6, i, 4);
        lemma_concat_parts_at(bq, segments, 6, i, 5);
        assert(6 * i + 5 < 6 * segments);
        let p = 108 + 6 * segments + 6 * i;
        assert(ix[p] == b[6 * i]);
        assert(ix[p + 1] == b[6 * i + 1]);
        assert(ix[p + 2] == b[6 * i + 2]);
        assert(ix[p + 3] == b[6 * i + 3]);
        assert(ix[p + 4] == b[6 * i + 4]);
        assert(ix[p + 5] == b[6 * i + 5]);
    }
}

/// Index `len(rr) * c + k` of row `rr` of `grid_concat` sits at `start(rr)` plus that, when
/// every cell of row `q` has `len(q)` indices and `start` accumulates the row lengths.
proof fn lemma_grid_at(
    cell: spec_fn(int, int) -> Seq<u32>,
    cols: int,
    r: int,
    len: spec_fn(int) -> int,
    start: spec_fn(int) -> int,
    rr: int,
    c: int,
    k: int,
)
    requires
        0 <= cols,
        0 <= r,
        start(0) == 0,
        forall|q: int| 0 <= q < r ==> start(q + 1) == start(q) + #[trigger] len(q) * cols,
        forall|q: int| 0 <= q < r ==> #[trigger] len(q) >= 0,
        forall|q: int, c2: int| 0 <= q < r && 0 <= c2 < cols ==> (#[trigger] cell(q, c2)).len() == len(q),
    ensures
        grid_concat(cell, cols, r).len() == start(r),
        forall|q: int| 0 <= q <= r ==> 0 <= #[trigger] start(q) <= start(r),
        0 <= rr < r && 0 <= c < cols && 0 <= k < len(rr) ==> grid_concat(cell, cols, r)[start(rr) + len(rr) * c + k]
            == cell(rr, c)[k],
    decreases r,
{
    if r > 0 {
        lemma_grid_at(cell, cols, r - 1, len, start, rr, c, k);
        let l = len(r - 1);
        assert forall|cc: int| 0 <= cc < cols implies (#[trigger] cell(r - 1, cc)).len() == l by {}
        lemma_row_concat_at(cell, r - 1, cols, l, c, k);
        assert(start(r) == start(r - 1) + l * cols);
        assert(0 <= l * cols) by (nonlinear_arith)
            requires
                0 <= l,
                0 <= cols,
        ;
        assert forall|q: int| 0 <= q <= r implies 0 <= #[trigger] start(q) <= start(r) by {
            if q < r {
                assert(0 <= start(q) <= start(r - 1));
            } else {
                assert(0 <= start(r - 1));
            }
        }
        if rr == r - 1 && 0 <= c < cols && 0 <= k < l {
            assert(l * c + k < l * cols) by (nonlinear_arith)
                requires
                    0 <= c < cols,
                    0 <= k < l,
            ;
            assert(0 <= l * c) by (nonlinear_arith)
                requires
                    0 <= c,
                    0 <= l,
            ;
            assert(grid_concat(cell, cols, r) == grid_concat(cell, cols, r - 1) + row_concat(cell, r - 1, cols));
        }
        if 0 <= rr < r - 1 && 0 <= c < cols && 0 <= k < len(rr) {
            let lr = len(rr);
            assert(start(rr + 1) == start(rr) + lr * cols);
            assert(start(rr + 1) <= start(r - 1));
            assert(lr * c + k < lr * cols) by (nonlinear_arith)
                requires
                    0 <= c < cols,
                    0 <= k < lr,
            ;
            assert(0 <= lr * c) by (nonlinear_arith)
                requires
                    0 <= c,
                    0 <= lr,
            ;
        }
    } else {
        assert forall|q: int| 0 <= q <= r implies 0 <= #[trigger] start(q) <= start(r) by {}
    }
}

/// Number of indices in ring `q` of a sphere of `rings` rings: the upper triangle unless
/// `q` is the first ring, the lower unless it is the last, per segment.
pub open spec fn sphere_ring_len(rings: int, q: int) -> int {
    (if q != 0 { 3int } else { 0int }) + (if q != rings - 1 { 3int } else { 0int })
}

/// Where ring `q` of a sphere of `rings` rings and `segments` segments starts.
pub open spec fn sphere_ring_start(segments: int, rings: int, q: int) -> int {
    if q <= 0 {
        0
    } else if q < rings {
        3 * segments + 6 * segments * (q - 1)
    } else if rings >= 2 {
        6 * segments * (rings - 1)
    } else {
        0
    }
}

/// A sphere's index buffer: every cell has its upper triangle unless it touches the top pole
/// and its lower triangle unless it touches the bottom pole, and nothing else is there:
/// `6 * segments * (rings - 1)` indices.
pub proof fn lemma_sphere_triangles(segments: int, rings: int)
    requires
        0 <= segments,
        0 <= rings,
        (rings + 1) * (segments + 1) <= u32::MAX,
    ensures
        spec_sphere_indices(segments, rings).len() == (if rings >= 1 { 6 * segments * (rings - 1) } else { 0 }),
        forall|r: int, s: int| 0 < r < rings && 0 <= s < segments ==> #[trigger] upper_triangle(spec_sphere_indices(segments, rings), segments, r, s),
        forall|r: int, s: int| 0 <= r < rings - 1 && 0 <= s < segments ==> #[trigger] lower_triangle(spec_sphere_indices(segments, rings), segments, r, s),
{
    let ix = spec_sphere_indices(segments, rings);
    let cell = |a: int, b: int| sphere_cell(a, b, segments + 1, rings);
    let len = |q: int| sphere_ring_len(rings, q);
    let start = |q: int| sphere_ring_start(segments, rings, q);
    assert forall|q: int| 0 <= q < rings implies start(q + 1) == start(q) + #[trigger] len(q) * segments by {
        assert(start(q + 1) == start(q) + len(q) * segments) by (nonlinear_arith)
            requires
                0 <= q < rings,
                len(q) == sphere_ring_len(rings, q),
                sphere_ring_len(rings, q) == (if q != 0 { 3int } else { 0int }) + (if q != rings - 1 { 3int } else { 0int }),
                start(q) == (if q <= 0 { 0 } else if q < rings { 3 * segments + 6 * segments * (q - 1) } else if rings >= 2 { 6 * segments * (rings - 1) } else { 0 }),
                start(q + 1) == (if q + 1 <= 0 { 0 } else if q + 1 < rings { 3 * segments + 6 * segments * q } else if rings >= 2 { 6 * segments * (rings - 1) } else { 0 }),
        ;
    }
    assert forall|q: int, c2: int| 0 <= q < rings && 0 <= c2 < segments implies (#[trigger] cell(q, c2)).len() == len(q) by {}
    assert forall|q: int| 0 <= q < rings implies #[trigger] len(q) >= 0 by {}
    lemma_grid_at(cell, segments, rings, len, start, 0, 0, 0);
    assert(start(rings) == (if rings >= 1 { 6 * segments * (rings - 1) } else { 0 })) by (nonlinear_arith)
        requires
            start(rings) == (if rings <= 0 { 0 } else if rings < rings { 0 } else if rings >= 2 { 6 * segments * (rings - 1) } else { 0 }),
            0 <= rings,
    ;
    assert forall|r: int, s: int| 0 < r < rings && 0 <= s < segments implies #[trigger] upper_triangle(ix, segments, r, s) by {
        lemma_grid_cell_bound(r, s, segments + 1, rings);
        lemma_grid_at(cell, segments, rings, len, start, r, s, 0);
        lemma_grid_at(cell, segments, rings, len, start, r, s, 1);
        lemma_grid_at(cell, segments, rings, len, start, r, s, 2);
        let p = start(r) + len(r) * s;
        assert(start(r + 1) <= start(rings));
        assert(0 <= start(r));
        assert(start(r + 1) == start(r) + len(r) * segments);
        if len(r) == 3 {
            assert(len(r) * s == 3 * s);
            assert(len(r) * segments == 3 * segments);
            assert(p + 2 < start(r + 1));
        } else {
            assert(len(r) == 6);
            assert(len(r) * s == 6 * s);
            assert(len(r) * segments == 6 * segments);
            assert(p + 2 < start(r + 1));
        }
        assert(ix[p] == cell(r, s)[0]);
    }
    assert forall|r: int, s: int| 0 <= r < rings - 1 && 0 <= s < segments implies #[trigger] lower_triangle(ix, segments, r, s) by {
        lemma_grid_cell_bound(r, s, segments + 1, rings);
        let o = if r == 0 { 0int } else { 3int };
        lemma_grid_at(cell, segments, rings, len, start, r, s, o);
        lemma_grid_at(cell, segments, rings, len, start, r, s, o + 1);
        lemma_grid_at(cell, segments, rings, len, start, r, s, o + 2);
        let p = start(r) + len(r) * s + o;
        assert(start(r + 1) <= start(rings));
        assert(0 <= start(r));
        assert(start(r + 1) == start(r) + len(r) * segments);
        if r == 0 {
            assert(len(r) == 3);
            assert(len(r) * s == 3 * s);
            assert(len(r) * segments == 3 * segments);
            assert(p + 2 < start(r + 1));
        } else {
            assert(len(r) == 6);
            assert(len(r) * s == 6 * s);
            assert(len(r) * segments == 6 * segments);
            assert(p + 2 < start(r + 1));
        }
        assert(ix[p] == cell(r, s)[o]);
    }
}

/// Every index of a cylinder mesh names one of its `4 * segments + 4` vertices.
pub proof fn lemma_cylinder_indices_in_range(segments: int)
    requires
        0 <= segments,
        4 * segments + 4 <= u32::MAX,
    ensures
        all_below_u32(spec_cylinder_indices(segments), 4 * segments + 4),
{
    let bound = 4 * segments + 4;
    let top_center = 2 * (segments + 1);
    let bottom_center = top_center + 1 + segments;
    let side = |i: int| cylinder_side(i);
    let top = |i: int| cylinder_top(i, segments, top_center);
    let bottom = |i: int| cylinder_bottom(i, segments, bottom_center);
    assert forall|i: int| 0 <= i < segments implies all_below_u32(#[trigger] side(i), bound) by {}
    assert forall|i: int| 0 <= i < segments implies all_below_u32(#[trigger] top(i), bound) by {
        assert(0 <= (i + 1) % segments < segments);
    }
    assert forall|i: int| 0 <= i < segments implies all_below_u32(#[trigger] bottom(i), bound) by {
        assert(0 <= (i + 1) % segments < segments);
    }
    lemma_concat_parts_below(side, segments, bound);
    lemma_concat_parts_below(top, segments, bound);
    lemma_concat_parts_below(bottom, segments, bound);
    lemma_all_below_u32_concat(concat_parts(side, segments), concat_parts(top, segments), bound);
    lemma_all_below_u32_concat(concat_parts(side, segments) + concat_parts(top, segments), concat_parts(bottom, segments), bound);
}

} // verus!
