use vstd::prelude::*;

verus! {

/// A triangle as three indices into a mesh's vertex list.
pub type Tri = [usize; 3];

/// The connectivity of an indexed triangle mesh: how many vertices it has and
/// which of them form each triangle. Vertex positions and normals are stored
/// alongside it, index-aligned, by whoever owns the geometry.
#[derive(Clone)]
pub struct Mesh {
    pub vertex_count: usize,
    pub indices: Vec<Tri>,
}

/// `t` names three vertices of a mesh with `n` vertices.
pub open spec fn tri_in_range(t: Tri, n: int) -> bool {
    t[0] < n && t[1] < n && t[2] < n
}

/// `t` is the triangle `(a, b, c)`.
pub open spec fn tri_eq(t: Tri, a: int, b: int, c: int) -> bool {
    t[0] == a && t[1] == b && t[2] == c
}

/// The vertex index of column `x`, row `y` of a UV sphere with `segments` columns.
pub open spec fn grid_index(segments: int, y: int, x: int) -> int {
    y * (segments + 1) + x
}

/// Triangle `k` of a UV sphere with `segments` columns of quads: the quad of
/// row `y`, column `x` (`k / 2 == y * segments + x`) is split into
/// `(i0, i2, i1)` and `(i1, i2, i3)`, where `i0` is its top-left vertex, `i1`
/// the one to its right, and `i2`, `i3` the two below them.
pub open spec fn sphere_tri(segments: int, k: int, t: Tri) -> bool {
    let cell = k / 2;
    let y = cell / segments;
    let x = cell % segments;
    let i0 = grid_index(segments, y, x);
    let i1 = i0 + 1;
    let i2 = i0 + segments + 1;
    let i3 = i2 + 1;
    if k % 2 == 0 {
        tri_eq(t, i0, i2, i1)
    } else {
        tri_eq(t, i1, i2, i3)
    }
}

/// Triangle `k` of a ring mesh: step `i = k / 4` has four vertices from
/// `base = 4 * i` on (outer and inner with an upward normal, then outer and
/// inner with a downward normal), and is joined to the four of step `i + 1`
/// by two triangles on the upper face and two, wound the other way, on the
/// lower face.
pub open spec fn ring_tri(k: int, t: Tri) -> bool {
    let base = 4 * (k / 4);
    let next = base + 4;
    let j = k % 4;
    if j == 0 {
        tri_eq(t, base, next, base + 1)
    } else if j == 1 {
        tri_eq(t, base + 1, next, next + 1)
    } else if j == 2 {
        tri_eq(t, base + 2, base + 3, next + 2)
    } else {
        tri_eq(t, base + 3, next + 3, next + 2)
    }
}

/// All three vertices of `t` were kept.
pub open spec fn tri_accepted(t: Tri, accepted: Seq<bool>) -> bool {
    accepted[t[0] as int] && accepted[t[1] as int] && accepted[t[2] as int]
}

/// The triangles among the first `k` of `tris` whose three vertices were all kept, in order.
pub open spec fn accepted_upto(tris: Seq<Tri>, accepted: Seq<bool>, k: nat) -> Seq<Tri>
    decreases k,
{
    if k == 0 {
        Seq::empty()
    } else {
        let prev = accepted_upto(tris, accepted, (k - 1) as nat);
        if tri_accepted(tris[k - 1], accepted) {
            prev.push(tris[k - 1])
        } else {
            prev
        }
    }
}

impl Mesh {
    /// Every triangle names vertices of the mesh.
    pub open spec fn wf(&self) -> bool {
        forall|i: int| 0 <= i < self.indices@.len() ==> tri_in_range(#[trigger] self.indices@[i], self.vertex_count as int)
    }

    /// The triangles whose three vertices are all marked in `accepted` (one
    /// mark per vertex), in mesh order; a triangle with a rejected vertex is
    /// left out whole.
    pub fn assemble(&self, accepted: &Vec<bool>) -> (r: Vec<Tri>)
        requires
            self.wf(),
            accepted@.len() == self.vertex_count,
        ensures
            r@ == accepted_upto(self.indices@, accepted@, self.indices@.len()),
    {
        let mut r: Vec<Tri> = Vec::new();
        let mut k: usize = 0;
        while k < self.indices.len()
            invariant
                self.wf(),
                accepted@.len() == self.vertex_count,
                k <= self.indices@.len(),
                r@ == accepted_upto(self.indices@, accepted@, k as nat),
            decreases self.indices@.len() - k,
        {
            let t = self.indices[k];
            assert(tri_in_range(self.indices@[k as int], self.vertex_count as int));
            if accepted[t[0]] && accepted[t[1]] && accepted[t[2]] {
                r.push(t);
            }
            k = k + 1;
        }
        r
    }

    /// How many triangles the mesh has.
    pub fn triangle_count(&self) -> (n: usize)
        ensures
            n == self.indices@.len(),
    {
        self.indices.len()
    }

    /// The connectivity of a UV sphere with `segments` columns and `rings` rows
    /// of quads: `(segments + 1) * (rings + 1)` vertices, row by row, and two
    /// triangles per quad.
    pub fn uv_sphere(segments: usize, rings: usize) -> (m: Mesh)
        requires
            (segments + 1) * (rings + 1) <= usize::MAX,
            2 * segments * rings <= usize::MAX,
        ensures
            m.wf(),
            m.vertex_count == (segments + 1) * (rings + 1),
            m.indices@.len() == 2 * segments * rings,
            forall|k: int| 0 <= k < m.indices@.len() ==> sphere_tri(segments as int, k, #[trigger] m.indices@[k]),
    {
        proof {
            assert(segments + 1 <= (segments + 1) * (rings + 1)) by (nonlinear_arith);
            assert(rings + 1 <= (segments + 1) * (rings + 1)) by (nonlinear_arith);
        }
        let stride = segments + 1;
        let vertex_count = stride * (rings + 1);
        let mut indices: Vec<Tri> = Vec::new();
        let mut y: usize = 0;
        while y < rings
            invariant
                y <= rings,
                stride == segments + 1,
                vertex_count == stride * (rings + 1),
                (segments + 1) * (rings + 1) <= usize::MAX,
                indices@.len() == 2 * segments * y,
                forall|k: int| 0 <= k < indices@.len() ==> sphere_tri(segments as int, k, #[trigger] indices@[k]),
                forall|k: int| 0 <= k < indices@.len() ==> tri_in_range(#[trigger] indices@[k], vertex_count as int),
            decreases rings - y,
        {
            assert(2 * segments * y == 2 * (segments * y + 0)) by (nonlinear_arith);
            let mut x: usize = 0;
            while x < segments
                invariant
                    y < rings,
                    x <= segments,
                    stride == segments + 1,
                    vertex_count == stride * (rings + 1),
                    (segments + 1) * (rings + 1) <= usize::MAX,
                    indices@.len() == 2 * (segments * y + x),
                    forall|k: int| 0 <= k < indices@.len() ==> sphere_tri(segments as int, k, #[trigger] indices@[k]),
                    forall|k: int| 0 <= k < indices@.len() ==> tri_in_range(#[trigger] indices@[k], vertex_count as int),
                decreases segments - x,
            {
                proof {
                    assert(y * stride + x + stride + 1 < vertex_count) by (nonlinear_arith)
                        requires
                            y < rings,
                            x < segments,
                            stride == segments + 1,
                            vertex_count == stride * (rings + 1),
                    ;
                }
                let i0 = y * stride + x;
                let i1 = i0 + 1;
                let i2 = i0 + stride;
                let i3 = i2 + 1;
                let ghost n = indices@.len() as int;
                proof {
                    let cell = segments * y + x;
                    assert(n / 2 == cell && n % 2 == 0);
                    assert((n + 1) / 2 == cell && (n + 1) % 2 == 1);
                    assert(cell / (segments as int) == y as int && cell % (segments as int) == x as int) by (nonlinear_arith)
                        requires
                            cell == segments * y + x,
                            x < segments,
                    ;
                }
                indices.push([i0, i2, i1]);
                indices.push([i1, i2, i3]);
                x = x + 1;
            }
            proof {
                assert(2 * (segments * y + segments) == 2 * segments * (y + 1)) by (nonlinear_arith);
            }
            y = y + 1;
        }
        Mesh { vertex_count, indices }
    }

    /// The connectivity of a flat two-sided ring of `segments` angular steps:
    /// `4 * (segments + 1)` vertices, four per step (the last step repeats the
    /// first angle), and four triangles joining each step to the next.
    pub fn ring(segments: usize) -> (m: Mesh)
        requires
            4 * (segments + 1) <= usize::MAX,
        ensures
            m.wf(),
            m.vertex_count == 4 * (segments + 1),
            m.indices@.len() == 4 * segments,
            forall|k: int| 0 <= k < m.indices@.len() ==> ring_tri(k, #[trigger] m.indices@[k]),
    {
        let vertex_count = 4 * (segments + 1);
        let mut indices: Vec<Tri> = Vec::new();
        let mut i: usize = 0;
        while i < segments
            invariant
                i <= segments,
                vertex_count == 4 * (segments + 1),
                indices@.len() == 4 * i,
                forall|k: int| 0 <= k < indices@.len() ==> ring_tri(k, #[trigger] indices@[k]),
                forall|k: int| 0 <= k < indices@.len() ==> tri_in_range(#[trigger] indices@[k], vertex_count as int),
            decreases segments - i,
        {
            let base = i * 4;
            let next = base + 4;
            let base_down = base + 2;
            let next_down = next + 2;
            let ghost n = indices@.len() as int;
            assert(n / 4 == i && (n + 1) / 4 == i && (n + 2) / 4 == i && (n + 3) / 4 == i);
            indices.push([base, next, base + 1]);
            indices.push([base + 1, next, next + 1]);
            indices.push([base_down, base_down + 1, next_down]);
            indices.push([base_down + 1, next_down + 1, next_down]);
            i = i + 1;
        }
        Mesh { vertex_count, indices }
    }
}

/// The fan triangles of a polygon `face`: `(face[0], face[j], face[j + 1])` for
/// each `j` from 1 to `face.len() - 2`; none for a face of fewer than three vertices.
pub open spec fn fan_tri(face: Seq<usize>, j: int, t: Tri) -> bool {
    tri_eq(t, face[0] as int, face[j + 1] as int, face[j + 2] as int)
}

/// How many fan triangles a polygon of `n` vertices has.
pub open spec fn fan_len(n: int) -> int {
    if n >= 3 {
        n - 2
    } else {
        0
    }
}

/// Appends to `out` the fan triangulation of the polygon `face` around its first vertex.
pub fn push_fan(face: &Vec<usize>, out: &mut Vec<Tri>)
    ensures
        final(out)@.len() == old(out)@.len() + fan_len(face@.len() as int),
        final(out)@.subrange(0, old(out)@.len() as int) == old(out)@,
        forall|j: int|
            0 <= j < fan_len(face@.len() as int) ==> fan_tri(face@, j, #[trigger] final(out)@[old(out)@.len() + j]),
{
    let n = face.len();
    if n < 3 {
        return;
    }
    let mut tri: usize = 1;
    while tri < n - 1
        invariant
            n == face@.len(),
            n >= 3,
            1 <= tri <= n - 1,
            out@.len() == old(out)@.len() + (tri - 1),
            out@.subrange(0, old(out)@.len() as int) == old(out)@,
            forall|j: int| 0 <= j < tri - 1 ==> fan_tri(face@, j, #[trigger] out@[old(out)@.len() + j]),
        decreases n - 1 - tri,
    {
        out.push([face[0], face[tri], face[tri + 1]]);
        tri = tri + 1;
    }
}

/// Why a list of polygons does not make a mesh.
#[derive(Clone, Copy, Debug, PartialEq, Eq, Structural)]
pub enum FaceError {
    /// A face names a vertex at or past the end of the vertex list.
    IndexOutOfRange,
}

/// Every index that some face names is below `n`.
pub open spec fn faces_in_range(faces: Seq<Vec<usize>>, n: int) -> bool {
    forall|f: int, j: int| 0 <= f < faces.len() && 0 <= j < faces[f]@.len() ==> #[trigger] faces[f]@[j] < n
}

/// The fan triangulation of each face in turn.
pub open spec fn fan_all(faces: Seq<Vec<usize>>) -> Seq<Tri>
    decreases faces.len(),
{
    if faces.len() == 0 {
        Seq::empty()
    } else {
        fan_all(faces.drop_last()) + fan_of(faces.last()@)
    }
}

/// The fan triangles of one polygon, in order.
pub open spec fn fan_of(face: Seq<usize>) -> Seq<Tri> {
    Seq::new(fan_len(face.len() as int) as nat, |j: int| [face[0], face[j + 1], face[j + 2]])
}

impl Mesh {
    /// Builds a mesh of `vertex_count` vertices from polygons given as vertex
    /// indices: each polygon is split into a fan around its first vertex, and
    /// polygons of fewer than three vertices add nothing. Fails when a face
    /// names a vertex that does not exist.
    pub fn from_faces(vertex_count: usize, faces: &Vec<Vec<usize>>) -> (r: Result<Mesh, FaceError>)
        ensures
            faces_in_range(faces@, vertex_count as int) <==> r is Ok,
            r matches Ok(m) ==> m.wf() && m.vertex_count == vertex_count && m.indices@ == fan_all(faces@),
            r matches Err(e) ==> e == FaceError::IndexOutOfRange,
    {
        let mut indices: Vec<Tri> = Vec::new();
        let mut f: usize = 0;
        while f < faces.len()
            invariant
                f <= faces@.len(),
                faces_in_range(faces@.subrange(0, f as int), vertex_count as int),
                indices@ == fan_all(faces@.subrange(0, f as int)),
                forall|k: int| 0 <= k < indices@.len() ==> tri_in_range(#[trigger] indices@[k], vertex_count as int),
            decreases faces@.len() - f,
        {
            let face = &faces[f];
            let mut j: usize = 0;
            while j < face.len()
                invariant
                    f < faces@.len(),
                    j <= face@.len(),
                    face == faces@[f as int],
                    forall|i: int| 0 <= i < j ==> #[trigger] face@[i] < vertex_count,
                decreases face@.len() - j,
            {
                if face[j] >= vertex_count {
                    assert(!faces_in_range(faces@, vertex_count as int)) by {
                        assert(faces@[f as int]@[j as int] >= vertex_count);
                    }
                    return Err(FaceError::IndexOutOfRange);
                }
                j = j + 1;
            }
            let ghost before = indices@;
            push_fan(face, &mut indices);
            proof {
                let fs = faces@.subrange(0, f as int + 1);
                assert(fs.drop_last() =~= faces@.subrange(0, f as int));
                assert(fs.last() == *face);
                assert(indices@ =~= before + fan_of(face@)) by {
                    assert(indices@.subrange(0, before.len() as int) == before);
                    assert forall|i: int| 0 <= i < fan_len(face@.len() as int) implies indices@[before.len() + i] == fan_of(face@)[i] by {
                        assert(fan_tri(face@, i, indices@[before.len() + i]));
                        assert(indices@[before.len() + i]@ =~= fan_of(face@)[i]@);
                    }
                }
                assert forall|k: int| 0 <= k < indices@.len() implies tri_in_range(#[trigger] indices@[k], vertex_count as int) by {
                    if k >= before.len() {
                        assert(fan_tri(face@, k - before.len(), indices@[before.len() + (k - before.len())]));
                    } else {
                        assert(indices@.subrange(0, before.len() as int)[k] == before[k]);
                    }
                }
                assert forall|a: int, b: int| 0 <= a < fs.len() && 0 <= b < fs[a]@.len() implies #[trigger] fs[a]@[b] < vertex_count by {
                    if a < f {
                        assert(faces@.subrange(0, f as int)[a] == fs[a]);
                    }
                }
            }
            f = f + 1;
        }
        proof {
            assert(faces@.subrange(0, f as int) =~= faces@);
        }
        Ok(Mesh { vertex_count, indices })
    }
}

} // verus!
