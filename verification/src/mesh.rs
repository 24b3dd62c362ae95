//! Triangle index buffers of the built-in meshes.
//!
//! The vertex positions, normals and texture coordinates are the caller's
//! (they are floating point); here is the part that decides which vertices
//! form each triangle. Every index buffer only names vertices that exist.

use vstd::prelude::*;

verus! {

/// The two triangles of a quad whose four corners are consecutive
/// vertices: corner offsets `0 1 2` and `0 2 3`.
pub open spec fn quad_offset(k: int) -> int {
    if k == 0 || k == 3 {
        0
    } else if k == 1 {
        1
    } else if k == 2 || k == 4 {
        2
    } else {
        3
    }
}

/// Index `i` of the buffer of `quads` quads laid out one after another.
pub open spec fn quad_index(i: int) -> int {
    4 * (i / 6) + quad_offset(i % 6)
}

/// The indices of `quads` quads, four vertices each (`6 * quads` indices,
/// see `quad_index`).
pub fn quad_indices(quads: u32) -> (r: Vec<u32>)
    requires
        4 * quads <= u32::MAX,
    ensures
        r@.len() == 6 * quads,
        forall|i: int| 0 <= i < r@.len() ==> #[trigger] r@[i] == quad_index(i),
        forall|i: int| 0 <= i < r@.len() ==> #[trigger] r@[i] < 4 * quads,
{
    let mut out: Vec<u32> = Vec::new();
    let mut q: u32 = 0;
    while q < quads
        invariant
            q <= quads,
            4 * quads <= u32::MAX,
            out@.len() == 6 * q,
            forall|i: int| 0 <= i < out@.len() ==> #[trigger] out@[i] == quad_index(i),
        decreases quads - q,
    {
        let base = 4 * q;
        let ghost n = out@.len();
        out.push(base);
        out.push(base + 1);
        out.push(base + 2);
        out.push(base);
        out.push(base + 2);
        out.push(base + 3);
        proof {
            assert forall|i: int| 0 <= i < out@.len() implies #[trigger] out@[i] == quad_index(i) by {
                if i >= n {
                    assert((i / 6) == q && i % 6 == i - n) by (nonlinear_arith)
                        requires
                            n == 6 * q,
                            n <= i < n + 6,
                    ;
                }
            }
        }
        q = q + 1;
    }
    proof {
        assert forall|i: int| 0 <= i < out@.len() implies #[trigger] out@[i] < 4 * quads by {
            assert(i / 6 < quads as int && 0 <= i % 6 < 6) by (nonlinear_arith)
                requires
                    0 <= i < 6 * quads,
            ;
        }
    }
    out
}

/// The index buffer of a triangle list given as `points` vertices taken in
/// triples: vertex `i` is index `i`; a trailing incomplete triple is left
/// out.
pub fn triangle_list_indices(points: usize) -> (r: Vec<u32>)
    requires
        points <= u32::MAX,
    ensures
        r@.len() == points - points % 3,
        forall|i: int| 0 <= i < r@.len() ==> #[trigger] r@[i] == i,
{
    let n = points - points % 3;
    let mut out: Vec<u32> = Vec::new();
    let mut i: usize = 0;
    while i < n
        invariant
            n == points - points % 3,
            points <= u32::MAX,
            i <= n,
            out@.len() == i,
            forall|j: int| 0 <= j < i ==> #[trigger] out@[j] == j,
        decreases n - i,
    {
        out.push(i as u32);
        i = i + 1;
    }
    out
}

/// Vertices of a cylinder with `segments` sides: four per side quad, the
/// two cap centres, then four per side for the cap rims.
pub open spec fn cylinder_vertex_count(segments: int) -> int {
    8 * segments + 2
}

/// Index `i` of a cylinder's buffer: the side quads, then for each side
/// the top cap triangle (centre, rim, next rim) and the bottom one in
/// reverse order.
pub open spec fn cylinder_index(segments: int, i: int) -> int {
    if i < 6 * segments {
        quad_index(i)
    } else {
        let j = i - 6 * segments;
        let rim = 4 * segments + 2 + 4 * (j / 6);
        let k = j % 6;
        if k == 0 {
            4 * segments
        } else if k == 1 {
            rim
        } else if k == 2 {
            rim + 1
        } else if k == 3 {
            4 * segments + 1
        } else if k == 4 {
            rim + 3
        } else {
            rim + 2
        }
    }
}

/// The side count a cylinder is built with: at least three.
pub open spec fn cylinder_sides(segments: u32) -> int {
    if segments < 3 {
        3
    } else {
        segments as int
    }
}

/// The index buffer of a cylinder with `segments` sides (at least 3).
pub fn cylinder_indices(segments: u32) -> (r: Vec<u32>)
    requires
        cylinder_vertex_count(segments as int) <= u32::MAX,
    ensures
        r@.len() == 12 * cylinder_sides(segments),
        forall|i: int| 0 <= i < r@.len() ==> #[trigger] r@[i] == cylinder_index(cylinder_sides(segments), i),
        forall|i: int| 0 <= i < r@.len() ==> #[trigger] r@[i] < cylinder_vertex_count(cylinder_sides(segments)),
{
    let n: u32 = if segments < 3 {
        3
    } else {
        segments
    };
    let mut out = quad_indices(n);
    let top_center: u32 = 4 * n;
    let bot_center: u32 = 4 * n + 1;
    let mut s: u32 = 0;
    while s < n
        invariant
            n == cylinder_sides(segments),
            s <= n,
            8 * n + 2 <= u32::MAX,
            top_center == 4 * n,
            bot_center == 4 * n + 1,
            out@.len() == 6 * n + 6 * s,
            forall|i: int| 0 <= i < out@.len() ==> #[trigger] out@[i] == cylinder_index(n as int, i),
        decreases n - s,
    {
        let rim = 4 * n + 2 + 4 * s;
        let ghost m = out@.len();
        out.push(top_center);
        out.push(rim);
        out.push(rim + 1);
        out.push(bot_center);
        out.push(rim + 3);
        out.push(rim + 2);
        proof {
            assert forall|i: int| 0 <= i < out@.len() implies #[trigger] out@[i] == cylinder_index(n as int, i) by {
                if i >= m {
                    let j = i - 6 * n;
                    assert(j / 6 == s && j % 6 == i - m) by (nonlinear_arith)
                        requires
                            m == 6 * n + 6 * s,
                            j == i - 6 * n,
                            m <= i < m + 6,
                    ;
                }
            }
        }
        s = s + 1;
    }
    proof {
        assert forall|i: int| 0 <= i < out@.len() implies #[trigger] out@[i] < cylinder_vertex_count(n as int) by {
            if i < 6 * n {
                assert(i / 6 < n as int && 0 <= i % 6 < 6) by (nonlinear_arith)
                    requires
                        0 <= i < 6 * n,
                ;
            } else {
                let j = i - 6 * n;
                assert(j / 6 < n as int && 0 <= j % 6 < 6) by (nonlinear_arith)
                    requires
                        0 <= j < 6 * n,
                ;
            }
        }
    }
    out
}

/// The ring and segment counts a sphere is built with: at least two rings
/// and three segments.
pub open spec fn sphere_rings(rings: u32) -> int {
    if rings < 2 {
        2
    } else {
        rings as int
    }
}

pub open spec fn sphere_segments(segments: u32) -> int {
    if segments < 3 {
        3
    } else {
        segments as int
    }
}

/// Vertices of a sphere: a `(rings + 1) x (segments + 1)` latitude /
/// longitude grid.
pub open spec fn sphere_vertex_count(rings: int, segments: int) -> int {
    (rings + 1) * (segments + 1)
}

/// Corner offsets of the two triangles of a grid cell whose top-left
/// vertex is `a`, in a grid `stride` vertices wide: `a, a+stride, a+1` and
/// `a+1, a+stride, a+stride+1`.
pub open spec fn cell_offset(stride: int, k: int) -> int {
    if k == 0 {
        0
    } else if k == 1 || k == 4 {
        stride
    } else if k == 2 || k == 3 {
        1
    } else {
        stride + 1
    }
}

/// Index `i` of a sphere's buffer: cells row by row.
pub open spec fn sphere_index(segments: int, i: int) -> int {
    let c = i / 6;
    let a = (c / segments) * (segments + 1) + c % segments;
    a + cell_offset(segments + 1, i % 6)
}

/// The index buffer of a latitude / longitude sphere.
#[verifier::rlimit(30)]
pub fn sphere_indices(rings: u32, segments: u32) -> (r: Vec<u32>)
    requires
        sphere_vertex_count(sphere_rings(rings), sphere_segments(segments)) <= u32::MAX,
    ensures
        r@.len() == 6 * sphere_rings(rings) * sphere_segments(segments),
        forall|i: int| 0 <= i < r@.len() ==> #[trigger] r@[i] == sphere_index(sphere_segments(segments), i),
        forall|i: int|
            0 <= i < r@.len() ==> #[trigger] r@[i] < sphere_vertex_count(
                sphere_rings(rings),
                sphere_segments(segments),
            ),
{
    let nr: u32 = if rings < 2 {
        2
    } else {
        rings
    };
    let ns: u32 = if segments < 3 {
        3
    } else {
        segments
    };
    let ghost sr = nr as int;
    let ghost ss = ns as int;
    assert(sr * ss <= (sr + 1) * (ss + 1)) by (nonlinear_arith)
        requires
            sr >= 2,
            ss >= 3,
    ;
    assert(ss + 1 <= (sr + 1) * (ss + 1)) by (nonlinear_arith)
        requires
            sr >= 2,
            ss >= 3,
    ;
    let stride = ns + 1;
    let mut out: Vec<u32> = Vec::new();
    let mut r: u32 = 0;
    while r < nr
        invariant
            nr == sr,
            ns == ss,
            sr >= 2,
            ss >= 3,
            stride == ns + 1,
            r <= nr,
            (sr + 1) * (ss + 1) <= u32::MAX,
            out@.len() == 6 * (r * ss),
            forall|i: int| 0 <= i < out@.len() ==> #[trigger] out@[i] == sphere_index(ss, i),
        decreases nr - r,
    {
        let mut s: u32 = 0;
        while s < ns
            invariant
                nr == sr,
                ns == ss,
                sr >= 2,
                ss >= 3,
                stride == ns + 1,
                r < nr,
                s <= ns,
                (sr + 1) * (ss + 1) <= u32::MAX,
                out@.len() == 6 * (r * ss + s),
                forall|i: int| 0 <= i < out@.len() ==> #[trigger] out@[i] == sphere_index(ss, i),
            decreases ns - s,
        {
            assert(r * stride + s + stride + 1 <= (sr + 1) * (ss + 1)) by (nonlinear_arith)
                requires
                    r < sr,
                    s < ss,
                    stride == ss + 1,
            ;
            let a = r * stride + s;
            let b = a + stride;
            let ghost m = out@.len();
            out.push(a);
            out.push(b);
            out.push(a + 1);
            out.push(a + 1);
            out.push(b);
            out.push(b + 1);
            proof {
                assert forall|i: int| 0 <= i < out@.len() implies #[trigger] out@[i] == sphere_index(ss, i) by {
                    if i >= m {
                        let c = i / 6;
                        assert(c == r * ss + s && i % 6 == i - m) by (nonlinear_arith)
                            requires
                                m == 6 * (r * ss + s),
                                m <= i < m + 6,
                                c == i / 6,
                        ;
                        assert(c / ss == r && c % ss == s) by (nonlinear_arith)
                            requires
                                c == r * ss + s,
                                0 <= s < ss,
                                r >= 0,
                        ;
                    }
                }
            }
            s = s + 1;
        }
        r = r + 1;
        assert(6 * ((r - 1) * ss + ss) == 6 * (r * ss)) by (nonlinear_arith);
    }
    proof {
        assert forall|i: int| 0 <= i < out@.len() implies #[trigger] out@[i] < sphere_vertex_count(sr, ss) by {
            let c = i / 6;
            let row = c / ss;
            let col = c % ss;
            assert(0 <= row < sr && 0 <= col < ss && 0 <= i % 6 < 6) by (nonlinear_arith)
                requires
                    0 <= i < 6 * (sr * ss),
                    c == i / 6,
                    row == c / ss,
                    col == c % ss,
                    ss >= 3,
            ;
            assert(row * (ss + 1) + col + (ss + 1) + 1 < (sr + 1) * (ss + 1)) by (nonlinear_arith)
                requires
                    0 <= row < sr,
                    0 <= col < ss,
            ;
        }
        assert(6 * (sr * ss) == 6 * sr * ss) by (nonlinear_arith);
    }
    out
}

} // verus!
