//! `sensor_msgs/PointCloud2` layout checks and little-endian field reads.
//!
//! A cloud is decoded only when it is little-endian, carries `x`, `y` and
//! `z` fields of one floating-point width, each inside the point step, and
//! its buffer holds every point; every `stride`-th point is kept. The bit
//! patterns read here are turned into coordinates by the caller. A cloud
//! whose frame cannot be placed is warned about once per run of failed
//! lookups, not at the publish rate.

use vstd::prelude::*;

use crate::text::str_eq;

verus! {

/// `PointField.datatype` of a 32-bit float.
pub const PF_FLOAT32: u8 = 7;
/// `PointField.datatype` of a 64-bit float.
pub const PF_FLOAT64: u8 = 8;

/// One `sensor_msgs/PointField`.
pub struct PointField {
    pub name: String,
    pub offset: u32,
    pub datatype: u8,
    pub count: u32,
}

/// Where `x`, `y`, `z` sit within a point, and their width.
#[derive(Clone, Copy, Debug, PartialEq, Eq, Structural)]
pub struct XyzLayout {
    pub x_off: usize,
    pub y_off: usize,
    pub z_off: usize,
    /// 4-byte floats when true, 8-byte floats when false.
    pub single: bool,
}

/// The last field named `name`, as `(offset, datatype)`.
pub open spec fn last_field(fields: Seq<PointField>, name: Seq<char>) -> Option<(u32, u8)>
    decreases fields.len(),
{
    if fields.len() == 0 {
        None
    } else if fields.last().name@ == name {
        Some((fields.last().offset, fields.last().datatype))
    } else {
        last_field(fields.drop_last(), name)
    }
}

/// The layout of a cloud's coordinates: `x`, `y` and `z` must all be
/// present (the last field of each name counts) and all 4-byte or all
/// 8-byte floats.
pub open spec fn layout_of(fields: Seq<PointField>) -> Option<XyzLayout> {
    match (last_field(fields, "x"@), last_field(fields, "y"@), last_field(fields, "z"@)) {
        (Some((xo, xd)), Some((yo, yd)), Some((zo, zd))) => if xd == PF_FLOAT32 && yd
            == PF_FLOAT32 && zd == PF_FLOAT32 {
            Some(XyzLayout { x_off: xo as usize, y_off: yo as usize, z_off: zo as usize, single: true })
        } else if xd == PF_FLOAT64 && yd == PF_FLOAT64 && zd == PF_FLOAT64 {
            Some(XyzLayout { x_off: xo as usize, y_off: yo as usize, z_off: zo as usize, single: false })
        } else {
            None
        },
        _ => None,
    }
}

/// Find the `x`, `y`, `z` fields of a cloud (see `layout_of`).
pub fn locate_xyz(fields: &Vec<PointField>) -> (r: Option<XyzLayout>)
    ensures
        r == layout_of(fields@),
{
    let mut x: Option<(u32, u8)> = None;
    let mut y: Option<(u32, u8)> = None;
    let mut z: Option<(u32, u8)> = None;
    let mut i: usize = 0;
    while i < fields.len()
        invariant
            i <= fields@.len(),
            x == last_field(fields@.take(i as int), "x"@),
            y == last_field(fields@.take(i as int), "y"@),
            z == last_field(fields@.take(i as int), "z"@),
        decreases fields@.len() - i,
    {
        proof {
            assert(fields@.take(i + 1).drop_last() =~= fields@.take(i as int));
            reveal_strlit("x");
            reveal_strlit("y");
            reveal_strlit("z");
            assert("x"@ != "y"@ && "x"@ != "z"@ && "y"@ != "z"@) by {
                assert("x"@[0] != "y"@[0]);
                assert("x"@[0] != "z"@[0]);
                assert("y"@[0] != "z"@[0]);
            }
        }
        let f = &fields[i];
        if str_eq(f.name.as_str(), "x") {
            x = Some((f.offset, f.datatype));
        } else if str_eq(f.name.as_str(), "y") {
            y = Some((f.offset, f.datatype));
        } else if str_eq(f.name.as_str(), "z") {
            z = Some((f.offset, f.datatype));
        }
        i = i + 1;
    }
    proof {
        assert(fields@.take(fields@.len() as int) =~= fields@);
    }
    let (x_off, x_dt) = match x {
        Some(v) => v,
        None => return None,
    };
    let (y_off, y_dt) = match y {
        Some(v) => v,
        None => return None,
    };
    let (z_off, z_dt) = match z {
        Some(v) => v,
        None => return None,
    };
    let single = if x_dt == PF_FLOAT32 && y_dt == PF_FLOAT32 && z_dt == PF_FLOAT32 {
        true
    } else if x_dt == PF_FLOAT64 && y_dt == PF_FLOAT64 && z_dt == PF_FLOAT64 {
        false
    } else {
        return None;
    };
    Some(XyzLayout { x_off: x_off as usize, y_off: y_off as usize, z_off: z_off as usize, single })
}

/// Bytes per coordinate.
pub open spec fn scalar_size(l: XyzLayout) -> int {
    if l.single {
        4
    } else {
        8
    }
}

/// `a * b`, saturating at `usize::MAX`.
pub open spec fn sat_mul(a: int, b: int) -> int {
    if a * b > usize::MAX {
        usize::MAX as int
    } else {
        a * b
    }
}

/// Why a cloud is dropped, or how many points it has.
#[derive(Clone, Copy, Debug, PartialEq, Eq, Structural)]
pub enum CloudCheck {
    /// Every point can be read; the cloud has this many.
    Fits(usize),
    /// A coordinate does not fit in the point step.
    OffsetsExceedStep,
    /// The buffer is shorter than the points it should hold.
    BufferTooSmall,
}

/// The verdict on a cloud of `width * height` points of `point_step` bytes
/// in a buffer of `data_len` bytes.
pub open spec fn check_spec(l: XyzLayout, width: u32, height: u32, point_step: u32, data_len: usize) -> CloudCheck {
    let n = sat_mul(width as int, height as int);
    let s = scalar_size(l);
    if l.x_off + s > point_step || l.y_off + s > point_step || l.z_off + s > point_step {
        CloudCheck::OffsetsExceedStep
    } else if data_len < sat_mul(n, point_step as int) {
        CloudCheck::BufferTooSmall
    } else {
        CloudCheck::Fits(n as usize)
    }
}

fn saturating_mul(a: usize, b: usize) -> (r: usize)
    ensures
        r == sat_mul(a as int, b as int),
{
    match a.checked_mul(b) {
        Some(v) => v,
        None => usize::MAX,
    }
}

/// Check that a cloud can be read (see `check_spec`).
pub fn check_cloud(l: XyzLayout, width: u32, height: u32, point_step: u32, data_len: usize) -> (r: CloudCheck)
    ensures
        r == check_spec(l, width, height, point_step, data_len),
{
    let n = saturating_mul(width as usize, height as usize);
    let step = point_step as usize;
    let s: usize = if l.single {
        4
    } else {
        8
    };
    if l.x_off > step || step - l.x_off < s || l.y_off > step || step - l.y_off < s || l.z_off
        > step || step - l.z_off < s {
        return CloudCheck::OffsetsExceedStep;
    }
    if data_len < saturating_mul(n, step) {
        return CloudCheck::BufferTooSmall;
    }
    CloudCheck::Fits(n)
}

/// What the check accepts: coordinates are 4 bytes wide in a
/// single-precision layout and 8 in a double one. A cloud whose three
/// coordinates each fit in the point step and whose buffer holds all
/// `width * height` points is accepted with that many points; one with a
/// coordinate reaching past the step is refused for that; one that fits
/// the step but whose buffer is short of the points is refused for that.
pub proof fn lemma_cloud_acceptance(l: XyzLayout, width: u32, height: u32, point_step: u32, data_len: usize)
    ensures
        ({
            let w: int = if l.single {
                4
            } else {
                8
            };
            let fits_step = l.x_off + w <= point_step && l.y_off + w <= point_step && l.z_off + w <= point_step;
            let need = width as int * height as int * point_step as int;
            &&& fits_step && need <= data_len ==> check_spec(l, width, height, point_step, data_len)
                == CloudCheck::Fits((width as int * height as int) as usize)
            &&& !fits_step ==> check_spec(l, width, height, point_step, data_len) == CloudCheck::OffsetsExceedStep
            &&& fits_step && data_len < need && need <= usize::MAX ==> check_spec(
                l,
                width,
                height,
                point_step,
                data_len,
            ) == CloudCheck::BufferTooSmall
        }),
{
    let a = width as int;
    let b = height as int;
    let c = point_step as int;
    assert(a * b >= 0 && a * b * c >= 0) by (nonlinear_arith)
        requires
            a >= 0,
            b >= 0,
            c >= 0,
    ;
    if c >= 1 && a * b > usize::MAX {
        assert(a * b * c >= a * b) by (nonlinear_arith)
            requires
                a * b >= 0,
                c >= 1,
        ;
    }
    if c >= 1 && a * b <= usize::MAX {
        assert(sat_mul(a * b, c) <= a * b * c);
    }
}

/// In a cloud that passed the check, every coordinate of every point lies
/// inside the buffer.
pub proof fn lemma_reads_in_bounds(
    l: XyzLayout,
    width: u32,
    height: u32,
    point_step: u32,
    data_len: usize,
    i: int,
    off: int,
)
    requires
        check_spec(l, width, height, point_step, data_len) matches CloudCheck::Fits(n) && 0 <= i < n,
        off == l.x_off || off == l.y_off || off == l.z_off,
        data_len <= isize::MAX,
    ensures
        i * point_step + off + scalar_size(l) <= data_len,
{
    let n = sat_mul(width as int, height as int);
    let step = point_step as int;
    assert(n * step <= data_len) by {
        if n * step > usize::MAX {
            assert(sat_mul(n, step) == usize::MAX);
        }
    }
    assert(i * step + step <= n * step) by (nonlinear_arith)
        requires
            0 <= i < n,
            step >= 0,
    ;
}

/// What becomes of an incoming cloud: its points are read, or it is
/// dropped, and why.
#[derive(Clone, Copy, Debug, PartialEq, Eq, Structural)]
pub enum CloudVerdict {
    /// Read `points` points with this layout.
    Accept { layout: XyzLayout, points: usize },
    /// Big-endian data is not supported.
    BigEndian,
    /// `x`, `y`, `z` are missing or of mixed types.
    NoXyz,
    /// A coordinate does not fit in the point step.
    OffsetsExceedStep,
    /// The buffer is shorter than the points it should hold.
    BufferTooSmall,
}

/// The verdict on a cloud (see `layout_of` and `check_spec`).
pub open spec fn verdict_spec(
    big_endian: bool,
    fields: Seq<PointField>,
    width: u32,
    height: u32,
    point_step: u32,
    data_len: usize,
) -> CloudVerdict {
    if big_endian {
        CloudVerdict::BigEndian
    } else {
        match layout_of(fields) {
            None => CloudVerdict::NoXyz,
            Some(l) => match check_spec(l, width, height, point_step, data_len) {
                CloudCheck::Fits(n) => CloudVerdict::Accept { layout: l, points: n },
                CloudCheck::OffsetsExceedStep => CloudVerdict::OffsetsExceedStep,
                CloudCheck::BufferTooSmall => CloudVerdict::BufferTooSmall,
            },
        }
    }
}

/// Decide whether and how an incoming cloud is read.
pub fn inspect_cloud(
    big_endian: bool,
    fields: &Vec<PointField>,
    width: u32,
    height: u32,
    point_step: u32,
    data_len: usize,
) -> (r: CloudVerdict)
    ensures
        r == verdict_spec(big_endian, fields@, width, height, point_step, data_len),
{
    if big_endian {
        return CloudVerdict::BigEndian;
    }
    let layout = match locate_xyz(fields) {
        Some(l) => l,
        None => return CloudVerdict::NoXyz,
    };
    match check_cloud(layout, width, height, point_step, data_len) {
        CloudCheck::Fits(n) => CloudVerdict::Accept { layout, points: n },
        CloudCheck::OffsetsExceedStep => CloudVerdict::OffsetsExceedStep,
        CloudCheck::BufferTooSmall => CloudVerdict::BufferTooSmall,
    }
}

/// The decimation step a style asks for: at least one.
pub open spec fn step_of(stride: usize) -> int {
    if stride == 0 {
        1
    } else {
        stride as int
    }
}

/// The byte offsets of the points kept from a cloud of `points` points of
/// `point_step` bytes: every `stride`-th point (every point for a stride of
/// zero), starting with the first.
pub fn kept_point_bases(points: usize, stride: usize, point_step: u32) -> (r: Vec<usize>)
    requires
        points * point_step <= usize::MAX,
    ensures
        r@.len() == (points + step_of(stride) - 1) / step_of(stride),
        forall|k: int|
            0 <= k < r@.len() ==> #[trigger] r@[k] == k * step_of(stride) * point_step && k * step_of(stride)
                < points,
{
    let s: usize = if stride == 0 {
        1
    } else {
        stride
    };
    let step = point_step as usize;
    let mut out: Vec<usize> = Vec::new();
    let mut i: usize = 0;
    assert(out@.len() * s == 0) by (nonlinear_arith)
        requires
            out@.len() == 0,
    ;
    while i < points
        invariant
            s == step_of(stride),
            s >= 1,
            step == point_step,
            points * point_step <= usize::MAX,
            out@.len() * s == i,
            i < points || (i == 0 && points == 0),
            forall|k: int| 0 <= k < out@.len() ==> #[trigger] out@[k] == k * s * point_step && k * s < points,
        decreases points - i,
    {
        assert(i * step <= points * point_step) by (nonlinear_arith)
            requires
                i < points,
                step == point_step,
        ;
        let ghost n0 = out@.len();
        let ghost before = out@;
        out.push(i * step);
        proof {
            assert(n0 * s == i);
            assert(i * step == n0 * s * point_step) by (nonlinear_arith)
                requires
                    i == n0 * s,
                    step == point_step,
            ;
        }
        proof {
            assert forall|k: int| 0 <= k < out@.len() implies #[trigger] out@[k] == k * s * point_step && k * s
                < points by {
                if k == n0 {
                    assert(out@[k] == i * step);
                } else {
                    assert(out@[k] == before[k]);
                }
            }
            assert(out@.len() * s == i + s) by (nonlinear_arith)
                requires
                    out@.len() == n0 + 1,
                    n0 * s == i,
            ;
        }
        if points - i <= s {
            proof {
                assert((points + s - 1) / (s as int) == n0 + 1) by (nonlinear_arith)
                    requires
                        s >= 1,
                        i == n0 * s,
                        i < points,
                        points - i <= s,
                ;
            }
            return out;
        }
        i = i + s;
    }
    proof {
        assert((points + s - 1) / (s as int) == 0) by (nonlinear_arith)
            requires
                s >= 1,
                points == 0,
        ;
        assert(out@.len() == 0) by (nonlinear_arith)
            requires
                out@.len() * s == 0,
                s >= 1,
        ;
    }
    out
}

/// The little-endian `u32` at `buf[offset..offset + 4]`.
pub open spec fn le_u32(buf: Seq<u8>, offset: int) -> u32 {
    (buf[offset] as int + buf[offset + 1] as int * 0x100 + buf[offset + 2] as int * 0x1_0000
        + buf[offset + 3] as int * 0x100_0000) as u32
}

/// The little-endian `u64` at `buf[offset..offset + 8]`.
pub open spec fn le_u64(buf: Seq<u8>, offset: int) -> u64 {
    (le_u32(buf, offset) as int + le_u32(buf, offset + 4) as int * 0x1_0000_0000) as u64
}

/// The bits of a 4-byte little-endian coordinate.
pub fn read_u32_le(buf: &Vec<u8>, offset: usize) -> (r: u32)
    requires
        offset + 4 <= buf@.len(),
    ensures
        r == le_u32(buf@, offset as int),
{
    let n = buf.len();
    assert(offset + 4 <= n);
    let b0 = buf[offset] as u64;
    let b1 = buf[offset + 1] as u64;
    let b2 = buf[offset + 2] as u64;
    let b3 = buf[offset + 3] as u64;
    let v: u64 = b0 + b1 * 0x100 + b2 * 0x1_0000 + b3 * 0x100_0000;
    assert(v <= u32::MAX) by (nonlinear_arith)
        requires
            b0 < 256,
            b1 < 256,
            b2 < 256,
            b3 < 256,
            v == b0 + b1 * 0x100 + b2 * 0x1_0000 + b3 * 0x100_0000,
    ;
    v as u32
}

/// The bits of an 8-byte little-endian coordinate.
pub fn read_u64_le(buf: &Vec<u8>, offset: usize) -> (r: u64)
    requires
        offset + 8 <= buf@.len(),
    ensures
        r == le_u64(buf@, offset as int),
{
    let n = buf.len();
    assert(offset + 8 <= n);
    let lo = read_u32_le(buf, offset) as u64;
    let hi = read_u32_le(buf, offset + 4) as u64;
    assert(lo + hi * 0x1_0000_0000 <= u64::MAX) by (nonlinear_arith)
        requires
            lo <= u32::MAX,
            hi <= u32::MAX,
    ;
    lo + hi * 0x1_0000_0000
}

/// A message stamp in nanoseconds.
pub fn stamp_ns(sec: i32, nanosec: u32) -> (r: i64)
    ensures
        r == sec as int * 1_000_000_000 + nanosec as int,
{
    (sec as i64) * 1_000_000_000 + (nanosec as i64)
}

/// Whether the missing-TF warning of a cloud topic was given since the last
/// successful lookup.
pub struct TfWarning {
    pub warned: bool,
}

impl TfWarning {
    pub fn new() -> (r: Self)
        ensures
            !r.warned,
    {
        TfWarning { warned: false }
    }

    /// Note the outcome of one frame lookup (`found`; a cloud already in the
    /// reference frame counts as found). True when the warning is due: the
    /// lookup failed and the one before it did not.
    pub fn observe(&mut self, found: bool) -> (r: bool)
        ensures
            r == (!found && !old(self).warned),
            final(self).warned == !found,
    {
        let due = !found && !self.warned;
        self.warned = !found;
        due
    }
}

} // verus!
