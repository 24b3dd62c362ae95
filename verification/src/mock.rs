//! The mock injector: fills the scene with one entity of every primitive
//! kind so that every render pass has something to draw without a ROS
//! graph. The geometry is built by the caller; the ids, the first-frame
//! seeding and the pseudo-random occupancy pattern are here.

use vstd::prelude::*;

verus! {

/// Ids the mock injector owns (the ROS layer starts at 1000).
pub const ID_REFERENCE_FRAME: u64 = 1;
pub const ID_CHILD_FRAME: u64 = 2;
pub const ID_OCCUPANCY: u64 = 3;
pub const ID_FIGURE_EIGHT: u64 = 4;
pub const ID_ANIMATED_ARROW: u64 = 5;
pub const ID_CUBE_MESH: u64 = 6;
pub const ID_HEMISPHERE: u64 = 7;
pub const ID_POSE_ARRAY: u64 = 8;

#[verifier::external_type_specification]
#[verifier::external_body]
pub struct ExInstant(std::time::Instant);

/// The current instant.
///
/// Trusted: calls `std::time::Instant::now`; nothing is stated of the
/// result, which depends on the clock.
#[verifier::external_body]
fn instant_now() -> (r: std::time::Instant) {
    std::time::Instant::now()
}

/// Drives the mock scene: the static entities are seeded on the first
/// frame, the animated ones follow the time since `started`.
pub struct MockInjector {
    pub started: std::time::Instant,
    pub seeded: bool,
}

impl MockInjector {
    /// A fresh injector, started now and not yet seeded.
    pub fn new() -> (r: Self)
        ensures
            !r.seeded,
    {
        MockInjector { started: instant_now(), seeded: false }
    }

    /// Begin a frame: true when the static entities must be seeded now
    /// (the first frame only).
    pub fn begin_frame(&mut self) -> (seed_now: bool)
        ensures
            seed_now == !old(self).seeded,
            final(self).seeded,
            final(self).started == old(self).started,
    {
        let seed_now = !self.seeded;
        self.seeded = true;
        seed_now
    }
}

/// One xorshift32 step.
pub open spec fn xorshift(s: u32) -> u32 {
    let a = s ^ (s << 13u32);
    let b = a ^ (a >> 17u32);
    b ^ (b << 5u32)
}

/// The generator state after `k` steps from `seed` (forced odd).
pub open spec fn xs_state(seed: u32, k: nat) -> u32
    decreases k,
{
    if k == 0 {
        seed | 1
    } else {
        xorshift(xs_state(seed, (k - 1) as nat))
    }
}

/// A cell drawn from a 4-bit sample: 1 in 16 occupied (100), 3 in 16
/// unknown (255), the rest free (0).
pub open spec fn cell_of(r: u32) -> u8 {
    if r == 0 {
        100
    } else if 1 <= r <= 3 {
        255
    } else {
        0
    }
}

/// A deterministic pattern of `cols * rows` occupancy cells: cell `i` is
/// drawn from the generator state after `i + 1` steps.
pub fn pseudo_random_cells(cols: u32, rows: u32, seed: u32) -> (r: Vec<u8>)
    requires
        cols * rows <= u32::MAX,
    ensures
        r@.len() == cols * rows,
        forall|i: int| 0 <= i < r@.len() ==> #[trigger] r@[i] == cell_of(xs_state(seed, (i + 1) as nat) % 16),
{
    let mut s: u32 = seed | 1;
    let n = (cols * rows) as usize;
    let mut out: Vec<u8> = Vec::new();
    let mut i: usize = 0;
    while i < n
        invariant
            n == cols * rows,
            i <= n,
            out@.len() == i,
            s == xs_state(seed, i as nat),
            forall|j: int| 0 <= j < i ==> #[trigger] out@[j] == cell_of(xs_state(seed, (j + 1) as nat) % 16),
        decreases n - i,
    {
        s = s ^ (s << 13u32);
        s = s ^ (s >> 17u32);
        s = s ^ (s << 5u32);
        let r = s % 16;
        out.push(if r == 0 {
            100u8
        } else if 1 <= r && r <= 3 {
            255u8
        } else {
            0u8
        });
        i = i + 1;
    }
    out
}

} // verus!
