//! `nav_msgs/OccupancyGrid` cells as the grid renderer samples them.

use vstd::prelude::*;

use crate::text::push_str;

verus! {

/// The byte a cell value is drawn with: unknown (negative) becomes 255,
/// occupancy percentages stay as they are.
pub open spec fn cell_byte(v: i8) -> u8 {
    if v < 0 {
        255
    } else {
        v as u8
    }
}

/// Convert grid cells for the renderer (see `cell_byte`).
pub fn occupancy_cells(data: &Vec<i8>) -> (r: Vec<u8>)
    ensures
        r@.len() == data@.len(),
        forall|i: int| 0 <= i < data@.len() ==> #[trigger] r@[i] == cell_byte(data@[i]),
{
    let mut out: Vec<u8> = Vec::new();
    let mut i: usize = 0;
    while i < data.len()
        invariant
            i <= data@.len(),
            out@.len() == i,
            forall|j: int| 0 <= j < i ==> #[trigger] out@[j] == cell_byte(data@[j]),
        decreases data@.len() - i,
    {
        let v = data[i];
        out.push(if v < 0 {
            255u8
        } else {
            v as u8
        });
        i = i + 1;
    }
    out
}

/// The label of the map entity: `"/map [<frame>]"`.
pub fn map_label(frame: &str) -> (r: String)
    ensures
        r@ == "/map ["@ + frame@ + "]"@,
{
    let mut s = String::new();
    push_str(&mut s, "/map [");
    push_str(&mut s, frame);
    push_str(&mut s, "]");
    proof {
        assert(s@ =~= "/map ["@ + frame@ + "]"@);
    }
    s
}

} // verus!
