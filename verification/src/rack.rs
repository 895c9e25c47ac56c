//! The fan browser: which albums show around the centred one, in which
//! slots, and what a click on the rack asks for.
use vstd::prelude::*;
use crate::deck::{FAN_EACH_SIDE, Message, in_fan, wrap_index};

verus! {

/// The slot of the fan that shows the neighbour `depth` albums to one side:
/// slot 0 is the centre, odd slots go right (`+depth`), even slots left.
pub open spec fn slot_of(depth: int, right: bool) -> int {
    if depth == 0 {
        0
    } else if right {
        2 * depth - 1
    } else {
        2 * depth
    }
}

/// The slot a neighbour is drawn from (see `slot_of`).
pub fn fan_slot(depth: usize, right: bool) -> (slot: usize)
    requires
        depth <= FAN_EACH_SIDE,
    ensures
        slot as int == slot_of(depth as int, right),
{
    if depth == 0 {
        0
    } else if right {
        2 * depth - 1
    } else {
        2 * depth
    }
}

/// `out` lists the fan around `browse` on a shelf of `n` (see
/// `fan_indices`).
pub open spec fn fan_of(out: Seq<usize>, browse: int, n: int) -> bool {
    &&& out.len() == 2 * FAN_EACH_SIDE + 1
    &&& out[0] as int == browse % n
    &&& forall|d: int| 1 <= d <= FAN_EACH_SIDE ==> {
        &&& #[trigger] out[slot_of(d, true)] as int == (browse + d) % n
        &&& out[slot_of(d, false)] as int == (browse - d) % n
    }
}

/// The albums the fan shows around `browse` on a shelf of `n`: the centre,
/// then the neighbours one to each side, right before left, moving outwards,
/// wrapping around the ends of the shelf; nothing on an empty shelf.
pub fn fan_indices(browse: usize, n: usize) -> (out: Vec<usize>)
    ensures
        n == 0 ==> out@.len() == 0,
        n > 0 ==> fan_of(out@, browse as int, n as int),
{
    let mut out: Vec<usize> = Vec::new();
    if n == 0 {
        return out;
    }
    out.push(wrap_index(browse, 0, n));
    let mut d: usize = 1;
    while d <= FAN_EACH_SIDE
        invariant
            1 <= d <= FAN_EACH_SIDE + 1,
            n > 0,
            out@.len() == 2 * d - 1,
            out@[0] as int == (browse as int) % (n as int),
            forall|e: int| 1 <= e < d ==> {
                &&& #[trigger] out@[slot_of(e, true)] as int == (browse + e) % (n as int)
                &&& out@[slot_of(e, false)] as int == (browse - e) % (n as int)
            },
        decreases FAN_EACH_SIDE + 1 - d,
    {
        let ghost before = out@;
        let r = wrap_index(browse, d as i64, n);
        let l = wrap_index(browse, -(d as i64), n);
        out.push(r);
        out.push(l);
        proof {
            assert forall|e: int| 1 <= e < d + 1 implies {
                &&& #[trigger] out@[slot_of(e, true)] as int == (browse + e) % (n as int)
                &&& out@[slot_of(e, false)] as int == (browse - e) % (n as int)
            } by {
                if e < d {
                    assert(out@[slot_of(e, true)] == before[slot_of(e, true)]);
                    assert(out@[slot_of(e, false)] == before[slot_of(e, false)]);
                } else {
                    assert(out@[slot_of(e, true)] == r);
                    assert(out@[slot_of(e, false)] == l);
                }
            }
        }
        d = d + 1;
    }
    out
}

/// What a left click on the rack asks for: the side zones step through the
/// shelf, the front case opens the centred album when there is one.
pub enum RackClick {
    Step(i32),
    Select(usize),
}

/// The request of a click landing in the left zone, the right zone and/or
/// the front case, with album `current` centred on a shelf of `n`.
pub fn rack_click(in_left: bool, in_right: bool, in_front: bool, current: usize, n: usize) -> (r: Option<RackClick>)
    ensures
        in_left ==> (r matches Some(RackClick::Step(s)) && s == -1),
        !in_left && in_right ==> (r matches Some(RackClick::Step(s)) && s == 1),
        !in_left && !in_right ==> if in_front && current < n {
            (r matches Some(RackClick::Select(i)) && i == current)
        } else {
            r is None
        },
{
    if in_left {
        Some(RackClick::Step(-1))
    } else if in_right {
        Some(RackClick::Step(1))
    } else if in_front && current < n {
        Some(RackClick::Select(current))
    } else {
        None
    }
}

/// An album shows in the fan (the window a new cover redraws) exactly when
/// it is one of the albums the fan lists.
pub proof fn lemma_fan_window(out: Seq<usize>, browse: int, n: int, idx: int)
    requires
        n > 0,
        fan_of(out, browse, n),
    ensures
        in_fan(browse, idx, n) <==> exists|k: int| 0 <= k < out.len() && out[k] as int == idx,
{
    assert(out[slot_of(1, true)] as int == (browse + 1) % n);
    assert(out[slot_of(2, true)] as int == (browse + 2) % n);
    assert(out[slot_of(3, true)] as int == (browse + 3) % n);
    assert(out[slot_of(1, false)] as int == (browse - 1) % n);
    assert(out[slot_of(2, false)] as int == (browse - 2) % n);
    assert(out[slot_of(3, false)] as int == (browse - 3) % n);
    if in_fan(browse, idx, n) {
        let off = choose|off: int| -3 <= off <= 3 && #[trigger] ((browse + off) % n) == idx;
        let k = if off == 0 {
            0
        } else if off > 0 {
            slot_of(off, true)
        } else {
            slot_of(-off, false)
        };
        assert(0 <= k < out.len() && out[k] as int == idx);
    }
    if exists|k: int| 0 <= k < out.len() && out[k] as int == idx {
        let k = choose|k: int| 0 <= k < out.len() && out[k] as int == idx;
        let off: int = if k == 0 {
            0
        } else if k % 2 == 1 {
            (k + 1) / 2
        } else {
            -(k / 2)
        };
        assert((browse + off) % n == idx);
    }
}

/// The deck message a rack click stands for: a step moves the fan browser,
/// a selection reveals that album.
pub fn rack_message(c: RackClick) -> (m: Message)
    ensures
        m == match c {
            RackClick::Step(s) => Message::BrowseStep(s),
            RackClick::Select(i) => Message::AlbumSelected(i),
        },
{
    match c {
        RackClick::Step(s) => Message::BrowseStep(s),
        RackClick::Select(i) => Message::AlbumSelected(i),
    }
}

} // verus!
