//! The height of the smallest monitor.

use crate::window::{Mode, OutputInfo};
use vstd::prelude::*;

verus! {

/// A length that is not negative; a negative one counts as nothing.
pub open spec fn length(n: i32) -> int {
    if n < 0 {
        0
    } else {
        n as int
    }
}

/// `mode` is the first of the modes that is marked as current.
pub open spec fn is_current_mode(modes: Seq<Mode>, mode: Mode) -> bool {
    exists|i: int|
        0 <= i < modes.len() && #[trigger] modes[i] == mode && mode.current && forall|j: int|
            0 <= j < i ==> !(#[trigger] modes[j]).current
}

/// The height of a monitor in logical pixels: the one that the compositor
/// gives, or else the height of the current mode divided by the scale factor.
/// A scale factor below one counts as one.
pub open spec fn output_height(output: OutputInfo) -> Option<int> {
    match output.logical_size {
        Some(size) => Some(length(size.1)),
        None => if exists|m: Mode| is_current_mode(output.modes@, m) {
            let mode = choose|m: Mode| is_current_mode(output.modes@, m);
            let scale: int = if output.scale_factor < 1 { 1 } else { output.scale_factor as int };
            Some(length(mode.dimensions.1) / scale)
        } else {
            None
        },
    }
}

/// `h` is the height of one of the known monitors, and not zero.
pub open spec fn is_screen_height(outputs: Seq<Option<OutputInfo>>, h: int) -> bool {
    h > 0 && exists|i: int|
        0 <= i < outputs.len() && (#[trigger] outputs[i]) is Some && output_height(outputs[i]->0)
            == Some(h)
}

/// The first current mode is one mode only.
proof fn lemma_current_mode_unique(modes: Seq<Mode>, a: Mode, b: Mode)
    requires
        is_current_mode(modes, a),
        is_current_mode(modes, b),
    ensures
        a == b,
{
    let i = choose|i: int|
        0 <= i < modes.len() && #[trigger] modes[i] == a && a.current && forall|j: int|
            0 <= j < i ==> !(#[trigger] modes[j]).current;
    let k = choose|k: int|
        0 <= k < modes.len() && #[trigger] modes[k] == b && b.current && forall|j: int|
            0 <= j < k ==> !(#[trigger] modes[j]).current;
    assert(modes[i].current && modes[k].current);
}

/// A length that is not negative; a negative one counts as nothing.
fn to_length(n: i32) -> (r: u32)
    ensures
        r == length(n),
{
    if n < 0 {
        0
    } else {
        n as u32
    }
}

/// The first mode that is marked as current.
fn current_mode(modes: &Vec<Mode>) -> (r: Option<Mode>)
    ensures
        match r {
            Some(m) => is_current_mode(modes@, m),
            None => forall|m: Mode| !is_current_mode(modes@, m),
        },
{
    let mut i: usize = 0;
    while i < modes.len()
        invariant
            i <= modes.len(),
            forall|j: int| 0 <= j < i ==> !(#[trigger] modes@[j]).current,
        decreases modes.len() - i,
    {
        if modes[i].current {
            assert(modes@[i as int] == modes@[i as int]);
            return Some(modes[i]);
        }
        i += 1;
    }
    None
}

/// The height of one monitor in logical pixels, where it is known.
fn height_of(output: &OutputInfo) -> (r: Option<u32>)
    ensures
        match r {
            Some(h) => output_height(*output) == Some(h as int),
            None => output_height(*output) is None,
        },
{
    match output.logical_size {
        Some(size) => Some(to_length(size.1)),
        None => match current_mode(&output.modes) {
            Some(mode) => {
                let scale: u32 = if output.scale_factor < 1 {
                    1
                } else {
                    output.scale_factor as u32
                };
                proof {
                    let chosen = choose|m: Mode| is_current_mode(output.modes@, m);
                    lemma_current_mode_unique(output.modes@, mode, chosen);
                }
                Some(to_length(mode.dimensions.1) / scale)
            },
            None => None,
        },
    }
}

/// The logical height of the smallest monitor, in pixels. An output without
/// information, and a monitor whose height is unknown or zero, does not count.
pub fn screen_height(outputs: &Vec<Option<OutputInfo>>) -> (r: Option<u32>)
    ensures
        match r {
            Some(h) => is_screen_height(outputs@, h as int) && forall|o: int|
                #[trigger] is_screen_height(outputs@, o) ==> h <= o,
            None => forall|o: int| !(#[trigger] is_screen_height(outputs@, o)),
        },
{
    let mut least: Option<u32> = None;
    let mut i: usize = 0;
    while i < outputs.len()
        invariant
            i <= outputs.len(),
            match least {
                Some(h) => is_screen_height(outputs@.take(i as int), h as int) && forall|o: int|
                    #[trigger] is_screen_height(outputs@.take(i as int), o) ==> h <= o,
                None => forall|o: int| !(#[trigger] is_screen_height(outputs@.take(i as int), o)),
            },
        decreases outputs.len() - i,
    {
        let ghost seen = outputs@.take(i as int);
        let ghost next = outputs@.take(i + 1);
        let height = match &outputs[i] {
            Some(output) => height_of(output),
            None => None,
        };
        let ghost before = least;
        if let Some(h) = height {
            if h > 0 {
                least = match least {
                    Some(l) => if h < l {
                        Some(h)
                    } else {
                        Some(l)
                    },
                    None => Some(h),
                };
            }
        }
        proof {
            assert forall|o: int| #[trigger] is_screen_height(next, o) <==> is_screen_height(
                seen,
                o,
            ) || (o > 0 && height == Some(o as u32) && o <= u32::MAX) by {
                if is_screen_height(seen, o) {
                    let k = choose|k: int|
                        0 <= k < seen.len() && (#[trigger] seen[k]) is Some && output_height(
                            seen[k]->0,
                        ) == Some(o);
                    assert(next[k] is Some);
                }
                if is_screen_height(next, o) {
                    let k = choose|k: int|
                        0 <= k < next.len() && (#[trigger] next[k]) is Some && output_height(
                            next[k]->0,
                        ) == Some(o);
                    if k < i {
                        assert(seen[k] is Some);
                    }
                }
                if o > 0 && height == Some(o as u32) && o <= u32::MAX {
                    assert(next[i as int] is Some);
                }
            }
        }
        i += 1;
    }
    assert(outputs@.take(i as int) =~= outputs@);
    least
}

} // verus!
