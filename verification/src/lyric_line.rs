//! The line to show now: the player's position, corrected, looked up in the
//! lyric document.

use vstd::prelude::*;
use crate::model::{clamp_i64, empty_time_line, find_cover, Lrcx, LyricTimeLine};

verus! {

/// The player's position corrected by `fix`, unless the correction could
/// make it negative: `position + fix` when `position >= |fix|`, else
/// `position`.
pub open spec fn adjusted_position(position: i64, fix: i64) -> i64 {
    if position >= (if fix < 0 {
        -fix
    } else {
        fix as int
    }) {
        clamp_i64(position + fix)
    } else {
        position
    }
}

/// Corrects the player's position (see `adjusted_position`); a position
/// that is not negative stays so.
pub fn adjust_position(position: i64, fix: i64) -> (r: i64)
    ensures
        r == adjusted_position(position, fix),
        position >= 0 ==> r >= 0,
{
    let abs: i128 = if fix < 0 {
        -(fix as i128)
    } else {
        fix as i128
    };
    if position as i128 >= abs {
        crate::model::sat_add(position, fix)
    } else {
        position
    }
}

/// The line to show at the player's position corrected by `fix`, or the
/// empty line when no line is shown then.
pub fn next_inline_lyric(lrcx: &Lrcx, position: i64, fix: i64) -> (r: LyricTimeLine)
    ensures
        r@ == (match find_cover(lrcx.body(), adjusted_position(position, fix)) {
            Some(i) => lrcx.body()[i],
            None => empty_time_line(),
        }),
{
    let t = adjust_position(position, fix);
    lrcx.get_next_lyric_by_time(t)
}

} // verus!
