//! What the music player reports: whether it runs, and the track playing
//! with its state, length and position (in milliseconds).

use vstd::prelude::*;
use crate::decimal::{decimal_units, read_decimal_units};
use crate::json::{json_get, str_field, JsonValue};
use crate::song::Song;
use crate::text::chars_of;

verus! {

/// The player's state and the track it plays.
pub struct PlayerInfo {
    pub track: Song,
    pub state: String,
    pub duration: i64,
    pub position: i64,
}

/// Why no player information could be had.
#[derive(PartialEq, Eq, Structural, Debug, Clone, Copy)]
pub enum PlayerError {
    /// The player is not running.
    NotRunning,
    /// Nothing is playing (the player's reply is not JSON, or null).
    NothingPlaying,
}

/// The output of the running check that stops the query: `true` and a
/// newline.
pub open spec fn stop_output() -> Seq<u8> {
    seq![116u8, 114, 117, 101, 10]
}

/// The string under `key`, or the empty string where there is none.
pub open spec fn str_or_empty(v: JsonValue, key: Seq<char>) -> Seq<char> {
    match str_field(v, key) {
        Some(s) => s,
        None => Seq::empty(),
    }
}

/// The number of seconds under `key`, in milliseconds (see
/// `decimal_units`).
pub open spec fn seconds_ms(v: JsonValue, key: Seq<char>) -> Option<i64> {
    match json_get(v, key) {
        Some(JsonValue::Number(t)) => decimal_units(t@, 3),
        _ => None,
    }
}

/// A reply that is not null holds a `state` string and the `duration`
/// and `position` numbers.
pub open spec fn player_reply_readable(reply: JsonValue) -> bool {
    !(reply is Null) ==> (str_field(reply, "state"@) is Some && seconds_ms(reply, "duration"@) is Some
        && seconds_ms(reply, "position"@) is Some)
}

/// The seconds under `key` in milliseconds (see `seconds_ms`).
fn read_seconds(v: &JsonValue, key: &str) -> (r: Option<i64>)
    ensures
        r == seconds_ms(*v, key@),
{
    match v.get(key) {
        Some(JsonValue::Number(t)) => {
            let c = chars_of(t.as_str());
            read_decimal_units(c.as_slice(), 3)
        },
        _ => None,
    }
}

/// The player information from the output of the running check and the
/// player's reply (null where it is not JSON): an error when the check
/// printed `true`, or when the reply is null; else the track's title,
/// artist and album (empty where missing), the state, and the duration and
/// position in milliseconds.
pub fn player_info_from_output(running_out: &[u8], reply: &JsonValue) -> (r: Result<PlayerInfo, PlayerError>)
    requires
        running_out@ != stop_output() ==> player_reply_readable(*reply),
    ensures
        running_out@ == stop_output() ==> r matches Err(PlayerError::NotRunning),
        running_out@ != stop_output() && *reply is Null ==> r matches Err(PlayerError::NothingPlaying),
        running_out@ != stop_output() && !(*reply is Null) ==> (r matches Ok(p) && p.track.title@
            == str_or_empty(*reply, "title"@) && p.track.artist@ == str_or_empty(*reply, "artist"@)
            && p.track.album@ == str_or_empty(*reply, "album"@) && p.state@ == str_field(
            *reply,
            "state"@,
        ).unwrap() && p.duration == seconds_ms(*reply, "duration"@).unwrap() && p.position
            == seconds_ms(*reply, "position"@).unwrap()),
{
    let stop = running_out.len() == 5 && running_out[0] == 116 && running_out[1] == 114
        && running_out[2] == 117 && running_out[3] == 101 && running_out[4] == 10;
    proof {
        if stop {
            assert(running_out@ =~= stop_output());
        } else if running_out@ == stop_output() {
            assert(running_out@[0] == 116 && running_out@[1] == 114 && running_out@[2] == 117);
            assert(running_out@[3] == 101 && running_out@[4] == 10);
        }
    }
    if stop {
        return Err(PlayerError::NotRunning);
    }
    if reply.is_null() {
        return Err(PlayerError::NothingPlaying);
    }
    let title = match reply.str_field("title") {
        Some(s) => s,
        None => String::new(),
    };
    let artist = match reply.str_field("artist") {
        Some(s) => s,
        None => String::new(),
    };
    let album = match reply.str_field("album") {
        Some(s) => s,
        None => String::new(),
    };
    let state = match reply.str_field("state") {
        Some(s) => s,
        None => String::new(),
    };
    let duration = match read_seconds(reply, "duration") {
        Some(v) => v,
        None => 0,
    };
    let position = match read_seconds(reply, "position") {
        Some(v) => v,
        None => 0,
    };
    Ok(PlayerInfo { track: Song { title, artist, album }, state, duration, position })
}

/// The player's reply can be read (see `player_reply_readable`).
pub fn player_reply_is_readable(reply: &JsonValue) -> (r: bool)
    ensures
        r == player_reply_readable(*reply),
{
    reply.is_null() || (reply.str_field("state").is_some() && read_seconds(reply, "duration").is_some()
        && read_seconds(reply, "position").is_some())
}

} // verus!
