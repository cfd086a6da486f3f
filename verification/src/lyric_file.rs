//! Where lyrics are kept: the lyric source of a song, the file name of its
//! lyric, and the document written to that file.

use vstd::prelude::*;
use crate::kugou::{KugouSong, KugouSongModel};
use crate::model::{empty_line, empty_time_line, line_views, LineModel, Lrcx, LyricTimeLine, TimeLineModel};
use crate::netease::{NeteaseSong, NeteaseSongModel};
use crate::text::{append_chars, chars_of, string_of};

verus! {

/// The service a song's lyric comes from, with the song.
pub enum LyricSource {
    Netease(NeteaseSong),
    Kugou(KugouSong),
}

/// The abstract content of a lyric source.
pub enum LyricSourceModel {
    Netease(NeteaseSongModel),
    Kugou(KugouSongModel),
}

impl View for LyricSource {
    type V = LyricSourceModel;

    open spec fn view(&self) -> LyricSourceModel {
        match self {
            LyricSource::Netease(s) => LyricSourceModel::Netease(s@),
            LyricSource::Kugou(s) => LyricSourceModel::Kugou(s@),
        }
    }
}

impl LyricSource {
    /// A copy of the source.
    pub fn copy(&self) -> (r: LyricSource)
        ensures
            r@ == self@,
    {
        match self {
            LyricSource::Netease(s) => LyricSource::Netease(s.copy()),
            LyricSource::Kugou(s) => LyricSource::Kugou(s.copy()),
        }
    }

    /// The artist and title under which the song's lyric file is kept.
    pub fn artist_and_title(&self) -> (r: (String, String))
        ensures
            match self@ {
                LyricSourceModel::Netease(s) => r.0@ == s.artist && r.1@ == s.name,
                LyricSourceModel::Kugou(s) => r.0@ == s.artist && r.1@ == s.name,
            },
    {
        match self {
            LyricSource::Netease(n) => (n.artist.clone(), n.name.clone()),
            LyricSource::Kugou(k) => (k.artist.clone(), k.name.clone()),
        }
    }
}

/// The name of the lyric file of a song: `artist - title.lrcx`.
pub open spec fn lyric_file_name_spec(artist: Seq<char>, title: Seq<char>) -> Seq<char> {
    artist + seq![' ', '-', ' '] + title + seq!['.', 'l', 'r', 'c', 'x']
}

/// The name of the lyric file of a song.
pub fn lyric_file_name(artist: &str, title: &str) -> (r: String)
    ensures
        r@ == lyric_file_name_spec(artist@, title@),
{
    let mut out = chars_of(artist);
    out.push(' ');
    out.push('-');
    out.push(' ');
    let t = chars_of(title);
    append_chars(&mut out, t.as_slice());
    out.push('.');
    out.push('l');
    out.push('r');
    out.push('c');
    out.push('x');
    let r = string_of(out.as_slice());
    assert(r@ =~= lyric_file_name_spec(artist@, title@));
    r
}

/// The line put first in a lyric file that has no lines.
pub open spec fn no_lyric_line() -> TimeLineModel {
    TimeLineModel {
        line: LineModel { text: "No Lyric for this song"@, ..empty_line() },
        ..empty_time_line()
    }
}

/// The document as it is written to a lyric file: an empty line at time
/// zero before the lines, or a notice when there are no lines.
pub fn with_leading_line(lrcx: Lrcx) -> (r: Lrcx)
    ensures
        r.metadata@ == lrcx.metadata@,
        r.body() == seq![
            if lrcx.body().len() == 0 {
                no_lyric_line()
            } else {
                empty_time_line()
            },
        ] + lrcx.body(),
{
    let mut lrcx = lrcx;
    let mut default_timeline = LyricTimeLine::default();
    if lrcx.lyric_body.len() == 0 {
        default_timeline.line.set_text(String::from_str("No Lyric for this song"));
    }
    let ghost lead = default_timeline@;
    let ghost before = lrcx.body();
    lrcx.lyric_body.insert(0, default_timeline);
    assert(lrcx.body() =~= seq![lead] + before);
    lrcx
}

} // verus!
