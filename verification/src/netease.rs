//! Netease songs and LRC lyrics: the song model, the LRC line grammar, and
//! the merge of a lyric with its translation and pronunciation.

use vstd::prelude::*;
use crate::json::{
    first_str_field, i64_field, json_get, json_text, json_text_of, nested_str_field, str_field,
    JsonValue,
};
use crate::model::{
    clamp_i64, durations_from_start, empty_line, insert_tag, line_views, tag_set, tags_sorted,
    tag_views, IDTag, LineModel, Lrcx, LyricLine, LyricTimeLine, TimeLineModel,
};
use crate::parse_lyric::{time_tag_ms, time_tag_ms_of};
use crate::song::RemoteSongTrait;
use crate::text::{
    byte_len, byte_len_of, char_index_at_byte, char_index_of_byte, chars_of, copy_range,
    decimal_spec, i64_to_string, is_digit, split_chars, split_spec, string_of, trim_end_index,
    trim_end_spec, trim_from, trim_spec, trim_start_index, trim_start_spec, views,
};

verus! {

/// The abstract content of a song of Netease (and of the other services that
/// describe a song by name, artist, album and id).
pub struct NeteaseSongModel {
    pub name: Seq<char>,
    pub artist: Seq<char>,
    pub album: Seq<char>,
    pub id: Seq<char>,
}

/// A song as Netease describes it.
pub struct NeteaseSong {
    pub name: String,
    pub artist: String,
    pub album: String,
    pub id: String,
}

impl View for NeteaseSong {
    type V = NeteaseSongModel;

    open spec fn view(&self) -> NeteaseSongModel {
        NeteaseSongModel { name: self.name@, artist: self.artist@, album: self.album@, id: self.id@ }
    }
}

/// The song with no fields.
pub open spec fn empty_netease_song() -> NeteaseSongModel {
    NeteaseSongModel { name: Seq::empty(), artist: Seq::empty(), album: Seq::empty(), id: Seq::empty() }
}

/// The song that a Netease search entry describes.
pub open spec fn netease_song_of(song: JsonValue) -> NeteaseSongModel {
    NeteaseSongModel {
        name: str_field(song, "name"@).unwrap(),
        artist: first_str_field(song, "artists"@, "name"@).unwrap(),
        album: nested_str_field(song, "album"@, "name"@).unwrap(),
        id: decimal_spec(i64_field(song, "id"@).unwrap() as int),
    }
}

impl RemoteSongTrait for NeteaseSong {
    open spec fn readable(song: JsonValue) -> bool {
        &&& str_field(song, "name"@) is Some
        &&& first_str_field(song, "artists"@, "name"@) is Some
        &&& nested_str_field(song, "album"@, "name"@) is Some
        &&& i64_field(song, "id"@) is Some
    }

    fn new(song: &JsonValue) -> (r: NeteaseSong)
        ensures
            r@ == netease_song_of(*song),
    {
        let name = match song.str_field("name") {
            Some(s) => s,
            None => String::new(),
        };
        let artist = match song.first_str_field("artists", "name") {
            Some(s) => s,
            None => String::new(),
        };
        let album = match song.nested_str_field("album", "name") {
            Some(s) => s,
            None => String::new(),
        };
        let id = match song.i64_field("id") {
            Some(v) => i64_to_string(v),
            None => String::new(),
        };
        NeteaseSong { name, artist, album, id }
    }

    fn new_empty() -> (r: NeteaseSong)
        ensures
            r@ == empty_netease_song(),
    {
        NeteaseSong { name: String::new(), artist: String::new(), album: String::new(), id: String::new() }
    }

    fn is_empty(&self) -> (r: bool)
        ensures
            r == (self.name@.len() == 0 && self.artist@.len() == 0 && self.album@.len() == 0
                && self.id@.len() == 0),
    {
        self.name.as_str().is_empty() && self.artist.as_str().is_empty()
            && self.album.as_str().is_empty() && self.id.as_str().is_empty()
    }
}

impl NeteaseSong {
    /// A copy of the song.
    pub fn copy(&self) -> (r: NeteaseSong)
        ensures
            r@ == self@,
    {
        NeteaseSong {
            name: self.name.clone(),
            artist: self.artist.clone(),
            album: self.album.clone(),
            id: self.id.clone(),
        }
    }
}

/// The views of a sequence of Netease songs.
pub open spec fn netease_views(v: Seq<NeteaseSong>) -> Seq<NeteaseSongModel> {
    v.map_values(|s: NeteaseSong| s@)
}

/// A list of Netease songs, in the order the service gave them.
pub struct NeteaseSongList(pub Vec<NeteaseSong>);

impl NeteaseSongList {
    /// The songs of the list.
    pub open spec fn songs(&self) -> Seq<NeteaseSongModel> {
        netease_views(self.0@)
    }

    pub fn new() -> (r: NeteaseSongList)
        ensures
            r.songs() == Seq::<NeteaseSongModel>::empty(),
    {
        NeteaseSongList(Vec::new())
    }

    pub fn push(&mut self, song: NeteaseSong)
        ensures
            final(self).songs() == old(self).songs().push(song@),
    {
        self.0.push(song);
        assert(self.songs() =~= old(self).songs().push(song@));
    }

    pub fn len(&self) -> (r: usize)
        ensures
            r == self.songs().len(),
    {
        self.0.len()
    }

    /// `list[index]`.
    pub fn index(&self, index: usize) -> (r: &NeteaseSong)
        requires
            index < self.songs().len(),
        ensures
            r@ == self.songs()[index as int],
    {
        &self.0[index]
    }

    /// Takes the last song of the list (the list's `Iterator::next`).
    pub fn next(&mut self) -> (r: Option<NeteaseSong>)
        ensures
            old(self).songs().len() == 0 ==> r is None && final(self).songs() == old(self).songs(),
            old(self).songs().len() > 0 ==> (r matches Some(s) && s@ == old(self).songs().last()
                && final(self).songs() == old(self).songs().drop_last()),
    {
        let r = self.0.pop();
        assert(self.songs() =~= if old(self).songs().len() == 0 {
            old(self).songs()
        } else {
            old(self).songs().drop_last()
        });
        r
    }
}

/// The first song of a list, or the empty song when the list is empty.
pub fn get_default_song(song_list: &NeteaseSongList) -> (r: NeteaseSong)
    ensures
        r@ == if song_list.songs().len() == 0 {
            empty_netease_song()
        } else {
            song_list.songs()[0]
        },
{
    if song_list.len() == 0 {
        return NeteaseSong::new_empty();
    }
    song_list.index(0).copy()
}

/// The three lyric texts of a Netease song: original, translated and
/// pronunciation (`klyric`).
pub struct NeteaseSongLyrics {
    pub lyric: String,
    pub tlyric: String,
    pub klyric: String,
}

/// The text shown for a song without lyric.
pub open spec fn no_lyric_text() -> Seq<char> {
    "[00:00.00] This Music No Lyric"@
}

impl NeteaseSongLyrics {
    pub fn new() -> (r: NeteaseSongLyrics)
        ensures
            r.lyric@.len() == 0,
            r.tlyric@.len() == 0,
            r.klyric@.len() == 0,
    {
        NeteaseSongLyrics { lyric: String::new(), tlyric: String::new(), klyric: String::new() }
    }

    pub fn get_original_lyric(&self) -> (r: Option<String>)
        ensures
            r matches Some(s) && s@ == self.lyric@,
    {
        Some(self.lyric.clone())
    }

    pub fn get_translated_lyric(&self) -> (r: Option<String>)
        ensures
            r matches Some(s) && s@ == self.tlyric@,
    {
        Some(self.tlyric.clone())
    }

    /// The three texts on lines of their own, the original replaced by a
    /// notice when it is empty.
    pub fn to_string(&self) -> (r: String)
        ensures
            r@ == (if self.lyric@.len() == 0 {
                no_lyric_text()
            } else {
                self.lyric@
            }) + seq!['\n'] + self.tlyric@ + seq!['\n'] + self.klyric@,
    {
        let mut out: Vec<char> = if self.lyric.as_str().is_empty() {
            chars_of("[00:00.00] This Music No Lyric")
        } else {
            chars_of(self.lyric.as_str())
        };
        out.push('\n');
        let t = chars_of(self.tlyric.as_str());
        crate::text::append_chars(&mut out, t.as_slice());
        out.push('\n');
        let k = chars_of(self.klyric.as_str());
        crate::text::append_chars(&mut out, k.as_slice());
        let r = string_of(out.as_slice());
        assert(r@ =~= (if self.lyric@.len() == 0 {
            no_lyric_text()
        } else {
            self.lyric@
        }) + seq!['\n'] + self.tlyric@ + seq!['\n'] + self.klyric@);
        r
    }
}


/// A lowercase ASCII letter.
pub open spec fn is_lower(c: char) -> bool {
    'a' <= c && c <= 'z'
}

/// The end of the run of digits starting at `i`.
pub open spec fn digit_run_end(s: Seq<char>, i: int) -> int
    decreases s.len() - i,
{
    if 0 <= i < s.len() && is_digit(s[i]) {
        digit_run_end(s, i + 1)
    } else {
        i
    }
}

/// The end of the run of lowercase letters starting at `i`.
pub open spec fn lower_run_end(s: Seq<char>, i: int) -> int
    decreases s.len() - i,
{
    if 0 <= i < s.len() && is_lower(s[i]) {
        lower_run_end(s, i + 1)
    } else {
        i
    }
}

/// The end of the match of the time-tag pattern `\[[0-9]+:[0-9]+.[0-9]+\]`
/// that starts at `p`, as the leftmost-first rule of regular expressions
/// chooses it (the `.` being any character but `\n`).
pub open spec fn timeline_match_at(s: Seq<char>, p: int) -> Option<int> {
    if !(0 <= p < s.len() && s[p] == '[') {
        None
    } else {
        let a_end = digit_run_end(s, p + 1);
        if a_end == p + 1 || !(a_end < s.len() && s[a_end] == ':') {
            None
        } else {
            let b = a_end + 1;
            let r = digit_run_end(s, b);
            if r == b {
                None
            } else if r < s.len() && s[r] != '\n' && digit_run_end(s, r + 1) > r + 1
                && digit_run_end(s, r + 1) < s.len() && s[digit_run_end(s, r + 1)] == ']' {
                Some(digit_run_end(s, r + 1) + 1)
            } else if r - b >= 3 && r < s.len() && s[r] == ']' {
                Some(r + 1)
            } else {
                None
            }
        }
    }
}

/// The end of the match of the tag pattern `\[[a-z]+\]` that starts at `p`.
pub open spec fn meta_match_at(s: Seq<char>, p: int) -> Option<int> {
    if !(0 <= p < s.len() && s[p] == '[') {
        None
    } else {
        let e = lower_run_end(s, p + 1);
        if e > p + 1 && e < s.len() && s[e] == ']' {
            Some(e + 1)
        } else {
            None
        }
    }
}

/// The leftmost match of the time-tag pattern at or after `p`.
pub open spec fn first_timeline_match(s: Seq<char>, p: int) -> Option<(int, int)>
    decreases s.len() - p,
{
    if p < 0 || p >= s.len() {
        None
    } else {
        match timeline_match_at(s, p) {
            Some(e) => Some((p, e)),
            None => first_timeline_match(s, p + 1),
        }
    }
}

/// The leftmost match of the tag pattern at or after `p`.
pub open spec fn first_meta_match(s: Seq<char>, p: int) -> Option<(int, int)>
    decreases s.len() - p,
{
    if p < 0 || p >= s.len() {
        None
    } else {
        match meta_match_at(s, p) {
            Some(e) => Some((p, e)),
            None => first_meta_match(s, p + 1),
        }
    }
}

/// The end of the run of digits starting at `i`.
fn digit_run(s: &[char], i: usize) -> (r: usize)
    requires
        i <= s@.len(),
    ensures
        r as int == digit_run_end(s@, i as int),
        i <= r <= s@.len(),
{
    let mut j = i;
    while j < s.len() && s[j] >= '0' && s[j] <= '9'
        invariant
            i <= j <= s@.len(),
            digit_run_end(s@, i as int) == digit_run_end(s@, j as int),
        decreases s@.len() - j,
    {
        j = j + 1;
    }
    j
}

/// The end of the run of lowercase letters starting at `i`.
fn lower_run(s: &[char], i: usize) -> (r: usize)
    requires
        i <= s@.len(),
    ensures
        r as int == lower_run_end(s@, i as int),
        i <= r <= s@.len(),
{
    let mut j = i;
    while j < s.len() && s[j] >= 'a' && s[j] <= 'z'
        invariant
            i <= j <= s@.len(),
            lower_run_end(s@, i as int) == lower_run_end(s@, j as int),
        decreases s@.len() - j,
    {
        j = j + 1;
    }
    j
}

/// The end of the time-tag match starting at `p` (see `timeline_match_at`).
fn timeline_match(s: &[char], p: usize) -> (r: Option<usize>)
    requires
        p < s@.len(),
    ensures
        r == (match timeline_match_at(s@, p as int) {
            Some(e) => Some(e as usize),
            None => None::<usize>,
        }),
        r matches Some(e) ==> p < e <= s@.len(),
{
    let n = s.len();
    if s[p] != '[' {
        return None;
    }
    let a_end = digit_run(s, p + 1);
    if a_end == p + 1 || !(a_end < n && s[a_end] == ':') {
        return None;
    }
    let b = a_end + 1;
    let r = digit_run(s, b);
    if r == b {
        return None;
    }
    if r < n && s[r] != '\n' {
        let c_end = digit_run(s, r + 1);
        if c_end > r + 1 && c_end < n && s[c_end] == ']' {
            return Some(c_end + 1);
        }
    }
    if r - b >= 3 && r < n && s[r] == ']' {
        return Some(r + 1);
    }
    None
}

/// The end of the tag match starting at `p` (see `meta_match_at`).
fn meta_match(s: &[char], p: usize) -> (r: Option<usize>)
    requires
        p < s@.len(),
    ensures
        r == (match meta_match_at(s@, p as int) {
            Some(e) => Some(e as usize),
            None => None::<usize>,
        }),
        r matches Some(e) ==> p < e <= s@.len(),
{
    if s[p] != '[' {
        return None;
    }
    let e = lower_run(s, p + 1);
    if e > p + 1 && e < s.len() && s[e] == ']' {
        Some(e + 1)
    } else {
        None
    }
}

/// The leftmost time-tag match in `s`, as (start, end).
pub fn find_timeline(s: &[char]) -> (r: Option<(usize, usize)>)
    ensures
        r == (match first_timeline_match(s@, 0) {
            Some((a, b)) => Some((a as usize, b as usize)),
            None => None::<(usize, usize)>,
        }),
        r matches Some((a, b)) ==> a < b <= s@.len() && first_timeline_match(s@, 0) == Some((a as int, b as int)),
        r is None ==> first_timeline_match(s@, 0) is None,
{
    let mut p: usize = 0;
    while p < s.len()
        invariant
            p <= s@.len(),
            first_timeline_match(s@, 0) == first_timeline_match(s@, p as int),
        decreases s@.len() - p,
    {
        match timeline_match(s, p) {
            Some(e) => {
                return Some((p, e));
            },
            None => {},
        }
        p = p + 1;
    }
    None
}

/// The leftmost tag match in `s`, as (start, end).
pub fn find_meta(s: &[char]) -> (r: Option<(usize, usize)>)
    ensures
        r == (match first_meta_match(s@, 0) {
            Some((a, b)) => Some((a as usize, b as usize)),
            None => None::<(usize, usize)>,
        }),
        r matches Some((a, b)) ==> a < b <= s@.len() && first_meta_match(s@, 0) == Some((a as int, b as int)),
        r is None ==> first_meta_match(s@, 0) is None,
{
    let mut p: usize = 0;
    while p < s.len()
        invariant
            p <= s@.len(),
            first_meta_match(s@, 0) == first_meta_match(s@, p as int),
        decreases s@.len() - p,
    {
        match meta_match(s, p) {
            Some(e) => {
                return Some((p, e));
            },
            None => {},
        }
        p = p + 1;
    }
    None
}


/// What one LRC line gives.
pub enum LrcLineModel {
    Skip,
    Line(TimeLineModel),
    Fail,
}

/// The timed line of a lyric text with `text` as its verse.
pub open spec fn lrc_time_line(start: i64, text: Seq<char>) -> TimeLineModel {
    TimeLineModel {
        start,
        duration: 0,
        line: LineModel { text, length: clamp_i64(byte_len(text)), ..empty_line() },
    }
}

/// One line of an LRC text. Its first time tag gives the start; the verse is
/// the line from the byte offset that equals the tag's byte length (counted
/// from the line's start, wherever the tag stands), trimmed; an offset inside
/// a character, or a tag whose time does not read, is a failure.
pub open spec fn lrc_line(raw: Seq<char>) -> LrcLineModel {
    let line = trim_spec(raw);
    match first_timeline_match(line, 0) {
        None => LrcLineModel::Skip,
        Some((p, e)) => {
            let ts = line.subrange(p, e);
            match char_index_at_byte(line, byte_len(ts)) {
                None => LrcLineModel::Fail,
                Some(q) => match time_tag_ms(trim_end_spec(trim_start_spec(ts, '['), ']')) {
                    None => LrcLineModel::Fail,
                    Some(start) => LrcLineModel::Line(lrc_time_line(start, trim_spec(line.skip(q)))),
                },
            }
        },
    }
}

/// The timed lines of the lines of an LRC text, or `None` where one fails.
pub open spec fn lrc_lines(lines: Seq<Seq<char>>) -> Option<Seq<TimeLineModel>>
    decreases lines.len(),
{
    if lines.len() == 0 {
        Some(Seq::empty())
    } else {
        match lrc_lines(lines.drop_last()) {
            None => None,
            Some(body) => match lrc_line(lines.last()) {
                LrcLineModel::Skip => Some(body),
                LrcLineModel::Line(t) => Some(body.push(t)),
                LrcLineModel::Fail => None,
            },
        }
    }
}

/// The timed lines of an LRC text (lines separated by `\n`).
pub open spec fn lrc_text(s: Seq<char>) -> Option<Seq<TimeLineModel>> {
    lrc_lines(split_spec(s, '\n'))
}

proof fn lemma_lrc_lines_fail(lines: Seq<Seq<char>>, i: int)
    requires
        0 <= i <= lines.len(),
        lrc_lines(lines.take(i)) is None,
    ensures
        lrc_lines(lines) is None,
    decreases lines.len() - i,
{
    if i < lines.len() {
        assert(lines.take(i + 1).drop_last() =~= lines.take(i));
        lemma_lrc_lines_fail(lines, i + 1);
    } else {
        assert(lines.take(i) =~= lines);
    }
}

/// What one LRC line gives.
pub enum LrcLine {
    Skip,
    Line(LyricTimeLine),
    Fail,
}

impl View for LrcLine {
    type V = LrcLineModel;

    open spec fn view(&self) -> LrcLineModel {
        match self {
            LrcLine::Skip => LrcLineModel::Skip,
            LrcLine::Line(t) => LrcLineModel::Line(t@),
            LrcLine::Fail => LrcLineModel::Fail,
        }
    }
}

/// `n` limited to the range of `i64`.
fn clamp_u128(n: u128) -> (r: i64)
    ensures
        r == clamp_i64(n as int),
{
    if n > 0x7fff_ffff_ffff_ffff {
        0x7fff_ffff_ffff_ffff
    } else {
        n as i64
    }
}

/// Reads one LRC line (see `lrc_line`).
pub fn parse_lrc_line(raw: &[char]) -> (r: LrcLine)
    ensures
        r@ == lrc_line(raw@),
{
    let line = trim_from(raw, 0);
    assert(raw@.skip(0) =~= raw@);
    let (p, e) = match find_timeline(line.as_slice()) {
        None => {
            return LrcLine::Skip;
        },
        Some(m) => m,
    };
    let ts = copy_range(line.as_slice(), p, e);
    let b = byte_len_of(ts.as_slice());
    let q = match char_index_of_byte(line.as_slice(), b) {
        None => {
            return LrcLine::Fail;
        },
        Some(q) => q,
    };
    let a = trim_start_index(ts.as_slice(), '[');
    let t1 = copy_range(ts.as_slice(), a, ts.len());
    assert(t1@ =~= trim_start_spec(ts@, '['));
    let z = trim_end_index(t1.as_slice(), ']');
    let tag = copy_range(t1.as_slice(), 0, z);
    assert(tag@ =~= trim_end_spec(t1@, ']'));
    let tag_text = string_of(tag.as_slice());
    let start = match time_tag_ms_of(tag_text.as_str()) {
        None => {
            return LrcLine::Fail;
        },
        Some(v) => v,
    };
    let verse = trim_from(line.as_slice(), q);
    let length = clamp_u128(byte_len_of(verse.as_slice()));
    let l = LyricLine {
        text: string_of(verse.as_slice()),
        length,
        word_timeline: Vec::new(),
        translation: String::new(),
        pronunciation: String::new(),
    };
    LrcLine::Line(LyricTimeLine { start, duration: 0, line: l })
}

/// Reads the timed lines of an LRC text (see `lrc_text`); `None` where a
/// line fails.
pub fn read_lyric_text(lrc_string: &[char]) -> (r: Option<Vec<LyricTimeLine>>)
    ensures
        match lrc_text(lrc_string@) {
            None => r is None,
            Some(body) => r matches Some(v) && line_views(v@) == body,
        },
{
    let lines = split_chars(lrc_string, '\n');
    let ghost ls = views(lines@);
    let mut out: Vec<LyricTimeLine> = Vec::new();
    let mut i: usize = 0;
    assert(ls.take(0) =~= Seq::<Seq<char>>::empty());
    while i < lines.len()
        invariant
            i <= lines@.len(),
            ls == views(lines@),
            ls == split_spec(lrc_string@, '\n'),
            lrc_lines(ls.take(i as int)) == Some(line_views(out@)),
        decreases lines@.len() - i,
    {
        assert(ls.take(i + 1).drop_last() =~= ls.take(i as int));
        assert(ls[i as int] == lines@[i as int]@);
        match parse_lrc_line(lines[i].as_slice()) {
            LrcLine::Skip => {},
            LrcLine::Line(t) => {
                let ghost tv = t@;
                let ghost before = line_views(out@);
                out.push(t);
                assert(line_views(out@) =~= before.push(tv));
            },
            LrcLine::Fail => {
                proof {
                    lemma_lrc_lines_fail(ls, i + 1);
                }
                return None;
            },
        }
        i = i + 1;
    }
    assert(ls.take(i as int) =~= ls);
    Some(out)
}

/// The timed lines of an LRC text.
pub fn parse_lyric_text(lrc_string: &str) -> (r: Vec<LyricTimeLine>)
    requires
        lrc_text(lrc_string@) is Some,
    ensures
        line_views(r@) == lrc_text(lrc_string@).unwrap(),
{
    let chars = chars_of(lrc_string);
    match read_lyric_text(chars.as_slice()) {
        Some(v) => v,
        None => Vec::new(),
    }
}

/// What one line gives to the metadata: nothing, a tag, or a failure (a cut
/// inside a character, or past the end of the line).
pub enum MetaLineModel {
    Skip,
    Tag((Seq<char>, Seq<char>)),
    Fail,
}

/// One line read for metadata: its first `[name]` tag, with the rest of the
/// line after the byte following the tag as the value.
pub open spec fn meta_line(line: Seq<char>) -> MetaLineModel {
    match first_meta_match(line, 0) {
        None => MetaLineModel::Skip,
        Some((p, e)) => {
            let name = line.subrange(p, e);
            match char_index_at_byte(line, byte_len(name) + 1) {
                None => MetaLineModel::Fail,
                Some(q) => MetaLineModel::Tag((name, trim_spec(line.skip(q)))),
            }
        },
    }
}

/// The metadata tags of some lines, or `None` where a line fails.
pub open spec fn meta_lines(lines: Seq<Seq<char>>) -> Option<Set<(Seq<char>, Seq<char>)>>
    decreases lines.len(),
{
    if lines.len() == 0 {
        Some(Set::empty())
    } else {
        match meta_lines(lines.drop_last()) {
            None => None,
            Some(tags) => match meta_line(lines.last()) {
                MetaLineModel::Skip => Some(tags),
                MetaLineModel::Tag(t) => Some(tags.insert(t)),
                MetaLineModel::Fail => None,
            },
        }
    }
}

/// The metadata tags of an LRC text (lines separated by `\n`).
pub open spec fn lrc_meta(s: Seq<char>) -> Option<Set<(Seq<char>, Seq<char>)>> {
    meta_lines(split_spec(s, '\n'))
}

proof fn lemma_meta_lines_fail(lines: Seq<Seq<char>>, i: int)
    requires
        0 <= i <= lines.len(),
        meta_lines(lines.take(i)) is None,
    ensures
        meta_lines(lines) is None,
    decreases lines.len() - i,
{
    if i < lines.len() {
        assert(lines.take(i + 1).drop_last() =~= lines.take(i));
        lemma_meta_lines_fail(lines, i + 1);
    } else {
        assert(lines.take(i) =~= lines);
    }
}

/// Reads the metadata tags of an LRC text into a sorted tag vector (see
/// `lrc_meta`); `None` where a line fails.
#[verifier::spinoff_prover]
pub fn read_metatag(s: &[char]) -> (r: Option<Vec<IDTag>>)
    ensures
        match lrc_meta(s@) {
            None => r is None,
            Some(tags) => r matches Some(v) && tags_sorted(tag_views(v@)) && tag_set(v@) == tags,
        },
{
    let lines = split_chars(s, '\n');
    let ghost ls = views(lines@);
    let mut out: Vec<IDTag> = Vec::new();
    let mut i: usize = 0;
    assert(ls.take(0) =~= Seq::<Seq<char>>::empty());
    assert(tag_set(out@) =~= Set::empty());
    while i < lines.len()
        invariant
            i <= lines@.len(),
            ls == views(lines@),
            ls == split_spec(s@, '\n'),
            tags_sorted(tag_views(out@)),
            meta_lines(ls.take(i as int)) == Some(tag_set(out@)),
        decreases lines@.len() - i,
    {
        assert(ls.take(i + 1).drop_last() =~= ls.take(i as int));
        assert(ls[i as int] == lines@[i as int]@);
        let line = lines[i].as_slice();
        match find_meta(line) {
            None => {
                assert(meta_line(ls[i as int]) == MetaLineModel::Skip);
            },
            Some((p, e)) => {
                let name = copy_range(line, p, e);
                let b = byte_len_of(name.as_slice());
                match char_index_of_byte(line, b + 1) {
                    None => {
                        proof {
                            lemma_meta_lines_fail(ls, i + 1);
                        }
                        return None;
                    },
                    Some(q) => {
                        let value = trim_from(line, q);
                        let tag = IDTag::new(string_of(name.as_slice()), string_of(value.as_slice()));
                        assert(meta_line(ls[i as int]) == MetaLineModel::Tag(tag@));
                        let ghost before = tag_set(out@);
                        insert_tag(&mut out, tag);
                        assert(meta_lines(ls.take(i + 1)) == Some(before.insert(tag@)));
                    },
                }
            },
        }
        i = i + 1;
    }
    assert(ls.take(i as int) =~= ls);
    Some(out)
}

/// The metadata tags of an LRC text, sorted.
pub fn parse_metatag(s: &str) -> (r: Vec<IDTag>)
    requires
        lrc_meta(s@) is Some,
    ensures
        tags_sorted(tag_views(r@)),
        tag_set(r@) == lrc_meta(s@).unwrap(),
{
    let chars = chars_of(s);
    match read_metatag(chars.as_slice()) {
        Some(v) => v,
        None => Vec::new(),
    }
}


/// The text attached to a line from `extra` (translations or
/// pronunciations), with the next index into `extra`: the next entry is
/// taken when it starts less than 100 ms after the line; otherwise the line
/// gets the empty text; once `extra` is used up the line keeps `current`.
pub open spec fn attach(extra: Seq<TimeLineModel>, k: int, start: i64, current: Seq<char>) -> (Seq<char>, int) {
    if 0 <= k < extra.len() {
        if extra[k].start - start < 100 {
            (extra[k].line.text, k + 1)
        } else {
            (Seq::empty(), k)
        }
    } else {
        (current, k)
    }
}

/// The lines of the original lyric with translations and pronunciations
/// attached in order, and the numbers of each used.
pub open spec fn merge_lines(orig: Seq<TimeLineModel>, tr: Seq<TimeLineModel>, pr: Seq<TimeLineModel>) -> (
    Seq<TimeLineModel>,
    int,
    int,
)
    decreases orig.len(),
{
    if orig.len() == 0 {
        (Seq::empty(), 0, 0)
    } else {
        let (done, p, t) = merge_lines(orig.drop_last(), tr, pr);
        let line = orig.last();
        let (pron, p2) = attach(pr, p, line.start, line.line.pronunciation);
        let (tran, t2) = attach(tr, t, line.start, line.line.translation);
        (
            done.push(
                TimeLineModel {
                    line: LineModel { pronunciation: pron, translation: tran, ..line.line },
                    ..line
                },
            ),
            p2,
            t2,
        )
    }
}

proof fn lemma_merge_bounds(orig: Seq<TimeLineModel>, tr: Seq<TimeLineModel>, pr: Seq<TimeLineModel>)
    ensures
        0 <= merge_lines(orig, tr, pr).1 <= pr.len(),
        0 <= merge_lines(orig, tr, pr).2 <= tr.len(),
        merge_lines(orig, tr, pr).0.len() == orig.len(),
    decreases orig.len(),
{
    if orig.len() > 0 {
        lemma_merge_bounds(orig.drop_last(), tr, pr);
    }
}

/// The text to attach from `extra` (see `attach`).
fn attach_text(extra: &Vec<LyricTimeLine>, k: usize, start: i64, current: &String) -> (r: (String, usize))
    requires
        k <= extra@.len(),
    ensures
        r.0@ == attach(line_views(extra@), k as int, start, current@).0,
        r.1 as int == attach(line_views(extra@), k as int, start, current@).1,
{
    if k < extra.len() {
        let e = &extra[k];
        assert(line_views(extra@)[k as int] == e@);
        if (e.start as i128) - (start as i128) < 100 {
            (e.line.text.clone(), k + 1)
        } else {
            (String::new(), k)
        }
    } else {
        (current.clone(), k)
    }
}

/// Attaches translations and pronunciations to the lines (see `merge_lines`).
pub fn merge_lyric_lines(
    original: &Vec<LyricTimeLine>,
    translation: &Vec<LyricTimeLine>,
    pronunciation: &Vec<LyricTimeLine>,
) -> (r: Vec<LyricTimeLine>)
    ensures
        line_views(r@) == merge_lines(
            line_views(original@),
            line_views(translation@),
            line_views(pronunciation@),
        ).0,
{
    let ghost ov = line_views(original@);
    let ghost tv = line_views(translation@);
    let ghost pv = line_views(pronunciation@);
    let mut out: Vec<LyricTimeLine> = Vec::new();
    let mut p: usize = 0;
    let mut t: usize = 0;
    let mut i: usize = 0;
    assert(ov.take(0) =~= Seq::<TimeLineModel>::empty());
    assert(line_views(out@) =~= Seq::<TimeLineModel>::empty());
    while i < original.len()
        invariant
            i <= original@.len(),
            ov == line_views(original@),
            tv == line_views(translation@),
            pv == line_views(pronunciation@),
            merge_lines(ov.take(i as int), tv, pv) == (line_views(out@), p as int, t as int),
        decreases original@.len() - i,
    {
        proof {
            assert(ov.take(i + 1).drop_last() =~= ov.take(i as int));
            lemma_merge_bounds(ov.take(i as int), tv, pv);
        }
        let src = &original[i];
        assert(ov[i as int] == src@);
        assert(ov.take(i + 1).last() == src@);
        let (pron, p2) = attach_text(pronunciation, p, src.start, &src.line.pronunciation);
        let (tran, t2) = attach_text(translation, t, src.start, &src.line.translation);
        let mut line = src.line.copy();
        line.pronunciation = pron;
        line.translation = tran;
        let entry = LyricTimeLine { start: src.start, duration: src.duration, line };
        let ghost ev = entry@;
        let ghost before = line_views(out@);
        out.push(entry);
        assert(line_views(out@) =~= before.push(ev));
        p = p2;
        t = t2;
        i = i + 1;
    }
    assert(ov.take(i as int) =~= ov);
    out
}

/// The text after dropping leading `"`.
fn without_leading_quotes(s: &String) -> (r: Vec<char>)
    ensures
        r@ == trim_start_spec(s@, '"'),
{
    let chars = chars_of(s.as_str());
    let a = trim_start_index(chars.as_slice(), '"');
    let r = copy_range(chars.as_slice(), a, chars.len());
    assert(r@ =~= trim_start_spec(s@, '"'));
    r
}

/// The lyric document of a Netease lyric, as `parse_netease_lyric` builds
/// it, or `None` where one of the texts has a line that does not read.
pub open spec fn netease_lyric_parse(lyric: Seq<char>, tlyric: Seq<char>, klyric: Seq<char>) -> Option<
    (Set<(Seq<char>, Seq<char>)>, Seq<TimeLineModel>),
> {
    let l = trim_start_spec(lyric, '"');
    let t = trim_start_spec(tlyric, '"');
    let k = trim_start_spec(klyric, '"');
    match (lrc_meta(l), lrc_text(l), lrc_text(t), lrc_text(k)) {
        (Some(tags), Some(orig), Some(tr), Some(pr)) => Some(
            (tags, durations_from_start(merge_lines(orig, tr, pr).0)),
        ),
        _ => None,
    }
}

/// Reads a Netease lyric into a document (see `netease_lyric_parse`).
pub fn read_netease_lyric(s: &NeteaseSongLyrics) -> (r: Option<Lrcx>)
    ensures
        match netease_lyric_parse(s.lyric@, s.tlyric@, s.klyric@) {
            None => r is None,
            Some((tags, body)) => r matches Some(l) && l.wf() && l.tags() == tags && l.body()
                == body,
        },
{
    let l = without_leading_quotes(&s.lyric);
    let t = without_leading_quotes(&s.tlyric);
    let k = without_leading_quotes(&s.klyric);
    let metadata = match read_metatag(l.as_slice()) {
        None => {
            return None;
        },
        Some(m) => m,
    };
    let original = match read_lyric_text(l.as_slice()) {
        None => {
            return None;
        },
        Some(v) => v,
    };
    let translation = match read_lyric_text(t.as_slice()) {
        None => {
            return None;
        },
        Some(v) => v,
    };
    let pronunciation = match read_lyric_text(k.as_slice()) {
        None => {
            return None;
        },
        Some(v) => v,
    };
    let merged = merge_lyric_lines(&original, &translation, &pronunciation);
    let mut lrcx = Lrcx { metadata, lyric_body: merged };
    lrcx.cal_duration_from_start();
    Some(lrcx)
}

/// The lyric document of a Netease lyric: the tags of the original, its
/// lines with translations and pronunciations attached, each lasting until
/// the next starts.
pub fn parse_netease_lyric(s: &NeteaseSongLyrics) -> (r: Lrcx)
    requires
        netease_lyric_parse(s.lyric@, s.tlyric@, s.klyric@) is Some,
    ensures
        r.wf(),
        r.tags() == netease_lyric_parse(s.lyric@, s.tlyric@, s.klyric@).unwrap().0,
        r.body() == netease_lyric_parse(s.lyric@, s.tlyric@, s.klyric@).unwrap().1,
{
    match read_netease_lyric(s) {
        Some(l) => l,
        None => Lrcx::new(),
    }
}


/// The Levenshtein distance: the fewest insertions, deletions and
/// substitutions of characters that turn `a` into `b`.
pub open spec fn levenshtein_spec(a: Seq<char>, b: Seq<char>) -> nat
    decreases a.len() + b.len(),
{
    if a.len() == 0 {
        b.len()
    } else if b.len() == 0 {
        a.len()
    } else {
        let del = levenshtein_spec(a.drop_last(), b) + 1;
        let ins = levenshtein_spec(a, b.drop_last()) + 1;
        let sub = levenshtein_spec(a.drop_last(), b.drop_last()) + (if a.last() == b.last() {
            0nat
        } else {
            1nat
        });
        if del <= ins && del <= sub {
            del
        } else if ins <= sub {
            ins
        } else {
            sub
        }
    }
}

/// `strsim::levenshtein(a, b)`: claimed to be the Levenshtein distance of
/// the two character sequences, as the crate documents it.
#[verifier::external_body]
fn levenshtein(a: &str, b: &str) -> (r: usize)
    ensures
        r as int == levenshtein_spec(a@, b@),
{
    strsim::levenshtein(a, b)
}

/// `artist name`, the text a listed song is compared by.
pub open spec fn listed_name(s: NeteaseSongModel) -> Seq<char> {
    s.artist + seq![' '] + s.name
}

/// `artist name` of a song.
fn listed_name_of(s: &NeteaseSong) -> (r: String)
    ensures
        r@ == listed_name(s@),
{
    let mut out = chars_of(s.artist.as_str());
    out.push(' ');
    let n = chars_of(s.name.as_str());
    crate::text::append_chars(&mut out, n.as_slice());
    let r = string_of(out.as_slice());
    assert(r@ =~= listed_name(s@));
    r
}

/// The best match among `songs`, taken in the order in which a song list
/// hands its songs out (its `next` takes the last song, so from the last to
/// the first): a song replaces the best so far when its distance to
/// `target` is smaller, so among equally near songs the one nearest the
/// end of the list wins.
pub open spec fn scan_best(
    songs: Seq<NeteaseSongModel>,
    target: Seq<char>,
    best: NeteaseSongModel,
    distance: int,
) -> (NeteaseSongModel, int)
    decreases songs.len(),
{
    if songs.len() == 0 {
        (best, distance)
    } else {
        let s = songs.last();
        let d = levenshtein_spec(listed_name(s), target) as int;
        if d < distance {
            scan_best(songs.drop_last(), target, s, d)
        } else {
            scan_best(songs.drop_last(), target, best, distance)
        }
    }
}

/// Scans a list for a better match (see `scan_best`).
fn scan_best_match(list: &NeteaseSongList, target: &String, best: NeteaseSong, distance: usize) -> (r: (
    NeteaseSong,
    usize,
))
    ensures
        (r.0@, r.1 as int) == scan_best(list.songs(), target@, best@, distance as int),
{
    let ghost b0 = best@;
    let ghost d0 = distance as int;
    let mut best = best;
    let mut distance = distance;
    let mut i: usize = list.len();
    assert(list.songs().take(i as int) =~= list.songs());
    while i > 0
        invariant
            i <= list.songs().len(),
            scan_best(list.songs(), target@, b0, d0) == scan_best(
                list.songs().take(i as int),
                target@,
                best@,
                distance as int,
            ),
        decreases i,
    {
        let ghost pre = list.songs().take(i as int);
        assert(pre.drop_last() =~= list.songs().take(i - 1));
        i = i - 1;
        let song = list.index(i);
        assert(pre.last() == song@);
        let name = listed_name_of(song);
        let d = levenshtein(name.as_str(), target.as_str());
        if d < distance {
            best = song.copy();
            distance = d;
        }
    }
    assert(list.songs().take(0) =~= Seq::<NeteaseSongModel>::empty());
    (best, distance)
}

/// What the search for the best match does next.
pub enum MatchStep {
    /// The match is decided.
    Done(NeteaseSong),
    /// Search again with `keyword` and look there for a song nearer than
    /// `best`, at `distance`.
    SearchAgain { keyword: String, best: NeteaseSong, distance: usize },
}

/// The first round of the search for the song that best matches `target`
/// among the results of searching its name: the empty song when there are
/// none; the nearest song (by `artist name` against the name) when it lies
/// within 6 edits; otherwise a second search by `artist name`.
pub fn best_match_first_round(list: &NeteaseSongList, target: &NeteaseSong) -> (r: MatchStep)
    ensures
        list.songs().len() == 0 ==> (r matches MatchStep::Done(s) && s@ == empty_netease_song()),
        list.songs().len() > 0 ==> {
            let (b, d) = scan_best(list.songs(), target.name@, list.songs()[0], usize::MAX as int);
            if d > 6 {
                r matches MatchStep::SearchAgain { keyword, best, distance } && keyword@
                    == target.artist@ + seq![' '] + target.name@ && best@ == b && distance == d
            } else {
                r matches MatchStep::Done(s) && s@ == b
            }
        },
{
    if list.len() == 0 {
        return MatchStep::Done(NeteaseSong::new_empty());
    }
    let first = list.index(0).copy();
    let (best, distance) = scan_best_match(list, &target.name, first, usize::MAX);
    if distance > 6 {
        let mut k = chars_of(target.artist.as_str());
        k.push(' ');
        let n = chars_of(target.name.as_str());
        crate::text::append_chars(&mut k, n.as_slice());
        let keyword = string_of(k.as_slice());
        assert(keyword@ =~= target.artist@ + seq![' '] + target.name@);
        MatchStep::SearchAgain { keyword, best, distance }
    } else {
        MatchStep::Done(best)
    }
}

/// The second round: the empty song when the second search found nothing,
/// otherwise the nearest of the best so far and the songs found.
pub fn best_match_second_round(
    list: &NeteaseSongList,
    target: &NeteaseSong,
    best: NeteaseSong,
    distance: usize,
) -> (r: NeteaseSong)
    ensures
        list.songs().len() == 0 ==> r@ == empty_netease_song(),
        list.songs().len() > 0 ==> r@ == scan_best(list.songs(), target.name@, best@, distance as int).0,
{
    if list.len() == 0 {
        return NeteaseSong::new_empty();
    }
    let (b, _) = scan_best_match(list, &target.name, best, distance);
    b
}

/// `s` without any `&`.
pub fn without_ampersands(s: &String) -> (r: String)
    ensures
        r@ == crate::text::remove_char_spec(s@, '&'),
{
    let chars = chars_of(s.as_str());
    let v = crate::text::remove_char(chars.as_slice(), '&');
    string_of(v.as_slice())
}

/// The song searched for when saving the lyric of `song`: its name and
/// artist without `&`, the other fields empty.
pub fn search_song_of(song: &NeteaseSong) -> (r: NeteaseSong)
    ensures
        r@ == (NeteaseSongModel {
            name: crate::text::remove_char_spec(song.name@, '&'),
            artist: crate::text::remove_char_spec(song.artist@, '&'),
            ..empty_netease_song()
        }),
{
    let mut search_song = NeteaseSong::new_empty();
    search_song.name = without_ampersands(&song.name);
    search_song.artist = without_ampersands(&song.artist);
    search_song
}


/// Every element of the array is a readable Netease song.
pub open spec fn netease_songs_readable(items: Seq<JsonValue>) -> bool {
    forall|i: int| 0 <= i < items.len() ==> #[trigger] NeteaseSong::readable(items[i])
}

/// A search reply can be read: when its `code` is 200, `result.songs` is an
/// array of readable songs.
pub open spec fn netease_search_reply_readable(reply: JsonValue) -> bool {
    i64_field(reply, "code"@) == Some(200i64) ==> (crate::kugou::nested_array(
        reply,
        "result"@,
        "songs"@,
    ) matches Some(items) && netease_songs_readable(items))
}

/// The songs of a Netease search reply; `None` when its `code` is not 200.
pub fn netease_song_list_from_reply(reply: &JsonValue) -> (r: Option<NeteaseSongList>)
    requires
        netease_search_reply_readable(*reply),
    ensures
        i64_field(*reply, "code"@) != Some(200i64) ==> r is None,
        i64_field(*reply, "code"@) == Some(200i64) ==> (r matches Some(l) && l.songs()
            == crate::kugou::nested_array(*reply, "result"@, "songs"@).unwrap().map_values(
            |x: JsonValue| netease_song_of(x),
        )),
{
    if reply.i64_field("code") != Some(200i64) {
        return None;
    }
    let items = match reply.get("result") {
        Some(res) => match res.get("songs") {
            Some(JsonValue::Array(items)) => items,
            _ => {
                return None;
            },
        },
        None => {
            return None;
        },
    };
    let mut list = NeteaseSongList::new();
    let mut i: usize = 0;
    while i < items.len()
        invariant
            i <= items@.len(),
            netease_songs_readable(items@),
            list.songs() == items@.take(i as int).map_values(|x: JsonValue| netease_song_of(x)),
        decreases items@.len() - i,
    {
        let song = NeteaseSong::new(&items[i]);
        list.push(song);
        i = i + 1;
        assert(list.songs() =~= items@.take(i as int).map_values(|x: JsonValue| netease_song_of(x)));
    }
    assert(items@.take(i as int) =~= items@);
    Some(list)
}

/// Every `\n` (backslash, `n`) replaced by a newline, left to right.
pub open spec fn unescape_newlines(s: Seq<char>) -> Seq<char>
    decreases s.len(),
{
    if s.len() == 0 {
        s
    } else if s.len() >= 2 && s[0] == '\\' && s[1] == 'n' {
        seq!['\n'] + unescape_newlines(s.skip(2))
    } else {
        seq![s[0]] + unescape_newlines(s.drop_first())
    }
}

/// `s.replace("\\n", "\n")`.
pub fn replace_escaped_newlines(s: &str) -> (r: String)
    ensures
        r@ == unescape_newlines(s@),
{
    let c = chars_of(s);
    let n = c.len();
    let mut out: Vec<char> = Vec::new();
    let mut i: usize = 0;
    assert(c@.skip(0) =~= c@);
    while i < n
        invariant
            i <= n,
            n == c@.len(),
            c@ == s@,
            out@ + unescape_newlines(c@.skip(i as int)) == unescape_newlines(s@),
        decreases n - i,
    {
        let ghost rest = c@.skip(i as int);
        if i + 1 < n && c[i] == '\\' && c[i + 1] == 'n' {
            assert(rest.skip(2) =~= c@.skip(i + 2));
            out.push('\n');
            i = i + 2;
            assert(out@ + unescape_newlines(c@.skip(i as int)) =~= unescape_newlines(s@));
        } else {
            assert(rest.drop_first() =~= c@.skip(i + 1));
            out.push(c[i]);
            i = i + 1;
            assert(out@ + unescape_newlines(c@.skip(i as int)) =~= unescape_newlines(s@));
        }
    }
    assert(c@.skip(i as int) =~= Seq::<char>::empty());
    assert(out@ =~= unescape_newlines(s@));
    string_of(out.as_slice())
}

/// The part `key` of a lyric reply can be read: absent, or holding a
/// `lyric` field.
pub open spec fn lyric_part_readable(reply: JsonValue, key: Seq<char>) -> bool {
    match json_get(reply, key) {
        None => true,
        Some(part) => json_get(part, "lyric"@) is Some,
    }
}

/// The text of the part `key` of a lyric reply: `missing` when the part is
/// absent, `null_text` when its lyric is null, else the JSON text of its
/// lyric (a string quoted and escaped) with escaped newlines turned back
/// into newlines.
pub open spec fn lyric_part_text(reply: JsonValue, key: Seq<char>, missing: Seq<char>, null_text: Seq<char>) -> Seq<char> {
    match json_get(reply, key) {
        None => missing,
        Some(part) => match json_get(part, "lyric"@) {
            Some(v) => if v is Null {
                null_text
            } else {
                unescape_newlines(json_text(v))
            },
            None => null_text,
        },
    }
}

/// The text of one part of a lyric reply (see `lyric_part_text`).
fn lyric_part(reply: &JsonValue, key: &str, missing: &str, null_text: &str) -> (r: String)
    requires
        lyric_part_readable(*reply, key@),
    ensures
        r@ == lyric_part_text(*reply, key@, missing@, null_text@),
{
    match reply.get(key) {
        None => String::from_str(missing),
        Some(part) => match part.get("lyric") {
            Some(v) => if v.is_null() {
                String::from_str(null_text)
            } else {
                let text = json_text_of(v);
                replace_escaped_newlines(text.as_str())
            },
            None => String::from_str(null_text),
        },
    }
}

/// A lyric reply can be read: each of `lrc`, `tlyric` and `klyric` is
/// absent or holds a `lyric` field.
pub open spec fn lyric_reply_readable(reply: JsonValue) -> bool {
    &&& lyric_part_readable(reply, "lrc"@)
    &&& lyric_part_readable(reply, "tlyric"@)
    &&& lyric_part_readable(reply, "klyric"@)
}

/// The lyrics of a Netease lyric reply; `None` when its `code` is not 200.
/// A missing original becomes an error notice, a null one a notice that the
/// song has no lyric; a missing or null translation or pronunciation is
/// empty.
pub fn song_lyric_from_reply(reply: &JsonValue) -> (r: Option<NeteaseSongLyrics>)
    requires
        lyric_reply_readable(*reply),
    ensures
        i64_field(*reply, "code"@) != Some(200i64) ==> r is None,
        i64_field(*reply, "code"@) == Some(200i64) ==> (r matches Some(l) && l.lyric@
            == lyric_part_text(
            *reply,
            "lrc"@,
            "[00:00.000] Get lyric Error"@,
            "[00:00.000] This Music Has No Lyric"@,
        ) && l.tlyric@ == lyric_part_text(*reply, "tlyric"@, ""@, ""@) && l.klyric@
            == lyric_part_text(*reply, "klyric"@, ""@, ""@)),
{
    if reply.i64_field("code") != Some(200i64) {
        return None;
    }
    let lyric = lyric_part(
        reply,
        "lrc",
        "[00:00.000] Get lyric Error",
        "[00:00.000] This Music Has No Lyric",
    );
    let tlyric = lyric_part(reply, "tlyric", "", "");
    let klyric = lyric_part(reply, "klyric", "", "");
    Some(NeteaseSongLyrics { lyric, tlyric, klyric })
}


/// The address of a song search for `key_word`, at most `number` results.
pub fn song_list_url(key_word: &str, number: i32) -> (r: String)
    ensures
        r@ == "http://music.163.com/api/search/pc?type=1&offset=0&s="@ + key_word@ + "&limit="@
            + decimal_spec(number as int),
{
    let mut out: Vec<char> = Vec::new();
    crate::text::push_str(&mut out, "http://music.163.com/api/search/pc?type=1&offset=0&s=");
    crate::text::push_str(&mut out, key_word);
    crate::text::push_str(&mut out, "&limit=");
    let n = i64_to_string(number as i64);
    crate::text::push_str(&mut out, n.as_str());
    let r = string_of(out.as_slice());
    assert(r@ =~= "http://music.163.com/api/search/pc?type=1&offset=0&s="@ + key_word@ + "&limit="@
        + decimal_spec(number as int));
    r
}

/// The address of the lyric of a song.
pub fn song_lyric_url(song: &NeteaseSong) -> (r: String)
    ensures
        r@ == "http://music.163.com/api/song/lyric?lv=1&kv=1&tv=-1&id="@ + song.id@,
{
    let mut out: Vec<char> = Vec::new();
    crate::text::push_str(&mut out, "http://music.163.com/api/song/lyric?lv=1&kv=1&tv=-1&id=");
    crate::text::push_str(&mut out, song.id.as_str());
    let r = string_of(out.as_slice());
    assert(r@ =~= "http://music.163.com/api/song/lyric?lv=1&kv=1&tv=-1&id="@ + song.id@);
    r
}

impl NeteaseSong {
    /// `Name: ..\nArtist: ..\nAlbum: ..\nID: ..\n\n`.
    pub fn to_string(&self) -> (r: String)
        ensures
            r@ == "Name: "@ + self.name@ + "\nArtist: "@ + self.artist@ + "\nAlbum: "@
                + self.album@ + "\nID: "@ + self.id@ + "\n\n"@,
    {
        let mut out: Vec<char> = Vec::new();
        crate::text::push_str(&mut out, "Name: ");
        crate::text::push_str(&mut out, self.name.as_str());
        crate::text::push_str(&mut out, "\nArtist: ");
        crate::text::push_str(&mut out, self.artist.as_str());
        crate::text::push_str(&mut out, "\nAlbum: ");
        crate::text::push_str(&mut out, self.album.as_str());
        crate::text::push_str(&mut out, "\nID: ");
        crate::text::push_str(&mut out, self.id.as_str());
        crate::text::push_str(&mut out, "\n\n");
        let r = string_of(out.as_slice());
        assert(r@ =~= "Name: "@ + self.name@ + "\nArtist: "@ + self.artist@ + "\nAlbum: "@
            + self.album@ + "\nID: "@ + self.id@ + "\n\n"@);
        r
    }
}


/// A song description can be read (see `NeteaseSong::readable`).
pub fn netease_song_is_readable(song: &JsonValue) -> (r: bool)
    ensures
        r == NeteaseSong::readable(*song),
{
    song.str_field("name").is_some() && song.first_str_field("artists", "name").is_some()
        && song.nested_str_field("album", "name").is_some() && song.i64_field("id").is_some()
}

/// A search reply can be read (see `netease_search_reply_readable`).
pub fn netease_search_reply_is_readable(reply: &JsonValue) -> (r: bool)
    ensures
        r == netease_search_reply_readable(*reply),
{
    if reply.i64_field("code") != Some(200i64) {
        return true;
    }
    let items = match reply.get("result") {
        Some(res) => match res.get("songs") {
            Some(JsonValue::Array(items)) => items,
            _ => {
                return false;
            },
        },
        None => {
            return false;
        },
    };
    let mut i: usize = 0;
    while i < items.len()
        invariant
            i <= items@.len(),
            forall|j: int| 0 <= j < i ==> #[trigger] NeteaseSong::readable(items@[j]),
            crate::kugou::nested_array(*reply, "result"@, "songs"@) == Some(items@),
            i64_field(*reply, "code"@) == Some(200i64),
        decreases items@.len() - i,
    {
        if !netease_song_is_readable(&items[i]) {
            assert(!NeteaseSong::readable(items@[i as int]));
            return false;
        }
        i = i + 1;
    }
    true
}

/// A lyric reply can be read (see `lyric_reply_readable`).
pub fn lyric_reply_is_readable(reply: &JsonValue) -> (r: bool)
    ensures
        r == lyric_reply_readable(*reply),
{
    let a = match reply.get("lrc") {
        Some(part) => part.get("lyric").is_some(),
        None => true,
    };
    let b = match reply.get("tlyric") {
        Some(part) => part.get("lyric").is_some(),
        None => true,
    };
    let c = match reply.get("klyric") {
        Some(part) => part.get("lyric").is_some(),
        None => true,
    };
    a && b && c
}

} // verus!
