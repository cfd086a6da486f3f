//! Kugou songs and KRC lyrics: the song model and the KRC text parser.

use std::io::Read;

use vstd::prelude::*;
use crate::decimal::{decimal_units, read_decimal_units};
use crate::json::{i64_field, json_at, json_get, opt_str, str_or_absent, JsonValue};
use crate::song::RemoteSongTrait;
use crate::model::{
    clamp_i64, insert_tag, line_views, sat_add, tag_set, tag_views, tags_sorted, IDTag, LineModel,
    Lrcx, LyricLine, LyricTimeLine, TimeLineModel, WordTimeline,
};
use crate::text::{
    append_chars, chars_of, contains_char, copy_range, find_char, find_spec, is_first_index,
    lemma_split_nonempty, remove_char, remove_char_spec, split_chars,
    split_spec, string_of, trim_end_index, trim_end_spec, trim_start_index, trim_start_spec, views,
};

verus! {

/// The abstract content of a Kugou song.
pub struct KugouSongModel {
    pub name: Seq<char>,
    pub artist: Seq<char>,
    pub album: Seq<char>,
    pub hash: Seq<char>,
    pub id: Seq<char>,
    pub access_key: Seq<char>,
}

/// A song as Kugou describes it.
pub struct KugouSong {
    pub name: String,
    pub artist: String,
    pub album: String,
    pub hash: String,
    pub id: String,
    pub access_key: String,
}

impl View for KugouSong {
    type V = KugouSongModel;

    open spec fn view(&self) -> KugouSongModel {
        KugouSongModel {
            name: self.name@,
            artist: self.artist@,
            album: self.album@,
            hash: self.hash@,
            id: self.id@,
            access_key: self.access_key@,
        }
    }
}

/// The field read under `key`, or under `fallback` when `key` is absent.
pub open spec fn str_with_fallback(song: JsonValue, key: Seq<char>, fallback: Seq<char>) -> Seq<char> {
    if json_get(song, key) is Some {
        opt_str(song, key)
    } else {
        opt_str(song, fallback)
    }
}

/// The fields under `key`, or under `fallback`, can be read.
pub open spec fn readable_with_fallback(song: JsonValue, key: Seq<char>, fallback: Seq<char>) -> bool {
    if json_get(song, key) is Some {
        str_or_absent(song, key)
    } else {
        str_or_absent(song, fallback)
    }
}

/// The song that a Kugou search entry or lyric candidate describes.
pub open spec fn kugou_song_of(song: JsonValue) -> KugouSongModel {
    KugouSongModel {
        name: str_with_fallback(song, "name"@, "song"@),
        artist: str_with_fallback(song, "singername"@, "singer"@),
        album: opt_str(song, "album_name"@),
        hash: opt_str(song, "hash"@),
        id: opt_str(song, "id"@),
        access_key: opt_str(song, "accesskey"@),
    }
}

/// The song with no fields.
pub open spec fn empty_kugou_song() -> KugouSongModel {
    KugouSongModel {
        name: Seq::empty(),
        artist: Seq::empty(),
        album: Seq::empty(),
        hash: Seq::empty(),
        id: Seq::empty(),
        access_key: Seq::empty(),
    }
}

impl RemoteSongTrait for KugouSong {
    open spec fn readable(song: JsonValue) -> bool {
        &&& readable_with_fallback(song, "name"@, "song"@)
        &&& readable_with_fallback(song, "singername"@, "singer"@)
        &&& str_or_absent(song, "album_name"@)
        &&& str_or_absent(song, "hash"@)
        &&& str_or_absent(song, "id"@)
        &&& str_or_absent(song, "accesskey"@)
    }

    fn new(song: &JsonValue) -> (r: KugouSong)
        ensures
            r@ == kugou_song_of(*song),
    {
        let name = if song.get("name").is_none() {
            song.opt_str_field("song")
        } else {
            song.opt_str_field("name")
        };
        let artist = if song.get("singername").is_none() {
            song.opt_str_field("singer")
        } else {
            song.opt_str_field("singername")
        };
        let album = song.opt_str_field("album_name");
        let hash = song.opt_str_field("hash");
        let id = song.opt_str_field("id");
        let access_key = song.opt_str_field("accesskey");
        KugouSong { hash, id, access_key, name, artist, album }
    }

    fn new_empty() -> (r: KugouSong)
        ensures
            r@ == empty_kugou_song(),
    {
        KugouSong {
            hash: String::new(),
            name: String::new(),
            artist: String::new(),
            album: String::new(),
            id: String::new(),
            access_key: String::new(),
        }
    }

    fn is_empty(&self) -> (r: bool)
        ensures
            r == (self.name@.len() == 0 && self.artist@.len() == 0 && self.album@.len() == 0
                && self.hash@.len() == 0),
    {
        self.name.as_str().is_empty() && self.artist.as_str().is_empty()
            && self.album.as_str().is_empty() && self.hash.as_str().is_empty()
    }
}

impl KugouSong {
    /// A copy of the song.
    pub fn copy(&self) -> (r: KugouSong)
        ensures
            r@ == self@,
    {
        KugouSong {
            name: self.name.clone(),
            artist: self.artist.clone(),
            album: self.album.clone(),
            hash: self.hash.clone(),
            id: self.id.clone(),
            access_key: self.access_key.clone(),
        }
    }
}

/// The views of a sequence of Kugou songs.
pub open spec fn kugou_views(v: Seq<KugouSong>) -> Seq<KugouSongModel> {
    v.map_values(|s: KugouSong| s@)
}

/// A list of Kugou songs, in the order the service gave them.
pub struct KugouSongList(pub Vec<KugouSong>);

impl KugouSongList {
    /// The songs of the list.
    pub open spec fn songs(&self) -> Seq<KugouSongModel> {
        kugou_views(self.0@)
    }

    pub fn new() -> (r: KugouSongList)
        ensures
            r.songs() == Seq::<KugouSongModel>::empty(),
    {
        KugouSongList(Vec::new())
    }

    pub fn push(&mut self, song: KugouSong)
        ensures
            final(self).songs() == old(self).songs().push(song@),
    {
        self.0.push(song);
        assert(self.songs() =~= old(self).songs().push(song@));
    }

    pub fn len(&self) -> (r: usize)
        ensures
            r == self.songs().len(),
    {
        self.0.len()
    }

    /// `list[index]`.
    pub fn index(&self, index: usize) -> (r: &KugouSong)
        requires
            index < self.songs().len(),
        ensures
            r@ == self.songs()[index as int],
    {
        &self.0[index]
    }

    /// Takes the last song of the list (the list's `Iterator::next`).
    pub fn next(&mut self) -> (r: Option<KugouSong>)
        ensures
            old(self).songs().len() == 0 ==> r is None && final(self).songs() == old(self).songs(),
            old(self).songs().len() > 0 ==> (r matches Some(s) && s@ == old(self).songs().last()
                && final(self).songs() == old(self).songs().drop_last()),
    {
        let r = self.0.pop();
        assert(self.songs() =~= if old(self).songs().len() == 0 {
            old(self).songs()
        } else {
            old(self).songs().drop_last()
        });
        r
    }
}

/// The first song of a list, or the empty song when the list is empty.
pub fn get_default_lyric_item(lyric_list: &KugouSongList) -> (r: KugouSong)
    ensures
        r@ == if lyric_list.songs().len() == 0 {
            empty_kugou_song()
        } else {
            lyric_list.songs()[0]
        },
{
    if lyric_list.len() == 0 {
        return KugouSong::new_empty();
    }
    lyric_list.index(0).copy()
}

/// Every element of the array is a readable Kugou song.
pub open spec fn songs_readable(items: Seq<JsonValue>) -> bool {
    forall|i: int| 0 <= i < items.len() ==> #[trigger] KugouSong::readable(items[i])
}

/// The songs of an array of song descriptions, in order.
pub fn kugou_songs_of(items: &Vec<JsonValue>) -> (r: KugouSongList)
    requires
        songs_readable(items@),
    ensures
        r.songs() == items@.map_values(|x: JsonValue| kugou_song_of(x)),
{
    let mut list = KugouSongList::new();
    let mut i: usize = 0;
    while i < items.len()
        invariant
            i <= items@.len(),
            songs_readable(items@),
            list.songs() == items@.take(i as int).map_values(|x: JsonValue| kugou_song_of(x)),
        decreases items@.len() - i,
    {
        let song = KugouSong::new(&items[i]);
        list.push(song);
        i = i + 1;
        assert(list.songs() =~= items@.take(i as int).map_values(|x: JsonValue| kugou_song_of(x)));
    }
    assert(items@.take(i as int) =~= items@);
    list
}

/// The array under `obj`.`key`, if any.
pub open spec fn nested_array(v: JsonValue, obj: Seq<char>, key: Seq<char>) -> Option<Seq<JsonValue>> {
    match json_get(v, obj) {
        Some(o) => match json_get(o, key) {
            Some(JsonValue::Array(items)) => Some(items@),
            _ => None,
        },
        None => None,
    }
}

/// The array under `key`, if any.
pub open spec fn array_field(v: JsonValue, key: Seq<char>) -> Option<Seq<JsonValue>> {
    match json_get(v, key) {
        Some(JsonValue::Array(items)) => Some(items@),
        _ => None,
    }
}

/// A search reply can be read: when its `status` is 1, `data.info` is an
/// array of readable songs.
pub open spec fn search_reply_readable(reply: JsonValue) -> bool {
    i64_field(reply, "status"@) == Some(1i64) ==> (nested_array(reply, "data"@, "info"@) matches Some(
        items,
    ) && songs_readable(items))
}

/// The songs of a search reply; `None` when its `status` is not 1.
pub fn song_list_from_search_reply(reply: &JsonValue) -> (r: Option<KugouSongList>)
    requires
        search_reply_readable(*reply),
    ensures
        i64_field(*reply, "status"@) != Some(1i64) ==> r is None,
        i64_field(*reply, "status"@) == Some(1i64) ==> (r matches Some(l) && l.songs()
            == nested_array(*reply, "data"@, "info"@).unwrap().map_values(
            |x: JsonValue| kugou_song_of(x),
        )),
{
    if reply.i64_field("status") != Some(1i64) {
        return None;
    }
    match reply.get("data") {
        Some(data) => match data.get("info") {
            Some(JsonValue::Array(items)) => Some(kugou_songs_of(items)),
            _ => None,
        },
        None => None,
    }
}

/// A lyric-search reply can be read: when its `errcode` is 200,
/// `candidates` is an array of readable songs.
pub open spec fn candidates_reply_readable(reply: JsonValue) -> bool {
    i64_field(reply, "errcode"@) == Some(200i64) ==> (array_field(reply, "candidates"@) matches Some(
        items,
    ) && songs_readable(items))
}

/// The lyric candidates of a lyric-search reply; `None` when its `errcode`
/// is not 200.
pub fn lyrics_list_from_reply(reply: &JsonValue) -> (r: Option<KugouSongList>)
    requires
        candidates_reply_readable(*reply),
    ensures
        i64_field(*reply, "errcode"@) != Some(200i64) ==> r is None,
        i64_field(*reply, "errcode"@) == Some(200i64) ==> (r matches Some(l) && l.songs()
            == array_field(*reply, "candidates"@).unwrap().map_values(
            |x: JsonValue| kugou_song_of(x),
        )),
{
    if reply.i64_field("errcode") != Some(200i64) {
        return None;
    }
    match reply.get("candidates") {
        Some(JsonValue::Array(items)) => Some(kugou_songs_of(items)),
        _ => None,
    }
}

/// The encoded lyric of a download reply: its `content`, or the empty text
/// when there is none; `None` when its `status` is not 200.
pub fn lyric_content_from_reply(reply: &JsonValue) -> (r: Option<String>)
    requires
        str_or_absent(*reply, "content"@),
    ensures
        i64_field(*reply, "status"@) != Some(200i64) ==> r is None,
        i64_field(*reply, "status"@) == Some(200i64) ==> (r matches Some(c) && c@ == opt_str(
            *reply,
            "content"@,
        )),
{
    if reply.i64_field("status") != Some(200i64) {
        return None;
    }
    Some(reply.opt_str_field("content"))
}

/// The word `language` that ends the metadata part of a KRC text.
pub open spec fn language_word() -> Seq<char> {
    seq!['l', 'a', 'n', 'g', 'u', 'a', 'g', 'e']
}

/// The lines of a KRC text: split at `\n`, with every `\r` removed.
pub open spec fn krc_lines(text: Seq<char>) -> Seq<Seq<char>> {
    split_spec(text, '\n').map_values(|l: Seq<char>| remove_char_spec(l, '\r'))
}

/// The `:`-separated parts of a metadata line, once its leading `[` and
/// trailing `]` are gone.
pub open spec fn meta_parts(line: Seq<char>) -> Seq<Seq<char>> {
    split_spec(trim_end_spec(trim_start_spec(line, '['), ']'), ':')
}

/// The metadata part ends at this line.
pub open spec fn is_language_line(line: Seq<char>) -> bool {
    meta_parts(line)[0] == language_word()
}

/// The tag a metadata line stands for: its first two parts.
pub open spec fn meta_tag(line: Seq<char>) -> (Seq<char>, Seq<char>) {
    (meta_parts(line)[0], meta_parts(line)[1])
}

/// The index of the first `language` line at or after `k`, or the number of lines.
pub open spec fn meta_end_from(lines: Seq<Seq<char>>, k: int) -> int
    decreases lines.len() - k,
{
    if k < 0 || k >= lines.len() {
        lines.len() as int
    } else if is_language_line(lines[k]) {
        k
    } else {
        meta_end_from(lines, k + 1)
    }
}

/// The index of the first `language` line, or the number of lines.
pub open spec fn meta_end(lines: Seq<Seq<char>>) -> int {
    meta_end_from(lines, 0)
}

proof fn lemma_meta_end_from_bounds(lines: Seq<Seq<char>>, k: int)
    requires
        0 <= k <= lines.len(),
    ensures
        k <= meta_end_from(lines, k) <= lines.len(),
    decreases lines.len() - k,
{
    if k < lines.len() && !is_language_line(lines[k]) {
        lemma_meta_end_from_bounds(lines, k + 1);
    }
}

/// The tags of the first `n` lines.
pub open spec fn meta_set(lines: Seq<Seq<char>>, n: int) -> Set<(Seq<char>, Seq<char>)> {
    Seq::new(n as nat, |j: int| meta_tag(lines[j])).to_set()
}

/// What one line of the lyric part gives.
pub enum KrcLineModel {
    Skip,
    Line(TimeLineModel),
    Fail,
}

/// The words of a line from its `<`-separated pieces: the text so far and
/// the word timelines, or `None` where a word's timing is malformed.
pub open spec fn krc_words(pieces: Seq<Seq<char>>, line_start: i64) -> Option<
    (Seq<char>, Seq<WordTimeline>),
>
    decreases pieces.len(),
{
    if pieces.len() == 0 {
        Some((Seq::empty(), Seq::empty()))
    } else {
        match krc_words(pieces.drop_last(), line_start) {
            None => None,
            Some((text, words)) => {
                let raw = pieces.last();
                match find_spec(raw, '>') {
                    None => Some((text, words)),
                    Some(k) => {
                        let wts = split_spec(raw.take(k), ',');
                        match decimal_units(wts[0], 0) {
                            None => None,
                            Some(ws) => if wts.len() < 2 {
                                None
                            } else {
                                match decimal_units(wts[1], 0) {
                                    None => None,
                                    Some(wd) => {
                                        let text2 = text + raw.skip(k + 1);
                                        Some(
                                            (
                                                text2,
                                                words.push(
                                                    WordTimeline {
                                                        start: clamp_i64(line_start + ws),
                                                        duration: wd,
                                                        pos: text2.len() as usize,
                                                    },
                                                ),
                                            ),
                                        )
                                    },
                                }
                            },
                        }
                    },
                }
            },
        }
    }
}

/// A timed line of plain text.
pub open spec fn krc_plain_line(start: i64, duration: i64, text: Seq<char>, words: Seq<WordTimeline>) -> TimeLineModel {
    TimeLineModel {
        start,
        duration,
        line: LineModel {
            text,
            length: 0,
            word_timeline: words,
            translation: Seq::empty(),
            pronunciation: Seq::empty(),
        },
    }
}

/// One line of the lyric part: `[start,duration]text` or
/// `[start,duration]<offset,duration,0>word<...>word...`.
pub open spec fn krc_line(line: Seq<char>) -> KrcLineModel {
    if !(line.len() > 0 && line[0] == '[') {
        KrcLineModel::Skip
    } else {
        let t = trim_start_spec(line, '[');
        let close = find_spec(t, ']');
        let head = match close {
            Some(k) => t.take(k),
            None => t,
        };
        let ts = split_spec(head, ',');
        match decimal_units(ts[0], 0) {
            None => KrcLineModel::Skip,
            Some(start) => if ts.len() < 2 {
                KrcLineModel::Fail
            } else {
                match decimal_units(ts[1], 0) {
                    None => KrcLineModel::Fail,
                    Some(duration) => match close {
                        None => KrcLineModel::Fail,
                        Some(k) => {
                            let rest = t.skip(k + 1);
                            if !rest.contains('<') && !rest.contains('>') {
                                KrcLineModel::Line(krc_plain_line(start, duration, rest, Seq::empty()))
                            } else {
                                match krc_words(split_spec(rest, '<'), start) {
                                    None => KrcLineModel::Fail,
                                    Some((text, words)) => KrcLineModel::Line(
                                        krc_plain_line(start, duration, text, words),
                                    ),
                                }
                            }
                        },
                    },
                }
            },
        }
    }
}

/// The timed lines of the lyric part, or `None` where a line is malformed.
pub open spec fn krc_body(lines: Seq<Seq<char>>) -> Option<Seq<TimeLineModel>>
    decreases lines.len(),
{
    if lines.len() == 0 {
        Some(Seq::empty())
    } else {
        match krc_body(lines.drop_last()) {
            None => None,
            Some(body) => match krc_line(lines.last()) {
                KrcLineModel::Skip => Some(body),
                KrcLineModel::Line(t) => Some(body.push(t)),
                KrcLineModel::Fail => None,
            },
        }
    }
}

/// A decoded KRC text read as tags and timed lines; `None` where the text is
/// malformed (a metadata line without `:`, or a timing that does not parse).
pub open spec fn krc_parse(text: Seq<char>) -> Option<(Set<(Seq<char>, Seq<char>)>, Seq<TimeLineModel>)> {
    let lines = krc_lines(text);
    let m = meta_end(lines);
    if exists|j: int| 0 <= j < m && meta_parts(#[trigger] lines[j]).len() < 2 {
        None
    } else {
        let body_start = if m < lines.len() {
            m + 1
        } else {
            m
        };
        match krc_body(lines.skip(body_start)) {
            None => None,
            Some(body) => Some((meta_set(lines, m), body)),
        }
    }
}


/// Once the words of a prefix of the pieces are malformed, so are the words
/// of every longer prefix.
proof fn lemma_krc_words_fail(pieces: Seq<Seq<char>>, i: int, line_start: i64)
    requires
        0 <= i <= pieces.len(),
        krc_words(pieces.take(i), line_start) is None,
    ensures
        krc_words(pieces, line_start) is None,
    decreases pieces.len() - i,
{
    if i < pieces.len() {
        assert(pieces.take(i + 1).drop_last() =~= pieces.take(i));
        lemma_krc_words_fail(pieces, i + 1, line_start);
    } else {
        assert(pieces.take(i) =~= pieces);
    }
}

/// Once a prefix of the lines holds a malformed line, so does every longer
/// prefix.
proof fn lemma_krc_body_fail(lines: Seq<Seq<char>>, i: int)
    requires
        0 <= i <= lines.len(),
        krc_body(lines.take(i)) is None,
    ensures
        krc_body(lines) is None,
    decreases lines.len() - i,
{
    if i < lines.len() {
        assert(lines.take(i + 1).drop_last() =~= lines.take(i));
        lemma_krc_body_fail(lines, i + 1);
    } else {
        assert(lines.take(i) =~= lines);
    }
}

/// The words of a line from the text after its timing.
fn parse_krc_words(rest: &[char], line_start: i64) -> (r: Option<(Vec<char>, Vec<WordTimeline>)>)
    ensures
        match krc_words(split_spec(rest@, '<'), line_start) {
            None => r is None,
            Some((text, words)) => r matches Some((a, b)) && a@ == text && b@ == words,
        },
{
    let pieces = split_chars(rest, '<');
    let ghost ps = views(pieces@);
    let mut text: Vec<char> = Vec::new();
    let mut words: Vec<WordTimeline> = Vec::new();
    let mut i: usize = 0;
    assert(ps.take(0) =~= Seq::<Seq<char>>::empty());
    while i < pieces.len()
        invariant
            i <= pieces@.len(),
            ps == views(pieces@),
            ps == split_spec(rest@, '<'),
            krc_words(ps.take(i as int), line_start) == Some((text@, words@)),
        decreases pieces@.len() - i,
    {
        let piece = pieces[i].as_slice();
        proof {
            assert(ps[i as int] == piece@);
            assert(ps.take(i + 1).drop_last() =~= ps.take(i as int));
            assert(ps.take(i + 1).last() == piece@);
        }
        match find_char(piece, '>') {
            None => {},
            Some(k) => {
                let wt = copy_range(piece, 0, k);
                assert(wt@ =~= piece@.take(k as int));
                let wts = split_chars(wt.as_slice(), ',');
                proof {
                    lemma_split_nonempty(wt@, ',');
                    assert(views(wts@)[0] == wts@[0]@);
                }
                match read_decimal_units(wts[0].as_slice(), 0) {
                    None => {
                        proof {
                            lemma_krc_words_fail(ps, i + 1, line_start);
                        }
                        return None;
                    },
                    Some(ws) => {
                        if wts.len() < 2 {
                            proof {
                                lemma_krc_words_fail(ps, i + 1, line_start);
                            }
                            return None;
                        }
                        assert(views(wts@)[1] == wts@[1]@);
                        match read_decimal_units(wts[1].as_slice(), 0) {
                            None => {
                                proof {
                                    lemma_krc_words_fail(ps, i + 1, line_start);
                                }
                                return None;
                            },
                            Some(wd) => {
                                assert(k < piece.len());
                                let word = copy_range(piece, k + 1, piece.len());
                                assert(word@ =~= piece@.skip(k + 1));
                                append_chars(&mut text, word.as_slice());
                                let w = WordTimeline {
                                    start: sat_add(line_start, ws),
                                    duration: wd,
                                    pos: text.len(),
                                };
                                words.push(w);
                            },
                        }
                    },
                }
            },
        }
        i = i + 1;
    }
    assert(ps.take(i as int) =~= ps);
    Some((text, words))
}

/// What one line of the lyric part gives.
pub enum KrcLine {
    Skip,
    Line(LyricTimeLine),
    Fail,
}

impl View for KrcLine {
    type V = KrcLineModel;

    open spec fn view(&self) -> KrcLineModel {
        match self {
            KrcLine::Skip => KrcLineModel::Skip,
            KrcLine::Line(t) => KrcLineModel::Line(t@),
            KrcLine::Fail => KrcLineModel::Fail,
        }
    }
}

/// Reads one line of the lyric part of a KRC text.
pub fn parse_krc_line(line: &[char]) -> (r: KrcLine)
    ensures
        r@ == krc_line(line@),
{
    if !(line.len() > 0 && line[0] == '[') {
        return KrcLine::Skip;
    }
    let a = trim_start_index(line, '[');
    let t = copy_range(line, a, line.len());
    assert(t@ =~= trim_start_spec(line@, '['));
    let close = find_char(t.as_slice(), ']');
    let head = match close {
        Some(k) => copy_range(t.as_slice(), 0, k),
        None => copy_range(t.as_slice(), 0, t.len()),
    };
    proof {
        match close {
            Some(k) => {
                assert(head@ =~= t@.take(k as int));
            },
            None => {
                assert(head@ =~= t@);
            },
        }
    }
    let ts = split_chars(head.as_slice(), ',');
    proof {
        lemma_split_nonempty(head@, ',');
        assert(views(ts@)[0] == ts@[0]@);
    }
    let start = match read_decimal_units(ts[0].as_slice(), 0) {
        None => {
            return KrcLine::Skip;
        },
        Some(v) => v,
    };
    if ts.len() < 2 {
        return KrcLine::Fail;
    }
    assert(views(ts@)[1] == ts@[1]@);
    let duration = match read_decimal_units(ts[1].as_slice(), 0) {
        None => {
            return KrcLine::Fail;
        },
        Some(v) => v,
    };
    let k = match close {
        None => {
            return KrcLine::Fail;
        },
        Some(k) => k,
    };
    assert(k < t.len());
    let rest = copy_range(t.as_slice(), k + 1, t.len());
    assert(rest@ =~= t@.skip(k + 1));
    if !contains_char(rest.as_slice(), '<') && !contains_char(rest.as_slice(), '>') {
        let line = LyricLine {
            text: string_of(rest.as_slice()),
            length: 0,
            word_timeline: Vec::new(),
            translation: String::new(),
            pronunciation: String::new(),
        };
        return KrcLine::Line(LyricTimeLine { start, duration, line });
    }
    match parse_krc_words(rest.as_slice(), start) {
        None => KrcLine::Fail,
        Some((text, words)) => {
            let line = LyricLine {
                text: string_of(text.as_slice()),
                length: 0,
                word_timeline: words,
                translation: String::new(),
                pronunciation: String::new(),
            };
            KrcLine::Line(LyricTimeLine { start, duration, line })
        },
    }
}

/// The `:`-separated parts of a metadata line.
fn meta_parts_of(line: &[char]) -> (r: Vec<Vec<char>>)
    ensures
        views(r@) == meta_parts(line@),
        r@.len() >= 1,
{
    let a = trim_start_index(line, '[');
    let t = copy_range(line, a, line.len());
    assert(t@ =~= trim_start_spec(line@, '['));
    let e = trim_end_index(t.as_slice(), ']');
    let tag = copy_range(t.as_slice(), 0, e);
    assert(tag@ =~= trim_end_spec(t@, ']'));
    let r = split_chars(tag.as_slice(), ':');
    proof {
        lemma_split_nonempty(tag@, ':');
    }
    r
}

/// `v` is the word `language`.
fn is_language_word(v: &[char]) -> (r: bool)
    ensures
        r == (v@ == language_word()),
{
    if v.len() != 8 {
        return false;
    }
    let r = v[0] == 'l' && v[1] == 'a' && v[2] == 'n' && v[3] == 'g' && v[4] == 'u' && v[5]
        == 'a' && v[6] == 'g' && v[7] == 'e';
    proof {
        if r {
            assert(v@ =~= language_word());
        } else if v@ == language_word() {
            assert(v@[0] == 'l' && v@[1] == 'a' && v@[2] == 'n' && v@[3] == 'g');
            assert(v@[4] == 'u' && v@[5] == 'a' && v@[6] == 'g' && v@[7] == 'e');
        }
    }
    r
}

/// Reads a decoded KRC text: the tags before the `language` line, then the
/// timed lines; `None` where the text is malformed (see `krc_parse`).
pub fn parse_krc(text: &str) -> (r: Option<Lrcx>)
    ensures
        match krc_parse(text@) {
            None => r is None,
            Some((tags, body)) => r matches Some(l) && l.wf() && l.tags() == tags && l.body()
                == body,
        },
{
    let chars = chars_of(text);
    let raw = split_chars(chars.as_slice(), '\n');
    let ghost rs = views(raw@);
    let mut lines: Vec<Vec<char>> = Vec::new();
    let mut n: usize = 0;
    while n < raw.len()
        invariant
            n <= raw@.len(),
            rs == views(raw@),
            lines@.len() == n,
            forall|k: int| 0 <= k < n ==> #[trigger] lines@[k]@ == remove_char_spec(rs[k], '\r'),
        decreases raw@.len() - n,
    {
        let l = remove_char(raw[n].as_slice(), '\r');
        assert(rs[n as int] == raw@[n as int]@);
        lines.push(l);
        n = n + 1;
    }
    let ghost ls = views(lines@);
    assert(ls =~= krc_lines(text@));
    let mut lrcx = Lrcx::new();
    let mut i: usize = 0;
    let mut found = false;
    assert(Seq::new(0, |j: int| meta_tag(ls[j])).to_set() =~= tag_set(lrcx.metadata@));
    while i < lines.len()
        invariant_except_break
            !found,
        invariant
            i <= lines@.len(),
            ls == views(lines@),
            ls == krc_lines(text@),
            lrcx.wf(),
            lrcx.lyric_body@.len() == 0,
            found ==> i >= 1 && is_language_line(ls[i - 1]) && meta_end(ls) == i - 1,
            !found ==> meta_end(ls) == meta_end_from(ls, i as int),
            forall|k: int| 0 <= k < (if found { i - 1 } else { i as int }) ==> meta_parts(#[trigger] ls[k]).len() >= 2,
            lrcx.tags() == meta_set(ls, if found { i - 1 } else { i as int }),
        ensures
            found || i == lines@.len(),
        decreases lines@.len() - i,
    {
        let parts = meta_parts_of(lines[i].as_slice());
        assert(ls[i as int] == lines@[i as int]@);
        assert(views(parts@)[0] == parts@[0]@);
        if is_language_word(parts[0].as_slice()) {
            assert(meta_end_from(ls, i as int) == i);
            i = i + 1;
            found = true;
            break;
        }
        if parts.len() < 2 {
            proof {
                lemma_meta_end_from_bounds(ls, i + 1);
                assert(meta_parts(ls[i as int]).len() < 2);
            }
            return None;
        }
        assert(views(parts@)[1] == parts@[1]@);
        let ghost before = lrcx.tags();
        let tag = IDTag::new(string_of(parts[0].as_slice()), string_of(parts[1].as_slice()));
        assert(tag@ == meta_tag(ls[i as int]));
        insert_tag(&mut lrcx.metadata, tag);
        i = i + 1;
        proof {
            assert(Seq::new(i as nat, |j: int| meta_tag(ls[j])) =~= Seq::new((i - 1) as nat, |j: int| meta_tag(ls[j])).push(meta_tag(ls[i - 1])));
            Seq::new((i - 1) as nat, |j: int| meta_tag(ls[j])).lemma_push_to_set_commute(meta_tag(ls[i - 1]));
        }
    }
    let ghost m = if found { i - 1 } else { i as int };
    proof {
        assert(meta_end(ls) == m);
        assert(i == (if m < ls.len() { m + 1 } else { m }));
    }
    let body_start = i;
    let mut j: usize = i;
    assert(ls.subrange(body_start as int, body_start as int) =~= Seq::<Seq<char>>::empty());
    while j < lines.len()
        invariant
            body_start <= j <= lines@.len(),
            ls == views(lines@),
            ls == krc_lines(text@),
            meta_end(ls) == m,
            body_start == (if m < ls.len() { m + 1 } else { m }),
            forall|k: int| 0 <= k < m ==> meta_parts(#[trigger] ls[k]).len() >= 2,
            lrcx.wf(),
            lrcx.tags() == meta_set(ls, m),
            krc_body(ls.subrange(body_start as int, j as int)) == Some(lrcx.body()),
        decreases lines@.len() - j,
    {
        let ghost prefix = ls.subrange(body_start as int, j as int);
        assert(ls.subrange(body_start as int, j + 1).drop_last() =~= prefix);
        assert(ls[j as int] == lines@[j as int]@);
        match parse_krc_line(lines[j].as_slice()) {
            KrcLine::Skip => {},
            KrcLine::Line(t) => {
                let ghost tv = t@;
                let ghost before = lrcx.body();
                lrcx.lyric_body.push(t);
                assert(lrcx.body() =~= before.push(tv));
            },
            KrcLine::Fail => {
                proof {
                    let rest = ls.skip(body_start as int);
                    assert(rest.take(j + 1 - body_start) =~= ls.subrange(body_start as int, j + 1));
                    lemma_krc_body_fail(rest, j + 1 - body_start);
                }
                return None;
            },
        }
        j = j + 1;
    }
    assert(ls.subrange(body_start as int, j as int) =~= ls.skip(body_start as int));
    Some(lrcx)
}


/// A Kugou lyric: the encoded `content` and, once decoded, the KRC text.
pub struct KugouSongLyrics {
    pub content: String,
    pub decoded: String,
}

impl KugouSongLyrics {
    pub fn new(content: String) -> (r: KugouSongLyrics)
        ensures
            r.content == content,
            r.decoded@.len() == 0,
    {
        KugouSongLyrics { content, decoded: String::new() }
    }

    pub fn new_empty() -> (r: KugouSongLyrics)
        ensures
            r.content@.len() == 0,
            r.decoded@.len() == 0,
    {
        KugouSongLyrics { content: String::new(), decoded: String::new() }
    }

    /// A copy of the lyric.
    pub fn copy(&self) -> (r: KugouSongLyrics)
        ensures
            r.content@ == self.content@,
            r.decoded@ == self.decoded@,
    {
        KugouSongLyrics { content: self.content.clone(), decoded: self.decoded.clone() }
    }

    /// The decoded KRC text as a lyric document.
    pub fn to_lrcx(&self) -> (r: Lrcx)
        requires
            krc_parse(self.decoded@) is Some,
        ensures
            r.wf(),
            r.tags() == krc_parse(self.decoded@).unwrap().0,
            r.body() == krc_parse(self.decoded@).unwrap().1,
    {
        match parse_krc(self.decoded.as_str()) {
            Some(l) => l,
            None => Lrcx::new(),
        }
    }
}

/// The key that masks the compressed part of a KRC file.
pub open spec fn krc_keys() -> Seq<u8> {
    seq![64u8, 71, 97, 119, 94, 50, 116, 71, 81, 54, 49, 45, 206, 210, 110, 105]
}

/// Each byte masked with the KRC key, the key repeating every 16 bytes.
pub open spec fn krc_unmask(data: Seq<u8>) -> Seq<u8> {
    Seq::new(data.len(), |i: int| data[i] ^ krc_keys()[i % 16])
}

/// The header of an encoded KRC file: `krc1`.
pub open spec fn krc_header() -> Seq<u8> {
    seq![107u8, 114, 99, 49]
}

/// The bytes that base64 (standard alphabet, no padding) decodes `input` to,
/// or `None` where `input` is not such base64.
pub uninterp spec fn base64_decoded(input: Seq<u8>) -> Option<Seq<u8>>;

/// The text that a zlib stream inflates to, or `None` where `data` is not a
/// zlib stream or does not inflate to UTF-8.
pub uninterp spec fn zlib_inflated_text(data: Seq<u8>) -> Option<Seq<char>>;

/// `base64::decode_config(input, base64::STANDARD_NO_PAD)`: the contract
/// names the decoded bytes and claims nothing else of them.
#[verifier::external_body]
fn base64_decode(input: &[u8]) -> (r: Option<Vec<u8>>)
    ensures
        match base64_decoded(input@) {
            Some(d) => r matches Some(v) && v@ == d,
            None => r is None,
        },
{
    base64::decode_config(input, base64::STANDARD_NO_PAD).ok()
}

/// `flate2::read::ZlibDecoder::new(data)` read to a `String`: the contract
/// names the text and claims nothing else of it.
#[verifier::external_body]
fn zlib_inflate_text(data: &[u8]) -> (r: Option<String>)
    ensures
        match zlib_inflated_text(data@) {
            Some(t) => r matches Some(s) && s@ == t,
            None => r is None,
        },
{
    let mut decoder = flate2::read::ZlibDecoder::new(data);
    let mut text = String::new();
    match decoder.read_to_string(&mut text) {
        Ok(_) => Some(text),
        Err(_) => None,
    }
}

/// What decoding an encoded KRC lyric gives.
pub enum KrcDecodeModel {
    /// The content is not base64.
    InvalidBase64,
    /// The decoded bytes are fewer than the four of the header.
    TooShort,
    /// The decoded bytes do not start with `krc1`.
    BadHeader,
    /// The unmasked bytes do not inflate to text.
    InvalidDeflate,
    /// The KRC text.
    Text(Seq<char>),
}

/// Decoding an encoded KRC lyric: base64, the `krc1` header, the key mask,
/// then zlib.
pub open spec fn krc_decode(content: Seq<char>) -> KrcDecodeModel {
    match base64_decoded(vstd::utf8::encode_utf8(content)) {
        None => KrcDecodeModel::InvalidBase64,
        Some(bytes) => if bytes.len() < 4 {
            KrcDecodeModel::TooShort
        } else if bytes.take(4) != krc_header() {
            KrcDecodeModel::BadHeader
        } else {
            match zlib_inflated_text(krc_unmask(bytes.skip(4))) {
                None => KrcDecodeModel::InvalidDeflate,
                Some(t) => KrcDecodeModel::Text(t),
            }
        },
    }
}

/// What decoding an encoded KRC lyric gives.
pub enum KrcDecode {
    InvalidBase64,
    TooShort,
    BadHeader,
    InvalidDeflate,
    Text(String),
}

impl View for KrcDecode {
    type V = KrcDecodeModel;

    open spec fn view(&self) -> KrcDecodeModel {
        match self {
            KrcDecode::InvalidBase64 => KrcDecodeModel::InvalidBase64,
            KrcDecode::TooShort => KrcDecodeModel::TooShort,
            KrcDecode::BadHeader => KrcDecodeModel::BadHeader,
            KrcDecode::InvalidDeflate => KrcDecodeModel::InvalidDeflate,
            KrcDecode::Text(t) => KrcDecodeModel::Text(t@),
        }
    }
}

/// Masks each byte with the KRC key (the key repeating every 16 bytes).
pub fn krc_mask(data: &[u8]) -> (r: Vec<u8>)
    ensures
        r@ == krc_unmask(data@),
{
    let keys: [u8; 16] = [64, 71, 97, 119, 94, 50, 116, 71, 81, 54, 49, 45, 206, 210, 110, 105];
    assert(keys@ =~= krc_keys());
    let mut r: Vec<u8> = Vec::new();
    let mut i: usize = 0;
    while i < data.len()
        invariant
            i <= data@.len(),
            keys@ == krc_keys(),
            r@ =~= krc_unmask(data@.take(i as int)),
        decreases data@.len() - i,
    {
        r.push(data[i] ^ keys[i % 16]);
        i = i + 1;
    }
    assert(data@.take(i as int) =~= data@);
    r
}

/// Masking twice with the KRC key gives the bytes back.
pub proof fn lemma_krc_unmask_involution(data: Seq<u8>)
    ensures
        krc_unmask(krc_unmask(data)) == data,
{
    assert forall|i: int| 0 <= i < data.len() implies #[trigger] krc_unmask(krc_unmask(data))[i]
        == data[i] by {
        let k = krc_keys()[i % 16];
        let x = data[i];
        assert((x ^ k) ^ k == x) by (bit_vector);
    }
    assert(krc_unmask(krc_unmask(data)) =~= data);
}

/// Decodes an encoded KRC lyric (see `krc_decode`).
pub fn decode_krc(content: &str) -> (r: KrcDecode)
    ensures
        r@ == krc_decode(content@),
{
    let bytes = match base64_decode(content.as_bytes()) {
        None => {
            return KrcDecode::InvalidBase64;
        },
        Some(b) => b,
    };
    if bytes.len() < 4 {
        return KrcDecode::TooShort;
    }
    if !(bytes[0] == 107 && bytes[1] == 114 && bytes[2] == 99 && bytes[3] == 49) {
        proof {
            if bytes@.take(4) == krc_header() {
                assert(bytes@.take(4)[0] == 107 && bytes@.take(4)[1] == 114);
                assert(bytes@.take(4)[2] == 99 && bytes@.take(4)[3] == 49);
            }
        }
        return KrcDecode::BadHeader;
    }
    assert(bytes@.take(4) =~= krc_header());
    let mut body: Vec<u8> = Vec::new();
    let mut i: usize = 4;
    while i < bytes.len()
        invariant
            4 <= i <= bytes@.len(),
            body@ =~= bytes@.subrange(4, i as int),
        decreases bytes@.len() - i,
    {
        body.push(bytes[i]);
        i = i + 1;
    }
    assert(bytes@.subrange(4, i as int) =~= bytes@.skip(4));
    let unmasked = krc_mask(body.as_slice());
    match zlib_inflate_text(unmasked.as_slice()) {
        None => KrcDecode::InvalidDeflate,
        Some(t) => KrcDecode::Text(t),
    }
}

/// Why an encoded lyric was refused.
#[derive(PartialEq, Eq, Structural, Debug, Clone, Copy)]
pub enum DecodeError {
    /// The decoded bytes do not start with `krc1`.
    NotKrc,
}

/// Decodes the lyric's content into its `decoded` text and returns a copy of
/// the lyric. Content that is not base64, shorter than the header, or not a
/// zlib stream of text is left out (see `decode_krc`).
pub fn decode_lyric(lyric: &mut KugouSongLyrics) -> (r: Result<KugouSongLyrics, DecodeError>)
    requires
        krc_decode(old(lyric).content@) matches KrcDecodeModel::BadHeader || krc_decode(
            old(lyric).content@,
        ) matches KrcDecodeModel::Text(_),
    ensures
        krc_decode(old(lyric).content@) matches KrcDecodeModel::BadHeader ==> r == Err::<
            KugouSongLyrics,
            DecodeError,
        >(DecodeError::NotKrc) && final(lyric).content@ == old(lyric).content@
            && final(lyric).decoded@ == old(lyric).decoded@,
        krc_decode(old(lyric).content@) matches KrcDecodeModel::Text(t) ==> final(lyric).content@
            == old(lyric).content@ && final(lyric).decoded@ == t && (r matches Ok(l)
            && l.content@ == old(lyric).content@ && l.decoded@ == t),
{
    match decode_krc(lyric.content.as_str()) {
        KrcDecode::Text(t) => {
            lyric.decoded = t;
            Ok(lyric.copy())
        },
        _ => Err(DecodeError::NotKrc),
    }
}


/// Decodes the lyric where its content is base64 of a zlib stream of text
/// after the `krc1` header, or carries another header; `None` for the
/// content that `decode_lyric` leaves out.
pub fn try_decode_lyric(lyric: &mut KugouSongLyrics) -> (r: Option<Result<KugouSongLyrics, DecodeError>>)
    ensures
        match krc_decode(old(lyric).content@) {
            KrcDecodeModel::BadHeader => r == Some(Err::<KugouSongLyrics, DecodeError>(DecodeError::NotKrc))
                && final(lyric).decoded@ == old(lyric).decoded@,
            KrcDecodeModel::Text(t) => final(lyric).decoded@ == t && (r matches Some(Ok(l))
                && l.decoded@ == t && l.content@ == old(lyric).content@),
            _ => r is None && final(lyric).decoded@ == old(lyric).decoded@,
        },
        final(lyric).content@ == old(lyric).content@,
{
    match decode_krc(lyric.content.as_str()) {
        KrcDecode::BadHeader | KrcDecode::Text(_) => Some(decode_lyric(lyric)),
        _ => None,
    }
}

/// The search keyword for the lyric of `song`: its name and artist without
/// `&`, separated by a space.
pub fn search_keyword(song: &KugouSong) -> (r: String)
    ensures
        r@ == remove_char_spec(song.name@, '&') + seq![' '] + remove_char_spec(song.artist@, '&'),
{
    let n = chars_of(song.name.as_str());
    let mut out = remove_char(n.as_slice(), '&');
    out.push(' ');
    let a = chars_of(song.artist.as_str());
    let a2 = remove_char(a.as_slice(), '&');
    append_chars(&mut out, a2.as_slice());
    let r = string_of(out.as_slice());
    assert(r@ =~= remove_char_spec(song.name@, '&') + seq![' '] + remove_char_spec(song.artist@, '&'));
    r
}

/// The address of a song search for `key_word`, `number` results a page.
pub fn song_list_url(key_word: &str, number: i32) -> (r: String)
    ensures
        r@ == "http://msearchcdn.kugou.com/api/v3/search/song?plat=0&version=9108&keyword="@
            + key_word@ + "&pagesize="@ + crate::text::decimal_spec(number as int),
{
    let mut out: Vec<char> = Vec::new();
    crate::text::push_str(&mut out, "http://msearchcdn.kugou.com/api/v3/search/song?plat=0&version=9108&keyword=");
    crate::text::push_str(&mut out, key_word);
    crate::text::push_str(&mut out, "&pagesize=");
    let n = crate::text::i64_to_string(number as i64);
    crate::text::push_str(&mut out, n.as_str());
    let r = string_of(out.as_slice());
    assert(r@ =~= "http://msearchcdn.kugou.com/api/v3/search/song?plat=0&version=9108&keyword="@
        + key_word@ + "&pagesize="@ + crate::text::decimal_spec(number as int));
    r
}

/// The address of the lyric candidates of the song with `hash`.
pub fn lyrics_list_url(song: &KugouSong) -> (r: String)
    ensures
        r@ == "http://krcs.kugou.com/search?ver=1&man=yes&hash="@ + song.hash@,
{
    let mut out: Vec<char> = Vec::new();
    crate::text::push_str(&mut out, "http://krcs.kugou.com/search?ver=1&man=yes&hash=");
    crate::text::push_str(&mut out, song.hash.as_str());
    let r = string_of(out.as_slice());
    assert(r@ =~= "http://krcs.kugou.com/search?ver=1&man=yes&hash="@ + song.hash@);
    r
}

/// The address of the lyric download of a lyric candidate.
pub fn song_lyric_url(song: &KugouSong) -> (r: String)
    ensures
        r@ == "http://lyrics.kugou.com/download?ver=1&client=pc&id="@ + song.id@ + "&accesskey="@
            + song.access_key@,
{
    let mut out: Vec<char> = Vec::new();
    crate::text::push_str(&mut out, "http://lyrics.kugou.com/download?ver=1&client=pc&id=");
    crate::text::push_str(&mut out, song.id.as_str());
    crate::text::push_str(&mut out, "&accesskey=");
    crate::text::push_str(&mut out, song.access_key.as_str());
    let r = string_of(out.as_slice());
    assert(r@ =~= "http://lyrics.kugou.com/download?ver=1&client=pc&id="@ + song.id@ + "&accesskey="@
        + song.access_key@);
    r
}


/// A song description can be read (see `KugouSong::readable`).
pub fn kugou_song_is_readable(song: &JsonValue) -> (r: bool)
    ensures
        r == KugouSong::readable(*song),
{
    let name = if song.get("name").is_some() {
        song.is_str_or_absent("name")
    } else {
        song.is_str_or_absent("song")
    };
    let artist = if song.get("singername").is_some() {
        song.is_str_or_absent("singername")
    } else {
        song.is_str_or_absent("singer")
    };
    name && artist && song.is_str_or_absent("album_name") && song.is_str_or_absent("hash")
        && song.is_str_or_absent("id") && song.is_str_or_absent("accesskey")
}

/// Every song description of the array can be read (see `songs_readable`).
pub fn kugou_songs_are_readable(items: &Vec<JsonValue>) -> (r: bool)
    ensures
        r == songs_readable(items@),
{
    let mut i: usize = 0;
    while i < items.len()
        invariant
            i <= items@.len(),
            forall|j: int| 0 <= j < i ==> #[trigger] KugouSong::readable(items@[j]),
        decreases items@.len() - i,
    {
        if !kugou_song_is_readable(&items[i]) {
            return false;
        }
        i = i + 1;
    }
    true
}

/// A search reply can be read (see `search_reply_readable`).
pub fn search_reply_is_readable(reply: &JsonValue) -> (r: bool)
    ensures
        r == search_reply_readable(*reply),
{
    if reply.i64_field("status") != Some(1i64) {
        return true;
    }
    match reply.get("data") {
        Some(data) => match data.get("info") {
            Some(JsonValue::Array(items)) => kugou_songs_are_readable(items),
            _ => false,
        },
        None => false,
    }
}

/// A lyric-search reply can be read (see `candidates_reply_readable`).
pub fn candidates_reply_is_readable(reply: &JsonValue) -> (r: bool)
    ensures
        r == candidates_reply_readable(*reply),
{
    if reply.i64_field("errcode") != Some(200i64) {
        return true;
    }
    match reply.get("candidates") {
        Some(JsonValue::Array(items)) => kugou_songs_are_readable(items),
        _ => false,
    }
}

} // verus!
