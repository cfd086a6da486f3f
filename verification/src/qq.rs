//! QQ Music songs and lyrics.

use vstd::prelude::*;
use crate::json::{first_str_field, i64_field, json_get, nested_str_field, str_field, JsonValue};
use crate::song::RemoteSongTrait;
use crate::text::{
    byte_len, byte_len_of, char_index_at_byte, char_index_of_byte, chars_of, copy_range,
    decimal_spec, i64_to_string, string_of,
};

verus! {

/// The abstract content of a QQ Music song.
pub struct QQSongModel {
    pub name: Seq<char>,
    pub artist: Seq<char>,
    pub album: Seq<char>,
    pub id: Seq<char>,
    pub mid: Seq<char>,
}

/// A song as QQ Music describes it.
pub struct QQSong {
    pub name: String,
    pub artist: String,
    pub album: String,
    pub id: String,
    pub mid: String,
}

impl View for QQSong {
    type V = QQSongModel;

    open spec fn view(&self) -> QQSongModel {
        QQSongModel {
            name: self.name@,
            artist: self.artist@,
            album: self.album@,
            id: self.id@,
            mid: self.mid@,
        }
    }
}

/// The song with no fields.
pub open spec fn empty_qq_song() -> QQSongModel {
    QQSongModel {
        name: Seq::empty(),
        artist: Seq::empty(),
        album: Seq::empty(),
        id: Seq::empty(),
        mid: Seq::empty(),
    }
}

/// The song that a QQ Music search entry describes.
pub open spec fn qq_song_of(song: JsonValue) -> QQSongModel {
    QQSongModel {
        name: str_field(song, "name"@).unwrap(),
        artist: first_str_field(song, "singer"@, "name"@).unwrap(),
        album: nested_str_field(song, "album"@, "name"@).unwrap(),
        id: decimal_spec(i64_field(song, "id"@).unwrap() as int),
        mid: str_field(song, "mid"@).unwrap(),
    }
}

impl Default for QQSong {
    fn default() -> (r: QQSong)
        ensures
            r@ == empty_qq_song(),
    {
        QQSong {
            name: String::new(),
            artist: String::new(),
            album: String::new(),
            id: String::new(),
            mid: String::new(),
        }
    }
}

impl RemoteSongTrait for QQSong {
    open spec fn readable(song: JsonValue) -> bool {
        &&& str_field(song, "name"@) is Some
        &&& first_str_field(song, "singer"@, "name"@) is Some
        &&& nested_str_field(song, "album"@, "name"@) is Some
        &&& i64_field(song, "id"@) is Some
        &&& str_field(song, "mid"@) is Some
    }

    fn new(song: &JsonValue) -> (r: QQSong)
        ensures
            r@ == qq_song_of(*song),
    {
        let name = match song.str_field("name") {
            Some(s) => s,
            None => String::new(),
        };
        let artist = match song.first_str_field("singer", "name") {
            Some(s) => s,
            None => String::new(),
        };
        let album = match song.nested_str_field("album", "name") {
            Some(s) => s,
            None => String::new(),
        };
        let id = match song.i64_field("id") {
            Some(v) => i64_to_string(v),
            None => String::new(),
        };
        let mid = match song.str_field("mid") {
            Some(s) => s,
            None => String::new(),
        };
        QQSong { name, artist, album, id, mid }
    }

    fn new_empty() -> (r: QQSong)
        ensures
            r@ == empty_qq_song(),
    {
        QQSong::default()
    }

    fn is_empty(&self) -> (r: bool)
        ensures
            r == (self.name@.len() == 0 && self.artist@.len() == 0 && self.album@.len() == 0
                && self.id@.len() == 0 && self.mid@.len() == 0),
    {
        self.name.as_str().is_empty() && self.artist.as_str().is_empty()
            && self.album.as_str().is_empty() && self.id.as_str().is_empty()
            && self.mid.as_str().is_empty()
    }
}

impl QQSong {
    /// A copy of the song.
    pub fn copy(&self) -> (r: QQSong)
        ensures
            r@ == self@,
    {
        QQSong {
            name: self.name.clone(),
            artist: self.artist.clone(),
            album: self.album.clone(),
            id: self.id.clone(),
            mid: self.mid.clone(),
        }
    }

    /// `name - artist`.
    pub fn to_string(&self) -> (r: String)
        ensures
            r@ == self.name@ + seq![' ', '-', ' '] + self.artist@,
    {
        let mut out = chars_of(self.name.as_str());
        out.push(' ');
        out.push('-');
        out.push(' ');
        let a = chars_of(self.artist.as_str());
        crate::text::append_chars(&mut out, a.as_slice());
        let r = string_of(out.as_slice());
        assert(r@ =~= self.name@ + seq![' ', '-', ' '] + self.artist@);
        r
    }
}

/// The views of a sequence of QQ Music songs.
pub open spec fn qq_views(v: Seq<QQSong>) -> Seq<QQSongModel> {
    v.map_values(|s: QQSong| s@)
}

/// A list of QQ Music songs, in the order the service gave them.
pub struct QQSongList(pub Vec<QQSong>);

impl QQSongList {
    /// The songs of the list.
    pub open spec fn songs(&self) -> Seq<QQSongModel> {
        qq_views(self.0@)
    }

    pub fn new() -> (r: QQSongList)
        ensures
            r.songs() == Seq::<QQSongModel>::empty(),
    {
        QQSongList(Vec::new())
    }

    pub fn push(&mut self, song: QQSong)
        ensures
            final(self).songs() == old(self).songs().push(song@),
    {
        self.0.push(song);
        assert(self.songs() =~= old(self).songs().push(song@));
    }

    pub fn len(&self) -> (r: usize)
        ensures
            r == self.songs().len(),
    {
        self.0.len()
    }

    /// `list[index]`.
    pub fn index(&self, index: usize) -> (r: &QQSong)
        requires
            index < self.songs().len(),
        ensures
            r@ == self.songs()[index as int],
    {
        &self.0[index]
    }

    /// Takes the last song of the list (the list's `Iterator::next`).
    pub fn next(&mut self) -> (r: Option<QQSong>)
        ensures
            old(self).songs().len() == 0 ==> r is None && final(self).songs() == old(self).songs(),
            old(self).songs().len() > 0 ==> (r matches Some(s) && s@ == old(self).songs().last()
                && final(self).songs() == old(self).songs().drop_last()),
    {
        let r = self.0.pop();
        assert(self.songs() =~= if old(self).songs().len() == 0 {
            old(self).songs()
        } else {
            old(self).songs().drop_last()
        });
        r
    }
}

/// The first song of a list, or the empty song when the list is empty.
pub fn get_default_song(song_list: &QQSongList) -> (r: QQSong)
    ensures
        r@ == if song_list.songs().len() == 0 {
            empty_qq_song()
        } else {
            song_list.songs()[0]
        },
{
    if song_list.len() == 0 {
        return QQSong::default();
    }
    song_list.index(0).copy()
}

/// Every element of the array is a readable QQ Music song.
pub open spec fn qq_songs_readable(items: Seq<JsonValue>) -> bool {
    forall|i: int| 0 <= i < items.len() ==> #[trigger] QQSong::readable(items[i])
}

/// The list of songs of a search reply, at
/// `music.search.SearchCgiService.data.body.song.list`.
pub open spec fn qq_result_list(reply: JsonValue) -> Option<Seq<JsonValue>> {
    match json_get(reply, "music.search.SearchCgiService"@) {
        Some(a) => match json_get(a, "data"@) {
            Some(b) => match json_get(b, "body"@) {
                Some(c) => match json_get(c, "song"@) {
                    Some(d) => match json_get(d, "list"@) {
                        Some(JsonValue::Array(items)) => Some(items@),
                        _ => None,
                    },
                    None => None,
                },
                None => None,
            },
            None => None,
        },
        None => None,
    }
}

/// The songs of a search reply; `None` when the list is empty.
pub fn qq_song_list_from_reply(reply: &JsonValue) -> (r: Option<QQSongList>)
    requires
        qq_result_list(*reply) matches Some(items) && qq_songs_readable(items),
    ensures
        qq_result_list(*reply).unwrap().len() == 0 ==> r is None,
        qq_result_list(*reply).unwrap().len() > 0 ==> (r matches Some(l) && l.songs()
            == qq_result_list(*reply).unwrap().map_values(|x: JsonValue| qq_song_of(x))),
{
    let items = match reply.get("music.search.SearchCgiService") {
        Some(a) => match a.get("data") {
            Some(b) => match b.get("body") {
                Some(c) => match c.get("song") {
                    Some(d) => match d.get("list") {
                        Some(JsonValue::Array(items)) => items,
                        _ => {
                            return None;
                        },
                    },
                    None => {
                        return None;
                    },
                },
                None => {
                    return None;
                },
            },
            None => {
                return None;
            },
        },
        None => {
            return None;
        },
    };
    if items.len() == 0 {
        return None;
    }
    let mut list = QQSongList::new();
    let mut i: usize = 0;
    while i < items.len()
        invariant
            i <= items@.len(),
            qq_songs_readable(items@),
            list.songs() == items@.take(i as int).map_values(|x: JsonValue| qq_song_of(x)),
        decreases items@.len() - i,
    {
        let song = QQSong::new(&items[i]);
        list.push(song);
        i = i + 1;
        assert(list.songs() =~= items@.take(i as int).map_values(|x: JsonValue| qq_song_of(x)));
    }
    assert(items@.take(i as int) =~= items@);
    Some(list)
}

/// The lyric of a QQ Music song.
pub struct QQSongLyrics {
    pub lyric: String,
}

impl QQSongLyrics {
    /// The lyric of a lyric reply.
    pub fn new(json: &JsonValue) -> (r: QQSongLyrics)
        requires
            str_field(*json, "lyric"@) is Some,
        ensures
            r.lyric@ == str_field(*json, "lyric"@).unwrap(),
    {
        match json.str_field("lyric") {
            Some(s) => QQSongLyrics { lyric: s },
            None => QQSongLyrics { lyric: String::new() },
        }
    }

    pub fn get_lyric(&self) -> (r: Option<String>)
        ensures
            r matches Some(s) && s@ == self.lyric@,
    {
        Some(self.lyric.clone())
    }
}

/// The lyric of a lyric reply; `None` when it is empty.
pub fn qq_lyric_from_reply(reply: &JsonValue) -> (r: Option<QQSongLyrics>)
    requires
        str_field(*reply, "lyric"@) is Some,
    ensures
        str_field(*reply, "lyric"@).unwrap().len() == 0 ==> r is None,
        str_field(*reply, "lyric"@).unwrap().len() > 0 ==> (r matches Some(l) && l.lyric@ == str_field(
            *reply,
            "lyric"@,
        ).unwrap()),
{
    let l = QQSongLyrics::new(reply);
    if l.lyric.as_str().is_empty() {
        None
    } else {
        Some(l)
    }
}

/// The payload of a JSONP reply: the text from byte 7 up to the last byte,
/// or `None` where those bytes do not fall between characters (or the text
/// is shorter than 8 bytes).
pub open spec fn jsonp_payload_spec(text: Seq<char>) -> Option<Seq<char>> {
    match (char_index_at_byte(text, 7), char_index_at_byte(text, byte_len(text) - 1)) {
        (Some(a), Some(b)) => if a <= b {
            Some(text.subrange(a, b))
        } else {
            None
        },
        _ => None,
    }
}

/// Cuts the JSONP wrapper `jsonp1(...)` off a lyric reply (see
/// `jsonp_payload_spec`).
pub fn jsonp_payload(text: &str) -> (r: Option<String>)
    ensures
        match jsonp_payload_spec(text@) {
            Some(p) => r matches Some(s) && s@ == p,
            None => r is None,
        },
{
    let chars = chars_of(text);
    let total = byte_len_of(chars.as_slice());
    if total == 0 {
        assert(char_index_at_byte(text@, -1) is None);
        return None;
    }
    let a = match char_index_of_byte(chars.as_slice(), 7) {
        Some(a) => a,
        None => {
            return None;
        },
    };
    let b = match char_index_of_byte(chars.as_slice(), total - 1) {
        Some(b) => b,
        None => {
            return None;
        },
    };
    assert(char_index_at_byte(text@, 7) == Some(a as int));
    assert(char_index_at_byte(text@, byte_len(text@) - 1) == Some(b as int));
    if a <= b {
        let p = copy_range(chars.as_slice(), a, b);
        Some(string_of(p.as_slice()))
    } else {
        None
    }
}


/// The request body of a song search for `key_word`, `number` results a page.
pub fn search_request_body(key_word: &str, number: i32) -> (r: String)
    ensures
        r@ == "{\"music.search.SearchCgiService\":{\"method\":\"DoSearchForQQMusicDesktop\",\"module\":\"music.search.SearchCgiService\",\"param\":{\"num_per_page\":\""@
            + decimal_spec(number as int) + "\",\"page_num\":\"1\",\"query\":\""@ + key_word@
            + "\",\"search_type\":\"0\"}}}"@,
{
    let mut out: Vec<char> = Vec::new();
    crate::text::push_str(&mut out, "{\"music.search.SearchCgiService\":{\"method\":\"DoSearchForQQMusicDesktop\",\"module\":\"music.search.SearchCgiService\",\"param\":{\"num_per_page\":\"");
    let n = i64_to_string(number as i64);
    crate::text::push_str(&mut out, n.as_str());
    crate::text::push_str(&mut out, "\",\"page_num\":\"1\",\"query\":\"");
    crate::text::push_str(&mut out, key_word);
    crate::text::push_str(&mut out, "\",\"search_type\":\"0\"}}}");
    let r = string_of(out.as_slice());
    assert(r@ =~= "{\"music.search.SearchCgiService\":{\"method\":\"DoSearchForQQMusicDesktop\",\"module\":\"music.search.SearchCgiService\",\"param\":{\"num_per_page\":\""@
        + decimal_spec(number as int) + "\",\"page_num\":\"1\",\"query\":\""@ + key_word@
        + "\",\"search_type\":\"0\"}}}"@);
    r
}

/// The address of the lyric of a song.
pub fn song_lyric_url(song: &QQSong) -> (r: String)
    ensures
        r@ == "http://c.y.qq.com/lyric/fcgi-bin/fcg_query_lyric.fcg?nobase64=1&musicid="@ + song.id@
            + "&callback=jsonp1&g_tk=5381&jsonpCallback=jsonp1&loginUin=0&hostUin=0&format=jsonp&inCharset=utf8&outCharset=utf-8&notice=0&platform=yqq&needNewCode=0"@,
{
    let mut out: Vec<char> = Vec::new();
    crate::text::push_str(&mut out, "http://c.y.qq.com/lyric/fcgi-bin/fcg_query_lyric.fcg?nobase64=1&musicid=");
    crate::text::push_str(&mut out, song.id.as_str());
    crate::text::push_str(&mut out, "&callback=jsonp1&g_tk=5381&jsonpCallback=jsonp1&loginUin=0&hostUin=0&format=jsonp&inCharset=utf8&outCharset=utf-8&notice=0&platform=yqq&needNewCode=0");
    let r = string_of(out.as_slice());
    assert(r@ =~= "http://c.y.qq.com/lyric/fcgi-bin/fcg_query_lyric.fcg?nobase64=1&musicid="@ + song.id@
        + "&callback=jsonp1&g_tk=5381&jsonpCallback=jsonp1&loginUin=0&hostUin=0&format=jsonp&inCharset=utf8&outCharset=utf-8&notice=0&platform=yqq&needNewCode=0"@);
    r
}

/// The page of a song, sent as the referrer of its lyric request.
pub fn song_page_url(song: &QQSong) -> (r: String)
    ensures
        r@ == "http://y.qq.com/portal/song/"@ + song.mid@ + ".html"@,
{
    let mut out: Vec<char> = Vec::new();
    crate::text::push_str(&mut out, "http://y.qq.com/portal/song/");
    crate::text::push_str(&mut out, song.mid.as_str());
    crate::text::push_str(&mut out, ".html");
    let r = string_of(out.as_slice());
    assert(r@ =~= "http://y.qq.com/portal/song/"@ + song.mid@ + ".html"@);
    r
}


/// A song description can be read (see `QQSong::readable`).
pub fn qq_song_is_readable(song: &JsonValue) -> (r: bool)
    ensures
        r == QQSong::readable(*song),
{
    song.str_field("name").is_some() && song.first_str_field("singer", "name").is_some()
        && song.nested_str_field("album", "name").is_some() && song.i64_field("id").is_some()
        && song.str_field("mid").is_some()
}

/// A search reply can be read: it holds the list of songs, each readable.
pub fn qq_reply_is_readable(reply: &JsonValue) -> (r: bool)
    ensures
        r == (qq_result_list(*reply) matches Some(items) && qq_songs_readable(items)),
{
    let items = match reply.get("music.search.SearchCgiService") {
        Some(a) => match a.get("data") {
            Some(b) => match b.get("body") {
                Some(c) => match c.get("song") {
                    Some(d) => match d.get("list") {
                        Some(JsonValue::Array(items)) => items,
                        _ => {
                            return false;
                        },
                    },
                    None => {
                        return false;
                    },
                },
                None => {
                    return false;
                },
            },
            None => {
                return false;
            },
        },
        None => {
            return false;
        },
    };
    let mut i: usize = 0;
    while i < items.len()
        invariant
            i <= items@.len(),
            forall|j: int| 0 <= j < i ==> #[trigger] QQSong::readable(items@[j]),
            qq_result_list(*reply) == Some(items@),
        decreases items@.len() - i,
    {
        if !qq_song_is_readable(&items[i]) {
            assert(!QQSong::readable(items@[i as int]));
            return false;
        }
        i = i + 1;
    }
    true
}

} // verus!
