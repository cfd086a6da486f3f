//! The song model of the first Netease client: a song, a list of songs and
//! the three lyric texts of a song.

use vstd::prelude::*;
use crate::json::JsonValue;
use crate::netease::{
    empty_netease_song, netease_song_of, no_lyric_text, NeteaseSong, NeteaseSongModel,
};
use crate::song::RemoteSongTrait;
use crate::text::{chars_of, string_of};

verus! {

/// A song: name, artist, album and id.
pub struct Song {
    pub name: String,
    pub artist: String,
    pub album: String,
    pub id: String,
}

impl View for Song {
    type V = NeteaseSongModel;

    open spec fn view(&self) -> NeteaseSongModel {
        NeteaseSongModel { name: self.name@, artist: self.artist@, album: self.album@, id: self.id@ }
    }
}

impl Song {
    /// The song that a search entry describes.
    pub fn new(song: &JsonValue) -> (r: Song)
        requires
            NeteaseSong::readable(*song),
        ensures
            r@ == netease_song_of(*song),
    {
        let s = NeteaseSong::new(song);
        Song { name: s.name, artist: s.artist, album: s.album, id: s.id }
    }

    pub fn new_empty() -> (r: Song)
        ensures
            r@ == empty_netease_song(),
    {
        Song { name: String::new(), artist: String::new(), album: String::new(), id: String::new() }
    }

    pub fn is_empty(&self) -> (r: bool)
        ensures
            r == (self.name@.len() == 0 && self.artist@.len() == 0 && self.album@.len() == 0
                && self.id@.len() == 0),
    {
        self.name.as_str().is_empty() && self.artist.as_str().is_empty()
            && self.album.as_str().is_empty() && self.id.as_str().is_empty()
    }

    /// `Name: ..\nArtist: ..\nAlbum: ..\nID: ..\n\n`.
    pub fn to_string(&self) -> (r: String)
        ensures
            r@ == "Name: "@ + self.name@ + "\nArtist: "@ + self.artist@ + "\nAlbum: "@
                + self.album@ + "\nID: "@ + self.id@ + "\n\n"@,
    {
        let mut out = chars_of("Name: ");
        let a = chars_of(self.name.as_str());
        crate::text::append_chars(&mut out, a.as_slice());
        let b = chars_of("\nArtist: ");
        crate::text::append_chars(&mut out, b.as_slice());
        let c = chars_of(self.artist.as_str());
        crate::text::append_chars(&mut out, c.as_slice());
        let d = chars_of("\nAlbum: ");
        crate::text::append_chars(&mut out, d.as_slice());
        let e = chars_of(self.album.as_str());
        crate::text::append_chars(&mut out, e.as_slice());
        let f = chars_of("\nID: ");
        crate::text::append_chars(&mut out, f.as_slice());
        let g = chars_of(self.id.as_str());
        crate::text::append_chars(&mut out, g.as_slice());
        let h = chars_of("\n\n");
        crate::text::append_chars(&mut out, h.as_slice());
        let r = string_of(out.as_slice());
        assert(r@ =~= "Name: "@ + self.name@ + "\nArtist: "@ + self.artist@ + "\nAlbum: "@
            + self.album@ + "\nID: "@ + self.id@ + "\n\n"@);
        r
    }
}

/// A list of songs.
pub struct SongList(pub Vec<Song>);

impl SongList {
    /// The songs of the list.
    pub open spec fn songs(&self) -> Seq<NeteaseSongModel> {
        self.0@.map_values(|s: Song| s@)
    }

    pub fn new() -> (r: SongList)
        ensures
            r.songs() == Seq::<NeteaseSongModel>::empty(),
    {
        let r = SongList(Vec::new());
        assert(r.songs() =~= Seq::<NeteaseSongModel>::empty());
        r
    }

    pub fn push(&mut self, song: Song)
        ensures
            final(self).songs() == old(self).songs().push(song@),
    {
        self.0.push(song);
        assert(self.songs() =~= old(self).songs().push(song@));
    }

    pub fn len(&self) -> (r: usize)
        ensures
            r == self.songs().len(),
    {
        self.0.len()
    }

    /// `list[index]`.
    pub fn index(&self, index: usize) -> (r: &Song)
        requires
            index < self.songs().len(),
        ensures
            r@ == self.songs()[index as int],
    {
        &self.0[index]
    }

    /// Takes the last song of the list (the list's `Iterator::next`).
    pub fn next(&mut self) -> (r: Option<Song>)
        ensures
            old(self).songs().len() == 0 ==> r is None && final(self).songs() == old(self).songs(),
            old(self).songs().len() > 0 ==> (r matches Some(s) && s@ == old(self).songs().last()
                && final(self).songs() == old(self).songs().drop_last()),
    {
        let r = self.0.pop();
        assert(self.songs() =~= if old(self).songs().len() == 0 {
            old(self).songs()
        } else {
            old(self).songs().drop_last()
        });
        r
    }
}

/// The original, translated and pronunciation lyric texts of a song.
pub struct SongLyrics {
    pub lyric: String,
    pub tlyric: String,
    pub klyric: String,
}

impl SongLyrics {
    pub fn new() -> (r: SongLyrics)
        ensures
            r.lyric@.len() == 0,
            r.tlyric@.len() == 0,
            r.klyric@.len() == 0,
    {
        SongLyrics { lyric: String::new(), tlyric: String::new(), klyric: String::new() }
    }

    pub fn get_original_lyric(&self) -> (r: Option<String>)
        ensures
            r matches Some(s) && s@ == self.lyric@,
    {
        Some(self.lyric.clone())
    }

    pub fn get_translated_lyric(&self) -> (r: Option<String>)
        ensures
            r matches Some(s) && s@ == self.tlyric@,
    {
        Some(self.tlyric.clone())
    }

    /// The three texts on lines of their own, the original replaced by a
    /// notice when it is empty.
    pub fn to_string(&self) -> (r: String)
        ensures
            r@ == (if self.lyric@.len() == 0 {
                no_lyric_text()
            } else {
                self.lyric@
            }) + seq!['\n'] + self.tlyric@ + seq!['\n'] + self.klyric@,
    {
        let l = crate::netease::NeteaseSongLyrics {
            lyric: self.lyric.clone(),
            tlyric: self.tlyric.clone(),
            klyric: self.klyric.clone(),
        };
        l.to_string()
    }
}

} // verus!
