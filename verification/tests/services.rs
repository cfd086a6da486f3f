use lyrecs::player::{player_info_from_output, player_reply_is_readable, PlayerError};
use lyrecs::json::{int_literal, str_eq, JsonValue};
use lyrecs::kugou::{KugouSong, KugouSongList};
use lyrecs::lyric_file::LyricSource;
use lyrecs::netease::{NeteaseSong, NeteaseSongList};
use lyrecs::qq::{
    get_default_song, jsonp_payload, qq_song_list_from_reply, search_request_body,
    song_lyric_url, song_page_url, QQSong, QQSongList, QQSongLyrics,
};
use lyrecs::search::search_results;
use lyrecs::song::RemoteSongTrait;
use lyrecs::song_struct::{Song, SongList, SongLyrics};

fn text(s: &str) -> JsonValue {
    JsonValue::Str(s.to_string())
}

fn number(n: &str) -> JsonValue {
    JsonValue::Number(n.to_string())
}

fn object(fields: Vec<(&str, JsonValue)>) -> JsonValue {
    JsonValue::Object(fields.into_iter().map(|(k, v)| (k.to_string(), v)).collect())
}

fn qq_entry(name: &str, id: &str) -> JsonValue {
    object(vec![
        ("name", text(name)),
        ("singer", JsonValue::Array(vec![object(vec![("name", text("Singer"))])])),
        ("album", object(vec![("name", text("Album"))])),
        ("id", number(id)),
        ("mid", text("MID1")),
    ])
}

fn qq_reply(items: Vec<JsonValue>) -> JsonValue {
    object(vec![(
        "music.search.SearchCgiService",
        object(vec![(
            "data",
            object(vec![("body", object(vec![("song", object(vec![("list", JsonValue::Array(items))]))]))]),
        )]),
    )])
}

#[test]
fn json_reading() {
    let v = object(vec![
        ("a", number("-42")),
        ("a", number("7")),
        ("big", number("9223372036854775808")),
        ("f", number("1.5")),
        ("s", text("x")),
        ("n", JsonValue::Null),
        ("arr", JsonValue::Array(vec![text("first")])),
    ]);
    assert_eq!(v.i64_field("a"), Some(-42));
    assert_eq!(v.i64_field("big"), None);
    assert_eq!(v.i64_field("f"), None);
    assert_eq!(v.str_field("s"), Some("x".to_string()));
    assert_eq!(v.str_field("a"), None);
    assert_eq!(v.opt_str_field("missing"), "");
    assert!(v.get("n").unwrap().is_null());
    assert_eq!(v.get("arr").unwrap().at(0).unwrap().as_str().map(|s| s.as_str()), Some("first"));
    assert!(v.get("arr").unwrap().at(1).is_none());
    assert!(v.get("nothing").is_none());
    assert_eq!(int_literal("-9223372036854775808"), Some(i64::MIN));
    assert_eq!(int_literal("-"), None);
    assert_eq!(int_literal("12a"), None);
    assert!(str_eq("abc", "abc"));
    assert!(!str_eq("abc", "abd"));
}

#[test]
fn qq_search_reply() {
    let reply = qq_reply(vec![qq_entry("Flower", "1001"), qq_entry("Tower", "1002")]);
    let list = qq_song_list_from_reply(&reply).expect("songs");
    assert_eq!(list.len(), 2);
    let first = get_default_song(&list);
    assert_eq!(first.name, "Flower");
    assert_eq!(first.artist, "Singer");
    assert_eq!(first.album, "Album");
    assert_eq!(first.id, "1001");
    assert_eq!(first.mid, "MID1");
    assert_eq!(first.to_string(), "Flower - Singer");
    assert!(qq_song_list_from_reply(&qq_reply(vec![])).is_none());
    assert!(get_default_song(&QQSongList::new()).is_empty());
    assert!(!first.is_empty());
}

#[test]
fn qq_lyric_reply() {
    let payload = jsonp_payload("jsonp1({\"lyric\":\"[00:01.00]a\"})").expect("payload");
    assert_eq!(payload, "{\"lyric\":\"[00:01.00]a\"}");
    assert_eq!(jsonp_payload("short"), None);
    assert_eq!(jsonp_payload("jsonp1(你好)"), Some("你好".to_string()));
    assert_eq!(jsonp_payload("jsonp1(ab你"), None);
    let lyric = QQSongLyrics::new(&object(vec![("lyric", text("[00:01.00]a"))]));
    assert_eq!(lyric.get_lyric(), Some("[00:01.00]a".to_string()));
}

#[test]
fn qq_requests() {
    assert_eq!(
        search_request_body("花の塔", 3),
        "{\"music.search.SearchCgiService\":{\"method\":\"DoSearchForQQMusicDesktop\",\"module\":\"music.search.SearchCgiService\",\"param\":{\"num_per_page\":\"3\",\"page_num\":\"1\",\"query\":\"花の塔\",\"search_type\":\"0\"}}}"
    );
    let mut song = QQSong::new_empty();
    song.id = "55".to_string();
    song.mid = "abc".to_string();
    assert_eq!(
        song_lyric_url(&song),
        "http://c.y.qq.com/lyric/fcgi-bin/fcg_query_lyric.fcg?nobase64=1&musicid=55&callback=jsonp1&g_tk=5381&jsonpCallback=jsonp1&loginUin=0&hostUin=0&format=jsonp&inCharset=utf8&outCharset=utf-8&notice=0&platform=yqq&needNewCode=0"
    );
    assert_eq!(song_page_url(&song), "http://y.qq.com/portal/song/abc.html");
    let mut list = QQSongList::new();
    list.push(song.copy());
    assert_eq!(list.index(0).id, "55");
    assert_eq!(list.next().map(|s| s.mid), Some("abc".to_string()));
    assert!(list.next().is_none());
}

#[test]
fn legacy_song_structs() {
    let entry = object(vec![
        ("name", text("N")),
        ("artists", JsonValue::Array(vec![object(vec![("name", text("A"))])])),
        ("album", object(vec![("name", text("B"))])),
        ("id", number("-3")),
    ]);
    let song = Song::new(&entry);
    assert_eq!(song.to_string(), "Name: N\nArtist: A\nAlbum: B\nID: -3\n\n");
    assert!(!song.is_empty());
    assert!(Song::new_empty().is_empty());
    let mut list = SongList::new();
    list.push(song);
    assert_eq!(list.len(), 1);
    assert_eq!(list.index(0).id, "-3");
    assert_eq!(list.next().map(|s| s.name), Some("N".to_string()));
    let lyrics = SongLyrics::new();
    assert_eq!(lyrics.to_string(), "[00:00.00] This Music No Lyric\n\n");
    assert_eq!(lyrics.get_original_lyric(), Some(String::new()));
    assert_eq!(lyrics.get_translated_lyric(), Some(String::new()));
}

#[test]
fn search_entries_and_sources() {
    let mut kugou = KugouSongList::new();
    let mut k = KugouSong::new_empty();
    k.name = "KName".to_string();
    k.artist = "KArtist".to_string();
    kugou.push(k);
    let mut netease = NeteaseSongList::new();
    netease.push(NeteaseSong {
        name: "NName".to_string(),
        artist: "NArtist".to_string(),
        album: String::new(),
        id: "1".to_string(),
    });
    let mut sources: Vec<LyricSource> = Vec::new();
    let res = search_results(Some(&kugou), Some(&netease), &mut sources);
    let got: Vec<(&str, &str, &str)> = res
        .iter()
        .map(|r| (r.title.as_str(), r.artist.as_str(), r.source.as_str()))
        .collect();
    assert_eq!(got, vec![("KName", "KArtist", "Kugou"), ("NName", "NArtist", "Netease")]);
    assert_eq!(sources.len(), 2);
    assert!(matches!(&sources[0], LyricSource::Kugou(s) if s.name == "KName"));
    assert!(matches!(&sources[1], LyricSource::Netease(s) if s.id == "1"));

    let again = search_results(None, Some(&netease), &mut sources);
    assert_eq!(again.len(), 1);
    assert_eq!(sources.len(), 3);
    assert!(search_results(None, None, &mut sources).is_empty());
    assert_eq!(sources.len(), 3);
}

#[test]
fn connection_greeting() {
    assert_eq!(lyrecs::connect::connect_test("World"), "Hello World!");
    assert_eq!(lyrecs::connect::connect_test(""), "Hello !");
}

#[test]
fn qq_lyric_reply_reading() {
    let reply = object(vec![("lyric", text("[00:01.00]a"))]);
    assert_eq!(lyrecs::qq::qq_lyric_from_reply(&reply).map(|l| l.lyric), Some("[00:01.00]a".to_string()));
    assert!(lyrecs::qq::qq_lyric_from_reply(&object(vec![("lyric", text(""))])).is_none());
}

#[test]
fn player_output_reading() {
    let reply = object(vec![
        ("state", text("playing")),
        ("position", number("12.3456")),
        ("title", text("Song")),
        ("duration", number("200")),
        ("artist", text("Singer")),
    ]);
    assert!(player_reply_is_readable(&reply));
    let info = player_info_from_output(b"false\n", &reply).expect("a track");
    assert_eq!(info.track.title, "Song");
    assert_eq!(info.track.artist, "Singer");
    assert_eq!(info.track.album, "");
    assert_eq!(info.state, "playing");
    assert_eq!(info.duration, 200000);
    assert_eq!(info.position, 12345);
    assert!(matches!(player_info_from_output(b"true\n", &reply), Err(PlayerError::NotRunning)));
    assert!(matches!(player_info_from_output(b"", &JsonValue::Null), Err(PlayerError::NothingPlaying)));
    assert!(!player_reply_is_readable(&object(vec![("state", text("x"))])));
    assert!(player_reply_is_readable(&JsonValue::Null));
}
