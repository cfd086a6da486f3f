use lyrecs::json::JsonValue;
use lyrecs::netease::{
    best_match_first_round, best_match_second_round, find_meta, find_timeline, get_default_song,
    merge_lyric_lines, netease_song_list_from_reply, parse_lrc_line, parse_lyric_text,
    parse_metatag, parse_netease_lyric, read_lyric_text, read_metatag, read_netease_lyric,
    replace_escaped_newlines, search_song_of, song_list_url, song_lyric_from_reply,
    song_lyric_url, without_ampersands, LrcLine, MatchStep, NeteaseSong, NeteaseSongList,
    NeteaseSongLyrics,
};
use lyrecs::song::RemoteSongTrait;

fn text(s: &str) -> JsonValue {
    JsonValue::Str(s.to_string())
}

fn number(n: &str) -> JsonValue {
    JsonValue::Number(n.to_string())
}

fn object(fields: Vec<(&str, JsonValue)>) -> JsonValue {
    JsonValue::Object(fields.into_iter().map(|(k, v)| (k.to_string(), v)).collect())
}

fn chars(s: &str) -> Vec<char> {
    s.chars().collect()
}

fn song(name: &str, artist: &str) -> NeteaseSong {
    NeteaseSong {
        name: name.to_string(),
        artist: artist.to_string(),
        album: String::new(),
        id: String::new(),
    }
}

fn list_of(songs: Vec<NeteaseSong>) -> NeteaseSongList {
    let mut list = NeteaseSongList::new();
    for s in songs {
        list.push(s);
    }
    list
}

#[test]
fn lrc_text_lines() {
    let lines = parse_lyric_text("[00:01.50]First line\n  [00:03.00] Second  \n[00:05.123]Third\nno tag here\n");
    let got: Vec<(i64, String, i64)> =
        lines.iter().map(|l| (l.start, l.line.text.clone(), l.line.length)).collect();
    assert_eq!(
        got,
        vec![
            (1500, "First line".to_string(), 10),
            (3000, "Second".to_string(), 6),
            (5123, "Third".to_string(), 5)
        ]
    );
    assert!(lines.iter().all(|l| l.duration == 0));
}

#[test]
fn lrc_verse_length_counts_bytes() {
    let lines = parse_lyric_text("[01:00.00]你好");
    assert_eq!(lines.len(), 1);
    assert_eq!(lines[0].start, 60000);
    assert_eq!(lines[0].line.text, "你好");
    assert_eq!(lines[0].line.length, 6);
}

#[test]
fn lrc_verse_cut_at_tag_length() {
    // The verse is cut at the tag's length from the line's start, wherever
    // the tag stands.
    let lines = parse_lyric_text("intro [00:01.00]x");
    assert_eq!(lines.len(), 1);
    assert_eq!(lines[0].start, 1000);
    assert_eq!(lines[0].line.text, "01.00]x");
}

#[test]
fn lrc_line_failures() {
    // The cut falls inside a character.
    assert!(matches!(parse_lrc_line(&chars("abcdefghi中[00:01.00]")), LrcLine::Fail));
    assert!(read_lyric_text(&chars("[00:01.00]a\nabcdefghi中[00:01.00]")).is_none());
    // The tag matches the pattern but its seconds do not read.
    assert!(matches!(parse_lrc_line(&chars("[00:01x50]a")), LrcLine::Fail));
    assert!(matches!(parse_lrc_line(&chars("[ti:title]")), LrcLine::Skip));
    // An exponent in the seconds reads as a number.
    match parse_lrc_line(&chars("[00:1e5]x")) {
        LrcLine::Line(t) => {
            assert_eq!(t.start, 100_000_000);
            assert_eq!(t.line.text, "x");
        }
        _ => panic!("expected a line"),
    }
}

#[test]
fn lrc_pattern_matches() {
    assert_eq!(find_timeline(&chars("ab[12:34.56]cd")), Some((2, 12)));
    assert_eq!(find_timeline(&chars("[1:2]")), None);
    assert_eq!(find_timeline(&chars("[1:[2:3.4]")), Some((3, 10)));
    assert_eq!(find_meta(&chars("x [by] y")), Some((2, 6)));
    assert_eq!(find_meta(&chars("[ti:x]")), None);
    assert_eq!(find_meta(&chars("[[ab]")), Some((1, 5)));
}

#[test]
fn metadata_sorted_without_repetition() {
    let tags = parse_metatag("[by] Someone\n[ar:x]\n[al]  Album  \n[by] Again\n[by] Someone");
    let got: Vec<(String, String)> =
        tags.iter().map(|t| (t.tag_name.clone(), t.tag_value.clone())).collect();
    assert_eq!(
        got,
        vec![
            ("[al]".to_string(), "Album".to_string()),
            ("[by]".to_string(), "Again".to_string()),
            ("[by]".to_string(), "Someone".to_string())
        ]
    );
}

#[test]
fn metadata_tag_without_value_fails() {
    assert!(read_metatag(&chars("[by]")).is_none());
    let tags = read_metatag(&chars("[by] ")).expect("reads");
    assert_eq!(tags.len(), 1);
    assert_eq!(tags[0].tag_value, "");
}

#[test]
fn netease_lyric_merged() {
    let lyrics = NeteaseSongLyrics {
        lyric: "\"[by] Me\n[00:01.00]One\n[00:02.00]Two\n[00:04.00]Three\"".to_string(),
        tlyric: "\"[00:01.00]Uno\n[00:04.00]Tres\"".to_string(),
        klyric: String::new(),
    };
    let lrcx = parse_netease_lyric(&lyrics);
    assert_eq!(lrcx.metadata.len(), 1);
    assert_eq!(lrcx.metadata[0].tag_name, "[by]");
    assert_eq!(lrcx.metadata[0].tag_value, "Me");
    let got: Vec<(i64, i64, String, String)> = lrcx
        .lyric_body
        .iter()
        .map(|l| (l.start, l.duration, l.line.text.clone(), l.line.translation.clone()))
        .collect();
    assert_eq!(
        got,
        vec![
            (1000, 1000, "One".to_string(), "Uno".to_string()),
            (2000, 2000, "Two".to_string(), String::new()),
            (4000, 0, "Three\"".to_string(), "Tres\"".to_string())
        ]
    );
    assert!(lrcx.lyric_body.iter().all(|l| l.line.pronunciation.is_empty()));
}

#[test]
fn netease_lyric_unreadable() {
    let lyrics = NeteaseSongLyrics {
        lyric: "abcdefghi中[00:01.00]".to_string(),
        tlyric: String::new(),
        klyric: String::new(),
    };
    assert!(read_netease_lyric(&lyrics).is_none());
}

#[test]
fn merge_keeps_original_lines() {
    let original = parse_lyric_text("[00:01.00]a\n[00:02.00]b");
    let translation = parse_lyric_text("[00:01.05]A\n[00:05.00]B");
    let pronunciation = parse_lyric_text("[00:00.50]x");
    let merged = merge_lyric_lines(&original, &translation, &pronunciation);
    assert_eq!(merged.len(), 2);
    for (m, o) in merged.iter().zip(original.iter()) {
        assert_eq!(m.start, o.start);
        assert_eq!(m.line.text, o.line.text);
    }
    assert_eq!(merged[0].line.translation, "A");
    assert_eq!(merged[1].line.translation, "");
    assert_eq!(merged[0].line.pronunciation, "x");
    assert_eq!(merged[1].line.pronunciation, "");
}

#[test]
fn best_match_nearest_song() {
    let target = song("Hello", "Adele");
    let list = list_of(vec![song("Hello", "Adele"), song("Hello", "X")]);
    match best_match_first_round(&list, &target) {
        MatchStep::Done(s) => assert_eq!((s.name, s.artist), ("Hello".to_string(), "X".to_string())),
        _ => panic!("expected a match"),
    }
    match best_match_first_round(&NeteaseSongList::new(), &target) {
        MatchStep::Done(s) => assert!(s.is_empty()),
        _ => panic!("expected the empty song"),
    }
}

#[test]
fn best_match_searches_again() {
    let target = song("Hello", "Adele");
    let list = list_of(vec![song("Something else entirely", "Y")]);
    let (keyword, best, distance) = match best_match_first_round(&list, &target) {
        MatchStep::SearchAgain { keyword, best, distance } => (keyword, best, distance),
        _ => panic!("expected a second search"),
    };
    assert_eq!(keyword, "Adele Hello");
    assert_eq!(best.name, "Something else entirely");
    assert_eq!(distance, 22);
    let second = list_of(vec![song("Hello", "")]);
    let chosen = best_match_second_round(&second, &target, best.copy(), distance);
    assert_eq!(chosen.name, "Hello");
    let none = best_match_second_round(&NeteaseSongList::new(), &target, best, distance);
    assert!(none.is_empty());
}

#[test]
fn lyric_reply_texts() {
    let reply = object(vec![
        ("code", number("200")),
        ("lrc", object(vec![("lyric", text("[00:01.00]A\n[00:02.00]B"))])),
        ("tlyric", object(vec![("lyric", JsonValue::Null)])),
    ]);
    let l = song_lyric_from_reply(&reply).expect("code 200");
    assert_eq!(l.lyric, "\"[00:01.00]A\n[00:02.00]B\"");
    assert_eq!(l.tlyric, "");
    assert_eq!(l.klyric, "");

    let quoted = object(vec![
        ("code", number("200")),
        ("lrc", object(vec![("lyric", text("say \"hi\""))])),
        ("klyric", object(vec![("lyric", text("k"))])),
    ]);
    let l = song_lyric_from_reply(&quoted).expect("code 200");
    assert_eq!(l.lyric, r#""say \"hi\"""#);
    assert_eq!(l.klyric, "\"k\"");

    let missing = object(vec![("code", number("200"))]);
    assert_eq!(song_lyric_from_reply(&missing).unwrap().lyric, "[00:00.000] Get lyric Error");
    let null = object(vec![("code", number("200")), ("lrc", object(vec![("lyric", JsonValue::Null)]))]);
    assert_eq!(
        song_lyric_from_reply(&null).unwrap().lyric,
        "[00:00.000] This Music Has No Lyric"
    );
    assert!(song_lyric_from_reply(&object(vec![("code", number("404"))])).is_none());
}

#[test]
fn search_reply_songs() {
    let entry = object(vec![
        ("name", text("Song")),
        ("artists", JsonValue::Array(vec![object(vec![("name", text("Artist"))])])),
        ("album", object(vec![("name", text("Album"))])),
        ("id", number("123456")),
    ]);
    let reply = object(vec![
        ("code", number("200")),
        ("result", object(vec![("songs", JsonValue::Array(vec![entry]))])),
    ]);
    let list = netease_song_list_from_reply(&reply).expect("code 200");
    assert_eq!(list.len(), 1);
    let first = get_default_song(&list);
    assert_eq!(first.name, "Song");
    assert_eq!(first.artist, "Artist");
    assert_eq!(first.album, "Album");
    assert_eq!(first.id, "123456");
    assert_eq!(
        song_lyric_url(&first),
        "http://music.163.com/api/song/lyric?lv=1&kv=1&tv=-1&id=123456"
    );
    assert_eq!(
        first.to_string(),
        "Name: Song\nArtist: Artist\nAlbum: Album\nID: 123456\n\n"
    );
    assert!(netease_song_list_from_reply(&object(vec![("code", number("-460"))])).is_none());
    assert!(get_default_song(&NeteaseSongList::new()).is_empty());
}

#[test]
fn netease_small_helpers() {
    assert_eq!(
        song_list_url("a b", 5),
        "http://music.163.com/api/search/pc?type=1&offset=0&s=a b&limit=5"
    );
    assert_eq!(without_ampersands(&"A & B&C".to_string()), "A  BC");
    let s = search_song_of(&NeteaseSong {
        name: "Rock & Roll".to_string(),
        artist: "Me&You".to_string(),
        album: "Al".to_string(),
        id: "9".to_string(),
    });
    assert_eq!((s.name.as_str(), s.artist.as_str(), s.album.as_str(), s.id.as_str()), ("Rock  Roll", "MeYou", "", ""));
    assert_eq!(replace_escaped_newlines("a\\nb\\\\nc"), "a\nb\\\nc");
    let empty = NeteaseSongLyrics::new();
    assert_eq!(empty.to_string(), "[00:00.00] This Music No Lyric\n\n");
    let full = NeteaseSongLyrics { lyric: "L".to_string(), tlyric: "T".to_string(), klyric: "K".to_string() };
    assert_eq!(full.to_string(), "L\nT\nK");
    assert_eq!(full.get_original_lyric(), Some("L".to_string()));
    assert_eq!(full.get_translated_lyric(), Some("T".to_string()));
}

#[test]
fn netease_list_operations() {
    let mut list = list_of(vec![song("a", "1"), song("b", "2")]);
    assert_eq!(list.index(1).name, "b");
    assert_eq!(list.next().map(|s| s.name), Some("b".to_string()));
    assert_eq!(list.len(), 1);
    assert!(!song("a", "").is_empty());
    assert!(NeteaseSong::new_empty().is_empty());
}

#[test]
fn lyric_reply_non_text_values() {
    let reply = object(vec![
        ("code", number("200")),
        ("lrc", object(vec![("lyric", number("5"))])),
        (
            "tlyric",
            object(vec![("lyric", JsonValue::Array(vec![text("a"), text("b\nc"), JsonValue::Bool(true)]))]),
        ),
        ("klyric", object(vec![("lyric", object(vec![("k", JsonValue::Null), ("t", text("\u{1}\t\"\\"))]))])),
    ]);
    assert!(lyrecs::netease::lyric_reply_is_readable(&reply));
    let l = song_lyric_from_reply(&reply).expect("code 200");
    assert_eq!(l.lyric, "5");
    assert_eq!(l.tlyric, "[\"a\",\"b\nc\",true]");
    assert_eq!(l.klyric, "{\"k\":null,\"t\":\"\\u0001\\t\\\"\\\\\"}");
    assert_eq!(lyrecs::json::json_text_of(&JsonValue::Array(vec![])), "[]");
    assert_eq!(lyrecs::json::json_text_of(&JsonValue::Bool(false)), "false");
}

#[test]
fn reply_readability_checks() {
    let no_lyric_field = object(vec![("code", number("200")), ("lrc", object(vec![]))]);
    assert!(!lyrecs::netease::lyric_reply_is_readable(&no_lyric_field));
    let bad_songs = object(vec![
        ("code", number("200")),
        ("result", object(vec![("songs", JsonValue::Array(vec![object(vec![("name", number("1"))])]))])),
    ]);
    assert!(!lyrecs::netease::netease_search_reply_is_readable(&bad_songs));
    assert!(lyrecs::netease::netease_search_reply_is_readable(&object(vec![("code", number("400"))])));
    assert!(!lyrecs::kugou::search_reply_is_readable(&object(vec![("status", number("1"))])));
    let kugou_ok = object(vec![
        ("status", number("1")),
        ("data", object(vec![("info", JsonValue::Array(vec![object(vec![("song", text("x"))])]))])),
    ]);
    assert!(lyrecs::kugou::search_reply_is_readable(&kugou_ok));
    let kugou_bad = object(vec![("errcode", number("200")), ("candidates", JsonValue::Array(vec![object(vec![("hash", number("3"))])]))]);
    assert!(!lyrecs::kugou::candidates_reply_is_readable(&kugou_bad));
    assert!(!lyrecs::qq::qq_reply_is_readable(&object(vec![])));
}

#[test]
fn best_match_tie_goes_to_the_later_song() {
    let target = song("Hello", "X");
    let mut a = song("Hello", "X");
    a.id = "1".to_string();
    let mut b = song("Hello", "X");
    b.id = "2".to_string();
    match best_match_first_round(&list_of(vec![a, b]), &target) {
        MatchStep::Done(s) => assert_eq!(s.id, "2"),
        _ => panic!("expected a match"),
    }
}
