use std::io::Write;

use lyrecs::json::JsonValue;
use lyrecs::kugou::{
    decode_krc, get_default_lyric_item, krc_mask, lyric_content_from_reply,
    lyrics_list_from_reply, lyrics_list_url, parse_krc, parse_krc_line, search_keyword,
    song_list_from_search_reply, song_list_url, song_lyric_url, try_decode_lyric, DecodeError,
    KrcDecode, KrcLine, KugouSong, KugouSongList, KugouSongLyrics,
};
use lyrecs::song::RemoteSongTrait;

fn text(s: &str) -> JsonValue {
    JsonValue::Str(s.to_string())
}

fn number(n: &str) -> JsonValue {
    JsonValue::Number(n.to_string())
}

fn object(fields: Vec<(&str, JsonValue)>) -> JsonValue {
    JsonValue::Object(fields.into_iter().map(|(k, v)| (k.to_string(), v)).collect())
}

fn chars(s: &str) -> Vec<char> {
    s.chars().collect()
}

/// Encodes a KRC text the way the service sends it: `krc1`, then the
/// masked zlib stream, all in base64 without padding.
fn encode_krc(body: &str) -> String {
    let mut encoder = flate2::write::ZlibEncoder::new(Vec::new(), flate2::Compression::default());
    encoder.write_all(body.as_bytes()).unwrap();
    let compressed = encoder.finish().unwrap();
    let mut bytes = b"krc1".to_vec();
    bytes.extend(krc_mask(&compressed));
    base64::encode_config(&bytes, base64::STANDARD_NO_PAD)
}

fn song_entry(name: &str, artist: &str, hash: &str) -> JsonValue {
    object(vec![
        ("songname", text("ignored")),
        ("name", text(name)),
        ("singername", text(artist)),
        ("album_name", text("Album")),
        ("hash", text(hash)),
    ])
}

#[test]
fn decode_part() {
    let encryted = r"a3JjMTjbDC+VXGmAQOs25fGi\/4xNl7SYeBSufBFgMD\/tVHnNCY5VY2W84EOL\/4BNVUAHI1BXRtXS6voiScYSodDDTTiyiJEpjxmLBbtiZOJCzTLhfdv4mfRBOhLM54aicawPDiu6BrkgbIiuHmjp1S0ohOqPERZ4yG2pgaTzrNgrESE++5D3jKnKK7s4xeMXsG\/SGKGilDVFX09Ai+zv8TznueSylTevUFWJkQfr74eDZFJGjxi5TqmYWBkua09wsj9MtuELTGICjQKxvbPcpiXAq5DNEK6KN9GosavAlHJwYIf6u5oO5CXc4Xg9CM7GcT4ClL5w9ims1Yv76MVt0xshgH44hqYyL9exhnykuia5VB1xJMKUql1rU6VaeFpAhvun9N+sUxaTa3qeuOkIfJc5dZK3wf3FAMJpefwya3086mDm33vY+t1Di7OOTTI7ci6YkVbR246A9Xd+4ws\/osisNXcaWV6Vo1h5Om5PMzYU\/MXq+\/VqrtDWyCooy8+ZBYlp1Uv+8WHfe7R5D1ZpE3frDozRn\/iSn9NkGuJN7vG06AqrgQZhzG2m6KqYpZLWjfnaYUCtrcQFZXJNbxnBH\/EokBZHbR3h+bIj0MbJ8IoJNKxLhlcQDRZntD9pVtQ08\/abSN9QmqKP4dVRbb8cYtHucqE7w7do+\/pTA+gd1vrYxS+Hwm6OarnaN1toXxA5AAxVpH6zZg7Lm+cdaOkZnFPukH7fj0gNF8OA5J62V8u22CCVoHX+v\/Jm+1QGScryLtlJJrxkuahe7FWi6z4U6tcyMdRpx0rfeXUPRGfiSgrelugbLMjA5+nBNQqa8zMq+5ZNU2cIvzQuP32Mkqnt6j\/3aqZZUFwp6TOr+1u0wBqhbqPhYwJomsPx1aE1953zM07b\/duaPSqjCVxJJx+5ipzeYAj8drmj\/CltsFWAc16D+yFKpY6Td9F7cFdr0+Vo60Z9fWdgS5KAK0kNKNdmdCGI7bcV8MGdhXrNCBWqGopm0woSUuyFLbkOU3wDD8bjivzyLs91Fuqt9HQgUEtI2eCRp8uj\/XR7MJGyO3xkNhMCtkj1R0nFb7k7oII1qgYjnDtXUDrj3Z3V8DVvkNg7Khdhyj0KvFZnURmwcjgtZvMu0uxG8WrjOLv13pvK3JJuXrfIE+2PtMJjNjTRo8QXciiY5Sv9lJinojDkMsF1R033tbyHavffBD3yXn18kx4VCbAPYjOZMqCHpQNLNT\/WyTZoSMyRam6InRXyIfCZX8L8NP8F65TKCENOEVt6P4RaOMMholn9jXfaI\/R3wnZTI61gQrk65LxjWjBcl\/MmNVW05k8megEDz6eiZUa\/Xz1No1juvEtk4SJEI1yeptAwKUaIwaDrQFnmtxs5vb\/tykaNtra4f0rib8a2XDpMLvU3Bqixg5Gy4DyBcylzh0jD9f7io2EJgeH33qdBXP8RVRFbgfu3WwApT15ZiZAnowBgiDjOEfDcGtGC2NgqMBH+vlCJzx5jA60xG7pNC\/xWSN1\/ZuxJDHgaCy369G\/eJfRUphTjebHiM7FWQ3CSCkr6CgmI9ijroao4ZrAkKrLjpFJMW+q3HMKcgE9i\/x2nBGVkTtXcMRm2EDhRnwN\/v\/BabocD3q3jStOgEuzOgFFH1nuKRDHW+YHDFp8WXVwAG3iCxI\/biRNNzLxoNcDWO7pYxemV+W7sE\/gf1j5UCHpywUE504g6qkp405Y63JrWmnAYoFgR4WWz3OHlSVwX\/74RN\/WvHmGbBfMk\/wp9HnYwd0Z74\/obXw15NMvIJMUSVv9XHVMrCZUDCpmcWrCDweibM8\/GzLG7g0nLaVaW1NMGfyFZKKoNmQXTqtgOYQ83EPBU8U121zQQQ3a66C9qe2+XuDK\/WgeNAKn1yjcxx87yG6PdcZ74mtgFFTbxamAXHljD3NiJPouvc0W96mAMYD+kDuoexs+tzaf2HxHkPI2ZSGKv2G3K8NccuxhZv\/YKMFeqhnQnXzp\/e22j5w8vNLMQQrA+erWK\/rTw\/rcUVBPslMKoUTNrjvA4tXAT+1lAJTv+rbR8dRyNBWVcCMmRXR5+EQN6+l8SGTri9EWeTLRKlPHVLIxiE9kwKS3FWC1DpoCR5kZpg2oQqzzuCxBhEJpINee1tfsRj5sCTud8tMJuaKpdwycainoUkD8UtTLEvwDJ9IYhQGZmk4vMRK4KE\/2c7cC2A1fpXCLb4igIpG1QA+Pl1cfUBwvj1DCpsWOpBIcAvlJU2olA8uc\/vi5SQ\/IVPUG+miJWpG7w+i0hWAIHEi3GSOK8eIkpqE+jbR6JodW0hZKgVw8Z7Ss6EhR0yxAsQbiyu4SXUGIx0uTJyfXm4q+DolKP618txlcHAQ+VEAl6dYMsqrV+OS4W8fl7jI5j\/haip\/xKOP2\/0rk117d4wKrw+8SIRUWNj8eSpWDE9orl+gdh+Yq0srja9E5KAEpztPBT7mkWNodkpGol2FGuRHrCE6rMoyTK\/LAhaBT85CKy3qucw3lV\/ifE2TdPb7dWIapFqYOnXqzi0cHoiZC4M3uYol5jbZ50FZT8ucsTo9ANfhFJOSo6Iz6pGaBc9s619xv0UEig\/PcFxwIWPHiznk4eeP\/kwnMhWjQEfi\/ISEW+w0Gy5BYNCWbI5lPnsq8wFwjlLVo4ikb7fS9KZh3wdFDM+GX7jH1wy+wdQvOdujNJ3vXNueg4sv75MvOhiNclzbh\/HK1pE9DMKyYaMyJJqg\/w4+T2xFwZv5t3\/cJFFcxxcP4MPL\/K1\/\/xOEkC\/XTxcZrYu0Mww8xurJ7Xgwqcij9lAmpPyVY3VtqOZNSGmzOo1It66L2e7gPOw5dJcPu1bhrZMc+oo9hy+jzVQXkppoT529ZtpQ7llHSxli6j1iWE7syVZbnpokNZMPN+pz5YAncF3XAMIMct27EmNML3nZNJ2Y\/tkLr9bhLI6jdzTX+DC5pk+eZqo34DKWQJq7jyOcHsZ24dmftm2jE7eOauwfn9Mz6EzhpMURxApsUcDoDn2gOROFu9xsMWNVlvHOQY0HWSyjq6sNtG3SSZYca\/r0mvWxoDqkQ2050cpxDK4B2wMdFHtkwN";

    let mut lrc = KugouSongLyrics::new_empty();

    lrc.content = encryted.to_string();

    // The escaped slashes are not base64: nothing is decoded.
    assert!(matches!(decode_krc(&lrc.content), KrcDecode::InvalidBase64));
    assert!(try_decode_lyric(&mut lrc).is_none());
    assert_eq!(lrc.decoded, "");
    assert_eq!(lrc.content, encryted);
}

#[test]
fn krc_decode_round_trip() {
    let body = "[ar:Singer]\n[ti:Title]\n[language:eyJ9]\n[0,1000]<0,500,0>Hel<500,500,0>lo\n";
    let content = encode_krc(body);
    match decode_krc(&content) {
        KrcDecode::Text(t) => assert_eq!(t, body),
        _ => panic!("expected text"),
    }
    let mut lyric = KugouSongLyrics::new(content.clone());
    match try_decode_lyric(&mut lyric) {
        Some(Ok(l)) => {
            assert_eq!(l.decoded, body);
            assert_eq!(l.content, content);
        }
        _ => panic!("expected a decoded lyric"),
    }
    assert_eq!(lyric.decoded, body);
    let lrcx = lyric.to_lrcx();
    assert_eq!(lrcx.lyric_body.len(), 1);
    assert_eq!(lrcx.lyric_body[0].line.text, "Hello");
}

#[test]
fn krc_decode_bad_header() {
    let content = base64::encode_config(b"krc2 not a lyric", base64::STANDARD_NO_PAD);
    assert!(matches!(decode_krc(&content), KrcDecode::BadHeader));
    let mut lyric = KugouSongLyrics::new(content);
    assert_eq!(try_decode_lyric(&mut lyric).map(|r| r.err()), Some(Some(DecodeError::NotKrc)));
    assert_eq!(lyric.decoded, "");
}

#[test]
fn krc_decode_too_short() {
    let content = base64::encode_config(b"krc", base64::STANDARD_NO_PAD);
    assert!(matches!(decode_krc(&content), KrcDecode::TooShort));
}

#[test]
fn krc_decode_not_zlib() {
    let mut bytes = b"krc1".to_vec();
    bytes.extend(krc_mask(b"this is not a zlib stream"));
    let content = base64::encode_config(&bytes, base64::STANDARD_NO_PAD);
    assert!(matches!(decode_krc(&content), KrcDecode::InvalidDeflate));
    let mut lyric = KugouSongLyrics::new(content);
    assert!(try_decode_lyric(&mut lyric).is_none());
}

#[test]
fn krc_decode_refuses_non_base64() {
    assert!(matches!(decode_krc("a3Jj!MQ"), KrcDecode::InvalidBase64));
}

#[test]
fn krc_mask_twice_is_identity() {
    let data: Vec<u8> = (0u8..40).collect();
    let once = krc_mask(&data);
    assert_ne!(once, data);
    assert_eq!(once[0], 64);
    assert_eq!(once[16], 16 ^ 64);
    assert_eq!(krc_mask(&once), data);
}

#[test]
fn krc_parse_metadata_and_words() {
    let text = "[ti:Title]\r\n[ar:Singer]\r\n[ar:Singer]\r\n[language:xx]\r\n[1000,2000]<0,300,0>ab<300,700,0>cde\r\nnot a line\r\n[abc,10]skipped\r\n[3000,500]plain text\r\n";
    let lrcx = parse_krc(text).expect("parses");
    let tags: Vec<(String, String)> = lrcx
        .metadata
        .iter()
        .map(|t| (t.tag_name.clone(), t.tag_value.clone()))
        .collect();
    assert_eq!(
        tags,
        vec![
            ("ar".to_string(), "Singer".to_string()),
            ("ti".to_string(), "Title".to_string())
        ]
    );
    assert_eq!(lrcx.lyric_body.len(), 2);
    let first = &lrcx.lyric_body[0];
    assert_eq!(first.start, 1000);
    assert_eq!(first.duration, 2000);
    assert_eq!(first.line.text, "abcde");
    let words: Vec<(i64, i64, usize)> =
        first.line.word_timeline.iter().map(|w| (w.start, w.duration, w.pos)).collect();
    assert_eq!(words, vec![(1000, 300, 2), (1300, 700, 5)]);
    let second = &lrcx.lyric_body[1];
    assert_eq!(second.start, 3000);
    assert_eq!(second.duration, 500);
    assert_eq!(second.line.text, "plain text");
    assert!(second.line.word_timeline.is_empty());
}

#[test]
fn krc_parse_without_language_line() {
    let lrcx = parse_krc("[ti:Only tags]").expect("parses");
    assert_eq!(lrcx.metadata.len(), 1);
    assert!(lrcx.lyric_body.is_empty());
}

#[test]
fn krc_parse_refuses_malformed() {
    assert!(parse_krc("[no colon here]\n[language:x]\n").is_none());
    assert!(parse_krc("[language:x]\n[100]text\n").is_none());
    assert!(parse_krc("[language:x]\n[100,abc]text\n").is_none());
    assert!(parse_krc("[language:x]\n[100,200]<x,1,0>w\n").is_none());
    assert!(parse_krc("[language:x]\n[100,200]<5>w\n").is_none());
}

#[test]
fn krc_decimal_timings() {
    let lrcx = parse_krc("[language:x]\n[1.5,2000]x\n[1000.0,2e3]<0.5,500,0>y<1e2,2.5,0>z\n").expect("parses");
    assert_eq!(lrcx.lyric_body.len(), 2);
    assert_eq!((lrcx.lyric_body[0].start, lrcx.lyric_body[0].duration), (1, 2000));
    assert_eq!(lrcx.lyric_body[0].line.text, "x");
    let second = &lrcx.lyric_body[1];
    assert_eq!((second.start, second.duration), (1000, 2000));
    assert_eq!(second.line.text, "yz");
    let words: Vec<(i64, i64, usize)> =
        second.line.word_timeline.iter().map(|w| (w.start, w.duration, w.pos)).collect();
    assert_eq!(words, vec![(1000, 500, 1), (1100, 2, 2)]);
    let lyric = KugouSongLyrics { content: String::new(), decoded: "[language:x]\n[-2.9,inf]a".to_string() };
    let l = lyric.to_lrcx();
    assert_eq!((l.lyric_body[0].start, l.lyric_body[0].duration), (-2, i64::MAX));
}

#[test]
fn krc_line_kinds() {
    assert!(matches!(parse_krc_line(&chars("plain")), KrcLine::Skip));
    assert!(matches!(parse_krc_line(&chars("[x,1]a")), KrcLine::Skip));
    assert!(matches!(parse_krc_line(&chars("[1,2")), KrcLine::Fail));
    match parse_krc_line(&chars("[-5,+7]<1,2,0>x<3,4,0>yz")) {
        KrcLine::Line(t) => {
            assert_eq!(t.start, -5);
            assert_eq!(t.duration, 7);
            assert_eq!(t.line.text, "xyz");
            assert_eq!(t.line.word_timeline[0].start, -4);
            assert_eq!(t.line.word_timeline[1].pos, 3);
        }
        _ => panic!("expected a line"),
    }
}

#[test]
fn kugou_song_fallback_fields() {
    let entry = object(vec![
        ("song", text("Fallback name")),
        ("singer", text("Fallback singer")),
        ("id", text("42")),
        ("accesskey", text("KEY")),
    ]);
    let song = KugouSong::new(&entry);
    assert_eq!(song.name, "Fallback name");
    assert_eq!(song.artist, "Fallback singer");
    assert_eq!(song.album, "");
    assert_eq!(song.hash, "");
    assert_eq!(song.id, "42");
    assert_eq!(song.access_key, "KEY");
    assert!(!song.is_empty());
    assert!(KugouSong::new_empty().is_empty());

    let preferred = object(vec![
        ("name", text("Name")),
        ("song", text("Other")),
        ("singername", text("Artist")),
    ]);
    let song = KugouSong::new(&preferred);
    assert_eq!(song.name, "Name");
    assert_eq!(song.artist, "Artist");
}

#[test]
fn kugou_search_reply() {
    let reply = object(vec![
        ("status", number("1")),
        (
            "data",
            object(vec![(
                "info",
                JsonValue::Array(vec![song_entry("A", "X", "h1"), song_entry("B", "Y", "h2")]),
            )]),
        ),
    ]);
    let list = song_list_from_search_reply(&reply).expect("status 1");
    assert_eq!(list.len(), 2);
    assert_eq!(list.index(0).name, "A");
    assert_eq!(list.index(1).hash, "h2");
    assert_eq!(get_default_lyric_item(&list).name, "A");

    let refused = object(vec![("status", number("0"))]);
    assert!(song_list_from_search_reply(&refused).is_none());
}

#[test]
fn kugou_candidates_and_content() {
    let reply = object(vec![
        ("errcode", number("200")),
        (
            "candidates",
            JsonValue::Array(vec![object(vec![
                ("song", text("Cand")),
                ("singer", text("Who")),
                ("id", text("7")),
                ("accesskey", text("abc")),
            ])]),
        ),
    ]);
    let list = lyrics_list_from_reply(&reply).expect("errcode 200");
    assert_eq!(list.len(), 1);
    let cand = get_default_lyric_item(&list);
    assert_eq!(cand.name, "Cand");
    assert_eq!(
        song_lyric_url(&cand),
        "http://lyrics.kugou.com/download?ver=1&client=pc&id=7&accesskey=abc"
    );
    assert!(lyrics_list_from_reply(&object(vec![("errcode", number("404"))])).is_none());

    let download = object(vec![("status", number("200")), ("content", text("a3JjMQ"))]);
    assert_eq!(lyric_content_from_reply(&download), Some("a3JjMQ".to_string()));
    let empty = object(vec![("status", number("200"))]);
    assert_eq!(lyric_content_from_reply(&empty), Some(String::new()));
    assert_eq!(lyric_content_from_reply(&object(vec![("status", number("500"))])), None);
}

#[test]
fn kugou_list_operations() {
    let mut list = KugouSongList::new();
    assert_eq!(list.len(), 0);
    assert!(get_default_lyric_item(&list).is_empty());
    list.push(KugouSong::new(&song_entry("One", "A", "1")));
    list.push(KugouSong::new(&song_entry("Two", "B", "2")));
    assert_eq!(list.len(), 2);
    assert_eq!(list.next().map(|s| s.name), Some("Two".to_string()));
    assert_eq!(list.len(), 1);
    assert_eq!(list.next().map(|s| s.name), Some("One".to_string()));
    assert!(list.next().is_none());
}

#[test]
fn kugou_addresses() {
    assert_eq!(
        song_list_url("hello world", 5),
        "http://msearchcdn.kugou.com/api/v3/search/song?plat=0&version=9108&keyword=hello world&pagesize=5"
    );
    let song = KugouSong::new(&song_entry("Tom & Jerry", "Cat&Mouse", "ABCDEF"));
    assert_eq!(lyrics_list_url(&song), "http://krcs.kugou.com/search?ver=1&man=yes&hash=ABCDEF");
    assert_eq!(search_keyword(&song), "Tom  Jerry CatMouse");
}
