use lyrecs::lyric_file::{lyric_file_name, with_leading_line, LyricSource};
use lyrecs::lyric_line::{adjust_position, next_inline_lyric};
use lyrecs::model::{
    compare_chars, insert_tag, sat_add, sat_sub, IDTag, Lrcx, LyricLine, LyricTimeLine, Order,
    WordTimeline,
};
use lyrecs::netease::NeteaseSong;
use lyrecs::parse_lyric::{time_f64_to_time_tag, time_tag_ms_of, time_tag_to_time_f64, LyricInline};
use lyrecs::kugou::KugouSong;
use lyrecs::song::RemoteSongTrait;

fn timed(start: i64, text: &str) -> LyricTimeLine {
    let mut t = LyricTimeLine::default();
    t.start = start;
    t.line.set_text(text.to_string());
    t
}

fn doc(lines: Vec<LyricTimeLine>) -> Lrcx {
    let mut l = Lrcx::new();
    l.lyric_body = lines;
    l
}

fn chars(s: &str) -> Vec<char> {
    s.chars().collect()
}

#[test]
fn time_tag_reading() {
    assert_eq!(time_tag_ms_of("01:02.50"), Some(62500));
    assert_eq!(time_tag_ms_of("00:01"), Some(1000));
    assert_eq!(time_tag_ms_of("1:2.3456"), Some(62345));
    assert_eq!(time_tag_ms_of("-1:00.00"), Some(-60000));
    assert_eq!(time_tag_ms_of("00:.5"), Some(500));
    assert_eq!(time_tag_ms_of("00:5."), Some(5000));
    assert_eq!(time_tag_ms_of("ab:00"), None);
    assert_eq!(time_tag_to_time_f64("0.25:1.5"), 16500);
    assert_eq!(time_tag_ms_of("00"), None);
    assert_eq!(time_tag_ms_of("00:1e3"), Some(1_000_000));
    assert_eq!(time_tag_ms_of("1:1e2"), Some(160_000));
    assert_eq!(time_tag_ms_of("00:-1.5"), Some(-1500));
    assert_eq!(time_tag_ms_of("00:+2.25E1"), Some(22500));
    assert_eq!(time_tag_ms_of("00:inf"), Some(i64::MAX));
    assert_eq!(time_tag_ms_of("00:-Infinity"), Some(i64::MIN));
    assert_eq!(time_tag_ms_of("01:NaN"), Some(60000));
    assert_eq!(time_tag_ms_of("00:1e"), None);
    assert_eq!(time_tag_ms_of("1.5:00"), Some(90000));
    assert_eq!(time_tag_ms_of("+1:-30"), Some(30000));
    assert_eq!(time_tag_ms_of("0.00001:0"), Some(0));
    assert_eq!(time_tag_ms_of("1e-1:0"), Some(6000));
    assert_eq!(time_tag_ms_of("inf:0"), Some(i64::MAX));
    assert_eq!(time_tag_ms_of("99999999999999999999:0"), Some(i64::MAX));
    assert_eq!(time_tag_ms_of("00:."), None);
    assert_eq!(time_tag_ms_of("00:1.2.3"), None);
    assert_eq!(time_tag_to_time_f64("03:15.20"), 195200);
}

#[test]
fn time_tag_writing() {
    assert_eq!(time_f64_to_time_tag(62500), "01:2.500");
    assert_eq!(time_f64_to_time_tag(0), "00:0.0");
    assert_eq!(time_f64_to_time_tag(600000), "10:0.0");
    assert_eq!(time_f64_to_time_tag(6000000), "100:0.0");
    // A time a few milliseconds past a second is written without padding.
    assert_eq!(time_f64_to_time_tag(1005), "00:1.5");
    assert_eq!(time_tag_ms_of(&time_f64_to_time_tag(1005)), Some(1500));
}

#[test]
fn time_tag_writing_before_zero() {
    assert_eq!(time_f64_to_time_tag(-1500), "0-1:-2.-500");
    assert_eq!(time_f64_to_time_tag(-500), "0-1:-1.-500");
    assert_eq!(time_f64_to_time_tag(-60000), "0-1:-0.-0");
    assert_eq!(time_f64_to_time_tag(-660000), "-1-1:-0.-0");
    assert_eq!(LyricInline::new(-1500, "x".to_string()).to_string(), "[0-1:-2.-500]x");
}

#[test]
fn time_tag_round_trip_values() {
    for ms in [0i64, 3000, 62500, 123456, 3_599_999, 86_400_100] {
        assert_eq!(time_tag_ms_of(&time_f64_to_time_tag(ms)), Some(ms));
    }
}

#[test]
fn inline_lyric_text() {
    let l = LyricInline::new(62500, "verse".to_string());
    assert_eq!(l.to_string(), "[01:2.500]verse");
    assert_eq!(l.lyric_str(), "verse");
}

#[test]
fn durations_run_to_next_start() {
    let mut lrcx = doc(vec![timed(1000, "a"), timed(3000, "b"), timed(6000, "c")]);
    lrcx.lyric_body[2].duration = 700;
    lrcx.cal_duration_from_start();
    let d: Vec<i64> = lrcx.lyric_body.iter().map(|l| l.duration).collect();
    assert_eq!(d, vec![2000, 3000, 700]);
}

#[test]
fn lookup_by_time() {
    let mut lrcx = doc(vec![timed(1000, "a"), timed(3000, "b"), timed(6000, "c")]);
    lrcx.cal_duration_from_start();
    assert_eq!(lrcx.get_next_lyric_by_time(1000).line.text, "a");
    assert_eq!(lrcx.get_next_lyric_by_time(2999).line.text, "a");
    assert_eq!(lrcx.get_next_lyric_by_time(3000).line.text, "b");
    assert_eq!(lrcx.get_next_lyric_by_time(5999).line.text, "b");
    let none = lrcx.get_next_lyric_by_time(6000);
    assert_eq!((none.start, none.duration, none.line.text.as_str()), (0, 0, ""));
    assert_eq!(lrcx.get_next_lyric_by_time(500).line.text, "");
}

#[test]
fn lookup_takes_first_covering_line() {
    let mut a = timed(0, "first");
    a.duration = 5000;
    let mut b = timed(1000, "second");
    b.duration = 5000;
    let lrcx = doc(vec![a, b]);
    assert_eq!(lrcx.get_next_lyric_by_time(2000).line.text, "first");
    assert_eq!(lrcx.get_next_lyric_by_time(5500).line.text, "second");
}

#[test]
fn position_correction() {
    assert_eq!(adjust_position(5000, -1000), 4000);
    assert_eq!(adjust_position(5000, 1000), 6000);
    assert_eq!(adjust_position(500, -1000), 500);
    assert_eq!(adjust_position(500, 1000), 500);
    assert_eq!(adjust_position(i64::MAX, i64::MAX), i64::MAX);
    let mut lrcx = doc(vec![timed(1000, "a"), timed(3000, "b")]);
    lrcx.cal_duration_from_start();
    assert_eq!(next_inline_lyric(&lrcx, 3500, -1000).line.text, "a");
    assert_eq!(next_inline_lyric(&lrcx, 500, 1000).line.text, "");
}

#[test]
fn tags_kept_sorted_and_distinct() {
    let mut tags: Vec<IDTag> = Vec::new();
    insert_tag(&mut tags, IDTag::new("ti".to_string(), "T".to_string()));
    insert_tag(&mut tags, IDTag::new("ar".to_string(), "B".to_string()));
    insert_tag(&mut tags, IDTag::new("ar".to_string(), "A".to_string()));
    insert_tag(&mut tags, IDTag::new("ti".to_string(), "T".to_string()));
    let got: Vec<(&str, &str)> =
        tags.iter().map(|t| (t.tag_name.as_str(), t.tag_value.as_str())).collect();
    assert_eq!(got, vec![("ar", "A"), ("ar", "B"), ("ti", "T")]);
}

#[test]
fn tag_and_text_order() {
    let a = IDTag::new("al".to_string(), "x".to_string());
    let b = IDTag::new("al".to_string(), "y".to_string());
    assert!(matches!(a.compare(&b), Order::Less));
    assert!(matches!(b.compare(&a), Order::Greater));
    assert!(matches!(a.compare(&a.copy()), Order::Equal));
    assert_eq!(a.to_string(), "[al]x");
    assert!(matches!(compare_chars(&chars("ab"), &chars("abc")), Order::Less));
    assert!(matches!(compare_chars(&chars("b"), &chars("abc")), Order::Greater));
    assert!(matches!(compare_chars(&chars(""), &chars("")), Order::Equal));
}

#[test]
fn saturating_time_arithmetic() {
    assert_eq!(sat_add(i64::MAX, 1), i64::MAX);
    assert_eq!(sat_add(i64::MIN, -1), i64::MIN);
    assert_eq!(sat_add(2, 3), 5);
    assert_eq!(sat_sub(i64::MIN, 1), i64::MIN);
    assert_eq!(sat_sub(i64::MAX, -1), i64::MAX);
    assert_eq!(sat_sub(3000, 1000), 2000);
}

#[test]
fn lyric_line_setters() {
    let mut line = LyricLine::default();
    assert!(line.text.is_empty() && line.word_timeline.is_empty());
    line.set_text("t".to_string());
    line.set_translation("tr".to_string());
    line.set_pronunciation("pr".to_string());
    line.set_word_timeline(&vec![WordTimeline::new(1, 10, 20)]);
    let copy = line.copy();
    assert_eq!(copy.text, "t");
    assert_eq!(copy.translation, "tr");
    assert_eq!(copy.pronunciation, "pr");
    assert_eq!(copy.word_timeline, vec![WordTimeline { start: 10, duration: 20, pos: 1 }]);
    let made = LyricLine::new("x".to_string(), 1, Vec::new(), String::new(), String::new());
    assert_eq!(made.length, 1);
}

#[test]
fn leading_line_added() {
    let empty = with_leading_line(Lrcx::new());
    assert_eq!(empty.lyric_body.len(), 1);
    assert_eq!(empty.lyric_body[0].line.text, "No Lyric for this song");
    assert_eq!(empty.lyric_body[0].start, 0);

    let filled = with_leading_line(doc(vec![timed(1000, "a")]));
    assert_eq!(filled.lyric_body.len(), 2);
    assert_eq!(filled.lyric_body[0].line.text, "");
    assert_eq!(filled.lyric_body[0].start, 0);
    assert_eq!(filled.lyric_body[1].line.text, "a");
}

#[test]
fn lyric_file_names() {
    assert_eq!(lyric_file_name("Adele", "Hello"), "Adele - Hello.lrcx");
    let n = LyricSource::Netease(NeteaseSong {
        name: "Song".to_string(),
        artist: "Singer".to_string(),
        album: String::new(),
        id: String::new(),
    });
    assert_eq!(n.artist_and_title(), ("Singer".to_string(), "Song".to_string()));
    let mut k = KugouSong::new_empty();
    k.name = "K".to_string();
    k.artist = "A".to_string();
    let k = LyricSource::Kugou(k);
    let (artist, title) = k.copy().artist_and_title();
    assert_eq!(lyric_file_name(&artist, &title), "A - K.lrcx");
}

#[test]
fn durations_twice_change_nothing() {
    let mut lrcx = doc(vec![timed(1000, "a"), timed(3000, "b"), timed(6000, "c")]);
    lrcx.lyric_body[2].duration = 700;
    lrcx.cal_duration_from_start();
    let once: Vec<(i64, i64)> = lrcx.lyric_body.iter().map(|l| (l.start, l.duration)).collect();
    lrcx.cal_duration_from_start();
    let twice: Vec<(i64, i64)> = lrcx.lyric_body.iter().map(|l| (l.start, l.duration)).collect();
    assert_eq!(once, twice);
    assert_eq!(twice, vec![(1000, 2000), (3000, 3000), (6000, 700)]);
}
