//! Properties that hold across the library's operations.

use vstd::prelude::*;
use crate::kugou::{krc_line, krc_unmask, krc_words, KrcLineModel};
use crate::json::{first_str_field, json_get, str_field, JsonValue};
use crate::model::{
    clamp_i64, covers, durations_from_start, find_cover, is_first_cover, lemma_find_cover,
    lemma_tag_lt_irreflexive, tags_sorted, TimeLineModel, WordTimeline,
};
use crate::netease::{levenshtein_spec, listed_name, merge_lines, scan_best, NeteaseSongModel};
use crate::decimal::{
    mantissa_end,
    decimal_units, exponent_part, is_mantissa_char, mantissa_digits, scale10, scaled_units,
    spells, unsigned_part,
};
use crate::parse_lyric::{time_tag_ms, time_tag_text};
use crate::text::{
    all_digits, decimal_spec, digit_char, digits_value, find_spec, is_digit, is_first_index,
    lemma_find_spec, nat_digits, split_spec, trim_start_spec,
};

verus! {

/// Once every line but the last lasts until the next one starts, the line
/// shown at a time between the starts of two consecutive lines is the first
/// of them (for lines in order of their starts).
pub proof fn lemma_lookup_after_durations(body: Seq<TimeLineModel>, i: int, t: i64)
    requires
        0 <= i < body.len() - 1,
        forall|a: int, b: int| 0 <= a < b < body.len() ==> #[trigger] body[a].start < #[trigger] body[b].start,
        forall|a: int| 0 <= a < body.len() - 1 ==> #[trigger] body[a + 1].start - body[a].start <= i64::MAX,
        body[i].start <= t < body[i + 1].start,
    ensures
        find_cover(durations_from_start(body), t) == Some(i),
{
    let d = durations_from_start(body);
    assert(d[i].start + d[i].duration == body[i + 1].start) by {
        assert(body[i + 1].start - body[i].start <= i64::MAX);
    }
    assert forall|j: int| 0 <= j < i implies !covers(#[trigger] d[j], t) by {
        assert(body[j + 1].start - body[j].start <= i64::MAX);
        assert(d[j].start + d[j].duration == body[j + 1].start);
        if j + 1 < i {
            assert(body[j + 1].start < body[i].start);
        }
    }
    assert(is_first_cover(d, t, i));
    lemma_find_cover(d, t, i);
}

/// A sorted tag sequence holds no tag twice.
pub proof fn lemma_sorted_tags_distinct(m: Seq<(Seq<char>, Seq<char>)>, i: int, j: int)
    requires
        tags_sorted(m),
        0 <= i < j < m.len(),
    ensures
        m[i] != m[j],
{
    lemma_tag_lt_irreflexive(m[i]);
}

/// The best match of a scan is at least as near to the target as the best
/// it started from and as every song scanned, and it is one of those.
pub proof fn lemma_best_match_nearest(
    songs: Seq<NeteaseSongModel>,
    target: Seq<char>,
    best: NeteaseSongModel,
    distance: int,
)
    ensures
        ({
            let (b, d) = scan_best(songs, target, best, distance);
            &&& d <= distance
            &&& forall|i: int|
                0 <= i < songs.len() ==> d <= levenshtein_spec(listed_name(#[trigger] songs[i]), target)
            &&& (b == best && d == distance) || exists|i: int|
                0 <= i < songs.len() && b == songs[i] && d == levenshtein_spec(listed_name(songs[i]), target)
        }),
    decreases songs.len(),
{
    if songs.len() > 0 {
        let s = songs.last();
        let ds = levenshtein_spec(listed_name(s), target) as int;
        let rest = songs.drop_last();
        let (nb, nd) = if ds < distance {
            (s, ds)
        } else {
            (best, distance)
        };
        lemma_best_match_nearest(rest, target, nb, nd);
        let (b, d) = scan_best(rest, target, nb, nd);
        assert forall|i: int| 0 <= i < songs.len() implies d <= levenshtein_spec(
            listed_name(#[trigger] songs[i]),
            target,
        ) by {
            if i < songs.len() - 1 {
                assert(songs[i] == rest[i]);
            }
        }
        if !(b == nb && d == nd) {
            let k = choose|k: int|
                0 <= k < rest.len() && b == rest[k] && d == levenshtein_spec(listed_name(rest[k]), target);
            assert(songs[k] == rest[k]);
        } else if ds < distance {
            assert(songs[songs.len() - 1] == s);
        }
    }
}

/// Word positions in a KRC line only grow, never pass the end of the text,
/// and the last word ends with the text.
pub proof fn lemma_krc_word_positions(pieces: Seq<Seq<char>>, line_start: i64)
    requires
        krc_words(pieces, line_start) is Some,
        krc_words(pieces, line_start).unwrap().0.len() <= usize::MAX,
    ensures
        ({
            let (text, words) = krc_words(pieces, line_start).unwrap();
            &&& forall|i: int| 0 <= i < words.len() ==> (#[trigger] words[i]).pos <= text.len()
            &&& forall|i: int, j: int| 0 <= i < j < words.len() ==> (#[trigger] words[i]).pos <= (#[trigger] words[j]).pos
            &&& words.len() > 0 ==> words.last().pos == text.len()
        }),
    decreases pieces.len(),
{
    if pieces.len() > 0 {
        let (text, words) = krc_words(pieces, line_start).unwrap();
        let (pt, pw) = krc_words(pieces.drop_last(), line_start).unwrap();
        let raw = pieces.last();
        match crate::text::find_spec(raw, '>') {
            None => {
                lemma_krc_word_positions(pieces.drop_last(), line_start);
            },
            Some(k) => {
                assert(text == pt + raw.skip(k + 1));
                assert(pt.len() <= text.len());
                lemma_krc_word_positions(pieces.drop_last(), line_start);
                assert(words == pw.push(words.last()));
                assert(words.last().pos == text.len());
                assert forall|i: int, j: int| 0 <= i < j < words.len() implies (#[trigger] words[i]).pos
                    <= (#[trigger] words[j]).pos by {
                    if j < words.len() - 1 {
                        assert(words[i] == pw[i] && words[j] == pw[j]);
                    } else {
                        assert(words[i] == pw[i]);
                    }
                }
                assert forall|i: int| 0 <= i < words.len() implies (#[trigger] words[i]).pos <= text.len() by {
                    if i < words.len() - 1 {
                        assert(words[i] == pw[i]);
                    }
                }
            },
        }
    }
}

/// Attaching translations and pronunciations keeps every line's start,
/// duration, text and word timing.
pub proof fn lemma_merge_keeps_lines(
    orig: Seq<TimeLineModel>,
    tr: Seq<TimeLineModel>,
    pr: Seq<TimeLineModel>,
)
    ensures
        merge_lines(orig, tr, pr).0.len() == orig.len(),
        forall|i: int|
            0 <= i < orig.len() ==> {
                let m = #[trigger] merge_lines(orig, tr, pr).0[i];
                &&& m.start == orig[i].start
                &&& m.duration == orig[i].duration
                &&& m.line.text == orig[i].line.text
                &&& m.line.length == orig[i].line.length
                &&& m.line.word_timeline == orig[i].line.word_timeline
            },
    decreases orig.len(),
{
    if orig.len() > 0 {
        lemma_merge_keeps_lines(orig.drop_last(), tr, pr);
        let prev = merge_lines(orig.drop_last(), tr, pr).0;
        assert forall|i: int| 0 <= i < orig.len() - 1 implies merge_lines(orig, tr, pr).0[i] == prev[i] by {
        }
    }
}

/// The decimal digits of `n` are digits, and read back as `n`; one digit
/// below 10, three from 100 to 999.
proof fn lemma_nat_digits(n: nat)
    ensures
        all_digits(nat_digits(n)),
        digits_value(nat_digits(n)) == n,
        nat_digits(n).len() >= 1,
        n < 10 ==> nat_digits(n).len() == 1,
        10 <= n < 100 ==> nat_digits(n).len() == 2,
        100 <= n < 1000 ==> nat_digits(n).len() == 3,
    decreases n,
{
    let d = digit_char((n % 10) as int);
    assert(d as int == '0' as int + n % 10);
    if n < 10 {
        let s = nat_digits(n);
        assert(s.drop_last() =~= Seq::<char>::empty());
        assert(s.last() == d);
        assert(digits_value(s) == digits_value(s.drop_last()) * 10 + (d as int - '0' as int));
    } else {
        lemma_nat_digits(n / 10);
        let p = nat_digits(n / 10);
        let s = nat_digits(n);
        assert(s == p.push(d));
        assert(s.drop_last() =~= p);
        assert(s.last() == d);
        assert(digits_value(s) == digits_value(p) * 10 + (d as int - '0' as int));
        assert forall|i: int| 0 <= i < s.len() implies is_digit(#[trigger] s[i]) by {
            if i < p.len() {
                assert(s[i] == p[i]);
            }
        }
    }
}

/// A string of digits holds neither `:` nor `.`.
proof fn lemma_digits_free_of(s: Seq<char>, c: char)
    requires
        all_digits(s),
        !is_digit(c),
    ensures
        !s.contains(c),
{
    if s.contains(c) {
        let i = choose|i: int| 0 <= i < s.len() && s[i] == c;
        assert(is_digit(s[i]));
    }
}

/// `a`, then `c`, then `b` splits at `c` into `a` and `b`, where neither
/// holds `c`.
proof fn lemma_split_two(a: Seq<char>, b: Seq<char>, c: char)
    requires
        !a.contains(c),
        !b.contains(c),
    ensures
        split_spec(a + seq![c] + b, c) == seq![a, b],
        find_spec(a + seq![c] + b, c) == Some(a.len() as int),
{
    let s = a + seq![c] + b;
    assert forall|j: int| 0 <= j < a.len() implies s[j] != c by {
        assert(s[j] == a[j]);
    }
    assert(is_first_index(s, c, a.len() as int));
    lemma_find_spec(s, c, a.len() as int);
    assert(s.take(a.len() as int) =~= a);
    assert(s.skip(a.len() as int + 1) =~= b);
    assert(find_spec(b, c) is None);
    assert(split_spec(b, c) == seq![b]);
    assert(split_spec(s, c) =~= seq![a, b]);
}

/// A time of whole seconds, or of at least a tenth of a second past them,
/// is read back from the time tag written for it. (A time 1 to 99 ms past
/// a second is not: `1005` ms is written `00:1.5`, which reads as 1500 ms.)
pub proof fn lemma_time_tag_roundtrip(ms: i64)
    requires
        ms >= 0,
        ms % 1000 == 0 || ms % 1000 >= 100,
    ensures
        time_tag_ms(time_tag_text(ms as int)) == Some(ms),
{
    let secs = ms / 1000;
    let mm = secs / 60;
    let s = secs % 60;
    let f = ms % 1000;
    let a = decimal_spec(mm / 10) + decimal_spec(mm % 10);
    let b = decimal_spec(s as int);
    let c = decimal_spec(f as int);
    lemma_nat_digits((mm / 10) as nat);
    lemma_nat_digits((mm % 10) as nat);
    lemma_nat_digits(s as nat);
    lemma_nat_digits(f as nat);
    let a1 = nat_digits((mm / 10) as nat);
    let a2 = nat_digits((mm % 10) as nat);
    assert(a == a1 + a2);
    assert(a2.len() == 1);
    assert((a1 + a2).drop_last() =~= a1);
    assert(digits_value(a) == (mm / 10) * 10 + mm % 10);
    assert(digits_value(a) == mm);
    assert(all_digits(a)) by {
        assert forall|i: int| 0 <= i < a.len() implies is_digit(#[trigger] a[i]) by {
            if i < a1.len() {
                assert(a[i] == a1[i]);
            } else {
                assert(a[i] == a2[i - a1.len()]);
            }
        }
    }
    lemma_digits_free_of(a, ':');
    lemma_digits_free_of(b, ':');
    lemma_digits_free_of(b, '.');
    lemma_digits_free_of(c, ':');
    lemma_digits_free_of(c, '.');
    let rest = b + seq!['.'] + c;
    assert(!rest.contains(':')) by {
        if rest.contains(':') {
            let i = choose|i: int| 0 <= i < rest.len() && rest[i] == ':';
            if i < b.len() {
                assert(rest[i] == b[i]);
            } else if i > b.len() {
                assert(rest[i] == c[i - b.len() - 1]);
            }
        }
    }
    let text = time_tag_text(ms as int);
    assert(text =~= a + seq![':'] + rest);
    lemma_split_two(a, rest, ':');
    let parts = split_spec(text, ':');
    assert(parts[0] == a && parts[1] == rest);
    assert(a[0] != '-' && a[0] != '+') by {
        assert(is_digit(a[0]));
    }
    assert(unsigned_part(a) == a);
    assert(!spells(a, seq!['i', 'n', 'f']));
    assert(!spells(a, seq!['i', 'n', 'f', 'i', 'n', 'i', 't', 'y']));
    assert(!spells(a, seq!['n', 'a', 'n']));
    assert forall|i: int| 0 <= i < a.len() implies is_mantissa_char(#[trigger] a[i]) by {
        assert(is_digit(a[i]));
    }
    lemma_mantissa_run(a, 0);
    assert(a.take(a.len() as int) =~= a);
    assert(a.skip(a.len() as int) =~= Seq::<char>::empty());
    lemma_digits_free_of(a, '.');
    assert(a + Seq::<char>::empty() =~= a);
    assert(mantissa_digits(a) == Some((a, 0int)));
    assert(scale10(6 * mm, 4) == 60000 * mm) by {
        reveal_with_fuel(scale10, 5);
    }
    assert(scaled_units(a, 6, 4) == Some((60000 * mm) as i64));
    lemma_split_two(b, c, '.');
    assert(rest.take(b.len() as int) =~= b);
    assert(rest.skip(b.len() as int + 1) =~= c);
    lemma_digits_concat(b, c);
    let v = digits_value(b + c);
    assert(v == scale10(digits_value(b), c.len() as int) + f);
    assert(scale10(digits_value(b + c), 3 - c.len()) == s * 1000 + f) by {
        if f == 0 {
            assert(c.len() == 1);
            assert(scale10(digits_value(b), 1) == digits_value(b) * 10) by {
                reveal_with_fuel(scale10, 2);
            }
            assert(scale10(v, 2) == v * 100) by {
                reveal_with_fuel(scale10, 3);
            }
        } else {
            assert(c.len() == 3);
            assert(scale10(digits_value(b), 3) == digits_value(b) * 1000) by {
                reveal_with_fuel(scale10, 4);
            }
        }
    }
    assert(is_digit(rest[0])) by {
        assert(rest[0] == b[0]);
    }
    assert(unsigned_part(rest) == rest);
    assert(!spells(rest, seq!['i', 'n', 'f']));
    assert(!spells(rest, seq!['i', 'n', 'f', 'i', 'n', 'i', 't', 'y']));
    assert(!spells(rest, seq!['n', 'a', 'n']));
    assert forall|i: int| 0 <= i < rest.len() implies is_mantissa_char(#[trigger] rest[i]) by {
        if i < b.len() {
            assert(rest[i] == b[i]);
        } else if i > b.len() {
            assert(rest[i] == c[i - b.len() - 1]);
        }
    }
    lemma_mantissa_run(rest, 0);
    assert(rest.take(rest.len() as int) =~= rest);
    assert(rest.skip(rest.len() as int) =~= Seq::<char>::empty());
    assert(exponent_part(rest.skip(rest.len() as int)) == Some(0int));
    assert(mantissa_digits(rest) == Some((b + c, c.len() as int)));
    assert(decimal_units(rest, 3) == Some((s * 1000 + f) as i64));
    assert(mm * 60000 + s * 1000 + f == ms);
}

/// The value of digits followed by more digits.
pub proof fn lemma_digits_concat(a: Seq<char>, c: Seq<char>)
    ensures
        digits_value(a + c) == scale10(digits_value(a), c.len() as int) + digits_value(c),
    decreases c.len(),
{
    if c.len() == 0 {
        assert(a + c =~= a);
    } else {
        lemma_digits_concat(a, c.drop_last());
        assert((a + c).drop_last() =~= a + c.drop_last());
        assert((a + c).last() == c.last());
    }
}

/// A run of mantissa characters reaches the end of the text.
proof fn lemma_mantissa_run(s: Seq<char>, i: int)
    requires
        0 <= i <= s.len(),
        forall|j: int| 0 <= j < s.len() ==> is_mantissa_char(#[trigger] s[j]),
    ensures
        mantissa_end(s, i) == s.len(),
    decreases s.len() - i,
{
    if i < s.len() {
        lemma_mantissa_run(s, i + 1);
    }
}

/// Setting durations from the starts a second time changes nothing: the
/// starts, texts and the last line's duration are kept, and every other
/// duration is again the gap to the next start.
pub proof fn lemma_durations_idempotent(body: Seq<TimeLineModel>)
    ensures
        durations_from_start(durations_from_start(body)) == durations_from_start(body),
{
    let d = durations_from_start(body);
    assert(durations_from_start(d) =~= d);
}

/// The masking key of KRC downloads, byte by byte.
pub open spec fn kugou_key() -> Seq<u8> {
    seq![64u8, 71, 97, 119, 94, 50, 116, 71, 81, 54, 49, 45, 206, 210, 110, 105]
}

/// Unmasking XORs every byte with the key byte at its position modulo 16:
/// the whole 16-byte key is used, and the length is kept.
pub proof fn lemma_krc_unmask_uses_whole_key(data: Seq<u8>)
    ensures
        krc_unmask(data).len() == data.len(),
        forall|i: int| 0 <= i < data.len() ==> #[trigger] krc_unmask(data)[i] == data[i] ^ kugou_key()[i % 16],
{
    assert forall|i: int| 0 <= i < data.len() implies #[trigger] krc_unmask(data)[i] == data[i] ^ kugou_key()[i % 16] by {
        assert(0 <= i % 16 < 16);
    }
}

/// The `<`-pieces of a word-timed line that carry a timing (hold a `>`).
pub open spec fn timed_pieces(p: Seq<Seq<char>>) -> Seq<Seq<char>>
    decreases p.len(),
{
    if p.len() == 0 {
        Seq::empty()
    } else if p.last().contains('>') {
        timed_pieces(p.drop_last()).push(p.last())
    } else {
        timed_pieces(p.drop_last())
    }
}

/// The word of a timed piece: what follows its first `>`.
pub open spec fn piece_word(p: Seq<char>) -> Seq<char> {
    p.skip(find_spec(p, '>').unwrap() + 1)
}

/// The offset text of a timed piece: its first `,`-field before the `>`.
pub open spec fn piece_offset(p: Seq<char>) -> Seq<char> {
    split_spec(p.take(find_spec(p, '>').unwrap()), ',')[0]
}

/// The duration text of a timed piece: its second `,`-field before the `>`.
pub open spec fn piece_duration(p: Seq<char>) -> Seq<char> {
    split_spec(p.take(find_spec(p, '>').unwrap()), ',')[1]
}

/// The words of timed pieces put together, in order.
pub open spec fn joined_words(t: Seq<Seq<char>>) -> Seq<char>
    decreases t.len(),
{
    if t.len() == 0 {
        Seq::empty()
    } else {
        joined_words(t.drop_last()) + piece_word(t.last())
    }
}

/// The words of a KRC line: one per timed piece, the text is the words put
/// together as they are, and each word starts at the line's start plus its
/// own offset.
pub proof fn lemma_krc_words_meaning(pieces: Seq<Seq<char>>, s: i64)
    requires
        krc_words(pieces, s) is Some,
    ensures
        ({
            let (text, words) = krc_words(pieces, s).unwrap();
            let t = timed_pieces(pieces);
            &&& words.len() == t.len()
            &&& text == joined_words(t)
            &&& forall|m: int| 0 <= m < words.len() ==> (#[trigger] words[m]).start == clamp_i64(
                s + decimal_units(piece_offset(t[m]), 0).unwrap(),
            )
            &&& forall|m: int| 0 <= m < words.len() ==> (#[trigger] words[m]).duration
                == decimal_units(piece_duration(t[m]), 0).unwrap()
            &&& forall|m: int| 0 <= m < words.len() ==> (#[trigger] words[m]).pos == joined_words(
                t.take(m + 1),
            ).len() as usize
        }),
    decreases pieces.len(),
{
    if pieces.len() > 0 {
        lemma_krc_words_meaning(pieces.drop_last(), s);
        let raw = pieces.last();
        let (text, words) = krc_words(pieces, s).unwrap();
        let (pt, pw) = krc_words(pieces.drop_last(), s).unwrap();
        let t = timed_pieces(pieces);
        let pt_t = timed_pieces(pieces.drop_last());
        if raw.contains('>') {
            assert(find_spec(raw, '>') is Some);
            assert(t == pt_t.push(raw));
            assert(t.drop_last() =~= pt_t);
            assert(words == pw.push(words.last()));
            assert(t.take(t.len() as int) =~= t);
            assert forall|m: int| 0 <= m < words.len() implies {
                &&& (#[trigger] words[m]).start == clamp_i64(s + decimal_units(piece_offset(t[m]), 0).unwrap())
                &&& words[m].duration == decimal_units(piece_duration(t[m]), 0).unwrap()
                &&& words[m].pos == joined_words(t.take(m + 1)).len() as usize
            } by {
                if m < pw.len() {
                    assert(words[m] == pw[m]);
                    assert(t[m] == pt_t[m]);
                    assert(t.take(m + 1) =~= pt_t.take(m + 1));
                }
            }
        } else {
            assert(find_spec(raw, '>') is None);
        }
    }
}

/// The text of a KRC line after its timing bracket.
pub open spec fn krc_line_rest(line: Seq<char>) -> Seq<char> {
    let u = trim_start_spec(line, '[');
    u.skip(find_spec(u, ']').unwrap() + 1)
}

/// The `,`-fields of a KRC line's timing bracket.
pub open spec fn krc_line_timing(line: Seq<char>) -> Seq<Seq<char>> {
    let u = trim_start_spec(line, '[');
    split_spec(u.take(find_spec(u, ']').unwrap()), ',')
}

/// A timed KRC line starts and lasts as its timing bracket's first two
/// fields say, and keeps the text after its timing as it is; when that
/// text is timed word by word, the line's text is the words put together
/// (spaces and all), each word starts at the line's start plus its own
/// offset, and the last word ends at the end of the text.
pub proof fn lemma_krc_line_meaning(line: Seq<char>)
    requires
        krc_line(line) is Line,
    ensures
        ({
            let t = krc_line(line)->Line_0;
            let rest = krc_line_rest(line);
            let w = t.line.word_timeline;
            let tp = timed_pieces(split_spec(rest, '<'));
            &&& t.start == decimal_units(krc_line_timing(line)[0], 0).unwrap()
            &&& t.duration == decimal_units(krc_line_timing(line)[1], 0).unwrap()
            &&& (!rest.contains('<') && !rest.contains('>')) ==> t.line.text == rest && w.len() == 0
            &&& (rest.contains('<') || rest.contains('>')) ==> {
                &&& t.line.text == joined_words(tp)
                &&& w.len() == tp.len()
                &&& forall|m: int| 0 <= m < w.len() ==> (#[trigger] w[m]).start == clamp_i64(
                    t.start + decimal_units(piece_offset(tp[m]), 0).unwrap(),
                )
                &&& forall|m: int| 0 <= m < w.len() ==> (#[trigger] w[m]).duration == decimal_units(
                    piece_duration(tp[m]),
                    0,
                ).unwrap()
                &&& (w.len() > 0 && t.line.text.len() <= usize::MAX) ==> w.last().pos == t.line.text.len()
            }
        }),
{
    let t = krc_line(line)->Line_0;
    let rest = krc_line_rest(line);
    if rest.contains('<') || rest.contains('>') {
        let pieces = split_spec(rest, '<');
        lemma_krc_words_meaning(pieces, t.start);
        let (text, words) = krc_words(pieces, t.start).unwrap();
        if words.len() > 0 && text.len() <= usize::MAX {
            lemma_krc_word_positions(pieces, t.start);
        }
    }
}

/// The field read from the first element of a list is read from the
/// element at index 0, whatever the other elements hold.
pub proof fn lemma_first_str_field_reads_index_zero(v: JsonValue, list: Seq<char>, key: Seq<char>)
    requires
        json_get(v, list) matches Some(JsonValue::Array(items)) && items@.len() > 0,
    ensures
        first_str_field(v, list, key) == str_field(
            (json_get(v, list)->Some_0)->Array_0@[0],
            key,
        ),
{
}

/// Every translation or pronunciation a merged line carries is the one it
/// had, empty, or exactly the text of one of the attached lines.
pub proof fn lemma_merge_attaches_texts_as_they_are(
    orig: Seq<TimeLineModel>,
    tr: Seq<TimeLineModel>,
    pr: Seq<TimeLineModel>,
)
    ensures
        forall|i: int|
            0 <= i < merge_lines(orig, tr, pr).0.len() ==> {
                let tx = (#[trigger] merge_lines(orig, tr, pr).0[i]).line.translation;
                tx == orig[i].line.translation || tx.len() == 0 || exists|j: int|
                    0 <= j < tr.len() && (#[trigger] tr[j]).start - orig[i].start < 100 && tx
                        == tr[j].line.text
            },
        forall|i: int|
            0 <= i < merge_lines(orig, tr, pr).0.len() ==> {
                let px = (#[trigger] merge_lines(orig, tr, pr).0[i]).line.pronunciation;
                px == orig[i].line.pronunciation || px.len() == 0 || exists|j: int|
                    0 <= j < pr.len() && (#[trigger] pr[j]).start - orig[i].start < 100 && px
                        == pr[j].line.text
            },
    decreases orig.len(),
{
    if orig.len() > 0 {
        lemma_merge_attaches_texts_as_they_are(orig.drop_last(), tr, pr);
        lemma_merge_keeps_lines(orig.drop_last(), tr, pr);
        let prev = merge_lines(orig.drop_last(), tr, pr);
        let cur = merge_lines(orig, tr, pr);
        let n = orig.len() - 1;
        assert forall|i: int| 0 <= i < cur.0.len() implies {
            let tx = (#[trigger] cur.0[i]).line.translation;
            tx == orig[i].line.translation || tx.len() == 0 || exists|j: int|
                0 <= j < tr.len() && (#[trigger] tr[j]).start - orig[i].start < 100 && tx
                    == tr[j].line.text
        } by {
            if i < n {
                assert(cur.0[i] == prev.0[i]);
                assert(orig.drop_last()[i] == orig[i]);
            } else {
                let k = prev.2;
                if 0 <= k < tr.len() && tr[k].start - orig.last().start < 100 {
                    assert(cur.0[i].line.translation == tr[k].line.text);
                }
            }
        }
        assert forall|i: int| 0 <= i < cur.0.len() implies {
            let px = (#[trigger] cur.0[i]).line.pronunciation;
            px == orig[i].line.pronunciation || px.len() == 0 || exists|j: int|
                0 <= j < pr.len() && (#[trigger] pr[j]).start - orig[i].start < 100 && px
                    == pr[j].line.text
        } by {
            if i < n {
                assert(cur.0[i] == prev.0[i]);
                assert(orig.drop_last()[i] == orig[i]);
            } else {
                let k = prev.1;
                if 0 <= k < pr.len() && pr[k].start - orig.last().start < 100 {
                    assert(cur.0[i].line.pronunciation == pr[k].line.text);
                }
            }
        }
    }
}

/// A Netease or QQ Music song is credited to the first artist (singer) its
/// entry lists, whatever artists follow.
pub proof fn lemma_song_artist_is_first_listed(song: JsonValue)
    ensures
        (json_get(song, "artists"@) matches Some(JsonValue::Array(items)) && items@.len() > 0)
            ==> crate::netease::netease_song_of(song).artist == str_field(
            (json_get(song, "artists"@)->Some_0)->Array_0@[0],
            "name"@,
        ).unwrap(),
        (json_get(song, "singer"@) matches Some(JsonValue::Array(items)) && items@.len() > 0)
            ==> crate::qq::qq_song_of(song).artist == str_field(
            (json_get(song, "singer"@)->Some_0)->Array_0@[0],
            "name"@,
        ).unwrap(),
{
}

} // verus!
