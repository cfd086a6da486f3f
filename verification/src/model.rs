//! The lyric model: tags, timed lines, word timelines and the `Lrcx` document.
//!
//! Times are whole milliseconds (`i64`). A document's metadata is a set of
//! tags, kept as a vector sorted by (name, value) without repetitions.

use vstd::prelude::*;
use crate::text::{chars_of, views};

verus! {

/// Lexicographic order on character sequences (code point by code point;
/// a proper prefix comes first).
pub open spec fn seq_lt(a: Seq<char>, b: Seq<char>) -> bool
    decreases a.len(),
{
    if a.len() == 0 {
        b.len() > 0
    } else if b.len() == 0 {
        false
    } else if a[0] != b[0] {
        a[0] < b[0]
    } else {
        seq_lt(a.drop_first(), b.drop_first())
    }
}

pub proof fn lemma_seq_lt_irreflexive(a: Seq<char>)
    ensures
        !seq_lt(a, a),
    decreases a.len(),
{
    if a.len() > 0 {
        lemma_seq_lt_irreflexive(a.drop_first());
    }
}

pub proof fn lemma_seq_lt_transitive(a: Seq<char>, b: Seq<char>, c: Seq<char>)
    requires
        seq_lt(a, b),
        seq_lt(b, c),
    ensures
        seq_lt(a, c),
    decreases a.len(),
{
    if a.len() > 0 && b.len() > 0 && c.len() > 0 {
        if a[0] == b[0] && b[0] == c[0] {
            lemma_seq_lt_transitive(a.drop_first(), b.drop_first(), c.drop_first());
        }
    }
}

pub proof fn lemma_seq_lt_total(a: Seq<char>, b: Seq<char>)
    ensures
        a == b || seq_lt(a, b) || seq_lt(b, a),
    decreases a.len(),
{
    if a.len() > 0 && b.len() > 0 {
        if a[0] == b[0] {
            lemma_seq_lt_total(a.drop_first(), b.drop_first());
            if a.drop_first() == b.drop_first() {
                assert(a =~= seq![a[0]] + a.drop_first());
                assert(b =~= seq![b[0]] + b.drop_first());
            }
        } else {

        }
    } else if a.len() == 0 && b.len() == 0 {
        assert(a =~= b);
    }
}

/// The three outcomes of a comparison.
#[derive(PartialEq, Eq, Structural, Clone, Copy, Debug)]
pub enum Order {
    Less,
    Equal,
    Greater,
}

/// Compares two character sequences lexicographically.
pub fn compare_chars(a: &[char], b: &[char]) -> (r: Order)
    ensures
        r == Order::Less <==> seq_lt(a@, b@),
        r == Order::Equal <==> a@ == b@,
        r == Order::Greater <==> seq_lt(b@, a@),
{
    let mut i: usize = 0;
    proof {
        assert(a@.skip(0) =~= a@);
        assert(b@.skip(0) =~= b@);
    }
    while i < a.len() && i < b.len() && a[i] == b[i]
        invariant
            i <= a@.len(),
            i <= b@.len(),
            a@.take(i as int) == b@.take(i as int),
            seq_lt(a@, b@) == seq_lt(a@.skip(i as int), b@.skip(i as int)),
            seq_lt(b@, a@) == seq_lt(b@.skip(i as int), a@.skip(i as int)),
        decreases a@.len() - i,
    {
        proof {
            assert(a@.skip(i as int).drop_first() =~= a@.skip(i + 1));
            assert(b@.skip(i as int).drop_first() =~= b@.skip(i + 1));
            assert(a@.take(i + 1) =~= a@.take(i as int).push(a@[i as int]));
            assert(b@.take(i + 1) =~= b@.take(i as int).push(b@[i as int]));
        }
        i = i + 1;
    }
    proof {
        lemma_seq_lt_irreflexive(a@);
    }
    if i < a.len() && i < b.len() {
        proof {
            if a@ == b@ {
                assert(a@[i as int] == b@[i as int]);
            }
        }
        if a[i] < b[i] {
            Order::Less
        } else {
            Order::Greater
        }
    } else if i < a.len() {
        proof {
            assert(b@.take(i as int) =~= b@);
            assert(a@.len() != b@.len());
        }
        Order::Greater
    } else if i < b.len() {
        proof {
            assert(a@.take(i as int) =~= a@);
            assert(a@.len() != b@.len());
        }
        Order::Less
    } else {
        proof {
            assert(a@.take(i as int) =~= a@);
            assert(b@.take(i as int) =~= b@);
        }
        Order::Equal
    }
}

/// A metadata tag such as `[ar]` with its value.
pub struct IDTag {
    pub tag_name: String,
    pub tag_value: String,
}

impl View for IDTag {
    type V = (Seq<char>, Seq<char>);

    open spec fn view(&self) -> (Seq<char>, Seq<char>) {
        (self.tag_name@, self.tag_value@)
    }
}

/// The order of tags: by name, then by value.
pub open spec fn tag_lt(a: (Seq<char>, Seq<char>), b: (Seq<char>, Seq<char>)) -> bool {
    seq_lt(a.0, b.0) || (a.0 == b.0 && seq_lt(a.1, b.1))
}

pub proof fn lemma_tag_lt_transitive(
    a: (Seq<char>, Seq<char>),
    b: (Seq<char>, Seq<char>),
    c: (Seq<char>, Seq<char>),
)
    requires
        tag_lt(a, b),
        tag_lt(b, c),
    ensures
        tag_lt(a, c),
{
    if seq_lt(a.0, b.0) && seq_lt(b.0, c.0) {
        lemma_seq_lt_transitive(a.0, b.0, c.0);
    } else if seq_lt(a.0, b.0) {
    } else if seq_lt(b.0, c.0) {
    } else {
        lemma_seq_lt_transitive(a.1, b.1, c.1);
    }
}

pub proof fn lemma_tag_lt_irreflexive(a: (Seq<char>, Seq<char>))
    ensures
        !tag_lt(a, a),
{
    lemma_seq_lt_irreflexive(a.0);
    lemma_seq_lt_irreflexive(a.1);
}

impl IDTag {
    pub fn new(tag_name: String, tag_value: String) -> (r: IDTag)
        ensures
            r.tag_name == tag_name,
            r.tag_value == tag_value,
    {
        IDTag { tag_name, tag_value }
    }

    /// A copy of the tag.
    pub fn copy(&self) -> (r: IDTag)
        ensures
            r@ == self@,
    {
        IDTag { tag_name: self.tag_name.clone(), tag_value: self.tag_value.clone() }
    }

    /// `[name]value`.
    pub fn to_string(&self) -> (r: String)
        ensures
            r@ == seq!['['] + self.tag_name@ + seq![']'] + self.tag_value@,
    {
        let mut out: Vec<char> = Vec::new();
        out.push('[');
        crate::text::push_str(&mut out, self.tag_name.as_str());
        out.push(']');
        crate::text::push_str(&mut out, self.tag_value.as_str());
        let r = crate::text::string_of(out.as_slice());
        assert(r@ =~= seq!['['] + self.tag_name@ + seq![']'] + self.tag_value@);
        r
    }

    /// Compares two tags by name, then by value.
    pub fn compare(&self, other: &IDTag) -> (r: Order)
        ensures
            r == Order::Less <==> tag_lt(self@, other@),
            r == Order::Equal <==> self@ == other@,
            r == Order::Greater <==> tag_lt(other@, self@),
    {
        let a = chars_of(self.tag_name.as_str());
        let b = chars_of(other.tag_name.as_str());
        proof {
            lemma_seq_lt_irreflexive(a@);
        }
        match compare_chars(a.as_slice(), b.as_slice()) {
            Order::Equal => {
                let c = chars_of(self.tag_value.as_str());
                let d = chars_of(other.tag_value.as_str());
                compare_chars(c.as_slice(), d.as_slice())
            },
            o => {
                proof {
                    lemma_seq_lt_total(a@, b@);
                    if seq_lt(a@, b@) && seq_lt(b@, a@) {
                        lemma_seq_lt_transitive(a@, b@, a@);
                    }
                }
                o
            },
        }
    }
}


/// `x` limited to the range of `i64`.
pub open spec fn clamp_i64(x: int) -> i64 {
    if x > i64::MAX {
        i64::MAX
    } else if x < i64::MIN {
        i64::MIN
    } else {
        x as i64
    }
}

/// `a + b`, saturating at the bounds of `i64`.
pub fn sat_add(a: i64, b: i64) -> (r: i64)
    ensures
        r == clamp_i64(a + b),
{
    let s: i128 = a as i128 + b as i128;
    if s > i64::MAX as i128 {
        i64::MAX
    } else if s < i64::MIN as i128 {
        i64::MIN
    } else {
        s as i64
    }
}

/// `a - b`, saturating at the bounds of `i64`.
pub fn sat_sub(a: i64, b: i64) -> (r: i64)
    ensures
        r == clamp_i64(a - b),
{
    let s: i128 = a as i128 - b as i128;
    if s > i64::MAX as i128 {
        i64::MAX
    } else if s < i64::MIN as i128 {
        i64::MIN
    } else {
        s as i64
    }
}

/// The views of a sequence of tags.
pub open spec fn tag_views(m: Seq<IDTag>) -> Seq<(Seq<char>, Seq<char>)> {
    m.map_values(|t: IDTag| t@)
}

/// Strictly increasing, hence without repetitions.
pub open spec fn tags_sorted(m: Seq<(Seq<char>, Seq<char>)>) -> bool {
    forall|i: int, j: int| 0 <= i < j < m.len() ==> tag_lt(#[trigger] m[i], #[trigger] m[j])
}

/// The set of tags held by a metadata vector.
pub open spec fn tag_set(m: Seq<IDTag>) -> Set<(Seq<char>, Seq<char>)> {
    tag_views(m).to_set()
}

/// Adds `tag` to a sorted metadata vector; a tag already present is not repeated.
pub fn insert_tag(metadata: &mut Vec<IDTag>, tag: IDTag)
    requires
        tags_sorted(tag_views(old(metadata)@)),
    ensures
        tags_sorted(tag_views(final(metadata)@)),
        tag_set(final(metadata)@) == tag_set(old(metadata)@).insert(tag@),
{
    let ghost old_m = tag_views(metadata@);
    let mut i: usize = 0;
    let mut found = false;
    while i < metadata.len()
        invariant_except_break
            i <= metadata@.len(),
            metadata@ == old(metadata)@,
            forall|j: int| 0 <= j < i ==> tag_lt(#[trigger] old_m[j], tag@),
            !found,
        invariant
            old_m == tag_views(metadata@),
            tags_sorted(old_m),
        ensures
            i <= metadata@.len(),
            metadata@ == old(metadata)@,
            forall|j: int| 0 <= j < i ==> tag_lt(#[trigger] old_m[j], tag@),
            found ==> i < metadata@.len() && old_m[i as int] == tag@,
            !found && i < metadata@.len() ==> tag_lt(tag@, old_m[i as int]),
        decreases metadata@.len() - i,
    {
        let o = metadata[i].compare(&tag);
        assert(old_m[i as int] == metadata@[i as int]@);
        match o {
            Order::Less => {
                i = i + 1;
            },
            Order::Equal => {
                found = true;
                break;
            },
            Order::Greater => {
                break;
            },
        }
    }
    if found {
        proof {
            assert(tag_views(metadata@).contains(tag@));
            assert(tag_set(metadata@) =~= tag_set(metadata@).insert(tag@));
        }
        return;
    }
    let ghost t = tag@;
    metadata.insert(i, tag);
    proof {
        let new_m = tag_views(metadata@);
        assert(new_m =~= old_m.insert(i as int, t));
        assert forall|a: int, b: int| 0 <= a < b < new_m.len() implies tag_lt(
            #[trigger] new_m[a],
            #[trigger] new_m[b],
        ) by {
            if b < i {
            } else if b == i {
            } else if a < i {
                assert(new_m[b] == old_m[b - 1]);
                assert(new_m[a] == old_m[a]);
                assert(tag_lt(old_m[a], old_m[b - 1]));
            } else if a == i {
                assert(new_m[b] == old_m[b - 1]);
                if b - 1 > i {
                    assert(tag_lt(old_m[i as int], old_m[b - 1]));
                    lemma_tag_lt_transitive(t, old_m[i as int], old_m[b - 1]);
                }
            } else {
                assert(new_m[b] == old_m[b - 1]);
                assert(new_m[a] == old_m[a - 1]);
                assert(tag_lt(old_m[a - 1], old_m[b - 1]));
            }
        }
        assert forall|x| tag_set(metadata@).contains(x) <==> tag_set(old(metadata)@).insert(t).contains(x) by {
            if tag_set(metadata@).contains(x) {
                let k = choose|k: int| 0 <= k < new_m.len() && new_m[k] == x;
                if k < i {
                    assert(old_m[k] == x);
                } else if k > i {
                    assert(old_m[k - 1] == x);
                }
            }
            if tag_set(old(metadata)@).contains(x) && x != t {
                let k = choose|k: int| 0 <= k < old_m.len() && old_m[k] == x;
                if k < i {
                    assert(new_m[k] == x);
                } else {
                    assert(new_m[k + 1] == x);
                }
            }
            if x == t {
                assert(new_m[i as int] == x);
            }
        }
        assert(tag_set(metadata@) =~= tag_set(old(metadata)@).insert(t));
    }
}

/// One timed word inside a line: it covers the text up to character `pos`.
#[derive(Clone, Copy, Debug, PartialEq, Eq, Structural)]
pub struct WordTimeline {
    pub start: i64,
    pub duration: i64,
    pub pos: usize,
}

impl WordTimeline {
    pub fn new(pos: usize, start: i64, duration: i64) -> (r: WordTimeline)
        ensures
            r == (WordTimeline { start, duration, pos }),
    {
        WordTimeline { start, duration, pos }
    }
}

/// A copy of a vector of word timelines.
pub fn copy_words(v: &Vec<WordTimeline>) -> (r: Vec<WordTimeline>)
    ensures
        r@ == v@,
{
    let mut r: Vec<WordTimeline> = Vec::new();
    let mut i: usize = 0;
    while i < v.len()
        invariant
            i <= v@.len(),
            r@ == v@.take(i as int),
        decreases v@.len() - i,
    {
        r.push(v[i]);
        i = i + 1;
        assert(r@ =~= v@.take(i as int));
    }
    assert(v@.take(i as int) =~= v@);
    r
}

/// The abstract content of a lyric line.
pub struct LineModel {
    pub text: Seq<char>,
    pub length: i64,
    pub word_timeline: Seq<WordTimeline>,
    pub translation: Seq<char>,
    pub pronunciation: Seq<char>,
}

/// One line of lyrics with its translation, pronunciation and word timing.
pub struct LyricLine {
    pub text: String,
    pub length: i64,
    pub word_timeline: Vec<WordTimeline>,
    pub translation: String,
    pub pronunciation: String,
}

impl View for LyricLine {
    type V = LineModel;

    open spec fn view(&self) -> LineModel {
        LineModel {
            text: self.text@,
            length: self.length,
            word_timeline: self.word_timeline@,
            translation: self.translation@,
            pronunciation: self.pronunciation@,
        }
    }
}

/// The empty line.
pub open spec fn empty_line() -> LineModel {
    LineModel {
        text: Seq::empty(),
        length: 0,
        word_timeline: Seq::empty(),
        translation: Seq::empty(),
        pronunciation: Seq::empty(),
    }
}

impl Default for LyricLine {
    fn default() -> (r: LyricLine)
        ensures
            r@ == empty_line(),
    {
        LyricLine {
            text: String::new(),
            length: 0,
            word_timeline: Vec::new(),
            translation: String::new(),
            pronunciation: String::new(),
        }
    }
}

impl LyricLine {
    pub fn new(
        text: String,
        length: i64,
        word_timeline: Vec<WordTimeline>,
        translation: String,
        pronunciation: String,
    ) -> (r: LyricLine)
        ensures
            r@ == (LineModel {
                text: text@,
                length,
                word_timeline: word_timeline@,
                translation: translation@,
                pronunciation: pronunciation@,
            }),
    {
        LyricLine { text, length, word_timeline, translation, pronunciation }
    }

    pub fn set_text(&mut self, text: String)
        ensures
            final(self)@ == (LineModel { text: text@, ..old(self)@ }),
    {
        self.text = text;
    }

    pub fn set_translation(&mut self, translation: String)
        ensures
            final(self)@ == (LineModel { translation: translation@, ..old(self)@ }),
    {
        self.translation = translation;
    }

    pub fn set_pronunciation(&mut self, pronunciation: String)
        ensures
            final(self)@ == (LineModel { pronunciation: pronunciation@, ..old(self)@ }),
    {
        self.pronunciation = pronunciation;
    }

    pub fn set_word_timeline(&mut self, word_timeline: &Vec<WordTimeline>)
        ensures
            final(self)@ == (LineModel { word_timeline: word_timeline@, ..old(self)@ }),
    {
        self.word_timeline = copy_words(word_timeline);
    }

    /// A copy of the line.
    pub fn copy(&self) -> (r: LyricLine)
        ensures
            r@ == self@,
    {
        LyricLine {
            text: self.text.clone(),
            length: self.length,
            word_timeline: copy_words(&self.word_timeline),
            translation: self.translation.clone(),
            pronunciation: self.pronunciation.clone(),
        }
    }
}

/// The abstract content of a timed line.
pub struct TimeLineModel {
    pub start: i64,
    pub duration: i64,
    pub line: LineModel,
}

/// A line of lyrics shown from `start` for `duration` milliseconds.
pub struct LyricTimeLine {
    pub start: i64,
    pub duration: i64,
    pub line: LyricLine,
}

impl View for LyricTimeLine {
    type V = TimeLineModel;

    open spec fn view(&self) -> TimeLineModel {
        TimeLineModel { start: self.start, duration: self.duration, line: self.line@ }
    }
}

/// The timed line that `Default` gives: at zero, of no length, empty.
pub open spec fn empty_time_line() -> TimeLineModel {
    TimeLineModel { start: 0, duration: 0, line: empty_line() }
}

impl Default for LyricTimeLine {
    fn default() -> (r: LyricTimeLine)
        ensures
            r@ == empty_time_line(),
    {
        LyricTimeLine { start: 0, duration: 0, line: LyricLine::default() }
    }
}

impl LyricTimeLine {
    /// A copy of the timed line.
    pub fn copy(&self) -> (r: LyricTimeLine)
        ensures
            r@ == self@,
    {
        LyricTimeLine { start: self.start, duration: self.duration, line: self.line.copy() }
    }
}

/// The views of a sequence of timed lines.
pub open spec fn line_views(v: Seq<LyricTimeLine>) -> Seq<TimeLineModel> {
    v.map_values(|t: LyricTimeLine| t@)
}

/// The line `t` is shown at `time`.
pub open spec fn covers(t: TimeLineModel, time: i64) -> bool {
    t.start <= time && t.start + t.duration > time
}

/// `i` is the first line of `body` shown at `time`.
pub open spec fn is_first_cover(body: Seq<TimeLineModel>, time: i64, i: int) -> bool {
    &&& 0 <= i < body.len()
    &&& covers(body[i], time)
    &&& forall|j: int| 0 <= j < i ==> !covers(#[trigger] body[j], time)
}

/// The first line of `body` shown at `time`, if any.
pub open spec fn find_cover(body: Seq<TimeLineModel>, time: i64) -> Option<int> {
    if exists|i: int| 0 <= i < body.len() && covers(#[trigger] body[i], time) {
        Some(choose|i: int| is_first_cover(body, time, i))
    } else {
        None
    }
}

pub proof fn lemma_find_cover(body: Seq<TimeLineModel>, time: i64, i: int)
    requires
        is_first_cover(body, time, i),
    ensures
        find_cover(body, time) == Some(i),
{
    assert(covers(body[i], time));
    let k = choose|k: int| is_first_cover(body, time, k);
    assert(is_first_cover(body, time, k));
    if k < i {
        assert(!covers(body[k], time));
    } else if i < k {
        assert(!covers(body[i], time));
    }
}

/// Each line but the last lasts until the next one starts; the last line's
/// duration is kept.
pub open spec fn durations_from_start(body: Seq<TimeLineModel>) -> Seq<TimeLineModel> {
    Seq::new(
        body.len(),
        |i: int|
            if i + 1 < body.len() {
                TimeLineModel { duration: clamp_i64(body[i + 1].start - body[i].start), ..body[i] }
            } else {
                body[i]
            },
    )
}

/// A lyric document: a set of metadata tags and the timed lines.
pub struct Lrcx {
    pub metadata: Vec<IDTag>,
    pub lyric_body: Vec<LyricTimeLine>,
}

impl Lrcx {
    /// The metadata is sorted and free of repetitions.
    pub open spec fn wf(&self) -> bool {
        tags_sorted(tag_views(self.metadata@))
    }

    /// The tags of the document.
    pub open spec fn tags(&self) -> Set<(Seq<char>, Seq<char>)> {
        tag_set(self.metadata@)
    }

    /// The timed lines of the document.
    pub open spec fn body(&self) -> Seq<TimeLineModel> {
        line_views(self.lyric_body@)
    }

    /// A document with no tags and no lines.
    pub fn new() -> (r: Lrcx)
        ensures
            r.wf(),
            r.metadata@.len() == 0,
            r.lyric_body@.len() == 0,
    {
        Lrcx { metadata: Vec::new(), lyric_body: Vec::new() }
    }

    fn find_time_line_index(&self, time: i64) -> (r: Option<usize>)
        ensures
            r == (match find_cover(self.body(), time) {
                Some(i) => Some(i as usize),
                None => None::<usize>,
            }),
            r matches Some(i) ==> is_first_cover(self.body(), time, i as int),
    {
        let mut i: usize = 0;
        while i < self.lyric_body.len()
            invariant
                i <= self.lyric_body@.len(),
                forall|j: int| 0 <= j < i ==> !covers(#[trigger] self.body()[j], time),
            decreases self.lyric_body@.len() - i,
        {
            let line = &self.lyric_body[i];
            if line.start <= time && (line.start as i128) + (line.duration as i128) > time as i128 {
                proof {
                    assert(self.body()[i as int] == line@);
                    lemma_find_cover(self.body(), time, i as int);
                }
                return Some(i);
            }
            assert(self.body()[i as int] == line@);
            i = i + 1;
        }
        None
    }

    /// Sets the duration of every line but the last to the time until the
    /// next line starts.
    pub fn cal_duration_from_start(&mut self)
        ensures
            final(self).metadata@ == old(self).metadata@,
            final(self).body() == durations_from_start(old(self).body()),
    {
        let l = self.lyric_body.len();
        if l == 0 {
            assert(self.body() =~= durations_from_start(self.body()));
            return;
        }
        let ghost b0 = self.body();
        let mut i: usize = 1;
        while i < l
            invariant
                1 <= i <= l,
                l == self.lyric_body@.len(),
                l == b0.len(),
                self.metadata@ == old(self).metadata@,
                b0 == old(self).body(),
                forall|j: int|
                    0 <= j < i - 1 ==> #[trigger] self.body()[j] == durations_from_start(b0)[j],
                forall|j: int| i - 1 <= j < l ==> #[trigger] self.body()[j] == b0[j],
            decreases l - i,
        {
            let prev_start = self.lyric_body[i - 1].start;
            let cur_start = self.lyric_body[i].start;
            let duration = sat_sub(cur_start, prev_start);
            let mut entry = self.lyric_body[i - 1].copy();
            entry.duration = duration;
            let ghost before = self.body();
            let ghost ev = entry@;
            assert(before[i - 1] == b0[i - 1]);
            assert(before[i as int] == b0[i as int]);
            assert(ev == TimeLineModel { duration: clamp_i64(b0[i as int].start - b0[i - 1].start), ..b0[i - 1] });
            self.lyric_body.set(i - 1, entry);
            proof {
                assert(self.body()[i - 1] == ev);
                assert forall|j: int| 0 <= j < i implies #[trigger] self.body()[j]
                    == durations_from_start(b0)[j] by {
                    if j < i - 1 {
                        assert(self.body()[j] == before[j]);
                    } else {
                        assert(before[i as int] == b0[i as int]);
                    }
                }
                assert forall|j: int| i <= j < l implies #[trigger] self.body()[j] == b0[j] by {
                    assert(self.body()[j] == before[j]);
                }
            }
            i = i + 1;
        }
        assert(self.body() =~= durations_from_start(b0));
    }

    /// The line shown at `time`, or the empty line when there is none.
    pub fn get_next_lyric_by_time(&self, time: i64) -> (r: LyricTimeLine)
        ensures
            r@ == (match find_cover(self.body(), time) {
                Some(i) => self.body()[i],
                None => empty_time_line(),
            }),
    {
        match self.find_time_line_index(time) {
            None => LyricTimeLine::default(),
            Some(i) => {
                assert(self.body()[i as int] == self.lyric_body@[i as int]@);
                self.lyric_body[i].copy()
            },
        }
    }
}

} // verus!
