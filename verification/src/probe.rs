//! What `ffprobe` reports about a video stream.
use crate::text::{
    chars_of, find, lines, parse_unsigned, parsed, spells, split_at_first, trim, trimmed,
};
use vstd::prelude::*;
use vstd::seq_lib::to_multiset_contains;
use vstd::string::StrSliceExecFns;

verus! {

/// Arithmetic on frame rates and durations (double precision floats in the
/// command line tool). As with image samples, nothing is assumed about an
/// implementation.
pub trait Timing: Sized {
    /// A frame rate, or a number of seconds.
    type F: Copy;

    /// The number spelled by `s`, if it is one.
    fn parse(&self, s: &str) -> Option<Self::F>;

    /// `num / den`.
    fn ratio(&self, num: Self::F, den: Self::F) -> Self::F;

    /// Whether `f > 0`.
    fn is_positive(&self, f: Self::F) -> bool;

    /// The number of frames in `seconds`, rounded to the nearest.
    fn frames(&self, seconds: Self::F, fps: Self::F) -> u64;
}

/// Size, rate and length of a video stream.
#[derive(Debug, Clone, Copy)]
pub struct VideoInfo<F> {
    pub width: usize,
    pub height: usize,
    pub fps: F,
    /// Zero where the length is not known.
    pub total_frames: u64,
}

/// Why a frame rate could not be read.
#[derive(Debug, Clone, Copy, PartialEq, Eq, Structural)]
pub enum RateError {
    BadNumerator,
    BadDenominator,
    BadNumber,
}

/// Why a probe was of no use.
#[derive(Debug, Clone, Copy, PartialEq, Eq, Structural)]
pub enum ProbeError {
    /// The report lacks a usable frame size.
    NoStream,
    /// The report lacks a usable frame rate.
    NoFrameRate,
}

/// What the report says, as far as it is used.
pub struct Fields<F> {
    pub width: Option<usize>,
    pub height: Option<usize>,
    pub r_fps: Option<F>,
    pub avg_fps: Option<F>,
    pub nb_frames: Option<u64>,
    pub duration: Option<F>,
}

/// `out` was read from the text `s`.
pub open spec fn is_number<T: Timing>(t: &T, s: Seq<char>, out: Option<T::F>) -> bool {
    exists|text: &str| text@ == s && #[trigger] call_ensures(T::parse, (t, text), out)
}

/// `out` is `n` over the number in the text `s`.
pub open spec fn is_fraction<T: Timing>(
    t: &T,
    n: T::F,
    s: Seq<char>,
    out: Result<T::F, RateError>,
) -> bool {
    exists|den: Option<T::F>| #[trigger]
        is_number(t, s, den) && match den {
            None => out == Err::<T::F, RateError>(RateError::BadDenominator),
            Some(d) => out is Ok && call_ensures(T::ratio, (t, n, d), out->Ok_0),
        }
}

/// `out` is the number in the text `n` over the one in the text `d`.
pub open spec fn is_fraction_text<T: Timing>(
    t: &T,
    n: Seq<char>,
    d: Seq<char>,
    out: Result<T::F, RateError>,
) -> bool {
    exists|num: Option<T::F>| #[trigger]
        is_number(t, n, num) && match num {
            None => out == Err::<T::F, RateError>(RateError::BadNumerator),
            Some(a) => is_fraction(t, a, d, out),
        }
}

/// `out` was read from the text `s`, which is a fraction if it holds a slash.
pub open spec fn is_rate<T: Timing>(t: &T, s: Seq<char>, out: Result<T::F, RateError>) -> bool {
    match split_at_first(s, '/') {
        Some(parts) => is_fraction_text(t, parts.0, parts.1, out),
        None => exists|whole: Option<T::F>| #[trigger]
            is_number(t, s, whole) && match whole {
                None => out == Err::<T::F, RateError>(RateError::BadNumber),
                Some(f) => out == Ok::<T::F, RateError>(f),
            },
    }
}

/// `out` is the rate in the text `s`, if there is one and it is positive.
pub open spec fn is_positive_rate<T: Timing>(t: &T, s: Seq<char>, out: Option<T::F>) -> bool {
    exists|rate: Result<T::F, RateError>| #[trigger]
        is_rate(t, s, rate) && match rate {
            Err(_) => out is None,
            Ok(f) => exists|yes: bool| #[trigger]
                call_ensures(T::is_positive, (t, f), yes) && out == (if yes {
                    Some(f)
                } else {
                    None
                }),
        }
}

/// The key and the value on a line of the report.
pub open spec fn entry(line: Seq<char>) -> Option<(Seq<char>, Seq<char>)> {
    split_at_first(trimmed(line), '=')
}

/// The line holds a value for the key.
pub open spec fn is_entry_for(line: Seq<char>, key: Seq<char>) -> bool {
    match entry(line) {
        Some(e) => e.0 == key,
        None => false,
    }
}

/// The value on a line that holds one.
pub open spec fn entry_value(line: Seq<char>) -> Seq<char>
    recommends
        entry(line) is Some,
{
    match entry(line) {
        Some(e) => e.1,
        None => seq![],
    }
}

/// The value on the last line with the given key.
pub open spec fn last_value(ls: Seq<Seq<char>>, key: Seq<char>) -> Option<Seq<char>>
    decreases ls.len(),
{
    if ls.len() == 0 {
        None
    } else if is_entry_for(ls.last(), key) {
        Some(entry_value(ls.last()))
    } else {
        last_value(ls.drop_last(), key)
    }
}

/// The number on the last line with the given key.
pub open spec fn number_field(ls: Seq<Seq<char>>, key: Seq<char>, max: int) -> Option<int> {
    match last_value(ls, key) {
        None => None,
        Some(v) => parsed(v, max),
    }
}

/// `out` is the positive rate on the last line with the given key.
pub open spec fn is_rate_field<T: Timing>(
    t: &T,
    ls: Seq<Seq<char>>,
    key: Seq<char>,
    out: Option<T::F>,
) -> bool {
    match last_value(ls, key) {
        None => out is None,
        Some(v) => is_positive_rate(t, v, out),
    }
}

/// `out` is the number of seconds on the last line with the given key.
pub open spec fn is_seconds_field<T: Timing>(
    t: &T,
    ls: Seq<Seq<char>>,
    key: Seq<char>,
    out: Option<T::F>,
) -> bool {
    match last_value(ls, key) {
        None => out is None,
        Some(v) => is_number(t, v, out),
    }
}

/// `f` is what the lines of a report say. Where a key occurs more than once,
/// its last line counts.
pub open spec fn is_fields<T: Timing>(t: &T, ls: Seq<Seq<char>>, f: Fields<T::F>) -> bool {
    &&& match f.width {
        Some(x) => number_field(ls, "width"@, usize::MAX as int) == Some(x as int),
        None => number_field(ls, "width"@, usize::MAX as int) is None,
    }
    &&& match f.height {
        Some(x) => number_field(ls, "height"@, usize::MAX as int) == Some(x as int),
        None => number_field(ls, "height"@, usize::MAX as int) is None,
    }
    &&& match f.nb_frames {
        Some(x) => number_field(ls, "nb_frames"@, u64::MAX as int) == Some(x as int),
        None => number_field(ls, "nb_frames"@, u64::MAX as int) is None,
    }
    &&& is_rate_field(t, ls, "r_frame_rate"@, f.r_fps)
    &&& is_rate_field(t, ls, "avg_frame_rate"@, f.avg_fps)
    &&& is_seconds_field(t, ls, "duration"@, f.duration)
}

/// The number of frames: the reported one if it is positive, else an estimate
/// from a positive duration, else zero.
pub open spec fn is_total<T: Timing>(t: &T, f: Fields<T::F>, fps: T::F, total: u64) -> bool {
    match f.nb_frames {
        Some(n) if n > 0 => total == n,
        _ => match f.duration {
            Some(d) => exists|yes: bool| #[trigger]
                call_ensures(T::is_positive, (t, d), yes) && if yes {
                    call_ensures(T::frames, (t, d, fps), total)
                } else {
                    total == 0
                },
            None => total == 0,
        },
    }
}

/// The report names a frame size.
pub open spec fn has_size<F>(f: Fields<F>) -> bool {
    f.width is Some && f.width->0 > 0 && f.height is Some && f.height->0 > 0
}

/// The frame rate to use: the average one, which tracks the real cadence of
/// sources with a varying rate, or else the nominal one.
pub open spec fn chosen_rate<F>(f: Fields<F>) -> Option<F> {
    if f.avg_fps is Some {
        f.avg_fps
    } else {
        f.r_fps
    }
}

/// `out` is what the fields of a report amount to.
pub open spec fn is_verdict<T: Timing>(
    t: &T,
    f: Fields<T::F>,
    out: Result<VideoInfo<T::F>, ProbeError>,
) -> bool {
    if !has_size(f) {
        out == Err::<VideoInfo<T::F>, ProbeError>(ProbeError::NoStream)
    } else if chosen_rate(f) is None {
        out == Err::<VideoInfo<T::F>, ProbeError>(ProbeError::NoFrameRate)
    } else {
        &&& out is Ok
        &&& out->Ok_0.width == f.width->0
        &&& out->Ok_0.height == f.height->0
        &&& out->Ok_0.fps == chosen_rate(f)->0
        &&& is_total(t, f, out->Ok_0.fps, out->Ok_0.total_frames)
    }
}

/// `out` is what the lines of a report amount to.
pub open spec fn is_probed<T: Timing>(
    t: &T,
    ls: Seq<Seq<char>>,
    out: Result<VideoInfo<T::F>, ProbeError>,
) -> bool {
    exists|f: Fields<T::F>| #[trigger] is_fields(t, ls, f) && is_verdict(t, f, out)
}

/// Reads a frame rate: a number, or a fraction of two.
pub fn parse_rate<T: Timing>(t: &T, s: &str) -> (out: Result<T::F, RateError>)
    ensures
        is_rate(t, s@, out),
{
    let v = chars_of(s);
    let n: usize = v.len();
    let i: usize = find(&v, 0, n, '/');
    assert(v@.subrange(0, n as int) =~= s@);
    if i < n {
        let left = s.substring_char(0, i);
        let right = s.substring_char(i + 1, n);
        assert(left@ =~= s@.take(i as int));
        assert(right@ =~= s@.skip(i + 1));
        let num = t.parse(left);
        assert(is_number(t, s@.take(i as int), num));
        match num {
            None => Err(RateError::BadNumerator),
            Some(a) => {
                let den = t.parse(right);
                assert(is_number(t, s@.skip(i + 1), den));
                let out = match den {
                    None => Err(RateError::BadDenominator),
                    Some(b) => Ok(t.ratio(a, b)),
                };
                assert(is_fraction(t, a, s@.skip(i + 1), out));
                out
            },
        }
    } else {
        let whole = t.parse(s);
        assert(is_number(t, s@, whole));
        match whole {
            None => Err(RateError::BadNumber),
            Some(f) => Ok(f),
        }
    }
}

/// The rate in `s`, if there is one and it is positive.
fn positive_rate<T: Timing>(t: &T, s: &str) -> (out: Option<T::F>)
    ensures
        is_positive_rate(t, s@, out),
{
    let rate = parse_rate(t, s);
    match rate {
        Err(_) => None,
        Ok(f) => {
            let yes: bool = t.is_positive(f);
            assert(call_ensures(T::is_positive, (t, f), yes));
            if yes {
                Some(f)
            } else {
                None
            }
        },
    }
}

proof fn lemma_last_value_push(ls: Seq<Seq<char>>, line: Seq<char>, key: Seq<char>)
    ensures
        last_value(ls.push(line), key) == (if is_entry_for(line, key) {
            Some(entry_value(line))
        } else {
            last_value(ls, key)
        }),
{
    assert(ls.push(line).drop_last() =~= ls);
    assert(ls.push(line).last() == line);
}

/// Takes one line of the report, the characters `from..to`, into account.
fn read_line<T: Timing>(
    t: &T,
    text: &str,
    v: &Vec<char>,
    from: usize,
    to: usize,
    f: &mut Fields<T::F>,
    Ghost(ls): Ghost<Seq<Seq<char>>>,
)
    requires
        v@ == text@,
        from <= to <= v.len(),
        is_fields(t, ls, *old(f)),
    ensures
        is_fields(t, ls.push(v@.subrange(from as int, to as int)), *final(f)),
{
    let ghost line = v@.subrange(from as int, to as int);
    proof {
        reveal_strlit("width");
        reveal_strlit("height");
        reveal_strlit("nb_frames");
        reveal_strlit("r_frame_rate");
        reveal_strlit("avg_frame_rate");
        reveal_strlit("duration");
        lemma_last_value_push(ls, line, "width"@);
        lemma_last_value_push(ls, line, "height"@);
        lemma_last_value_push(ls, line, "nb_frames"@);
        lemma_last_value_push(ls, line, "r_frame_rate"@);
        lemma_last_value_push(ls, line, "avg_frame_rate"@);
        lemma_last_value_push(ls, line, "duration"@);
    }
    let (a, b) = trim(v, from, to);
    let eq: usize = find(v, a, b, '=');
    let ghost body = v@.subrange(a as int, b as int);
    assert(body == trimmed(line));
    if eq == b {
        assert(entry(line) is None);
        return;
    }
    assert(body.take(eq - a) =~= v@.subrange(a as int, eq as int));
    assert(body.skip(eq - a + 1) =~= v@.subrange(eq + 1, b as int));
    let val = text.substring_char(eq + 1, b);
    assert(entry(line) == Some((v@.subrange(a as int, eq as int), val@)));
    if spells(v, a, eq, "width") {
        f.width = match parse_unsigned(v, eq + 1, b, usize::MAX as u64) {
            Some(n) => Some(n as usize),
            None => None,
        };
    } else if spells(v, a, eq, "height") {
        f.height = match parse_unsigned(v, eq + 1, b, usize::MAX as u64) {
            Some(n) => Some(n as usize),
            None => None,
        };
    } else if spells(v, a, eq, "r_frame_rate") {
        f.r_fps = positive_rate(t, val);
    } else if spells(v, a, eq, "avg_frame_rate") {
        f.avg_fps = positive_rate(t, val);
    } else if spells(v, a, eq, "nb_frames") {
        f.nb_frames = parse_unsigned(v, eq + 1, b, u64::MAX);
    } else if spells(v, a, eq, "duration") {
        f.duration = t.parse(val);
    }
}

/// What the lines of a report say.
pub fn read_fields<T: Timing>(t: &T, text: &str) -> (f: Fields<T::F>)
    ensures
        is_fields(t, lines(text@), f),
{
    let v = chars_of(text);
    let n: usize = v.len();
    let mut f = Fields {
        width: None,
        height: None,
        r_fps: None,
        avg_fps: None,
        nb_frames: None,
        duration: None,
    };
    let ghost mut done: Seq<Seq<char>> = seq![];
    let mut pos: usize = 0;
    let mut more: bool = true;
    assert(v@.skip(0) =~= v@);
    assert(done + lines(v@.skip(0)) =~= lines(v@));
    while more
        invariant
            pos <= n,
            n == v.len(),
            v@ == text@,
            is_fields(t, done, f),
            more ==> done + lines(v@.skip(pos as int)) == lines(v@),
            !more ==> done == lines(v@),
        decreases n - pos, (if more {
            1int
        } else {
            0
        }),
    {
        let end: usize = find(&v, pos, n, '\n');
        let ghost rest = v@.skip(pos as int);
        proof {
            assert(v@.subrange(pos as int, n as int) =~= rest);
            assert(v@.subrange(pos as int, end as int) =~= rest.take(end - pos));
            if end < n {
                assert(rest.skip(end - pos + 1) =~= v@.skip(end + 1));
            } else {
                assert(rest.take(end - pos) =~= rest);
            }
        }
        read_line(t, text, &v, pos, end, &mut f, Ghost(done));
        proof {
            let line = v@.subrange(pos as int, end as int);
            if end < n {
                assert(lines(rest) == seq![line] + lines(v@.skip(end + 1)));
                assert(done.push(line) + lines(v@.skip(end + 1)) =~= done + lines(rest));
            } else {
                assert(lines(rest) == seq![line]);
                assert(done.push(line) =~= done + lines(rest));
            }
            done = done.push(line);
        }
        if end < n {
            pos = end + 1;
        } else {
            more = false;
        }
    }
    f
}

/// What the fields of a report amount to.
pub fn judge<T: Timing>(t: &T, f: &Fields<T::F>) -> (out: Result<VideoInfo<T::F>, ProbeError>)
    ensures
        is_verdict(t, *f, out),
{
    let (width, height) = match (f.width, f.height) {
        (Some(w), Some(h)) => if w > 0 && h > 0 {
            (w, h)
        } else {
            return Err(ProbeError::NoStream);
        },
        _ => return Err(ProbeError::NoStream),
    };
    let fps = match (f.avg_fps, f.r_fps) {
        (Some(a), _) => a,
        (None, Some(r)) => r,
        _ => return Err(ProbeError::NoFrameRate),
    };
    let reported: u64 = match f.nb_frames {
        Some(n) => n,
        None => 0,
    };
    let total_frames: u64 = if reported > 0 {
        reported
    } else {
        match f.duration {
            Some(d) => {
                let yes: bool = t.is_positive(d);
                assert(call_ensures(T::is_positive, (t, d), yes));
                if yes {
                    t.frames(d, fps)
                } else {
                    0
                }
            },
            None => 0,
        }
    };
    Ok(VideoInfo { width, height, fps, total_frames })
}

/// Size, rate and length of the stream that a report is about.
pub fn probe<T: Timing>(t: &T, text: &str) -> (out: Result<VideoInfo<T::F>, ProbeError>)
    ensures
        is_probed(t, lines(text@), out),
{
    let f = read_fields(t, text);
    judge(t, &f)
}

/// The keys that are looked for.
pub open spec fn is_known_key(key: Seq<char>) -> bool {
    ||| key == "width"@
    ||| key == "height"@
    ||| key == "nb_frames"@
    ||| key == "r_frame_rate"@
    ||| key == "avg_frame_rate"@
    ||| key == "duration"@
}

/// The line holds a value for a key that is looked for.
pub open spec fn is_known(line: Seq<char>) -> bool {
    exists|key: Seq<char>| is_known_key(key) && #[trigger] is_entry_for(line, key)
}

/// No key that is looked for occurs on more than one line.
pub open spec fn is_unambiguous(ls: Seq<Seq<char>>) -> bool {
    forall|i: int, j: int, key: Seq<char>|
        #![trigger is_entry_for(ls[i], key), is_entry_for(ls[j], key)]
        0 <= i < j < ls.len() && is_known_key(key) ==> !(is_entry_for(ls[i], key) && is_entry_for(
            ls[j],
            key,
        ))
}

/// The last value for a key is that on any line for it, where all of them are
/// equal.
proof fn lemma_last_value(ls: Seq<Seq<char>>, key: Seq<char>, line: Seq<char>)
    requires
        ls.contains(line),
        is_entry_for(line, key),
        forall|other: Seq<char>| #[trigger]
            ls.contains(other) && is_entry_for(other, key) ==> other == line,
    ensures
        last_value(ls, key) == Some(entry_value(line)),
    decreases ls.len(),
{
    let last = ls.last();
    assert(ls.contains(last));
    if !is_entry_for(last, key) {
        let front = ls.drop_last();
        let i = choose|i: int| 0 <= i < ls.len() && ls[i] == line;
        assert(front[i] == line);
        assert forall|other: Seq<char>| #[trigger]
            front.contains(other) && is_entry_for(other, key) implies other == line by {
            let j = choose|j: int| 0 <= j < front.len() && front[j] == other;
            assert(ls[j] == other);
            assert(ls.contains(other));
        }
        lemma_last_value(front, key, line);
    }
}

pub(crate) proof fn lemma_no_value(ls: Seq<Seq<char>>, key: Seq<char>)
    requires
        forall|line: Seq<char>| #[trigger] ls.contains(line) ==> !is_entry_for(line, key),
    ensures
        last_value(ls, key) is None,
    decreases ls.len(),
{
    if ls.len() > 0 {
        assert(ls.contains(ls.last()));
        let front = ls.drop_last();
        assert forall|line: Seq<char>| #[trigger] front.contains(line) implies !is_entry_for(
            line,
            key,
        ) by {
            let j = choose|j: int| 0 <= j < front.len() && front[j] == line;
            assert(ls[j] == line);
            assert(ls.contains(line));
        }
        lemma_no_value(front, key);
    }
}

/// Lists of lines in which the same lines are for a key have the same last
/// value for it, where the first has at most one such line.
proof fn lemma_same_value(a: Seq<Seq<char>>, b: Seq<Seq<char>>, key: Seq<char>)
    requires
        is_unambiguous(a),
        is_known_key(key),
        forall|line: Seq<char>|
            is_known(line) ==> (#[trigger] a.contains(line) <==> b.contains(line)),
    ensures
        last_value(a, key) == last_value(b, key),
{
    if exists|line: Seq<char>| a.contains(line) && is_entry_for(line, key) {
        let line = choose|line: Seq<char>| a.contains(line) && is_entry_for(line, key);
        let i = choose|i: int| 0 <= i < a.len() && a[i] == line;
        assert forall|other: Seq<char>| #[trigger]
            a.contains(other) && is_entry_for(other, key) implies other == line by {
            let j = choose|j: int| 0 <= j < a.len() && a[j] == other;
            assert(is_entry_for(a[i], key) && is_entry_for(a[j], key));
        }
        assert(is_known(line));
        lemma_last_value(a, key, line);
        assert forall|other: Seq<char>| #[trigger]
            b.contains(other) && is_entry_for(other, key) implies other == line by {
            assert(is_known(other));
            assert(a.contains(other));
        }
        assert(b.contains(line));
        lemma_last_value(b, key, line);
    } else {
        lemma_no_value(a, key);
        assert forall|line: Seq<char>| #[trigger] b.contains(line) implies !is_entry_for(
            line,
            key,
        ) by {
            if is_entry_for(line, key) {
                assert(is_known(line));
                assert(a.contains(line));
            }
        }
        lemma_no_value(b, key);
    }
}

/// Reading a number and computing with numbers has one outcome.
pub open spec fn timing_agrees<T: Timing>(t: &T) -> bool {
    &&& forall|a: &str, b: &str, x: Option<T::F>, y: Option<T::F>|
        #![trigger call_ensures(T::parse, (t, a), x), call_ensures(T::parse, (t, b), y)]
        a@ == b@ && call_ensures(T::parse, (t, a), x) && call_ensures(T::parse, (t, b), y) ==> x
            == y
    &&& forall|a: T::F, b: T::F, x: T::F, y: T::F|
        #![trigger call_ensures(T::ratio, (t, a, b), x), call_ensures(T::ratio, (t, a, b), y)]
        call_ensures(T::ratio, (t, a, b), x) && call_ensures(T::ratio, (t, a, b), y) ==> x == y
    &&& forall|a: T::F, x: bool, y: bool|
        #![trigger
            call_ensures(T::is_positive, (t, a), x),
            call_ensures(T::is_positive, (t, a), y)
        ]
        call_ensures(T::is_positive, (t, a), x) && call_ensures(T::is_positive, (t, a), y) ==> x
            == y
    &&& forall|a: T::F, b: T::F, x: u64, y: u64|
        #![trigger call_ensures(T::frames, (t, a, b), x), call_ensures(T::frames, (t, a, b), y)]
        call_ensures(T::frames, (t, a, b), x) && call_ensures(T::frames, (t, a, b), y) ==> x == y
}

pub(crate) proof fn lemma_number<T: Timing>(t: &T, s: Seq<char>, x: Option<T::F>, y: Option<T::F>)
    requires
        timing_agrees(t),
        is_number(t, s, x),
        is_number(t, s, y),
    ensures
        x == y,
{
}

proof fn lemma_fraction<T: Timing>(
    t: &T,
    n: T::F,
    s: Seq<char>,
    x: Result<T::F, RateError>,
    y: Result<T::F, RateError>,
)
    requires
        timing_agrees(t),
        is_fraction(t, n, s, x),
        is_fraction(t, n, s, y),
    ensures
        x == y,
{
    let d = choose|den: Option<T::F>| #[trigger]
        is_number(t, s, den) && match den {
            None => x == Err::<T::F, RateError>(RateError::BadDenominator),
            Some(d) => x is Ok && call_ensures(T::ratio, (t, n, d), x->Ok_0),
        };
    let e = choose|den: Option<T::F>| #[trigger]
        is_number(t, s, den) && match den {
            None => y == Err::<T::F, RateError>(RateError::BadDenominator),
            Some(d) => y is Ok && call_ensures(T::ratio, (t, n, d), y->Ok_0),
        };
    lemma_number(t, s, d, e);
}

/// A frame rate has one reading.
pub proof fn law_rate_has_one_reading<T: Timing>(
    t: &T,
    s: Seq<char>,
    x: Result<T::F, RateError>,
    y: Result<T::F, RateError>,
)
    requires
        timing_agrees(t),
        is_rate(t, s, x),
        is_rate(t, s, y),
    ensures
        x == y,
{
    match split_at_first(s, '/') {
        Some(parts) => {
            let (n, d) = parts;
            let a = choose|num: Option<T::F>| #[trigger]
                is_number(t, n, num) && match num {
                    None => x == Err::<T::F, RateError>(RateError::BadNumerator),
                    Some(a) => is_fraction(t, a, d, x),
                };
            let b = choose|num: Option<T::F>| #[trigger]
                is_number(t, n, num) && match num {
                    None => y == Err::<T::F, RateError>(RateError::BadNumerator),
                    Some(a) => is_fraction(t, a, d, y),
                };
            lemma_number(t, n, a, b);
            if let Some(num) = a {
                lemma_fraction(t, num, d, x, y);
            }
        },
        None => {},
    }
}

proof fn lemma_positive_rate<T: Timing>(t: &T, s: Seq<char>, x: Option<T::F>, y: Option<T::F>)
    requires
        timing_agrees(t),
        is_positive_rate(t, s, x),
        is_positive_rate(t, s, y),
    ensures
        x == y,
{
    let p = choose|rate: Result<T::F, RateError>| #[trigger]
        is_rate(t, s, rate) && match rate {
            Err(_) => x is None,
            Ok(f) => exists|yes: bool| #[trigger]
                call_ensures(T::is_positive, (t, f), yes) && x == (if yes {
                    Some(f)
                } else {
                    None
                }),
        };
    let q = choose|rate: Result<T::F, RateError>| #[trigger]
        is_rate(t, s, rate) && match rate {
            Err(_) => y is None,
            Ok(f) => exists|yes: bool| #[trigger]
                call_ensures(T::is_positive, (t, f), yes) && y == (if yes {
                    Some(f)
                } else {
                    None
                }),
        };
    law_rate_has_one_reading(t, s, p, q);
}

pub(crate) proof fn lemma_fields<T: Timing>(
    t: &T,
    ls: Seq<Seq<char>>,
    f: Fields<T::F>,
    g: Fields<T::F>,
)
    requires
        timing_agrees(t),
        is_fields(t, ls, f),
        is_fields(t, ls, g),
    ensures
        f == g,
{
    if let Some(v) = last_value(ls, "r_frame_rate"@) {
        lemma_positive_rate(t, v, f.r_fps, g.r_fps);
    }
    if let Some(v) = last_value(ls, "avg_frame_rate"@) {
        lemma_positive_rate(t, v, f.avg_fps, g.avg_fps);
    }
    if let Some(v) = last_value(ls, "duration"@) {
        lemma_number(t, v, f.duration, g.duration);
    }
}

/// A report amounts to one thing.
pub proof fn law_report_has_one_verdict<T: Timing>(
    t: &T,
    ls: Seq<Seq<char>>,
    x: Result<VideoInfo<T::F>, ProbeError>,
    y: Result<VideoInfo<T::F>, ProbeError>,
)
    requires
        timing_agrees(t),
        is_probed(t, ls, x),
        is_probed(t, ls, y),
    ensures
        x == y,
{
    let f = choose|f: Fields<T::F>| #[trigger] is_fields(t, ls, f) && is_verdict(t, f, x);
    let g = choose|f: Fields<T::F>| #[trigger] is_fields(t, ls, f) && is_verdict(t, f, y);
    lemma_fields(t, ls, f, g);
}

/// The report is read by key, not by position: its lines may come in any order,
/// and with any lines added that are not for a key that is looked for. What is
/// read, and so what comes of it, stays the same.
pub proof fn law_line_order_does_not_matter<T: Timing>(
    t: &T,
    a: Seq<Seq<char>>,
    added: Seq<Seq<char>>,
    b: Seq<Seq<char>>,
    out: Result<VideoInfo<T::F>, ProbeError>,
    other: Result<VideoInfo<T::F>, ProbeError>,
)
    requires
        is_unambiguous(a),
        forall|i: int| 0 <= i < added.len() ==> !is_known(#[trigger] added[i]),
        b.to_multiset() == a.to_multiset().add(added.to_multiset()),
    ensures
        is_probed(t, a, out) <==> is_probed(t, b, out),
        forall|f: Fields<T::F>| #[trigger] is_fields(t, a, f) <==> is_fields(t, b, f),
        timing_agrees(t) && is_probed(t, a, out) && is_probed(t, b, other) ==> out == other,
{
    assert forall|line: Seq<char>| is_known(line) implies (#[trigger] a.contains(line)
        <==> b.contains(line)) by {
        to_multiset_contains(a, line);
        to_multiset_contains(b, line);
        to_multiset_contains(added, line);
        if added.contains(line) {
            let i = choose|i: int| 0 <= i < added.len() && added[i] == line;
            assert(!is_known(added[i]));
        }
    }
    lemma_same_value(a, b, "width"@);
    lemma_same_value(a, b, "height"@);
    lemma_same_value(a, b, "nb_frames"@);
    lemma_same_value(a, b, "r_frame_rate"@);
    lemma_same_value(a, b, "avg_frame_rate"@);
    lemma_same_value(a, b, "duration"@);
    assert(forall|f: Fields<T::F>| #[trigger] is_fields(t, a, f) <==> is_fields(t, b, f));
    if is_probed(t, b, out) {
        let f = choose|f: Fields<T::F>| #[trigger] is_fields(t, b, f) && is_verdict(t, f, out);
        assert(is_fields(t, a, f));
    }
    if is_probed(t, b, other) {
        let f = choose|f: Fields<T::F>| #[trigger] is_fields(t, b, f) && is_verdict(t, f, other);
        assert(is_fields(t, a, f));
        assert(is_probed(t, a, other));
    }
    if timing_agrees(t) && is_probed(t, a, out) && is_probed(t, b, other) {
        law_report_has_one_verdict(t, a, out, other);
    }
}

} // verus!
