//! What is read out of a report, told over its lines.
use crate::probe::{
    is_entry_for, is_fields, is_fraction, is_fraction_text, is_known_key, is_number,
    is_positive_rate, is_rate, is_verdict, judge, last_value, law_rate_has_one_reading,
    lemma_fields, lemma_no_value, lemma_number, parse_rate, probe, read_fields, timing_agrees,
    Fields, ProbeError, RateError, Timing, VideoInfo,
};
use crate::text::{
    decimal, first_of, is_digit, is_space_char, lemma_decimal, lemma_first_of,
    lemma_first_of_bounds, lines, trimmed,
};
use crate::wording::{
    is_blank, joined, law_lines_come_apart, lemma_trimmed_between, lemma_trimmed_part,
};
use vstd::prelude::*;

verus! {

/// The word occurs in the text.
pub open spec fn holds_word(s: Seq<char>, word: Seq<char>) -> bool {
    exists|p: int|
        0 <= p <= s.len() - word.len() && #[trigger] s.subrange(p, p + word.len()) == word
}

/// Line `i` says `key=value`, with white space around it at most, and the key
/// occurs on no later line.
pub open spec fn says_last(
    ls: Seq<Seq<char>>,
    i: int,
    lead: Seq<char>,
    key: Seq<char>,
    value: Seq<char>,
    trail: Seq<char>,
) -> bool {
    &&& 0 <= i < ls.len()
    &&& is_blank(lead)
    &&& is_blank(trail)
    &&& value.len() > 0 ==> !is_space_char(value.last())
    &&& ls[i] == lead + (key + seq!['='] + value) + trail
    &&& forall|j: int| i < j < ls.len() ==> !holds_word(#[trigger] ls[j], key)
}

/// The text is made of these lines.
pub open spec fn is_text_of(text: Seq<char>, ls: Seq<Seq<char>>) -> bool {
    &&& ls.len() > 0
    &&& forall|i: int| 0 <= i < ls.len() ==> !#[trigger] ls[i].contains('\n')
    &&& text == joined(ls)
}

/// A key that is written without spaces and without an equals sign.
pub open spec fn is_key(key: Seq<char>) -> bool {
    key.len() > 0 && !is_space_char(key.first()) && !key.contains('=')
}

proof fn lemma_keys()
    ensures
        is_key("width"@),
        is_key("height"@),
        is_key("nb_frames"@),
        is_key("r_frame_rate"@),
        is_key("avg_frame_rate"@),
        is_key("duration"@),
{
    reveal_strlit("width");
    reveal_strlit("height");
    reveal_strlit("nb_frames");
    reveal_strlit("r_frame_rate");
    reveal_strlit("avg_frame_rate");
    reveal_strlit("duration");
}

proof fn lemma_entry_holds_key(line: Seq<char>, key: Seq<char>)
    requires
        is_entry_for(line, key),
    ensures
        holds_word(line, key),
{
    let (a, b) = lemma_trimmed_part(line);
    let body = trimmed(line);
    let n = first_of(body, '=');
    lemma_first_of_bounds(body, '=');
    assert(body.take(n) == key);
    assert(line.subrange(a, a + key.len()) =~= body.take(n));
}

proof fn lemma_says(
    ls: Seq<Seq<char>>,
    i: int,
    lead: Seq<char>,
    key: Seq<char>,
    value: Seq<char>,
    trail: Seq<char>,
)
    requires
        is_key(key),
        says_last(ls, i, lead, key, value, trail),
    ensures
        last_value(ls, key) == Some(value),
    decreases ls.len(),
{
    let n = ls.len() as int;
    if i == n - 1 {
        let body = key + seq!['='] + value;
        assert(body.first() == key.first());
        if value.len() > 0 {
            assert(body.last() == value.last());
        } else {
            assert(body.last() == '=');
        }
        lemma_trimmed_between(lead, body, trail);
        assert forall|j: int| 0 <= j < key.len() implies #[trigger] body[j] != '=' by {
            assert(body[j] == key[j]);
            assert(key.contains(key[j]));
        }
        assert(body[key.len() as int] == '=');
        lemma_first_of(body, '=', key.len() as int);
        assert(body.take(key.len() as int) =~= key);
        assert(body.skip(key.len() as int + 1) =~= value);
        assert(ls.last() == ls[i]);
    } else {
        let front = ls.drop_last();
        assert(front[i] == ls[i]);
        assert forall|j: int| i < j < front.len() implies !holds_word(#[trigger] front[j], key) by {
            assert(front[j] == ls[j]);
        }
        lemma_says(front, i, lead, key, value, trail);
        assert(!holds_word(ls[n - 1], key));
        if is_entry_for(ls.last(), key) {
            lemma_entry_holds_key(ls.last(), key);
        }
    }
}

/// A number that the report gives for a key is the number that is read: columns,
/// rows and frames, each under its own key.
pub proof fn law_numbers_are_read_by_key<T: Timing>(
    t: &T,
    text: &str,
    ls: Seq<Seq<char>>,
    i: int,
    lead: Seq<char>,
    key: Seq<char>,
    n: int,
    trail: Seq<char>,
    f: Fields<T::F>,
)
    requires
        is_text_of(text@, ls),
        n >= 0,
        says_last(ls, i, lead, key, decimal(n), trail),
        call_ensures(read_fields::<T>, (t, text), f),
    ensures
        key == "width"@ && n <= usize::MAX ==> f.width is Some && f.width->0 == n,
        key == "height"@ && n <= usize::MAX ==> f.height is Some && f.height->0 == n,
        key == "nb_frames"@ && n <= u64::MAX ==> f.nb_frames is Some && f.nb_frames->0 == n,
        key == "width"@ && n > usize::MAX ==> f.width is None,
        key == "height"@ && n > usize::MAX ==> f.height is None,
        key == "nb_frames"@ && n > u64::MAX ==> f.nb_frames is None,
{
    law_lines_come_apart(ls);
    lemma_keys();
    lemma_decimal(n);
    assert(is_digit(decimal(n)[0]));
    if is_known_key(key) {
        lemma_says(ls, i, lead, key, decimal(n), trail);
    }
}

/// A rate that the report gives for a key is the rate that is read, where it is
/// positive; a duration is read as it is.
pub proof fn law_rates_are_read_by_key<T: Timing>(
    t: &T,
    text: &str,
    ls: Seq<Seq<char>>,
    i: int,
    lead: Seq<char>,
    key: Seq<char>,
    value: &str,
    trail: Seq<char>,
    f: Fields<T::F>,
    rate: Result<T::F, RateError>,
    seconds: Option<T::F>,
)
    requires
        timing_agrees(t),
        is_text_of(text@, ls),
        says_last(ls, i, lead, key, value@, trail),
        call_ensures(read_fields::<T>, (t, text), f),
        call_ensures(parse_rate::<T>, (t, value), rate),
        call_ensures(T::parse, (t, value), seconds),
    ensures
        key == "r_frame_rate"@ ==> {
            &&& rate is Err ==> f.r_fps is None
            &&& rate is Ok && call_ensures(T::is_positive, (t, rate->Ok_0), true) ==> f.r_fps
                == Some(rate->Ok_0)
            &&& rate is Ok && call_ensures(T::is_positive, (t, rate->Ok_0), false)
                ==> f.r_fps is None
        },
        key == "avg_frame_rate"@ ==> {
            &&& rate is Err ==> f.avg_fps is None
            &&& rate is Ok && call_ensures(T::is_positive, (t, rate->Ok_0), true) ==> f.avg_fps
                == Some(rate->Ok_0)
            &&& rate is Ok && call_ensures(T::is_positive, (t, rate->Ok_0), false)
                ==> f.avg_fps is None
        },
        key == "duration"@ ==> f.duration == seconds,
{
    law_lines_come_apart(ls);
    lemma_keys();
    if is_known_key(key) {
        lemma_says(ls, i, lead, key, value@, trail);
    }
    if key == "duration"@ {
        assert(is_number(t, value@, seconds));
        lemma_number(t, value@, f.duration, seconds);
    }
    if key == "r_frame_rate"@ {
        lemma_rate_read(t, value@, rate, f.r_fps);
    }
    if key == "avg_frame_rate"@ {
        lemma_rate_read(t, value@, rate, f.avg_fps);
    }
}

proof fn lemma_rate_read<T: Timing>(
    t: &T,
    s: Seq<char>,
    rate: Result<T::F, RateError>,
    out: Option<T::F>,
)
    requires
        timing_agrees(t),
        is_rate(t, s, rate),
        is_positive_rate(t, s, out),
    ensures
        rate is Err ==> out is None,
        rate is Ok && call_ensures(T::is_positive, (t, rate->Ok_0), true) ==> out == Some(
            rate->Ok_0,
        ),
        rate is Ok && call_ensures(T::is_positive, (t, rate->Ok_0), false) ==> out is None,
{
    let p = choose|p: Result<T::F, RateError>| #[trigger]
        is_rate(t, s, p) && match p {
            Err(_) => out is None,
            Ok(f) => exists|yes: bool| #[trigger]
                call_ensures(T::is_positive, (t, f), yes) && out == (if yes {
                    Some(f)
                } else {
                    None
                }),
        };
    law_rate_has_one_reading(t, s, p, rate);
}

/// What a report does not mention is not read.
pub proof fn law_missing_keys_are_not_read<T: Timing>(
    t: &T,
    text: &str,
    ls: Seq<Seq<char>>,
    key: Seq<char>,
    f: Fields<T::F>,
)
    requires
        is_text_of(text@, ls),
        forall|j: int| 0 <= j < ls.len() ==> !holds_word(#[trigger] ls[j], key),
        call_ensures(read_fields::<T>, (t, text), f),
    ensures
        key == "width"@ ==> f.width is None,
        key == "height"@ ==> f.height is None,
        key == "nb_frames"@ ==> f.nb_frames is None,
        key == "r_frame_rate"@ ==> f.r_fps is None,
        key == "avg_frame_rate"@ ==> f.avg_fps is None,
        key == "duration"@ ==> f.duration is None,
{
    law_lines_come_apart(ls);
    assert forall|line: Seq<char>| #[trigger] ls.contains(line) implies !is_entry_for(
        line,
        key,
    ) by {
        let j = choose|j: int| 0 <= j < ls.len() && ls[j] == line;
        if is_entry_for(line, key) {
            lemma_entry_holds_key(line, key);
        }
        assert(!holds_word(ls[j], key));
    }
    lemma_no_value(ls, key);
}

/// A rate with a slash is what stands before it over what stands behind it; one
/// without is the number itself. What cannot be read is told apart.
pub proof fn law_rate_is_a_quotient<T: Timing>(
    t: &T,
    s: &str,
    a: &str,
    b: &str,
    num: Option<T::F>,
    den: Option<T::F>,
    whole: Option<T::F>,
    quotient: T::F,
    out: Result<T::F, RateError>,
)
    requires
        timing_agrees(t),
        call_ensures(parse_rate::<T>, (t, s), out),
        call_ensures(T::parse, (t, a), num),
        call_ensures(T::parse, (t, b), den),
        call_ensures(T::parse, (t, s), whole),
        num is Some && den is Some ==> call_ensures(T::ratio, (t, num->0, den->0), quotient),
    ensures
        s@ == a@ + seq!['/'] + b@ && !a@.contains('/') ==> {
            &&& num is None ==> out == Err::<T::F, RateError>(RateError::BadNumerator)
            &&& num is Some && den is None ==> out == Err::<T::F, RateError>(
                RateError::BadDenominator,
            )
            &&& num is Some && den is Some ==> out == Ok::<T::F, RateError>(quotient)
        },
        !s@.contains('/') ==> {
            &&& whole is None ==> out == Err::<T::F, RateError>(RateError::BadNumber)
            &&& whole is Some ==> out == Ok::<T::F, RateError>(whole->0)
        },
{
    assert(is_number(t, a@, num));
    assert(is_number(t, b@, den));
    assert(is_number(t, s@, whole));
    if s@ == a@ + seq!['/'] + b@ && !a@.contains('/') {
        let n = a@.len() as int;
        assert forall|j: int| 0 <= j < n implies #[trigger] s@[j] != '/' by {
            assert(s@[j] == a@[j]);
            assert(a@.contains(a@[j]));
        }
        assert(s@[n] == '/');
        lemma_first_of(s@, '/', n);
        assert(s@.take(n) =~= a@);
        assert(s@.skip(n + 1) =~= b@);
        lemma_quotient(t, a@, b@, num, den, quotient, out);
    }
    if !s@.contains('/') {
        assert forall|j: int| 0 <= j < s@.len() implies #[trigger] s@[j] != '/' by {
            assert(s@.contains(s@[j]));
        }
        lemma_first_of(s@, '/', s@.len() as int);
        let w = choose|w: Option<T::F>| #[trigger]
            is_number(t, s@, w) && match w {
                None => out == Err::<T::F, RateError>(RateError::BadNumber),
                Some(f) => out == Ok::<T::F, RateError>(f),
            };
        lemma_number(t, s@, w, whole);
    }
}

proof fn lemma_quotient<T: Timing>(
    t: &T,
    a: Seq<char>,
    b: Seq<char>,
    num: Option<T::F>,
    den: Option<T::F>,
    quotient: T::F,
    out: Result<T::F, RateError>,
)
    requires
        timing_agrees(t),
        is_fraction_text(t, a, b, out),
        is_number(t, a, num),
        is_number(t, b, den),
        num is Some && den is Some ==> call_ensures(T::ratio, (t, num->0, den->0), quotient),
    ensures
        num is None ==> out == Err::<T::F, RateError>(RateError::BadNumerator),
        num is Some && den is None ==> out == Err::<T::F, RateError>(RateError::BadDenominator),
        num is Some && den is Some ==> out == Ok::<T::F, RateError>(quotient),
{
    let x = choose|x: Option<T::F>| #[trigger]
        is_number(t, a, x) && match x {
            None => out == Err::<T::F, RateError>(RateError::BadNumerator),
            Some(n) => is_fraction(t, n, b, out),
        };
    lemma_number(t, a, x, num);
    if num is Some {
        let n = num->0;
        let y = choose|y: Option<T::F>| #[trigger]
            is_number(t, b, y) && match y {
                None => out == Err::<T::F, RateError>(RateError::BadDenominator),
                Some(d) => out is Ok && call_ensures(T::ratio, (t, n, d), out->Ok_0),
            };
        lemma_number(t, b, y, den);
    }
}

/// What comes of the fields of a report: the size that was read, the average rate
/// before the nominal one, and the number of frames that was read before the one
/// that the duration amounts to.
pub proof fn law_fields_make_the_verdict<T: Timing>(
    t: &T,
    f: &Fields<T::F>,
    seconds_count: bool,
    estimate: u64,
    out: Result<VideoInfo<T::F>, ProbeError>,
)
    requires
        timing_agrees(t),
        call_ensures(judge::<T>, (t, f), out),
        f.duration is Some ==> call_ensures(T::is_positive, (t, f.duration->0), seconds_count),
        f.duration is Some && out is Ok ==> call_ensures(
            T::frames,
            (t, f.duration->0, out->Ok_0.fps),
            estimate,
        ),
    ensures
        out == Err::<VideoInfo<T::F>, ProbeError>(ProbeError::NoStream) <==> (f.width is None
            || f.height is None || f.width->0 == 0 || f.height->0 == 0),
        out == Err::<VideoInfo<T::F>, ProbeError>(ProbeError::NoFrameRate) ==> f.avg_fps is None
            && f.r_fps is None,
        f.avg_fps is None && f.r_fps is None ==> out is Err,
        out is Ok ==> {
            &&& f.width == Some(out->Ok_0.width)
            &&& f.height == Some(out->Ok_0.height)
            &&& f.avg_fps is Some ==> f.avg_fps == Some(out->Ok_0.fps)
            &&& f.avg_fps is None ==> f.r_fps == Some(out->Ok_0.fps)
            &&& f.nb_frames is Some && f.nb_frames->0 > 0 ==> f.nb_frames == Some(
                out->Ok_0.total_frames,
            )
            &&& (f.nb_frames is None || f.nb_frames->0 == 0) ==> out->Ok_0.total_frames == (
            if f.duration is Some && seconds_count {
                estimate
            } else {
                0
            })
        },
{
}

/// A probe is the verdict on what was read.
pub proof fn law_probe_judges_what_was_read<T: Timing>(
    t: &T,
    text: &str,
    f: &Fields<T::F>,
    verdict: Result<VideoInfo<T::F>, ProbeError>,
    out: Result<VideoInfo<T::F>, ProbeError>,
)
    requires
        timing_agrees(t),
        call_ensures(read_fields::<T>, (t, text), *f),
        call_ensures(judge::<T>, (t, f), verdict),
        call_ensures(probe::<T>, (t, text), out),
    ensures
        out == verdict,
{
    let ls = lines(text@);
    let g = choose|g: Fields<T::F>| #[trigger] is_fields(t, ls, g) && is_verdict(t, g, out);
    lemma_fields(t, ls, *f, g);
}

} // verus!
