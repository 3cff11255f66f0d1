//! What the text tools do, told over the characters that go in and come out.
use crate::text::{
    digits_value, find, is_digit, is_space_char, lemma_decimal, lemma_first_of,
    lemma_first_of_bounds, lines, parse_unsigned, to_decimal, trim, trimmed, trimmed_end,
    trimmed_start, unsigned_part,
};
use vstd::prelude::*;

verus! {

/// White space only.
pub open spec fn is_blank(s: Seq<char>) -> bool {
    forall|i: int| 0 <= i < s.len() ==> is_space_char(#[trigger] s[i])
}

/// No white space at either end.
pub open spec fn is_tight(s: Seq<char>) -> bool {
    s.len() > 0 ==> !is_space_char(s.first()) && !is_space_char(s.last())
}

proof fn lemma_trimmed_start(s: Seq<char>) -> (n: int)
    ensures
        0 <= n <= s.len(),
        trimmed_start(s) == s.skip(n),
        is_blank(s.take(n)),
        n < s.len() ==> !is_space_char(s[n]),
    decreases s.len(),
{
    if s.len() > 0 && is_space_char(s.first()) {
        let t = s.drop_first();
        let n = lemma_trimmed_start(t);
        assert(t.skip(n) =~= s.skip(n + 1));
        assert forall|i: int| 0 <= i < n + 1 implies is_space_char(
            #[trigger] s.take(n + 1)[i],
        ) by {
            if i > 0 {
                assert(t.take(n)[i - 1] == s[i]);
            }
        }
        n + 1
    } else {
        assert(s.skip(0) =~= s);
        0
    }
}

proof fn lemma_trimmed_end(s: Seq<char>) -> (n: int)
    ensures
        0 <= n <= s.len(),
        trimmed_end(s) == s.take(n),
        is_blank(s.skip(n)),
        n > 0 ==> !is_space_char(s[n - 1]),
    decreases s.len(),
{
    if s.len() > 0 && is_space_char(s.last()) {
        let t = s.drop_last();
        let n = lemma_trimmed_end(t);
        assert(t.take(n) =~= s.take(n));
        assert forall|i: int| 0 <= i < s.skip(n).len() implies is_space_char(
            #[trigger] s.skip(n)[i],
        ) by {
            if i < t.len() - n {
                assert(t.skip(n)[i] == s[n + i]);
            } else {
                assert(s[n + i] == s.last());
            }
        }
        n
    } else {
        assert(s.take(s.len() as int) =~= s);
        s.len() as int
    }
}

/// What is left of a text is a part of it, with white space only around it and
/// none at its ends.
pub(crate) proof fn lemma_trimmed_part(s: Seq<char>) -> (r: (int, int))
    ensures
        0 <= r.0 <= r.1 <= s.len(),
        trimmed(s) == s.subrange(r.0, r.1),
        is_blank(s.take(r.0)),
        is_blank(s.skip(r.1)),
        is_tight(trimmed(s)),
{
    let a = lemma_trimmed_start(s);
    let t = s.skip(a);
    let n = lemma_trimmed_end(t);
    assert(t.take(n) =~= s.subrange(a, a + n));
    assert(t.skip(n) =~= s.skip(a + n));
    if n > 0 {
        assert(t.take(n).first() == s[a]);
        assert(t.take(n).last() == t[n - 1]);
    }
    (a, a + n)
}

/// A tight text between white space is what is left after trimming.
pub(crate) proof fn lemma_trimmed_between(lead: Seq<char>, body: Seq<char>, trail: Seq<char>)
    requires
        is_blank(lead),
        is_blank(trail),
        body.len() > 0,
        is_tight(body),
    ensures
        trimmed(lead + body + trail) == body,
{
    let s = lead + body + trail;
    let (a, b) = lemma_trimmed_part(s);
    let (p, q) = (lead.len() as int, (lead + body).len() as int);
    assert(s[p] == body.first());
    assert(s[q - 1] == body.last());
    if a > p {
        assert(s.take(a)[p] == s[p]);
    }
    if b < q {
        assert(s.skip(b)[q - 1 - b] == s[q - 1]);
    }
    assert(b > a);
    if a < p {
        assert(s.subrange(a, b).first() == lead[a]);
    }
    if b > q {
        assert(s.subrange(a, b).last() == trail[b - 1 - q]);
    }
    assert(s.subrange(p, q) =~= body);
}

/// Trimming takes away white space, all of it at both ends and nothing else.
pub proof fn law_trimming_takes_white_space_off(
    v: &Vec<char>,
    from: usize,
    to: usize,
    r: (usize, usize),
)
    requires
        from <= to <= v@.len(),
        call_ensures(trim, (v, from, to), r),
    ensures
        from <= r.0 <= r.1 <= to,
        is_tight(v@.subrange(r.0 as int, r.1 as int)),
        is_blank(v@.subrange(from as int, r.0 as int)) && is_blank(
            v@.subrange(r.1 as int, to as int),
        ),
{
    let s = v@.subrange(from as int, to as int);
    let (a, b) = lemma_trimmed_part(s);
    let t = v@.subrange(r.0 as int, r.1 as int);
    assert(r.1 - r.0 == b - a);
    let (p, q) = (v@.subrange(from as int, r.0 as int), v@.subrange(r.1 as int, to as int));
    assert forall|i: int| 0 <= i < s.len() && !(a <= i < b) implies is_space_char(
        #[trigger] s[i],
    ) by {
        if i < a {
            assert(s.take(a)[i] == s[i]);
        } else {
            assert(s.skip(b)[i - b] == s[i]);
        }
    }
    if a < b {
        assert(t.first() == s[r.0 - from]);
        assert(t.last() == s[r.1 - 1 - from]);
        assert(r.0 == from + a);
    }
    assert forall|i: int| 0 <= i < p.len() implies is_space_char(#[trigger] p[i]) by {
        assert(p[i] == s[i]);
    }
    assert forall|i: int| 0 <= i < q.len() implies is_space_char(#[trigger] q[i]) by {
        assert(q[i] == s[r.1 - from + i]);
    }
}

/// The first place that holds a character is found, or the end where none does.
pub proof fn law_first_place_is_found(v: &Vec<char>, from: usize, to: usize, c: char, i: usize)
    requires
        from <= to <= v@.len(),
        call_ensures(find, (v, from, to, c), i),
    ensures
        from <= i <= to,
        i < to ==> v@[i as int] == c,
        forall|j: int| from <= j < i ==> #[trigger] v@[j] != c,
{
    let s = v@.subrange(from as int, to as int);
    lemma_first_of_bounds(s, c);
    assert forall|j: int| from <= j < i implies #[trigger] v@[j] != c by {
        assert(s[j - from] == v@[j]);
    }
    if i < to {
        assert(s[i - from] == v@[i as int]);
    }
}

/// What was written in decimal reads back as the same number, where it is small
/// enough, and with a plus sign too.
pub proof fn law_written_numbers_read_back(
    n: u64,
    s: String,
    v: &Vec<char>,
    signed: bool,
    max: u64,
    out: Option<u64>,
)
    requires
        call_ensures(to_decimal, (n,), s),
        v@ == (if signed {
            seq!['+'] + s@
        } else {
            s@
        }),
        v@.len() <= usize::MAX,
        call_ensures(parse_unsigned, (v, 0usize, v@.len() as usize, max), out),
    ensures
        n <= max ==> out == Some(n),
        n > max ==> out is None,
{
    lemma_decimal(n as int);
    let t = v@.subrange(0, v@.len() as int);
    assert(t =~= v@);
    if signed {
        assert(t.drop_first() =~= s@);
    } else {
        assert(is_digit(s@[0]));
    }
}

/// A digit behind a number makes ten times the number and the digit; anything
/// else makes it no number.
pub proof fn law_digits_count_tenfold(
    u: &Vec<char>,
    v: &Vec<char>,
    n: u64,
    c: char,
    out: Option<u64>,
)
    requires
        v@ == u@.push(c),
        v@.len() <= usize::MAX,
        call_ensures(parse_unsigned, (u, 0usize, u@.len() as usize, u64::MAX), Some(n)),
        call_ensures(parse_unsigned, (v, 0usize, v@.len() as usize, u64::MAX), out),
    ensures
        '0' <= c <= '9' && 10 * n + (c as int - '0' as int) <= u64::MAX ==> out is Some && out->0
            == 10 * n + (c as int - '0' as int),
        !('0' <= c <= '9') ==> out is None,
{
    let (s, t) = (u@.subrange(0, u@.len() as int), v@.subrange(0, v@.len() as int));
    assert(s =~= u@);
    assert(t =~= v@);
    let (d, e) = (unsigned_part(s), unsigned_part(t));
    assert(e =~= d.push(c));
    assert(e.drop_last() =~= d);
    if '0' <= c <= '9' {
        assert forall|i: int| 0 <= i < e.len() implies is_digit(#[trigger] e[i]) by {
            if i < d.len() {
                assert(is_digit(d[i]));
            }
        }
    } else {
        assert(!is_digit(e[d.len() as int]));
    }
}

/// A single digit is the number that it stands for, in the order of the digits.
pub proof fn law_digits_are_numbers(v: &Vec<char>, c: char, out: Option<u64>)
    requires
        v@ == seq![c],
        call_ensures(parse_unsigned, (v, 0usize, 1usize, u64::MAX), out),
    ensures
        '0' <= c <= '9' ==> out is Some && out->0 == c as int - '0' as int,
        !('0' <= c <= '9') ==> out is None,
{
    let t = v@.subrange(0, 1);
    assert(t =~= seq![c]);
    if c != '+' {
        assert(t.drop_last() =~= Seq::<char>::empty());
        assert(digits_value(Seq::<char>::empty()) == 0);
        assert(t[0] == c);
    } else {
        assert(t.drop_first() =~= Seq::<char>::empty());
    }
}

/// Lines, with a line feed between any two of them.
pub open spec fn joined(ls: Seq<Seq<char>>) -> Seq<char>
    decreases ls.len(),
{
    if ls.len() == 0 {
        Seq::empty()
    } else if ls.len() == 1 {
        ls[0]
    } else {
        ls[0] + seq!['\n'] + joined(ls.skip(1))
    }
}

/// Lines that were joined come apart again.
pub proof fn law_lines_come_apart(ls: Seq<Seq<char>>)
    requires
        ls.len() > 0,
        forall|i: int| 0 <= i < ls.len() ==> !#[trigger] ls[i].contains('\n'),
    ensures
        lines(joined(ls)) == ls,
    decreases ls.len(),
{
    let (s, l) = (joined(ls), ls[0]);
    assert(!ls[0].contains('\n'));
    assert forall|j: int| 0 <= j < l.len() implies #[trigger] s[j] != '\n' by {
        assert(s[j] == l[j]);
        assert(l.contains(l[j]));
    }
    if ls.len() == 1 {
        lemma_first_of(s, '\n', l.len() as int);
        assert(seq![s] =~= ls);
    } else {
        let rest = ls.skip(1);
        assert(s[l.len() as int] == '\n');
        lemma_first_of(s, '\n', l.len() as int);
        assert forall|i: int| 0 <= i < rest.len() implies !#[trigger] rest[i].contains('\n') by {
            assert(rest[i] == ls[i + 1]);
        }
        law_lines_come_apart(rest);
        assert(s.take(l.len() as int) =~= l);
        assert(s.skip(l.len() as int + 1) =~= joined(rest));
        assert(seq![l] + rest =~= ls);
    }
}

} // verus!
