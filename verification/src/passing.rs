//! What becomes of the frames of a video, told over what arrived and what was
//! sent.
use crate::frames::{is_processed, Role, Settings};
use crate::image::{FlowField, Gray};
use crate::numerics::Numerics;
use crate::session::{
    all_expected, are_images, course, frames_in, input_of, is_brightness, is_expected, is_sized,
    is_truncated, law_every_frame_is_sent_once, law_frames_keep_their_order, number_or,
    role_at_hand, Event, Failure, Input, Phase, Session,
};
use crate::text::{law_decimal_reads_back, parsed};
use vstd::prelude::*;

verus! {

/// How many frames were sent in a list of inputs.
pub open spec fn sends(inputs: Seq<Input>) -> int
    decreases inputs.len(),
{
    if inputs.len() == 0 {
        0
    } else {
        sends(inputs.drop_last()) + if inputs.last() is Sent {
            1int
        } else {
            0
        }
    }
}

/// The video came to its end.
pub open spec fn has_end(inputs: Seq<Input>) -> bool {
    exists|i: int| 0 <= i < inputs.len() && #[trigger] inputs[i] is End
}

/// The decoder was lost.
pub open spec fn has_loss(inputs: Seq<Input>) -> bool {
    exists|i: int| 0 <= i < inputs.len() && #[trigger] inputs[i] is Lost
}

/// The encoder refused a frame.
pub open spec fn has_refusal(inputs: Seq<Input>) -> bool {
    exists|i: int| 0 <= i < inputs.len() && #[trigger] inputs[i] is Refused
}

proof fn lemma_last(inputs: Seq<Input>)
    requires
        inputs.len() > 0,
    ensures
        has_end(inputs) <==> has_end(inputs.drop_last()) || inputs.last() is End,
        has_loss(inputs) <==> has_loss(inputs.drop_last()) || inputs.last() is Lost,
        has_refusal(inputs) <==> has_refusal(inputs.drop_last()) || inputs.last() is Refused,
{
    let (all, part) = (inputs, inputs.drop_last());
    let n = part.len() as int;
    assert(all[n] == all.last());
    assert(forall|i: int| 0 <= i < n ==> #[trigger] part[i] == all[i]);
    if has_end(part) {
        let i = choose|i: int| 0 <= i < part.len() && #[trigger] part[i] is End;
        assert(all[i] is End);
    }
    if has_loss(part) {
        let i = choose|i: int| 0 <= i < part.len() && #[trigger] part[i] is Lost;
        assert(all[i] is Lost);
    }
    if has_refusal(part) {
        let i = choose|i: int| 0 <= i < part.len() && #[trigger] part[i] is Refused;
        assert(all[i] is Refused);
    }
    if has_end(all) {
        let i = choose|i: int| 0 <= i < all.len() && #[trigger] all[i] is End;
        assert(i < n ==> part[i] is End);
    }
    if has_loss(all) {
        let i = choose|i: int| 0 <= i < all.len() && #[trigger] all[i] is Lost;
        assert(i < n ==> part[i] is Lost);
    }
    if has_refusal(all) {
        let i = choose|i: int| 0 <= i < all.len() && #[trigger] all[i] is Refused;
        assert(i < n ==> part[i] is Refused);
    }
}

/// The phase follows from how many frames arrived and were sent, and from what
/// else happened. A frame is at hand once its successor arrived or the video is
/// over; a lone frame counts as the whole video, whether the video ended there or
/// the decoder was lost; otherwise a lost decoder and a frame refused are errors,
/// and so is a video without frames.
pub proof fn law_phase_follows_from_the_frames(inputs: Seq<Input>)
    requires
        all_expected(inputs),
    ensures
        ({
            let (n, s) = (frames_in(inputs).len() as int, sends(inputs));
            let (end, loss) = (has_end(inputs), has_loss(inputs));
            let p = course(inputs).phase;
            &&& course(inputs).sent == s
            &&& p == Phase::Empty <==> n == 0 && !end && !loss
            &&& p == Phase::Failed(Failure::NoFrames) <==> n == 0 && end
            &&& p == Phase::Failed(Failure::DecoderFailed) <==> n != 1 && loss
            &&& p == Phase::Failed(Failure::EncoderClosed) <==> has_refusal(inputs)
            &&& p == Phase::Finished <==> n > 0 && n == s
            &&& n == s + 2 ==> !end && !loss
            &&& !has_refusal(inputs) ==> {
                &&& p == Phase::Ready(Role::Middle) <==> n == s + 2
                &&& p == Phase::Ready(Role::Last) <==> n == s + 1 && s > 0 && end
                &&& p == Phase::Ready(Role::Only) <==> n == 1 && s == 0 && (end || loss)
                &&& p == Phase::One <==> n == 1 && s == 0 && !end && !loss
                &&& p == Phase::Waiting <==> n == s + 1 && s > 0 && !end && !loss
            }
        }),
    decreases inputs.len(),
{
    law_every_frame_is_sent_once(inputs);
    law_frames_keep_their_order(inputs);
    if inputs.len() > 0 {
        law_phase_follows_from_the_frames(inputs.drop_last());
        law_every_frame_is_sent_once(inputs.drop_last());
        law_frames_keep_their_order(inputs.drop_last());
        lemma_last(inputs);
    } else {
        assert(!has_end(inputs) && !has_loss(inputs) && !has_refusal(inputs));
    }
}

/// What frame `i` of some that arrived is to the video.
pub open spec fn role_of(i: int, n: int) -> Role {
    if i + 1 < n {
        Role::Middle
    } else if i > 0 {
        Role::Last
    } else {
        Role::Only
    }
}

/// The images of frame `i` and of its neighbours: the frame before it (itself,
/// where it is the first), and the frame after it (itself, where there is but
/// one). The last of several has none after it.
pub open spec fn are_neighbours<K: Numerics>(
    k: &K,
    frames: Seq<Seq<u8>>,
    i: int,
    w: usize,
    h: usize,
    cur: Gray<K::T>,
    prev: Gray<K::T>,
    next: Gray<K::T>,
) -> bool {
    &&& is_brightness(k, frames[i], w, h, cur)
    &&& i == 0 ==> is_brightness(k, frames[i], w, h, prev)
    &&& i > 0 ==> is_brightness(k, frames[i - 1], w, h, prev)
    &&& i + 1 < frames.len() ==> is_brightness(k, frames[i + 1], w, h, next)
    &&& frames.len() == 1 ==> is_brightness(k, frames[i], w, h, next)
    &&& is_sized(next, w, h)
}

/// Frame `i` was blurred between its neighbours.
pub open spec fn is_blurred_between<K: Numerics>(
    k: &K,
    s: Settings<K::T>,
    frames: Seq<Seq<u8>>,
    i: int,
    w: usize,
    h: usize,
    cur: Gray<K::T>,
    prev: Gray<K::T>,
    next: Gray<K::T>,
    cache: Option<FlowField<K::T>>,
    out: Seq<u8>,
    kept: Option<FlowField<K::T>>,
) -> bool {
    let role = role_of(i, frames.len() as int);
    &&& are_neighbours(k, frames, i, w, h, cur, prev, next)
    &&& is_processed(k, s, role, frames[i], cur, prev, next, cache, out, kept)
}

proof fn lemma_neighbours<K: Numerics>(
    k: &K,
    session: &Session<K::T>,
    inputs: Seq<Input>,
    cur: Gray<K::T>,
    prev: Gray<K::T>,
    next: Gray<K::T>,
)
    requires
        session.inv(k),
        session@ == course(inputs),
        all_expected(inputs),
        session@.phase is Ready,
        are_images(
            k,
            session@,
            session.brightness(),
            session.width(),
            session.height(),
            cur,
            prev,
            next,
        ),
    ensures
        session@.frames == frames_in(inputs),
        session@.sent == sends(inputs),
        0 <= sends(inputs) < frames_in(inputs).len(),
        role_at_hand(session@) == role_of(sends(inputs), frames_in(inputs).len() as int),
        are_neighbours(
            k,
            frames_in(inputs),
            sends(inputs),
            session.width(),
            session.height(),
            cur,
            prev,
            next,
        ),
{
    law_phase_follows_from_the_frames(inputs);
    law_frames_keep_their_order(inputs);
    law_every_frame_is_sent_once(inputs);
    let i = sends(inputs);
    session.law_brightness_is_noted(k, i);
    if i > 0 {
        session.law_brightness_is_noted(k, i - 1);
    }
    if i + 1 < frames_in(inputs).len() {
        session.law_brightness_is_noted(k, i + 1);
    }
}

/// The images that the session hands out are those of the frame at hand, of the
/// one before it and of the one after it, in this order; of all frames that
/// arrived, the one at hand is the first that was not sent.
pub proof fn law_session_hands_out_the_neighbours<K: Numerics>(
    k: &K,
    session: &Session<K::T>,
    inputs: Seq<Input>,
    cur: &Gray<K::T>,
    prev: &Gray<K::T>,
    next: &Gray<K::T>,
)
    requires
        session.inv(k),
        session@ == course(inputs),
        all_expected(inputs),
        session@.phase is Ready,
        call_ensures(Session::<K::T>::images::<K>, (session, k), (cur, prev, next)),
    ensures
        0 <= sends(inputs) < frames_in(inputs).len(),
        are_neighbours(
            k,
            frames_in(inputs),
            sends(inputs),
            session.width(),
            session.height(),
            *cur,
            *prev,
            *next,
        ),
{
    lemma_neighbours(k, session, inputs, *cur, *prev, *next);
}

/// A frame is blurred between its own neighbours: of all frames that arrived, the
/// one at hand is the first that was not sent.
pub proof fn law_session_blurs_between_neighbours<K: Numerics>(
    k: &K,
    session: &Session<K::T>,
    s: &Settings<K::T>,
    cache: Option<FlowField<K::T>>,
    inputs: Seq<Input>,
    out: Vec<u8>,
    kept: Option<FlowField<K::T>>,
)
    requires
        session.inv(k),
        session@ == course(inputs),
        all_expected(inputs),
        session@.phase is Ready,
        call_ensures(Session::<K::T>::blur::<K>, (session, k, s, cache), Some((out, kept))),
    ensures
        0 <= sends(inputs) < frames_in(inputs).len(),
        exists|cur: Gray<K::T>, prev: Gray<K::T>, next: Gray<K::T>| #[trigger]
            is_blurred_between(
                k,
                *s,
                frames_in(inputs),
                sends(inputs),
                session.width(),
                session.height(),
                cur,
                prev,
                next,
                cache,
                out@,
                kept,
            ),
{
    let p = session@;
    let frames = frames_in(inputs);
    let (w, h) = (session.width(), session.height());
    let (cur, prev, next) = choose|cur: Gray<K::T>, prev: Gray<K::T>, next: Gray<K::T>|
        {
            &&& #[trigger] are_images(k, p, session.brightness(), w, h, cur, prev, next)
            &&& is_processed(
                k,
                *s,
                role_at_hand(p),
                p.frames[p.sent],
                cur,
                prev,
                next,
                cache,
                out@,
                kept,
            )
        };
    let i = sends(inputs);
    lemma_neighbours(k, session, inputs, cur, prev, next);
    assert(is_blurred_between(k, *s, frames, i, w, h, cur, prev, next, cache, out@, kept));
}

/// The frame that the session hands out, and the copy that it makes, is the first
/// of those that arrived that was not sent.
pub proof fn law_frame_at_hand_is_the_next_to_send<K: Numerics>(
    k: &K,
    session: &Session<K::T>,
    inputs: Seq<Input>,
    rgb: &Vec<u8>,
    copy: Vec<u8>,
    count: u64,
)
    requires
        session.inv(k),
        session@ == course(inputs),
        all_expected(inputs),
        session@.phase is Ready,
        call_ensures(Session::<K::T>::frame::<K>, (session, k), rgb),
        call_ensures(Session::<K::T>::copy_frame::<K>, (session, k), copy),
        call_ensures(Session::<K::T>::count, (session,), count),
    ensures
        count == sends(inputs),
        rgb@ == frames_in(inputs)[sends(inputs)],
        copy@ == rgb@,
{
    law_phase_follows_from_the_frames(inputs);
    law_frames_keep_their_order(inputs);
}

/// Counts that differ are noticed, unless the input reports none.
pub proof fn law_differing_counts_are_noticed(sent: u64, reported: u64, yes: bool)
    requires
        call_ensures(is_truncated, (sent, reported), yes),
    ensures
        sent == reported ==> !yes,
        reported == 0 ==> !yes,
        sent < reported ==> yes,
        sent > reported > 0 ==> yes,
{
}

/// What is shown for a number reads back as that number; for zero the word is
/// shown.
pub proof fn law_shown_numbers_read_back(n: u64, word: &str, s: String)
    requires
        call_ensures(number_or, (n, word), s),
    ensures
        n > 0 ==> parsed(s@, u64::MAX as int) == Some(n as int),
        n == 0 ==> s@ == word@,
{
    law_decimal_reads_back(n as int, u64::MAX as int);
}

/// A new session has the size that it was made for, and nothing has happened yet.
pub proof fn law_sessions_start_afresh<K: Numerics>(
    k: &K,
    w: usize,
    h: usize,
    session: Session<K::T>,
    phase: Phase,
)
    requires
        call_ensures(Session::<K::T>::new::<K>, (k, w, h), session),
        call_ensures(Session::<K::T>::phase, (&session,), phase),
    ensures
        session.inv(k),
        session.width() == w,
        session.height() == h,
        session@ == course(Seq::empty()),
        phase == Phase::Empty,
{
}

/// What arrives takes the session one input further: a frame as it is, the end, and
/// the loss of the decoder. From the third frame on, each makes room for another: a
/// buffer of the size of a frame comes back.
pub proof fn law_events_are_taken_up<K: Numerics>(
    k: &K,
    session: &mut Session<K::T>,
    event: Event,
    inputs: Seq<Input>,
    retired: Option<Vec<u8>>,
)
    requires
        old(session).inv(k),
        old(session)@ == course(inputs),
        all_expected(inputs),
        is_expected(old(session)@.phase, input_of(event)),
        call_ensures(Session::<K::T>::receive::<K>, (session, k, event), retired),
    ensures
        final(session).inv(k),
        final(session).width() == old(session).width(),
        final(session).height() == old(session).height(),
        event matches Event::Frame(f) ==> final(session)@ == course(inputs.push(Input::Frame(f@)))
            && all_expected(inputs.push(Input::Frame(f@))),
        event matches Event::End ==> final(session)@ == course(inputs.push(Input::End))
            && all_expected(inputs.push(Input::End)),
        event matches Event::Lost ==> final(session)@ == course(inputs.push(Input::Lost))
            && all_expected(inputs.push(Input::Lost)),
        retired is Some <==> event is Frame && frames_in(inputs).len() >= 2,
        retired is Some ==> retired->0@.len() == 3 * (old(session).width() * old(session).height()),
{
    let i = input_of(event);
    let last = old(session)@.sent - 2;
    if 0 <= last < old(session)@.frames.len() {
        old(session).law_brightness_is_noted(k, last);
    }
    let (w, h) = (old(session).width(), old(session).height());
    assert(w * h >= 0) by (nonlinear_arith)
        requires
            w >= 0,
            h >= 0,
    ;
    assert(inputs.push(i).drop_last() =~= inputs);
    assert(inputs.push(i).last() == i);
    law_phase_follows_from_the_frames(inputs);
}

/// A frame that was sent, or refused, takes the session one input further.
pub proof fn law_sending_is_taken_up<K: Numerics>(
    k: &K,
    session: &mut Session<K::T>,
    inputs: Seq<Input>,
    refused: bool,
)
    requires
        old(session)@ == course(inputs),
        all_expected(inputs),
        old(session)@.phase is Ready,
        !refused ==> call_ensures(Session::<K::T>::mark_sent::<K>, (session, k), ()),
        refused ==> call_ensures(Session::<K::T>::mark_refused::<K>, (session, k), ()),
    ensures
        final(session).inv(k),
        final(session).width() == old(session).width(),
        final(session).height() == old(session).height(),
        final(session).brightness() == old(session).brightness(),
        !refused ==> final(session)@ == course(inputs.push(Input::Sent)) && all_expected(
            inputs.push(Input::Sent),
        ),
        refused ==> final(session)@ == course(inputs.push(Input::Refused)) && all_expected(
            inputs.push(Input::Refused),
        ),
{
    let i = if refused {
        Input::Refused
    } else {
        Input::Sent
    };
    assert(inputs.push(i).drop_last() =~= inputs);
    assert(inputs.push(i).last() == i);
}

} // verus!
