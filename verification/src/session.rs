//! The course of a video through the program: which frame is blurred when, and
//! which of its neighbours it is compared with.
use crate::frames::{
    is_processed, is_unordered_motion, is_workable, process_frame, Role, Settings,
};
use crate::image::{copy_of, is_gray_of, FlowField, Gray};
use crate::numerics::Numerics;
use crate::text::{decimal, to_decimal};
use vstd::prelude::*;

verus! {

/// What arrives from the decoder.
pub enum Event {
    /// The next frame.
    Frame(Vec<u8>),
    /// There are no more frames.
    End,
    /// The decoder is gone.
    Lost,
}

/// Why the work stopped early.
#[derive(Debug, Clone, Copy, PartialEq, Eq, Structural)]
pub enum Failure {
    /// The video has no frames.
    NoFrames,
    /// The decoder went away before the end.
    DecoderFailed,
    /// The encoder takes no more frames.
    EncoderClosed,
}

/// How far the work has come.
#[derive(Debug, Clone, Copy, PartialEq, Eq, Structural)]
pub enum Phase {
    /// No frame has arrived.
    Empty,
    /// The first frame is there; whether another follows is not known.
    One,
    /// A frame is to be blurred and sent.
    Ready(Role),
    /// A frame was sent; whether another follows the next one is not known.
    Waiting,
    /// Every frame was sent.
    Finished,
    /// The work stopped early.
    Failed(Failure),
}

/// What moves the work on.
pub enum Input {
    Frame(Seq<u8>),
    End,
    Lost,
    /// The frame at hand was sent to the encoder.
    Sent,
    /// The encoder did not take the frame at hand.
    Refused,
}

/// How far the work has come, and all frames that arrived.
pub struct Progress {
    pub frames: Seq<Seq<u8>>,
    pub sent: int,
    pub phase: Phase,
}

/// The start of the work.
pub open spec fn at_start() -> Progress {
    Progress { frames: Seq::empty(), sent: 0, phase: Phase::Empty }
}

/// One step of the work.
pub open spec fn advanced(p: Progress, i: Input) -> Progress {
    match (p.phase, i) {
        (Phase::Empty, Input::Frame(f)) => arrived(p, f, Phase::One),
        (Phase::Empty, Input::End) => moved(p, Phase::Failed(Failure::NoFrames)),
        (Phase::Empty, Input::Lost) => moved(p, Phase::Failed(Failure::DecoderFailed)),
        (Phase::One, Input::Frame(f)) => arrived(p, f, Phase::Ready(Role::Middle)),
        (Phase::One, Input::End) => moved(p, Phase::Ready(Role::Only)),
        (Phase::One, Input::Lost) => moved(p, Phase::Ready(Role::Only)),
        (Phase::Ready(role), Input::Sent) => Progress {
            sent: p.sent + 1,
            phase: if role == Role::Middle {
                Phase::Waiting
            } else {
                Phase::Finished
            },
            ..p
        },
        (Phase::Ready(role), Input::Refused) => moved(p, Phase::Failed(Failure::EncoderClosed)),
        (Phase::Waiting, Input::Frame(f)) => arrived(p, f, Phase::Ready(Role::Middle)),
        (Phase::Waiting, Input::End) => moved(p, Phase::Ready(Role::Last)),
        (Phase::Waiting, Input::Lost) => moved(p, Phase::Failed(Failure::DecoderFailed)),
        _ => p,
    }
}

/// The work after a frame arrived.
pub open spec fn arrived(p: Progress, f: Seq<u8>, phase: Phase) -> Progress {
    Progress { frames: p.frames.push(f), phase, ..p }
}

/// The work in another phase.
pub open spec fn moved(p: Progress, phase: Phase) -> Progress {
    Progress { phase, ..p }
}

/// The work after a list of inputs.
pub open spec fn course(inputs: Seq<Input>) -> Progress
    decreases inputs.len(),
{
    if inputs.len() == 0 {
        at_start()
    } else {
        advanced(course(inputs.drop_last()), inputs.last())
    }
}

/// The role of the frame at hand.
pub open spec fn role_at_hand(p: Progress) -> Role {
    match p.phase {
        Phase::Ready(role) => role,
        _ => Role::Only,
    }
}

/// The frame at hand is compared forward with this one.
pub open spec fn forward_of(p: Progress) -> int {
    if p.phase == Phase::Ready(Role::Middle) {
        p.sent + 1
    } else {
        p.sent
    }
}

/// The frame at hand is compared backward with this one.
pub open spec fn backward_of(p: Progress) -> int {
    if p.sent > 0 {
        p.sent - 1
    } else {
        0
    }
}

/// How many frames have arrived in each phase.
pub open spec fn is_steady(p: Progress) -> bool {
    &&& p.sent >= 0
    &&& match p.phase {
        Phase::Empty => p.frames.len() == 0 && p.sent == 0,
        Phase::One => p.frames.len() == 1 && p.sent == 0,
        Phase::Ready(Role::Only) => p.frames.len() == 1 && p.sent == 0,
        Phase::Ready(Role::Middle) => p.frames.len() == p.sent + 2,
        Phase::Ready(Role::Last) => p.frames.len() == p.sent + 1 && p.sent >= 1,
        Phase::Waiting => p.frames.len() == p.sent + 1 && p.sent >= 1,
        Phase::Finished => p.frames.len() == p.sent && p.sent >= 1,
        Phase::Failed(f) => p.sent <= p.frames.len(),
    }
}

/// All frames among a list of inputs, in order.
pub open spec fn frames_in(inputs: Seq<Input>) -> Seq<Seq<u8>>
    decreases inputs.len(),
{
    if inputs.len() == 0 {
        Seq::empty()
    } else {
        match inputs.last() {
            Input::Frame(f) => frames_in(inputs.drop_last()).push(f),
            _ => frames_in(inputs.drop_last()),
        }
    }
}

/// An input that the work takes up in its phase.
pub open spec fn is_expected(phase: Phase, i: Input) -> bool {
    match phase {
        Phase::Empty => i is Frame || i is End || i is Lost,
        Phase::One => i is Frame || i is End || i is Lost,
        Phase::Waiting => i is Frame || i is End || i is Lost,
        Phase::Ready(role) => i is Sent || i is Refused,
        _ => false,
    }
}

/// Every input of a list comes when the work waits for it.
pub open spec fn all_expected(inputs: Seq<Input>) -> bool
    decreases inputs.len(),
{
    inputs.len() > 0 ==> all_expected(inputs.drop_last()) && is_expected(
        course(inputs.drop_last()).phase,
        inputs.last(),
    )
}

/// Whatever happens, a frame is never sent before it arrived, and at most two
/// frames have arrived that were not sent yet; when the work is finished,
/// exactly the frames that arrived were sent.
pub proof fn law_every_frame_is_sent_once(inputs: Seq<Input>)
    ensures
        is_steady(course(inputs)),
        0 <= course(inputs).sent <= course(inputs).frames.len() <= course(inputs).sent + 2,
        course(inputs).phase is Finished ==> course(inputs).sent == course(inputs).frames.len(),
    decreases inputs.len(),
{
    if inputs.len() > 0 {
        law_every_frame_is_sent_once(inputs.drop_last());
    }
}

/// The frames that the work knows of are those that arrived, in the order of
/// their arrival.
pub proof fn law_frames_keep_their_order(inputs: Seq<Input>)
    requires
        all_expected(inputs),
    ensures
        course(inputs).frames == frames_in(inputs),
    decreases inputs.len(),
{
    if inputs.len() > 0 {
        law_frames_keep_their_order(inputs.drop_last());
    }
}

/// In a video of `n` frames frame `i` is compared forward with frame `i + 1`
/// and backward with frame `i - 1`; the first frame is its own predecessor,
/// the last one its own successor, and each frame is known for what it is.
/// `before` is any point at which frame `i` is at hand, `rest` what happens
/// from there to the end.
pub proof fn law_neighbours(before: Seq<Input>, rest: Seq<Input>, i: int, n: int)
    requires
        course(before).phase is Ready,
        course(before).sent == i,
        course(before + rest).phase is Finished,
        course(before + rest).sent == n,
    ensures
        0 <= i < n,
        backward_of(course(before)) == (if i > 0 {
            i - 1
        } else {
            0
        }),
        forward_of(course(before)) == (if i < n - 1 {
            i + 1
        } else {
            i
        }),
        role_at_hand(course(before)) == (if i < n - 1 {
            Role::Middle
        } else if n == 1 {
            Role::Only
        } else {
            Role::Last
        }),
{
    law_every_frame_is_sent_once(before);
    law_every_frame_is_sent_once(before + rest);
    lemma_from_here(before, rest);
}

/// From a frame at hand on, a frame that is not the last one is followed by
/// more, and one that is stays the last.
proof fn lemma_from_here(before: Seq<Input>, rest: Seq<Input>)
    requires
        course(before).phase is Ready,
    ensures
        ({
            let p = course(before);
            let q = course(before + rest);
            if p.phase == Phase::Ready(Role::Middle) {
                q.frames.len() >= p.sent + 2
            } else {
                &&& q.frames.len() == p.sent + 1
                &&& q.phase == p.phase || q.phase is Finished || q.phase is Failed
            }
        }),
    decreases rest.len(),
{
    law_every_frame_is_sent_once(before);
    if rest.len() == 0 {
        assert(before + rest =~= before);
    } else {
        lemma_from_here(before, rest.drop_last());
        assert((before + rest).drop_last() =~= before + rest.drop_last());
        assert((before + rest).last() == rest.last());
        law_every_frame_is_sent_once(before + rest.drop_last());
    }
}

/// Carries the frames of a video through the program: the frame at hand, its
/// neighbours, and the brightness of each of them.
pub struct Session<T> {
    w: usize,
    h: usize,
    phase: Phase,
    sent: u64,
    prev: Vec<u8>,
    cur: Vec<u8>,
    next: Vec<u8>,
    gray_prev: Gray<T>,
    gray_cur: Gray<T>,
    gray_next: Gray<T>,
    frames: Ghost<Seq<Seq<u8>>>,
    grays: Ghost<Seq<Gray<T>>>,
}

/// Two equal images.
pub open spec fn same_image<T>(a: Gray<T>, b: Gray<T>) -> bool {
    a.w == b.w && a.h == b.h && a.data@ == b.data@
}

/// An image of `w` by `h` cells.
pub open spec fn is_sized<T>(g: Gray<T>, w: usize, h: usize) -> bool {
    g.wf() && g.w == w && g.h == h
}

/// The brightness of a frame.
pub open spec fn is_brightness<K: Numerics>(
    k: &K,
    rgb: Seq<u8>,
    w: usize,
    h: usize,
    g: Gray<K::T>,
) -> bool {
    &&& rgb.len() == 3 * (w * h)
    &&& is_sized(g, w, h)
    &&& is_gray_of(k, rgb, g.data@)
}

/// The images that belong to the frame at hand: its own brightness, that of the
/// frame before it (the first frame stands for its own predecessor) and that
/// of the frame after it (an only frame stands for its own successor).
pub open spec fn are_images<K: Numerics>(
    k: &K,
    p: Progress,
    grays: Seq<Gray<K::T>>,
    w: usize,
    h: usize,
    cur: Gray<K::T>,
    prev: Gray<K::T>,
    next: Gray<K::T>,
) -> bool {
    &&& is_sized(cur, w, h)
    &&& is_sized(prev, w, h)
    &&& is_sized(next, w, h)
    &&& same_image(cur, grays[p.sent])
    &&& same_image(prev, grays[backward_of(p)])
    &&& p.phase == Phase::Ready(Role::Middle) ==> same_image(next, grays[forward_of(p)])
    &&& p.phase == Phase::Ready(Role::Only) ==> is_brightness(k, p.frames[0], w, h, next)
}

/// A motion field of `w` by `h` cells.
pub open spec fn is_field<T>(f: FlowField<T>, w: usize, h: usize) -> bool {
    f.wf() && f.w == w && f.h == h
}

/// What becomes of the frame at hand, and the motion that is kept.
pub open spec fn is_output<K: Numerics>(
    k: &K,
    s: Settings<K::T>,
    p: Progress,
    grays: Seq<Gray<K::T>>,
    w: usize,
    h: usize,
    cache: Option<FlowField<K::T>>,
    out: Seq<u8>,
    kept: Option<FlowField<K::T>>,
) -> bool {
    exists|cur: Gray<K::T>, prev: Gray<K::T>, next: Gray<K::T>|
        {
            &&& #[trigger] are_images(k, p, grays, w, h, cur, prev, next)
            &&& is_processed(
                k,
                s,
                role_at_hand(p),
                p.frames[p.sent],
                cur,
                prev,
                next,
                cache,
                out,
                kept,
            )
        }
}

/// The frame at hand cannot be blurred: an estimated motion holds values that
/// have no place in any order.
pub open spec fn is_stuck<K: Numerics>(
    k: &K,
    s: Settings<K::T>,
    p: Progress,
    grays: Seq<Gray<K::T>>,
    w: usize,
    h: usize,
    cache: Option<FlowField<K::T>>,
) -> bool {
    exists|cur: Gray<K::T>, prev: Gray<K::T>, next: Gray<K::T>|
        {
            &&& #[trigger] are_images(k, p, grays, w, h, cur, prev, next)
            &&& call_ensures(K::shutter_closed, (k, s.shutter), false)
            &&& is_unordered_motion(k, s, role_at_hand(p), cur, prev, next, cache)
        }
}

/// A frame of zeros.
pub open spec fn all_black(size: int) -> Seq<u8> {
    Seq::new(size as nat, |i: int| 0u8)
}

/// A frame of the video, or one of zeros where there is none.
pub open spec fn frame_or_black(frames: Seq<Seq<u8>>, i: int, size: int) -> Seq<u8> {
    if 0 <= i < frames.len() {
        frames[i]
    } else {
        all_black(size)
    }
}

/// What an event is to the work.
pub open spec fn input_of(e: Event) -> Input {
    match e {
        Event::Frame(f) => Input::Frame(f@),
        Event::End => Input::End,
        Event::Lost => Input::Lost,
    }
}

impl<T> View for Session<T> {
    type V = Progress;

    closed spec fn view(&self) -> Progress {
        Progress { frames: self.frames@, sent: self.sent as int, phase: self.phase }
    }
}

impl<T: Copy + Send + Sync> Session<T> {
    /// Columns of every frame.
    pub closed spec fn width(&self) -> usize {
        self.w
    }

    /// Rows of every frame.
    pub closed spec fn height(&self) -> usize {
        self.h
    }

    /// The brightness of every frame that arrived. Each was worked out once.
    pub closed spec fn brightness(&self) -> Seq<Gray<T>> {
        self.grays@
    }

    spec fn at_hand(&self) -> bool {
        &&& self.cur@ == self.frames@[self.sent as int]
        &&& same_image(self.gray_cur, self.grays@[self.sent as int])
        &&& same_image(self.gray_prev, self.grays@[backward_of(self@)])
        &&& self.prev@ == frame_or_black(self.frames@, self.sent - 1, 3 * (self.w * self.h))
        &&& is_sized(self.gray_next, self.w, self.h)
    }

    /// The buffers hold the frames that belong there.
    pub closed spec fn inv<K: Numerics<T = T>>(&self, k: &K) -> bool {
        &&& 3 * (self.w * self.h) <= usize::MAX
        &&& is_steady(self@)
        &&& self.grays@.len() == self.frames@.len()
        &&& forall|i: int|
            0 <= i < self.frames@.len() ==> is_brightness(
                k,
                #[trigger] self.frames@[i],
                self.w,
                self.h,
                self.grays@[i],
            )
        &&& match self.phase {
            Phase::Empty => self.prev@ == all_black(3 * (self.w * self.h)),
            Phase::One => {
                &&& self.prev@ == all_black(3 * (self.w * self.h))
                &&& self.cur@ == self.frames@[0]
                &&& same_image(self.gray_cur, self.grays@[0])
            },
            Phase::Ready(role) => {
                &&& self.at_hand()
                &&& role == Role::Only ==> is_brightness(
                    k,
                    self.frames@[0],
                    self.w,
                    self.h,
                    self.gray_next,
                )
                &&& role == Role::Middle ==> self.next@ == self.frames@[self.sent + 1]
                    && same_image(self.gray_next, self.grays@[self.sent + 1])
            },
            Phase::Waiting => {
                &&& self.at_hand()
                &&& self.next@ == frame_or_black(
                    self.frames@,
                    self.sent - 2,
                    3 * (self.w * self.h),
                )
            },
            _ => true,
        }
    }

    /// A session for frames of `w` by `h` pixels, before the first one.
    pub fn new<K: Numerics<T = T>>(k: &K, w: usize, h: usize) -> (s: Self)
        requires
            3 * (w * h) <= usize::MAX,
        ensures
            s.inv(k),
            s@ == at_start(),
            s.width() == w,
            s.height() == h,
    {
        proof {
            assert(w * h >= 0) by (nonlinear_arith);
        }
        let size: usize = w * h * 3;
        Session {
            w,
            h,
            phase: Phase::Empty,
            sent: 0,
            prev: black(size),
            cur: Vec::new(),
            next: Vec::new(),
            gray_prev: Gray { w: 0, h: 0, data: Vec::new() },
            gray_cur: Gray { w: 0, h: 0, data: Vec::new() },
            gray_next: Gray { w: 0, h: 0, data: Vec::new() },
            frames: Ghost(Seq::empty()),
            grays: Ghost(Seq::empty()),
        }
    }

    /// Takes up what arrived from the decoder. Where a frame arrives after the
    /// first two, the buffer that it replaces comes back: that of the last
    /// frame but two, or at first one of zeros.
    pub fn receive<K: Numerics<T = T>>(&mut self, k: &K, event: Event) -> (retired: Option<Vec<u8>>)
        requires
            old(self).inv(k),
            is_expected(old(self)@.phase, input_of(event)),
            event matches Event::Frame(f) ==> f@.len() == 3 * (old(self).width() * old(
                self,
            ).height()),
        ensures
            final(self).inv(k),
            final(self)@ == advanced(old(self)@, input_of(event)),
            final(self).width() == old(self).width(),
            final(self).height() == old(self).height(),
            final(self).brightness().take(old(self)@.frames.len() as int) == old(self).brightness(),
            retired is Some <==> old(self)@.phase is Waiting && event is Frame,
            retired is Some ==> retired->0@ == frame_or_black(
                old(self)@.frames,
                old(self)@.sent - 2,
                3 * (old(self).width() * old(self).height()),
            ),
    {
        let ghost before = self.grays@;
        let mut retired: Option<Vec<u8>> = None;
        match event {
            Event::Frame(frame) => {
                let gray = Gray::from_rgb(k, &frame, self.w, self.h);
                proof {
                    self.frames@ = self.frames@.push(frame@);
                    self.grays@ = self.grays@.push(gray);
                }
                match self.phase {
                    Phase::Empty => {
                        self.cur = frame;
                        self.gray_cur = gray;
                        self.phase = Phase::One;
                    },
                    Phase::One => {
                        self.next = frame;
                        self.gray_next = gray;
                        self.gray_prev = self.gray_cur.duplicate();
                        self.phase = Phase::Ready(Role::Middle);
                    },
                    _ => {
                        let mut spent = frame;
                        std::mem::swap(&mut self.next, &mut spent);
                        retired = Some(spent);
                        self.gray_next = gray;
                        self.phase = Phase::Ready(Role::Middle);
                    },
                }
            },
            Event::End => {
                match self.phase {
                    Phase::Empty => {
                        self.phase = Phase::Failed(Failure::NoFrames);
                    },
                    Phase::One => {
                        self.stand_alone(k);
                    },
                    _ => {
                        self.phase = Phase::Ready(Role::Last);
                    },
                }
            },
            Event::Lost => {
                match self.phase {
                    Phase::One => {
                        self.stand_alone(k);
                    },
                    _ => {
                        self.phase = Phase::Failed(Failure::DecoderFailed);
                    },
                }
            },
        }
        assert(self.grays@.take(before.len() as int) =~= before);
        retired
    }

    /// The first frame is the only one: it is its own neighbour on both sides.
    fn stand_alone<K: Numerics<T = T>>(&mut self, k: &K)
        requires
            old(self).inv(k),
            old(self)@.phase is One,
        ensures
            final(self).inv(k),
            final(self)@ == moved(old(self)@, Phase::Ready(Role::Only)),
            final(self).w == old(self).w,
            final(self).h == old(self).h,
            final(self).grays == old(self).grays,
    {
        self.next = copy_of(&self.cur);
        self.gray_next = Gray::from_rgb(k, &self.next, self.w, self.h);
        self.gray_prev = self.gray_cur.duplicate();
        self.phase = Phase::Ready(Role::Only);
    }

    /// Notes that the frame at hand was sent, and makes room for another one.
    pub fn mark_sent<K: Numerics<T = T>>(&mut self, k: &K)
        requires
            old(self).inv(k),
            old(self)@.phase is Ready,
            old(self)@.sent < u64::MAX,
        ensures
            final(self).inv(k),
            final(self)@ == advanced(old(self)@, Input::Sent),
            final(self).width() == old(self).width(),
            final(self).height() == old(self).height(),
            final(self).brightness() == old(self).brightness(),
    {
        self.sent = self.sent + 1;
        match self.phase {
            Phase::Ready(Role::Middle) => {
                std::mem::swap(&mut self.prev, &mut self.cur);
                std::mem::swap(&mut self.cur, &mut self.next);
                std::mem::swap(&mut self.gray_prev, &mut self.gray_cur);
                std::mem::swap(&mut self.gray_cur, &mut self.gray_next);
                self.phase = Phase::Waiting;
            },
            _ => {
                self.phase = Phase::Finished;
            },
        }
    }

    /// Notes that the encoder did not take the frame at hand.
    pub fn mark_refused<K: Numerics<T = T>>(&mut self, k: &K)
        requires
            old(self).inv(k),
            old(self)@.phase is Ready,
        ensures
            final(self).inv(k),
            final(self)@ == advanced(old(self)@, Input::Refused),
            final(self).width() == old(self).width(),
            final(self).height() == old(self).height(),
            final(self).brightness() == old(self).brightness(),
    {
        self.phase = Phase::Failed(Failure::EncoderClosed);
    }

    /// How far the work has come.
    pub fn phase(&self) -> (p: Phase)
        ensures
            p == self@.phase,
    {
        self.phase
    }

    /// How many frames were sent.
    pub fn count(&self) -> (n: u64)
        ensures
            n == self@.sent,
    {
        self.sent
    }

    /// The frame at hand.
    pub fn frame<K: Numerics<T = T>>(&self, k: &K) -> (rgb: &Vec<u8>)
        requires
            self.inv(k),
            self@.phase is Ready,
        ensures
            rgb@ == self@.frames[self@.sent],
            rgb@.len() == 3 * (self.width() * self.height()),
    {
        &self.cur
    }

    /// The brightness of the frame at hand, of the one before it and of the one
    /// after it.
    pub fn images<K: Numerics<T = T>>(&self, k: &K) -> (r: (&Gray<T>, &Gray<T>, &Gray<T>))
        requires
            self.inv(k),
            self@.phase is Ready,
        ensures
            are_images(
                k,
                self@,
                self.brightness(),
                self.width(),
                self.height(),
                *r.0,
                *r.1,
                *r.2,
            ),
    {
        (&self.gray_cur, &self.gray_prev, &self.gray_next)
    }

    /// Blurs the frame at hand on the host. `cache` is the forward motion kept
    /// from the frame before; the one to keep for the next frame comes back.
    /// Nothing comes back where the motion holds values that cannot be ordered.
    pub fn blur<K: Numerics<T = T>>(
        &self,
        k: &K,
        s: &Settings<T>,
        cache: Option<FlowField<T>>,
    ) -> (r: Option<(Vec<u8>, Option<FlowField<T>>)>)
        requires
            self.inv(k),
            self@.phase is Ready,
            is_workable(*s, self.width() as int, self.height() as int),
            cache is Some ==> is_field(cache->0, self.width(), self.height()),
        ensures
            r matches Some(x) ==> {
                &&& is_output(
                    k,
                    *s,
                    self@,
                    self.brightness(),
                    self.width(),
                    self.height(),
                    cache,
                    x.0@,
                    x.1,
                )
                &&& x.1 is Some ==> is_field(x.1->0, self.width(), self.height())
            },
            r is None ==> is_stuck(
                k,
                *s,
                self@,
                self.brightness(),
                self.width(),
                self.height(),
                cache,
            ),
    {
        let role: Role = match self.phase {
            Phase::Ready(role) => role,
            _ => Role::Only,
        };
        let (cur, prev, next) = self.images(k);
        process_frame(k, s, role, self.frame(k), cur, prev, next, cache)
    }

    /// A copy of the frame at hand.
    pub fn copy_frame<K: Numerics<T = T>>(&self, k: &K) -> (rgb: Vec<u8>)
        requires
            self.inv(k),
            self@.phase is Ready,
        ensures
            rgb@ == self@.frames[self@.sent],
    {
        copy_of(&self.cur)
    }

    /// Every frame that arrived has its brightness noted, once.
    pub proof fn law_brightness_is_noted<K: Numerics<T = T>>(&self, k: &K, i: int)
        requires
            self.inv(k),
            0 <= i < self@.frames.len(),
        ensures
            self.brightness().len() == self@.frames.len(),
            is_brightness(
                k,
                self@.frames[i],
                self.width(),
                self.height(),
                self.brightness()[i],
            ),
    {
        assert(is_brightness(k, self.frames@[i], self.w, self.h, self.grays@[i]));
    }
}

/// A buffer of zeros.
fn black(size: usize) -> (buffer: Vec<u8>)
    ensures
        buffer@ == all_black(size as int),
{
    let mut buffer: Vec<u8> = Vec::new();
    while buffer.len() < size
        invariant
            buffer.len() <= size,
            forall|i: int| 0 <= i < buffer.len() ==> #[trigger] buffer@[i] == 0,
        decreases size - buffer.len(),
    {
        buffer.push(0);
    }
    assert(buffer@ =~= all_black(size as int));
    buffer
}

/// Whether fewer or more frames went out than the input reports; zero stands
/// for a number that is not known.
pub fn is_truncated(sent: u64, reported: u64) -> (yes: bool)
    ensures
        yes == (reported > 0 && sent != reported),
{
    reported > 0 && sent != reported
}

/// A number as it is shown to the user, or a word in the place of zero.
pub fn number_or(n: u64, word: &str) -> (s: String)
    ensures
        s@ == (if n > 0 {
            decimal(n as int)
        } else {
            word@
        }),
{
    if n > 0 {
        to_decimal(n)
    } else {
        word.to_string()
    }
}

} // verus!
