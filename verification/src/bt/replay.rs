//! Frames held for a host that is between connections.
//!
//! In single-connection mode a slot switch disconnects the old host and waits
//! for the new one to reconnect and re-enable its input reports — about a
//! second on Linux, a little more on macOS, which re-reads the whole GATT
//! database first. Keys typed in that window would otherwise be dropped on
//! the floor, and a dropped *release* is worse than a dropped press: the host
//! keeps the key down. So state-carrying reports (keys, media keys, mouse
//! buttons) are queued here and replayed, per report, as soon as the host
//! subscribes to that report; pointer motion is not — it is stale by the time
//! it could go out, and the next real movement supersedes it anyway.

use std::collections::VecDeque;
use vstd::prelude::*;

use crate::bt::gatt;
use crate::hid::HidFrame;

verus! {

broadcast use {vstd::seq::group_seq_axioms, vstd::array::group_array_axioms};

/// Frames kept for one host. Enough for a burst of typing during a
/// reconnect; a stalled reconnect evicts the oldest (see `push`).
pub const CAPACITY: usize = 64;

/// What `push` did with a frame.
#[derive(Debug, Clone, Copy, PartialEq, Eq, Structural)]
pub enum Push {
    Queued,
    /// A mouse report that only moved the pointer: not worth replaying.
    DroppedMotion,
    /// Queued, but the buffer was full and its oldest frame is gone.
    Evicted,
}

#[derive(Debug)]
pub struct ReplayBuffer {
    frames: VecDeque<HidFrame>,
    /// Buttons byte of the last mouse report queued (or replayed before the
    /// buffer existed: zero, i.e. none held), for `is_motion_only`.
    last_mouse_buttons: u8,
    dropped_motion: u32,
    evicted: u32,
}

/// The state of a [`ReplayBuffer`].
#[verifier::ext_equal]
pub struct ReplayView {
    pub frames: Seq<HidFrame>,
    /// Buttons byte of the last mouse report queued.
    pub buttons: u8,
    pub dropped_motion: u32,
    pub evicted: u32,
}

impl View for ReplayBuffer {
    type V = ReplayView;

    closed spec fn view(&self) -> ReplayView {
        ReplayView {
            frames: self.frames@,
            buttons: self.last_mouse_buttons,
            dropped_motion: self.dropped_motion,
            evicted: self.evicted,
        }
    }
}

/// Nothing held.
pub open spec fn nothing_held() -> ReplayView {
    ReplayView { frames: Seq::empty(), buttons: 0, dropped_motion: 0, evicted: 0 }
}

/// The frames of one report, in order.
pub open spec fn of_report(frames: Seq<HidFrame>, report_id: u8) -> Seq<HidFrame> {
    frames.filter(|f: HidFrame| f@[0] == report_id)
}

/// The frames of all other reports, in order.
pub open spec fn of_other_reports(frames: Seq<HidFrame>, report_id: u8) -> Seq<HidFrame> {
    frames.filter(|f: HidFrame| f@[0] != report_id)
}

impl ReplayView {
    /// Never more than the capacity.
    pub open spec fn wf(self) -> bool {
        self.frames.len() <= CAPACITY
    }

    /// The counter that queueing a frame raises, if any, has room.
    pub open spec fn countable(self, frame: HidFrame) -> bool {
        if gatt::motion_only(frame, self.buttons) {
            self.dropped_motion < u32::MAX
        } else {
            self.frames.len() >= CAPACITY ==> self.evicted < u32::MAX
        }
    }

    /// What queueing a frame makes of the buffer.
    pub open spec fn pushed(self, frame: HidFrame) -> (ReplayView, Push) {
        if gatt::motion_only(frame, self.buttons) {
            (
                ReplayView { dropped_motion: (self.dropped_motion + 1) as u32, ..self },
                Push::DroppedMotion,
            )
        } else {
            let buttons = match frame {
                HidFrame::Mouse(b) => b@[1],
                _ => self.buttons,
            };
            if self.frames.len() >= CAPACITY {
                (
                    ReplayView {
                        frames: self.frames.drop_first().push(frame),
                        buttons,
                        evicted: (self.evicted + 1) as u32,
                        ..self
                    },
                    Push::Evicted,
                )
            } else {
                (ReplayView { frames: self.frames.push(frame), buttons, ..self }, Push::Queued)
            }
        }
    }
}

impl Default for ReplayBuffer {
    fn default() -> (r: Self)
        ensures
            r@ == nothing_held(),
            r@.wf(),
    {
        let r = ReplayBuffer {
            frames: VecDeque::new(),
            last_mouse_buttons: 0,
            dropped_motion: 0,
            evicted: 0,
        };
        assert(r@.frames =~= Seq::empty());
        r
    }
}

impl ReplayBuffer {
    pub fn new() -> (r: Self)
        ensures
            r@ == nothing_held(),
            r@.wf(),
    {
        Self::default()
    }

    /// Queue a frame, unless it is pointer motion only. When full, the
    /// oldest frame goes — never the newest: the newest may be the release
    /// of a key whose press is already queued.
    pub fn push(&mut self, frame: HidFrame) -> (r: Push)
        requires
            old(self)@.wf(),
            old(self)@.countable(frame),
        ensures
            (final(self)@, r) == old(self)@.pushed(frame),
            final(self)@.wf(),
    {
        let ghost before = self@;
        if gatt::is_motion_only(&frame, self.last_mouse_buttons) {
            self.dropped_motion = self.dropped_motion + 1;
            return Push::DroppedMotion;
        }
        if let HidFrame::Mouse(b) = &frame {
            self.last_mouse_buttons = b[1];
        }
        let full = self.frames.len() >= CAPACITY;
        if full {
            self.frames.pop_front();
            self.evicted = self.evicted + 1;
            assert(self.frames@ =~= before.frames.drop_first());
        }
        self.frames.push_back(frame);
        assert(self@ =~= before.pushed(frame).0);
        if full {
            Push::Evicted
        } else {
            Push::Queued
        }
    }

    /// Remove and return every queued frame with this report id, oldest
    /// first; the others stay for their own report's subscription.
    pub fn take(&mut self, report_id: u8) -> (r: Vec<HidFrame>)
        ensures
            r@ == of_report(old(self)@.frames, report_id),
            final(self)@ == (ReplayView {
                frames: of_other_reports(old(self)@.frames, report_id),
                ..old(self)@
            }),
            old(self)@.wf() ==> final(self)@.wf(),
    {
        let ghost all = self.frames@;
        let mut out: Vec<HidFrame> = Vec::new();
        let mut rest: VecDeque<HidFrame> = VecDeque::new();
        let ghost mut done: int = 0;
        reveal(Seq::filter);
        assert(all.take(0) =~= Seq::empty());
        assert(all.skip(0) =~= all);
        while self.frames.len() > 0
            invariant
                0 <= done <= all.len(),
                self.frames@ == all.skip(done),
                out@ == of_report(all.take(done), report_id),
                rest@ == of_other_reports(all.take(done), report_id),
                self.last_mouse_buttons == old(self).last_mouse_buttons,
                self.dropped_motion == old(self).dropped_motion,
                self.evicted == old(self).evicted,
                all == old(self).frames@,
            decreases all.len() - done,
        {
            let frame = self.frames.pop_front().unwrap();
            assert(frame == all[done]);
            assert(all.skip(done).drop_first() =~= all.skip(done + 1));
            assert(all.take(done + 1).drop_last() =~= all.take(done));
            reveal(Seq::filter);
            if frame.report_id() == report_id {
                out.push(frame);
            } else {
                rest.push_back(frame);
            }
            proof {
                done = done + 1;
            }
        }
        assert(all.take(done) =~= all);
        self.frames = rest;
        proof {
            lemma_others_shorter(all, report_id);
        }
        out
    }

    pub fn len(&self) -> (r: usize)
        ensures
            r == self@.frames.len(),
    {
        self.frames.len()
    }

    pub fn is_empty(&self) -> (r: bool)
        ensures
            r == (self@.frames.len() == 0),
    {
        self.frames.len() == 0
    }

    /// (motion frames dropped, frames evicted) so far.
    pub fn stats(&self) -> (r: (u32, u32))
        ensures
            r == (self@.dropped_motion, self@.evicted),
    {
        (self.dropped_motion, self.evicted)
    }

    /// Whether queueing a frame can be counted.
    pub fn can_count(&self, frame: &HidFrame) -> (r: bool)
        ensures
            r == self@.countable(*frame),
    {
        if gatt::is_motion_only(frame, self.last_mouse_buttons) {
            self.dropped_motion < u32::MAX
        } else {
            self.frames.len() < CAPACITY || self.evicted < u32::MAX
        }
    }
}

proof fn lemma_others_shorter(s: Seq<HidFrame>, report_id: u8)
    ensures
        of_other_reports(s, report_id).len() <= s.len(),
    decreases s.len(),
{
    reveal(Seq::filter);
    if s.len() > 0 {
        lemma_others_shorter(s.drop_last(), report_id);
    }
}

// ---------------------------------------------------------------------------
// Laws
// ---------------------------------------------------------------------------

/// The newest frame that carries state is always kept: a release is never
/// dropped for want of room.
pub proof fn law_newest_state_is_kept(b: ReplayView, frame: HidFrame)
    requires
        !gatt::motion_only(frame, b.buttons),
    ensures
        b.pushed(frame).0.frames.len() > 0,
        b.pushed(frame).0.frames.last() == frame,
{
}

/// Keys and media keys are never taken for motion; a mouse report is, exactly
/// when its buttons are those of the last one queued.
pub proof fn law_only_motion_is_dropped(b: ReplayView, frame: HidFrame)
    ensures
        b.pushed(frame).1 == Push::DroppedMotion <==> (frame matches HidFrame::Mouse(m) && m@[1]
            == b.buttons),
        b.pushed(frame).1 == Push::DroppedMotion ==> b.pushed(frame).0.frames == b.frames,
{
}

/// Taking one report's frames leaves none of them behind and touches no other
/// report's.
pub proof fn law_take_splits_by_report(frames: Seq<HidFrame>, report_id: u8, other: u8)
    requires
        other != report_id,
    ensures
        of_report(of_other_reports(frames, report_id), report_id) =~= Seq::empty(),
        of_report(of_other_reports(frames, report_id), other) == of_report(frames, other),
    decreases frames.len(),
{
    reveal(Seq::filter);
    if frames.len() > 0 {
        let init = frames.drop_last();
        law_take_splits_by_report(init, report_id, other);
        let kept = of_other_reports(init, report_id);
        if frames.last()@[0] != report_id {
            assert(of_other_reports(frames, report_id) == kept.push(frames.last()));
            assert(kept.push(frames.last()).drop_last() =~= kept);
        }
    }
}

/// Frames come out in the order they went in.
pub proof fn law_take_keeps_the_order(frames: Seq<HidFrame>, frame: HidFrame, report_id: u8)
    ensures
        of_report(frames.push(frame), report_id) == if frame@[0] == report_id {
            of_report(frames, report_id).push(frame)
        } else {
            of_report(frames, report_id)
        },
{
    reveal(Seq::filter);
    assert(frames.push(frame).drop_last() =~= frames);
}

/// What becomes of a frame that waits: motion alone is counted and left out;
/// anything else comes last, and only where 64 wait already does the first of
/// them go.
pub proof fn law_waiting_frames(b: ReplayView, frame: HidFrame, i: int)
    requires
        b.frames.len() <= 64,
    ensures
        ({
            let motion = frame is Mouse && (frame->Mouse_0)@[1] == b.buttons;
            let (after, push) = b.pushed(frame);
            &&& motion ==> push == Push::DroppedMotion && after.frames == b.frames && after.buttons
                == b.buttons && (b.dropped_motion < u32::MAX ==> after.dropped_motion
                == b.dropped_motion + 1) && after.evicted == b.evicted
            &&& !motion && b.frames.len() < 64 ==> push == Push::Queued && after.frames.len()
                == b.frames.len() + 1 && after.frames.last() == frame && after.evicted == b.evicted
            &&& !motion && b.frames.len() < 64 && 0 <= i < b.frames.len() ==> after.frames[i]
                == b.frames[i]
            &&& !motion && b.frames.len() == 64 ==> push == Push::Evicted && after.frames.len()
                == 64 && after.frames.last() == frame && (b.evicted < u32::MAX ==> after.evicted
                == b.evicted + 1)
            &&& !motion && b.frames.len() == 64 && 0 < i < 64 ==> after.frames[i - 1] == b.frames[i]
            &&& !motion ==> after.dropped_motion == b.dropped_motion
            &&& !motion && frame is Mouse ==> after.buttons == (frame->Mouse_0)@[1]
            &&& !(frame is Mouse) ==> after.buttons == b.buttons
        }),
{
}

proof fn lemma_reports_filter(frames: Seq<HidFrame>, id: u8, f: HidFrame)
    ensures
        of_report(frames, id).contains(f) <==> frames.contains(f) && f@[0] == id,
        of_other_reports(frames, id).contains(f) <==> frames.contains(f) && f@[0] != id,
        of_report(frames, id).len() + of_other_reports(frames, id).len() == frames.len(),
    decreases frames.len(),
{
    reveal(Seq::filter);
    if frames.len() > 0 {
        let init = frames.drop_last();
        let last = frames.last();
        lemma_reports_filter(init, id, f);
        let (a, b) = (of_report(init, id), of_other_reports(init, id));
        assert(frames =~= init.push(last));
        if frames.contains(f) {
            let i = choose|i: int| 0 <= i < frames.len() && frames[i] == f;
            if i < init.len() {
                assert(init[i] == f);
            }
        }
        if init.contains(f) {
            let i = choose|i: int| 0 <= i < init.len() && init[i] == f;
            assert(frames[i] == f);
        }
        assert(frames[frames.len() - 1] == last);
        if last@[0] == id {
            let all = a.push(last);
            assert(of_report(frames, id) == all);
            assert(all[a.len() as int] == last);
            if a.contains(f) {
                let i = choose|i: int| 0 <= i < a.len() && a[i] == f;
                assert(all[i] == f);
            }
            if all.contains(f) {
                let i = choose|i: int| 0 <= i < all.len() && all[i] == f;
                if i < a.len() {
                    assert(a[i] == f);
                }
            }
        } else {
            let all = b.push(last);
            assert(of_other_reports(frames, id) == all);
            assert(all[b.len() as int] == last);
            if b.contains(f) {
                let i = choose|i: int| 0 <= i < b.len() && b[i] == f;
                assert(all[i] == f);
            }
            if all.contains(f) {
                let i = choose|i: int| 0 <= i < all.len() && all[i] == f;
                if i < b.len() {
                    assert(b[i] == f);
                }
            }
        }
    }
}

/// Taking a report's frames hands out every one of them and no other, keeps
/// all the rest, and loses none.
pub proof fn law_taking_loses_nothing(frames: Seq<HidFrame>, id: u8, f: HidFrame)
    ensures
        of_report(frames, id).contains(f) <==> frames.contains(f) && f@[0] == id,
        of_other_reports(frames, id).contains(f) <==> frames.contains(f) && f@[0] != id,
        of_report(frames, id).len() + of_other_reports(frames, id).len() == frames.len(),
{
    lemma_reports_filter(frames, id, f);
}

/// A buffer starts with nothing in it, no button down and nothing counted.
pub proof fn law_buffers_start_empty()
    ensures
        nothing_held().frames.len() == 0,
        nothing_held().buttons == 0,
        nothing_held().dropped_motion == 0,
        nothing_held().evicted == 0,
        CAPACITY == 64,
{
}

} // verus!
