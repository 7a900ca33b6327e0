//! Asking the window server whether the overlay actually behaves, one step
//! at a time.
//!
//! Every property an overlay window claims can be checked by reading back the
//! flag this process just set, and every one of those checks is worthless: it
//! proves the call was made, not that anything happened. The question that
//! matters -- *would a click here reach me?* -- can only be answered by the
//! window server, so the platform layer asks it and this decides what the
//! answers mean and what to do next.
//!
//! Whether a click reaches this window depends on a flag the window sets from
//! where the pointer is, and it sets it while drawing. So moving the pointer
//! and asking in the same breath asks about the frame *before* the move: the
//! window still thinks the pointer is where it was. Each step here moves or
//! asks, and then lets some frames go by.

use vstd::prelude::*;

verus! {

/// Frames between one step and the next. Six is a tenth of a second on a
/// sixty hertz display, and the window server honours a change to whether a
/// window ignores the mouse about a refresh after it is made.
pub const SETTLE: u32 = 6;

/// The question a step asks of the window server.
#[derive(Debug, Clone, Copy, PartialEq, Eq)]
pub enum Check {
    /// The frame has something drawn on it and somewhere with nothing.
    Probes,
    /// A click where something is drawn reaches this window.
    ReachesSolid,
    /// A click where nothing is drawn passes through.
    PassesClear,
    /// A button held down is visible without the window.
    Held,
    /// Letting it go is visible too.
    LetGo,
    /// Every question has been asked.
    Finished,
}

/// What the platform layer does after a step.
#[derive(Debug, Clone, Copy, PartialEq, Eq)]
pub enum Next {
    /// Nothing this frame.
    Wait,
    /// Moves the pointer over where something is drawn.
    WarpToSolid,
    /// Moves the pointer over where nothing is drawn.
    WarpToClear,
    /// Presses the button over where nothing is drawn.
    PressAtClear,
    /// Lets the button go there.
    ReleaseAtClear,
    /// Nothing is left to check, and whether everything passed.
    Done(bool),
}

/// The checks, run across frames rather than in one go.
pub struct Checker {
    step: u32,
    at: u32,
    passed: bool,
}

/// Where the checks have got to.
pub struct CheckerView {
    /// How many steps have been taken.
    pub step: u32,
    /// Frames since the last step.
    pub at: u32,
    /// Whether every check made so far passed.
    pub passed: bool,
}

impl View for Checker {
    type V = CheckerView;

    closed spec fn view(&self) -> CheckerView {
        CheckerView { step: self.step, at: self.at, passed: self.passed }
    }
}

/// Which question step number `step` asks.
pub open spec fn check_at(step: u32) -> Check {
    if step == 0 {
        Check::Probes
    } else if step == 1 {
        Check::ReachesSolid
    } else if step == 2 {
        Check::PassesClear
    } else if step == 3 {
        Check::Held
    } else if step == 4 {
        Check::LetGo
    } else {
        Check::Finished
    }
}

/// One frame going by: the count of frames since the last step, and whether
/// this frame is one a step is taken on.
pub open spec fn ticked(v: CheckerView) -> (CheckerView, bool) {
    if v.at + 1 < SETTLE {
        (CheckerView { at: (v.at + 1) as u32, ..v }, false)
    } else {
        (CheckerView { at: 0, ..v }, true)
    }
}

/// What answering the step's question with `ok` does: the state after it and
/// what to do next. `can_post` says whether this process may press a button
/// for the user, which the last two checks need.
pub open spec fn stepped(v: CheckerView, ok: bool, can_post: bool) -> (CheckerView, Next) {
    let and = v.passed && ok;
    match check_at(v.step) {
        Check::Probes => if ok {
            (CheckerView { step: 1, passed: true, ..v }, Next::WarpToSolid)
        } else {
            (v, Next::Done(false))
        },
        Check::ReachesSolid => (CheckerView { step: 2, passed: and, ..v }, Next::WarpToClear),
        Check::PassesClear => if can_post {
            (CheckerView { step: 3, passed: and, ..v }, Next::PressAtClear)
        } else {
            (CheckerView { passed: and, ..v }, Next::Done(and))
        },
        Check::Held => (CheckerView { step: 4, passed: and, ..v }, Next::ReleaseAtClear),
        Check::LetGo => (CheckerView { passed: and, ..v }, Next::Done(and)),
        Check::Finished => (v, Next::Done(v.passed)),
    }
}

impl Checker {
    #[verifier::type_invariant]
    spec fn settled(self) -> bool {
        self.at < SETTLE && self.step <= 4
    }

    /// Nothing asked yet.
    pub fn new() -> (checker: Self)
        ensures
            checker@ == (CheckerView { step: 0, at: 0, passed: false }),
    {
        Checker { step: 0, at: 0, passed: false }
    }

    /// One frame has gone by. `true` when enough have since the last step
    /// that this frame takes the next one.
    pub fn tick(&mut self) -> (due: bool)
        ensures
            (final(self)@, due) == ticked(old(self)@),
    {
        proof {
            use_type_invariant(&*self);
        }
        if self.at + 1 < SETTLE {
            self.at = self.at + 1;
            false
        } else {
            self.at = 0;
            true
        }
    }

    /// The question this step asks.
    pub fn check(&self) -> (check: Check)
        ensures
            check == check_at(self@.step),
    {
        if self.step == 0 {
            Check::Probes
        } else if self.step == 1 {
            Check::ReachesSolid
        } else if self.step == 2 {
            Check::PassesClear
        } else if self.step == 3 {
            Check::Held
        } else if self.step == 4 {
            Check::LetGo
        } else {
            Check::Finished
        }
    }

    /// Takes the step's answer and says what to do next.
    pub fn step(&mut self, ok: bool, can_post: bool) -> (next: Next)
        ensures
            (final(self)@, next) == stepped(old(self)@, ok, can_post),
    {
        proof {
            use_type_invariant(&*self);
        }
        let and = self.passed && ok;
        match self.check() {
            Check::Probes => if ok {
                self.step = 1;
                self.passed = true;
                Next::WarpToSolid
            } else {
                Next::Done(false)
            },
            Check::ReachesSolid => {
                self.passed = and;
                self.step = 2;
                Next::WarpToClear
            },
            Check::PassesClear => {
                self.passed = and;
                if can_post {
                    self.step = 3;
                    Next::PressAtClear
                } else {
                    Next::Done(and)
                }
            },
            Check::Held => {
                self.passed = and;
                self.step = 4;
                Next::ReleaseAtClear
            },
            Check::LetGo => {
                self.passed = and;
                Next::Done(and)
            },
            Check::Finished => Next::Done(self.passed),
        }
    }
}

/// Once the probes have been found, a check that failed is never forgotten:
/// every later answer keeps the verdict false, and the checks never end in
/// a pass.
pub proof fn a_failed_check_is_never_forgotten(v: CheckerView, ok: bool, can_post: bool)
    requires
        v.step >= 1,
        !v.passed,
    ensures
        !stepped(v, ok, can_post).0.passed,
        stepped(v, ok, can_post).1 != Next::Done(true),
{
}

/// The checks end in a pass only when the answer just given passed, every
/// one before it did, and it was the last question there was to ask.
pub proof fn a_pass_needs_every_check_to_pass(v: CheckerView, ok: bool, can_post: bool)
    requires
        1 <= v.step <= 4,
        stepped(v, ok, can_post).1 == Next::Done(true),
    ensures
        ok,
        v.passed,
        v.step == 4 || (v.step == 2 && !can_post),
{
}

/// Answering any of the checks after the probes -- a click reaching what is
/// drawn, one passing through where nothing is, the button held, the button
/// let go -- with a failure leaves the verdict failed, and that answer never
/// ends the checks in a pass.
pub proof fn a_failed_answer_fails_the_verdict(v: CheckerView, ok: bool, can_post: bool)
    requires
        1 <= v.step <= 4,
        !ok,
    ensures
        !stepped(v, ok, can_post).0.passed,
        stepped(v, ok, can_post).1 != Next::Done(true),
{
}

/// The state after a run of answers, given first to last.
pub open spec fn answered(v: CheckerView, oks: Seq<bool>, can_post: bool) -> CheckerView
    decreases oks.len(),
{
    if oks.len() == 0 {
        v
    } else {
        answered(stepped(v, oks[0], can_post).0, oks.drop_first(), can_post)
    }
}

/// Answers after the probes keep the checks among those after the probes,
/// and once the verdict has failed it stays failed through any run of them.
proof fn lemma_failed_stays_failed(v: CheckerView, oks: Seq<bool>, can_post: bool)
    requires
        1 <= v.step <= 4,
        !v.passed,
    ensures
        !answered(v, oks, can_post).passed,
    decreases oks.len(),
{
    if oks.len() > 0 {
        lemma_failed_stays_failed(stepped(v, oks[0], can_post).0, oks.drop_first(), can_post);
    }
}

/// One failed answer anywhere in a run of answers after the probes fails
/// the whole run: whatever comes after it, the verdict at the end is failed.
pub proof fn one_failed_answer_fails_the_whole_run(v: CheckerView, oks: Seq<bool>, can_post: bool, i: int)
    requires
        1 <= v.step <= 4,
        0 <= i < oks.len(),
        !oks[i],
    ensures
        !answered(v, oks, can_post).passed,
    decreases i,
{
    let w = stepped(v, oks[0], can_post).0;
    if i == 0 {
        a_failed_answer_fails_the_verdict(v, oks[0], can_post);
        lemma_failed_stays_failed(w, oks.drop_first(), can_post);
    } else {
        assert(oks.drop_first()[i - 1] == oks[i]);
        one_failed_answer_fails_the_whole_run(w, oks.drop_first(), can_post, i - 1);
    }
}

/// A step is taken on one frame in every `SETTLE`: from a fresh count, the
/// frames before the last one go by without a step and the last one takes
/// it, starting the count again.
pub proof fn a_step_waits_for_the_window_to_settle(v: CheckerView)
    requires
        v.at == 0,
    ensures
        ({
            let (v1, d1) = ticked(v);
            let (v2, d2) = ticked(v1);
            let (v3, d3) = ticked(v2);
            let (v4, d4) = ticked(v3);
            let (v5, d5) = ticked(v4);
            let (v6, d6) = ticked(v5);
            &&& !d1 && !d2 && !d3 && !d4 && !d5
            &&& d6 && v6.at == 0
            &&& v6.step == v.step && v6.passed == v.passed
        }),
{
}

} // verus!
