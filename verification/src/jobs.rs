//! Background job orchestration: polling state machines for the apply and
//! preview jobs, and the caller-side rule for when a preview is (re)started.
//!
//! A job runs on a background execution context that reports through a
//! one-way channel: zero or more progress messages, then one terminal
//! result. Polling never blocks. A channel that closes without a terminal
//! message means the background context died; that surfaces as a failure,
//! never as a job left running forever. At most one job of each kind runs
//! at a time; that single-flight rule is the caller's discipline, and
//! [`preview_action`] is the decision that upholds it for previews.

use vstd::prelude::*;
use vstd::string::StringExecFns;
use crate::channel::{recv_now, ChannelEvent};
use crate::frame::Frame;
use crate::selection::Selection;

verus! {

/// How many queued messages one poll call takes at most.
pub const DRAIN_BATCH: usize = 4096;

/// What a background apply job sends: progress text, then one terminal
/// result.
pub enum JobMsg {
    Status(String),
    Done(Result<(), String>),
}

/// The polling side of the apply job: applies the composed wallpaper on a
/// background context and reports progress and a terminal status.
pub struct ApplyJob {
    rx: Option<std::sync::mpsc::Receiver<JobMsg>>,
    status: Option<Result<(), String>>,
    log: String,
}

impl ApplyJob {
    /// Whether a job is in flight.
    pub closed spec fn running(&self) -> bool {
        self.rx is Some
    }

    /// The terminal outcome, once one was observed.
    pub closed spec fn status_spec(&self) -> Option<Result<(), String>> {
        self.status
    }

    /// The latest progress message.
    pub closed spec fn log_spec(&self) -> Seq<char> {
        self.log@
    }

    /// While a job runs, no terminal status is set.
    pub open spec fn inv(&self) -> bool {
        self.running() ==> self.status_spec() is None
    }

    pub fn new() -> (j: Self)
        ensures
            j.inv(),
            !j.running(),
            j.status_spec() is None,
            j.log_spec() == Seq::<char>::empty(),
    {
        ApplyJob { rx: None, status: None, log: String::new() }
    }

    /// Adopt the channel of a job that the caller just spawned: the job is
    /// now running and any previous outcome is discarded.
    pub fn start(&mut self, rx: std::sync::mpsc::Receiver<JobMsg>)
        ensures
            final(self).inv(),
            final(self).running(),
            final(self).status_spec() is None,
            final(self).log_spec() == old(self).log_spec(),
    {
        self.rx = Some(rx);
        self.status = None;
    }

    /// The job's transition for one observed channel event: a progress
    /// message replaces the log with exactly that text; a terminal result
    /// ends the run recording exactly that outcome and clearing the log; a
    /// channel that closed without a terminal message means the background
    /// context crashed and records that failure; nothing queued changes
    /// nothing — the job stays running with no outcome.
    pub fn on_event(&mut self, ev: ChannelEvent<JobMsg>)
        requires
            old(self).inv(),
            old(self).running(),
        ensures
            final(self).inv(),
            match ev {
                ChannelEvent::Received(m) => match m {
                    JobMsg::Status(text) => final(self).running() && final(self).status_spec()
                        is None && final(self).log_spec() == text@,
                    JobMsg::Done(outcome) => !final(self).running() && final(self).status_spec()
                        == Some(outcome) && final(self).log_spec() == Seq::<char>::empty(),
                },
                ChannelEvent::Closed => !final(self).running() && (final(self).status_spec()
                    matches Some(o) && o matches Err(m) && m@ == "apply thread crashed"@)
                    && final(self).log_spec() == Seq::<char>::empty(),
                ChannelEvent::Nothing => *final(self) == *old(self),
            },
    {
        match ev {
            ChannelEvent::Received(JobMsg::Status(msg)) => {
                self.log = msg;
            },
            ChannelEvent::Received(JobMsg::Done(result)) => {
                self.status = Some(result);
                self.log = String::new();
                self.rx = None;
            },
            ChannelEvent::Closed => {
                self.status = Some(Err(String::from_str("apply thread crashed")));
                self.log = String::new();
                self.rx = None;
            },
            ChannelEvent::Nothing => {},
        }
    }

    /// Drain the job's messages without blocking, stepping through
    /// [`ApplyJob::on_event`], whose contract fixes each transition.
    /// Polling an idle job changes nothing; a job still running after the
    /// drain has no outcome yet; a job that stopped running has recorded
    /// one, with the log cleared. At most a bounded batch of messages is
    /// taken per call, so a fast producer can never hold the polling
    /// thread; the next call drains on.
    pub fn poll(&mut self)
        requires
            old(self).inv(),
        ensures
            final(self).inv(),
            !old(self).running() ==> *final(self) == *old(self),
            final(self).running() ==> final(self).status_spec() is None,
            old(self).running() && !final(self).running() ==> final(self).status_spec() is Some
                && final(self).log_spec() == Seq::<char>::empty(),
    {
        if self.rx.is_none() {
            return ;
        }
        let mut n: usize = 0;
        while n < DRAIN_BATCH
            invariant
                self.inv(),
                self.running(),
                old(self).running(),
            decreases DRAIN_BATCH - n,
        {
            n = n + 1;
            let ev = match &self.rx {
                Some(rx) => recv_now(rx),
                None => {
                    return ;
                },
            };
            let nothing = matches!(ev, ChannelEvent::Nothing);
            self.on_event(ev);
            if nothing || !self.is_running() {
                return ;
            }
        }
    }

    pub fn is_running(&self) -> (r: bool)
        ensures
            r == self.running(),
    {
        self.rx.is_some()
    }

    pub fn status(&self) -> (r: Option<&Result<(), String>>)
        ensures
            r is Some <==> self.status_spec() is Some,
            r matches Some(s) ==> self.status_spec() == Some(*s),
    {
        self.status.as_ref()
    }

    pub fn log(&self) -> (r: &str)
        ensures
            r@ == self.log_spec(),
    {
        self.log.as_str()
    }

    /// Forget the recorded outcome (the caller acknowledged it).
    pub fn clear_status(&mut self)
        ensures
            final(self).inv(),
            final(self).status_spec() is None,
            final(self).running() == old(self).running(),
            final(self).log_spec() == old(self).log_spec(),
    {
        self.status = None;
    }
}

/// The polling side of the preview job: composes a small preview image on
/// a background context. The composed frame is handed to the caller's
/// display layer when it arrives; the job itself remembers only that one
/// is available.
pub struct PreviewJob {
    rx: Option<std::sync::mpsc::Receiver<Result<Frame, String>>>,
    has_image: bool,
}

impl PreviewJob {
    /// Whether a preview is being composed.
    pub closed spec fn running(&self) -> bool {
        self.rx is Some
    }

    /// Whether a composed preview has been delivered (and not cleared).
    pub closed spec fn has_image_spec(&self) -> bool {
        self.has_image
    }

    pub fn new() -> (j: Self)
        ensures
            !j.running(),
            !j.has_image_spec(),
    {
        PreviewJob { rx: None, has_image: false }
    }

    /// Adopt the channel of a preview the caller just spawned. An earlier
    /// preview image stays available until the new one arrives.
    pub fn start(&mut self, rx: std::sync::mpsc::Receiver<Result<Frame, String>>)
        ensures
            final(self).running(),
            final(self).has_image_spec() == old(self).has_image_spec(),
    {
        self.rx = Some(rx);
    }

    /// The preview's transition for one observed channel event: a composed
    /// frame ends the run and is handed back — exactly that frame — for
    /// the caller's display layer; a failure, or a channel that closed
    /// without a result, ends the run keeping whatever image was already
    /// shown (the preview is best-effort); nothing queued changes nothing.
    pub fn on_event(&mut self, ev: ChannelEvent<Result<Frame, String>>) -> (fresh: Option<Frame>)
        requires
            old(self).running(),
        ensures
            match ev {
                ChannelEvent::Received(m) => match m {
                    Ok(frame) => !final(self).running() && final(self).has_image_spec()
                        && fresh == Some(frame),
                    Err(_) => !final(self).running() && final(self).has_image_spec() == old(
                        self,
                    ).has_image_spec() && fresh is None,
                },
                ChannelEvent::Closed => !final(self).running() && final(self).has_image_spec()
                    == old(self).has_image_spec() && fresh is None,
                ChannelEvent::Nothing => *final(self) == *old(self) && fresh is None,
            },
    {
        match ev {
            ChannelEvent::Received(Ok(frame)) => {
                self.has_image = true;
                self.rx = None;
                Some(frame)
            },
            ChannelEvent::Received(Err(_)) | ChannelEvent::Closed => {
                self.rx = None;
                None
            },
            ChannelEvent::Nothing => None,
        }
    }

    /// Take one observation of the running preview, without blocking,
    /// stepping through [`PreviewJob::on_event`], whose contract fixes the
    /// transition and hands an arrived frame back.
    pub fn poll(&mut self) -> (fresh: Option<Frame>)
        ensures
            !old(self).running() ==> *final(self) == *old(self) && fresh is None,
            fresh is Some ==> !final(self).running() && final(self).has_image_spec(),
            final(self).running() ==> *final(self) == *old(self) && fresh is None,
            old(self).running() && !final(self).running() && fresh is None ==> final(self)
                .has_image_spec() == old(self).has_image_spec(),
    {
        let ev = match &self.rx {
            Some(rx) => recv_now(rx),
            None => {
                return None;
            },
        };
        self.on_event(ev)
    }

    pub fn is_running(&self) -> (r: bool)
        ensures
            r == self.running(),
    {
        self.rx.is_some()
    }

    pub fn has_texture(&self) -> (r: bool)
        ensures
            r == self.has_image_spec(),
    {
        self.has_image
    }

    /// Drop the delivered preview and stop listening for one in flight.
    pub fn clear(&mut self)
        ensures
            !final(self).running(),
            !final(self).has_image_spec(),
    {
        self.has_image = false;
        self.rx = None;
    }
}

/// What the caller should do about the preview after a state change.
pub enum PreviewAction {
    /// Start composing a preview of these two gallery indices.
    Start(usize, usize),
    /// Drop the current preview: the selection no longer supports one.
    Clear,
    /// Leave the preview as it is.
    Keep,
}

/// The single-flight preview rule: a preview exists only for a full
/// selection with at least two monitors known; it is restarted only when
/// the selected pair changed and no preview is already being composed.
/// `current` is the pair the shown preview was made for, if any.
pub fn preview_action(
    selected: &Selection,
    monitors_ready: bool,
    current: Option<(usize, usize)>,
    preview_running: bool,
) -> (r: PreviewAction)
    requires
        selected.inv(),
    ensures
        !(selected@.len() == 2 && monitors_ready) ==> (current is Some ==> r is Clear) && (
        current is None ==> r is Keep),
        selected@.len() == 2 && monitors_ready && (current == Some(
            (selected@[0], selected@[1]),
        ) || preview_running) ==> r is Keep,
        selected@.len() == 2 && monitors_ready && current != Some((selected@[0], selected@[1]))
            && !preview_running ==> r == PreviewAction::Start(selected@[0], selected@[1]),
{
    if selected.len() != 2 || !monitors_ready {
        if current.is_some() {
            return PreviewAction::Clear;
        }
        return PreviewAction::Keep;
    }
    let items = selected.items();
    let a = items[0];
    let b = items[1];
    let same = match current {
        Some((ca, cb)) => ca == a && cb == b,
        None => false,
    };
    if same || preview_running {
        PreviewAction::Keep
    } else {
        PreviewAction::Start(a, b)
    }
}

} // verus!
