//! The run of one scan, step by step.
//!
//! The work on the camera is done outside this library. A [`ScanRunner`]
//! decides what that work is: it hands out one chunk of the range at a time,
//! takes back what the scan of the chunk changed, and records the progress.
//! The caller performs each [`ScanAction`] and reports the [`ScanEvent`] that
//! came of it, until the action is [`ScanAction::End`]; then it ends the run
//! with [`ScanActor::end`].

use crate::db::Store;
use crate::models::CameraScanResult;
use crate::range::{ScanRange, ScanRangeIter};
use crate::scan::ScanActor;
use vstd::prelude::*;
use vstd::string::StringExecFns;

verus! {

/// What happened outside since the last step.
#[derive(Debug)]
pub enum ScanEvent {
    /// The run is to begin.
    Started,
    /// The chunk that was handed out has been scanned, with this result.
    Scanned(CameraScanResult),
    /// The scan of the chunk that was handed out failed, for this reason.
    Failed(String),
}

/// What is to be done outside next.
#[derive(Clone, Copy, Debug, PartialEq, Eq, Structural)]
pub enum ScanAction {
    /// Scan this chunk of the range on the camera.
    Scan(ScanRange),
    /// Nothing is left to scan: end the run.
    End,
}

/// The state of a run between two steps.
#[derive(Debug)]
pub struct ScanRunner {
    actor: ScanActor,
    iter: ScanRangeIter,
    current: Option<(ScanRange, u8)>,
    failed: bool,
}

impl ScanRunner {
    /// The actor of the run, with what it has gathered so far.
    pub closed spec fn actor(&self) -> ScanActor {
        self.actor
    }

    /// The chunks that have not been handed out, newest first; none once the
    /// run has failed.
    pub closed spec fn remaining(&self) -> Seq<(ScanRange, u8)> {
        if self.failed {
            Seq::empty()
        } else {
            self.iter.remaining()
        }
    }

    /// The chunk that was handed out and has not been reported on, with the
    /// percent that is reached once it is done.
    pub closed spec fn current(&self) -> Option<(ScanRange, u8)> {
        self.current
    }

    /// The reason that is kept for a failure that was reported with `reason`:
    /// the reason itself, or a standard text where it is empty.
    pub open spec fn noted(reason: Seq<char>) -> Seq<char> {
        if reason.len() > 0 {
            reason
        } else {
            "scan failed"@
        }
    }

    /// Whether `after` is the actor `before` once a failure was reported
    /// with `reason`: it has failed for the reason that is kept, and is
    /// otherwise as it was.
    pub open spec fn failed(before: ScanActor, after: ScanActor, reason: Seq<char>) -> bool {
        &&& after.error@ == Self::noted(reason)
        &&& !after.spec_success()
        &&& after.camera_id == before.camera_id
        &&& after.kind == before.kind
        &&& after.range == before.range
        &&& after.started_at == before.started_at
        &&& after.upserted == before.upserted
        &&& after.deleted == before.deleted
    }

    /// The actor after a chunk has been scanned with `result`.
    pub open spec fn gathered(actor: ScanActor, result: CameraScanResult) -> ScanActor {
        ScanActor {
            upserted: CameraScanResult::sum(actor.upserted, result.upserted),
            deleted: CameraScanResult::sum(actor.deleted, result.deleted),
            ..actor
        }
    }

    /// Takes in `event` and decides what is to be done next.
    ///
    /// A scanned chunk adds its result to the actor's totals and records the
    /// progress of the run: the start of the chunk, the percent reached and
    /// the totals. A failure is kept as the actor's error; it records no
    /// progress and hands out no further chunk. Otherwise the next chunk of
    /// the range is handed out, or the end of the run when none is left.
    pub fn step(&mut self, store: &mut Store, event: ScanEvent) -> (action: ScanAction)
        requires
            old(store).wf(),
        ensures
            final(store).wf(),
            match event {
                ScanEvent::Started => final(store)@ == old(store)@ && final(self).actor() == old(
                    self,
                ).actor(),
                ScanEvent::Scanned(result) => match old(self).current() {
                    Some((range, percent)) => final(self).actor() == Self::gathered(
                        old(self).actor(),
                        result,
                    ) && final(store)@ == old(store)@.progress(
                        old(self).actor().camera_id,
                        range.start,
                        percent,
                        final(self).actor().upserted,
                        final(self).actor().deleted,
                    ),
                    None => final(store)@ == old(store)@ && final(self).actor() == old(
                        self,
                    ).actor(),
                },
                ScanEvent::Failed(reason) => final(store)@ == old(store)@ && Self::failed(
                    old(self).actor(),
                    final(self).actor(),
                    reason@,
                ),
            },
            match event {
                ScanEvent::Failed(_) => action == ScanAction::End && final(self).remaining().len()
                    == 0 && final(self).current() is None,
                _ => if old(self).remaining().len() > 0 {
                    &&& action == ScanAction::Scan(old(self).remaining()[0].0)
                    &&& final(self).current() == Some(old(self).remaining()[0])
                    &&& final(self).remaining() == old(self).remaining().drop_first()
                } else {
                    &&& action == ScanAction::End
                    &&& final(self).current() is None
                    &&& final(self).remaining() == old(self).remaining()
                },
            },
    {
        match event {
            ScanEvent::Started => {},
            ScanEvent::Scanned(result) => {
                if let Some((range, percent)) = self.current {
                    let mut total = CameraScanResult {
                        upserted: self.actor.upserted,
                        deleted: self.actor.deleted,
                    };
                    total.add_assign(result);
                    self.actor.upserted = total.upserted;
                    self.actor.deleted = total.deleted;
                    self.actor.update_status(
                        store,
                        range.start,
                        percent,
                        total.upserted,
                        total.deleted,
                    );
                }
            },
            ScanEvent::Failed(reason) => {
                proof {
                    reveal_strlit("scan failed");
                }
                let text = if reason.as_str().is_empty() {
                    String::from_str("scan failed")
                } else {
                    reason
                };
                self.actor.error = text;
                self.failed = true;
                self.current = None;
                return ScanAction::End;
            },
        }
        if self.failed {
            self.current = None;
            return ScanAction::End;
        }
        match self.iter.next() {
            Some(chunk) => {
                self.current = Some(chunk);
                ScanAction::Scan(chunk.0)
            },
            None => {
                self.current = None;
                ScanAction::End
            },
        }
    }
}

impl ScanRunner {
    /// Hands back the actor, to end the run with.
    pub fn into_actor(self) -> (actor: ScanActor)
        ensures
            actor == self.actor(),
    {
        self.actor
    }
}

impl ScanActor {
    /// The run of this actor, before its first step: every chunk of its range
    /// is still to be handed out.
    pub fn runner(self) -> (r: ScanRunner)
        ensures
            r.actor() == self,
            r.remaining() == self.range.chunks(),
            r.current() is None,
    {
        let iter = self.range.iter();
        ScanRunner { actor: self, iter, current: None, failed: false }
    }
}

} // verus!
