//! `AbortController` and `AbortSignal`: the abort state of a signal, what
//! aborting it does, `throwIfAborted`, `AbortSignal.abort` and `AbortSignal.any`,
//! and which listeners an `abort` event reaches.
//!
//! Script values (reasons, callbacks) are opaque here: the caller refers to
//! each by a handle of its own choosing.
use vstd::prelude::*;
use crate::events::ListenerEntry;
use crate::text::str_eq;

verus! {

/// Why a signal was aborted.
#[derive(PartialEq, Eq, Structural, Clone, Copy, Debug)]
pub enum AbortReason {
    /// The `AbortError` DOMException made when no reason was given.
    AbortError,
    /// The `TimeoutError` DOMException of `AbortSignal.timeout`.
    TimeoutError,
    /// A reason given by the caller, by handle.
    Value(u64),
}

/// The reason for `abort(reason)`: the given one, or an `AbortError` when none
/// (or `undefined`) is given.
pub open spec fn spec_reason_for(given: Option<u64>) -> AbortReason {
    match given {
        Some(h) => AbortReason::Value(h),
        None => AbortReason::AbortError,
    }
}

pub fn reason_for(given: Option<u64>) -> (r: AbortReason)
    ensures
        r == spec_reason_for(given),
{
    match given {
        Some(h) => AbortReason::Value(h),
        None => AbortReason::AbortError,
    }
}

/// The state of an `AbortSignal`: aborted exactly when it has a reason.
#[derive(PartialEq, Eq, Structural, Clone, Copy, Debug)]
pub struct AbortSignalState {
    pub reason: Option<AbortReason>,
}

/// What the caller does after an abort request.
#[derive(PartialEq, Eq, Structural, Clone, Copy, Debug)]
pub enum AbortAction {
    /// The signal became aborted: fire `abort` on it.
    FireAbortEvent,
    /// The signal was already aborted: nothing happens.
    Nothing,
}

/// Aborting a signal in state `s` with `reason`: the new state and the
/// action; an aborted signal is left as it is.
pub open spec fn spec_abort(s: AbortSignalState, reason: AbortReason, is_timeout: bool) -> (
    AbortSignalState,
    AbortAction,
) {
    if s.reason is Some {
        (s, AbortAction::Nothing)
    } else {
        (
            AbortSignalState {
                reason: Some(
                    if is_timeout {
                        AbortReason::TimeoutError
                    } else {
                        reason
                    },
                ),
            },
            AbortAction::FireAbortEvent,
        )
    }
}

impl AbortSignalState {
    /// A signal that is not aborted.
    pub fn new() -> (s: AbortSignalState)
        ensures
            s.reason is None,
    {
        AbortSignalState { reason: None }
    }

    /// A signal already aborted with `reason` (`AbortSignal.abort(reason)`).
    pub fn new_aborted(reason: AbortReason) -> (s: AbortSignalState)
        ensures
            s.reason == Some(reason),
    {
        AbortSignalState { reason: Some(reason) }
    }

    /// `signal.aborted`.
    pub fn aborted(&self) -> (r: bool)
        ensures
            r == self.reason is Some,
    {
        self.reason.is_some()
    }

    /// Abort the signal with `reason` (a timeout replaces the reason by a
    /// `TimeoutError`). An aborted signal is left as it is.
    pub fn abort(&mut self, reason: AbortReason, is_timeout: bool) -> (r: AbortAction)
        ensures
            (*final(self), r) == spec_abort(*old(self), reason, is_timeout),
    {
        if self.reason.is_some() {
            return AbortAction::Nothing;
        }
        let r = if is_timeout {
            AbortReason::TimeoutError
        } else {
            reason
        };
        self.reason = Some(r);
        AbortAction::FireAbortEvent
    }

    /// `signal.throwIfAborted()`: the reason is thrown when aborted.
    pub fn throw_if_aborted(&self) -> (r: Result<(), AbortReason>)
        ensures
            match self.reason {
                Some(e) => r == Err::<(), AbortReason>(e),
                None => r is Ok,
            },
    {
        match self.reason {
            Some(e) => Err(e),
            None => Ok(()),
        }
    }
}

/// Index of the first aborted signal of `sources`, or -1.
pub open spec fn first_aborted(sources: Seq<AbortSignalState>) -> int {
    crate::text::first_index(sources, |s: AbortSignalState| s.reason is Some)
}

/// `AbortSignal.any(signals)`: aborted with the reason of the first aborted
/// source if there is one; otherwise a signal that is not aborted yet (it
/// follows its sources from then on).
pub fn signal_any(sources: &Vec<AbortSignalState>) -> (r: AbortSignalState)
    ensures
        first_aborted(sources@) >= 0 ==> r.reason == sources@[first_aborted(sources@)].reason,
        first_aborted(sources@) < 0 ==> r.reason is None,
{
    let ghost p = |s: AbortSignalState| s.reason is Some;
    let mut i: usize = 0;
    while i < sources.len()
        invariant
            i <= sources.len(),
            p == (|s: AbortSignalState| s.reason is Some),
            forall|k: int| 0 <= k < i ==> !p(#[trigger] sources@[k]),
        decreases sources.len() - i,
    {
        if sources[i].aborted() {
            proof {
                crate::text::lemma_first_index_is(sources@, p, i as int);
            }
            return AbortSignalState::new_aborted(sources[i].reason.unwrap());
        }
        i = i + 1;
    }
    proof {
        crate::text::lemma_first_index_none(sources@, p);
    }
    AbortSignalState::new()
}

// ---------------------------------------------------------------------------
// Firing `abort`
// ---------------------------------------------------------------------------

pub open spec fn is_abort_type(t: Seq<char>) -> bool {
    t == seq!['a', 'b', 'o', 'r', 't']
}

/// The listeners an `abort` event reaches, in registration order: each
/// `abort` listener's callback, `capture` flag and `once` flag.
pub open spec fn abort_listeners(entries: Seq<ListenerEntry>) -> Seq<(u64, bool, bool)>
    decreases entries.len(),
{
    if entries.len() == 0 {
        Seq::empty()
    } else {
        let front = abort_listeners(entries.drop_last());
        let e = entries.last();
        if is_abort_type(e.event_type@) {
            front.push((e.callback, e.capture, e.once))
        } else {
            front
        }
    }
}

fn is_abort_event_type(t: &str) -> (r: bool)
    ensures
        r == is_abort_type(t@),
{
    proof {
        reveal_strlit("abort");
    }
    assert("abort"@ =~= seq!['a', 'b', 'o', 'r', 't']);
    str_eq(t, "abort")
}

/// The snapshot of listeners that firing `abort` calls, taken before any runs.
pub fn abort_listener_snapshot(entries: &Vec<ListenerEntry>) -> (r: Vec<(u64, bool, bool)>)
    ensures
        r@ == abort_listeners(entries@),
{
    let mut out: Vec<(u64, bool, bool)> = Vec::new();
    let mut i: usize = 0;
    while i < entries.len()
        invariant
            i <= entries.len(),
            out@ == abort_listeners(entries@.take(i as int)),
        decreases entries.len() - i,
    {
        assert(entries@.take(i as int + 1).drop_last() =~= entries@.take(i as int));
        if is_abort_event_type(entries[i].event_type.as_str()) {
            out.push((entries[i].callback, entries[i].capture, entries[i].once));
        }
        i = i + 1;
    }
    assert(entries@.take(entries.len() as int) =~= entries@);
    out
}

/// The `abort` listener (`callback`, `capture`) is in the list: the key under
/// which listeners are added and removed.
pub open spec fn abort_listener_registered(entries: Seq<ListenerEntry>, callback: u64, capture: bool) -> bool {
    exists|i: int|
        0 <= i < entries.len() && is_abort_type((#[trigger] entries[i]).event_type@) && entries[i].callback
            == callback && entries[i].capture == capture
}

/// Whether a listener of the snapshot is still registered when its turn
/// comes: one that left the list meanwhile is skipped.
pub fn is_abort_listener_registered(entries: &Vec<ListenerEntry>, callback: u64, capture: bool) -> (r: bool)
    ensures
        r == abort_listener_registered(entries@, callback, capture),
{
    let mut i: usize = 0;
    while i < entries.len()
        invariant
            i <= entries.len(),
            forall|k: int|
                0 <= k < i ==> !(is_abort_type((#[trigger] entries@[k]).event_type@) && entries@[k].callback
                    == callback && entries@[k].capture == capture),
        decreases entries.len() - i,
    {
        if is_abort_event_type(entries[i].event_type.as_str()) && entries[i].callback == callback
            && entries[i].capture == capture {
            return true;
        }
        i = i + 1;
    }
    false
}

/// The entry is a one-shot `abort` listener with callback `callback`.
pub open spec fn is_once_abort_of(e: ListenerEntry, callback: u64) -> bool {
    is_abort_type(e.event_type@) && e.callback == callback && e.once
}

/// Before a one-shot listener runs, every one-shot `abort` entry with its
/// callback leaves the list; the others stay in order.
pub fn remove_once_abort_listeners(entries: &mut Vec<ListenerEntry>, callback: u64)
    ensures
        final(entries)@ == old(entries)@.filter(|e: ListenerEntry| !is_once_abort_of(e, callback)),
{
    let ghost p = |e: ListenerEntry| !is_once_abort_of(e, callback);
    let mut kept: Vec<ListenerEntry> = Vec::new();
    let mut i: usize = 0;
    while i < entries.len()
        invariant
            i <= entries.len(),
            entries@ == old(entries)@,
            kept@ == entries@.take(i as int).filter(p),
            p == (|e: ListenerEntry| !is_once_abort_of(e, callback)),
        decreases entries.len() - i,
    {
        assert(entries@.take(i as int + 1).drop_last() =~= entries@.take(i as int));
        reveal_with_fuel(Seq::filter, 1);
        let abort = is_abort_event_type(entries[i].event_type.as_str());
        if !(abort && entries[i].callback == callback && entries[i].once) {
            let e = ListenerEntry {
                event_type: entries[i].event_type.clone(),
                callback: entries[i].callback,
                capture: entries[i].capture,
                once: entries[i].once,
            };
            assert(e == entries@[i as int]);
            kept.push(e);
        }
        i = i + 1;
    }
    assert(entries@.take(entries.len() as int) =~= entries@);
    *entries = kept;
}

// ---------------------------------------------------------------------------
// Laws
// ---------------------------------------------------------------------------

/// Aborting a signal a second time does nothing: no second `abort` event, and
/// the first reason stays.
pub proof fn lemma_abort_once(
    s: AbortSignalState,
    first: AbortReason,
    first_timeout: bool,
    second: AbortReason,
    second_timeout: bool,
)
    ensures
        spec_abort(spec_abort(s, first, first_timeout).0, second, second_timeout) == (
            spec_abort(s, first, first_timeout).0,
            AbortAction::Nothing,
        ),
{
}

/// An aborted signal reports `aborted` and `throwIfAborted` throws its reason:
/// the given one, `TimeoutError` for a timeout, `AbortError` when none was given.
pub proof fn lemma_abort_reason(given: Option<u64>, is_timeout: bool)
    ensures
        spec_abort(AbortSignalState { reason: None }, spec_reason_for(given), is_timeout).0.reason
            == Some(
            if is_timeout {
                AbortReason::TimeoutError
            } else {
                match given {
                    Some(h) => AbortReason::Value(h),
                    None => AbortReason::AbortError,
                }
            },
        ),
{
}

} // verus!
