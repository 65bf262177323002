//! Event listeners and event dispatch state: registering and removing
//! listeners (`addEventListener` / `removeEventListener`), their options, the
//! state checks and changes of `dispatchEvent`, and the interface
//! `document.createEvent` makes.
//!
//! Callbacks are script objects; a listener refers to its callback by a handle
//! the caller chooses.
use vstd::prelude::*;
use crate::text::{eq_ic, eq_ignore_ascii_case, str_eq};

verus! {

// ---------------------------------------------------------------------------
// Listeners
// ---------------------------------------------------------------------------

/// A registered event listener.
pub struct ListenerEntry {
    pub event_type: String,
    pub callback: u64,
    pub capture: bool,
    pub once: bool,
}

/// The entry is the listener (`event_type`, `callback`, `capture`): the key
/// under which listeners are added and removed.
pub open spec fn same_listener(e: ListenerEntry, event_type: Seq<char>, callback: u64, capture: bool) -> bool {
    e.event_type@ == event_type && e.callback == callback && e.capture == capture
}

fn is_same_listener(e: &ListenerEntry, event_type: &str, callback: u64, capture: bool) -> (r: bool)
    ensures
        r == same_listener(*e, event_type@, callback, capture),
{
    str_eq(e.event_type.as_str(), event_type) && e.callback == callback && e.capture == capture
}

/// Some entry of the list is the listener (`event_type`, `callback`, `capture`).
pub open spec fn has_listener(entries: Seq<ListenerEntry>, event_type: Seq<char>, callback: u64, capture: bool) -> bool {
    exists|i: int| 0 <= i < entries.len() && same_listener(#[trigger] entries[i], event_type, callback, capture)
}

/// `addEventListener(type, callback, options)`: the listener is appended
/// unless the same (type, callback, capture) is already registered.
pub fn add_event_listener(entries: &mut Vec<ListenerEntry>, entry: ListenerEntry)
    ensures
        has_listener(old(entries)@, entry.event_type@, entry.callback, entry.capture) ==> final(entries)@
            == old(entries)@,
        !has_listener(old(entries)@, entry.event_type@, entry.callback, entry.capture) ==> final(entries)@
            == old(entries)@.push(entry),
{
    let mut i: usize = 0;
    while i < entries.len()
        invariant
            i <= entries.len(),
            entries@ == old(entries)@,
            forall|k: int|
                0 <= k < i ==> !same_listener(#[trigger] entries@[k], entry.event_type@, entry.callback, entry.capture),
        decreases entries.len() - i,
    {
        if is_same_listener(&entries[i], entry.event_type.as_str(), entry.callback, entry.capture) {
            return;
        }
        i = i + 1;
    }
    entries.push(entry);
}

/// `removeEventListener(type, callback, options)`: every entry that is the
/// listener (`event_type`, `callback`, `capture`) leaves the list; the others
/// stay in order.
pub fn remove_event_listener(entries: &mut Vec<ListenerEntry>, event_type: &str, callback: u64, capture: bool)
    ensures
        final(entries)@ == old(entries)@.filter(
            |e: ListenerEntry| !same_listener(e, event_type@, callback, capture),
        ),
{
    let ghost p = |e: ListenerEntry| !same_listener(e, event_type@, callback, capture);
    let mut kept: Vec<ListenerEntry> = Vec::new();
    let mut i: usize = 0;
    while i < entries.len()
        invariant
            i <= entries.len(),
            entries@ == old(entries)@,
            kept@ == entries@.take(i as int).filter(p),
            p == (|e: ListenerEntry| !same_listener(e, event_type@, callback, capture)),
        decreases entries.len() - i,
    {
        assert(entries@.take(i as int + 1).drop_last() =~= entries@.take(i as int));
        reveal_with_fuel(Seq::filter, 1);
        if !is_same_listener(&entries[i], event_type, callback, capture) {
            let e = ListenerEntry {
                event_type: entries[i].event_type.clone(),
                callback: entries[i].callback,
                capture: entries[i].capture,
                once: entries[i].once,
            };
            assert(e == entries@[i as int]);
            kept.push(e);
        }
        i = i + 1;
    }
    assert(entries@.take(entries.len() as int) =~= entries@);
    *entries = kept;
}

/// The third argument of `addEventListener`, as far as options go.
pub enum ListenerOptionsArg {
    /// No third argument.
    Absent,
    /// An options object with its `capture` and `once` members (absent when
    /// undefined).
    Object { capture: Option<bool>, once: Option<bool> },
    /// Any other value, converted to a boolean.
    Flag(bool),
}

/// The (capture, once) pair the options argument gives.
pub open spec fn spec_listener_options(arg: ListenerOptionsArg) -> (bool, bool) {
    match arg {
        ListenerOptionsArg::Absent => (false, false),
        ListenerOptionsArg::Object { capture, once } => (
            match capture {
                Some(b) => b,
                None => false,
            },
            match once {
                Some(b) => b,
                None => false,
            },
        ),
        ListenerOptionsArg::Flag(b) => (b, false),
    }
}

/// (capture, once) from the options argument of `addEventListener`.
pub fn parse_listener_options(arg: &ListenerOptionsArg) -> (r: (bool, bool))
    ensures
        r == spec_listener_options(*arg),
{
    match arg {
        ListenerOptionsArg::Absent => (false, false),
        ListenerOptionsArg::Object { capture, once } => (
            match capture {
                Some(b) => *b,
                None => false,
            },
            match once {
                Some(b) => *b,
                None => false,
            },
        ),
        ListenerOptionsArg::Flag(b) => (*b, false),
    }
}

// ---------------------------------------------------------------------------
// Dispatch state
// ---------------------------------------------------------------------------

/// The state of an event object that dispatch reads and changes.
#[derive(PartialEq, Eq, Structural, Clone, Copy, Debug)]
pub struct EventState {
    pub initialized: bool,
    pub dispatching: bool,
    pub phase: u8,
    pub target: Option<usize>,
    pub current_target: Option<usize>,
    pub default_prevented: bool,
    pub propagation_stopped: bool,
    pub immediate_propagation_stopped: bool,
}

/// Why `dispatchEvent` refuses an event (`InvalidStateError`).
#[derive(PartialEq, Eq, Structural, Clone, Copy, Debug)]
pub enum DispatchError {
    /// The event was created but not initialized.
    NotInitialized,
    /// The event is being dispatched already.
    AlreadyDispatching,
}

/// Starting to dispatch `e` at `target` (at-target phase, with `target` as
/// current target): refused unless it is initialized and not already being
/// dispatched.
pub open spec fn spec_begin_dispatch(e: EventState, target: usize) -> Result<EventState, DispatchError> {
    if !e.initialized {
        Err(DispatchError::NotInitialized)
    } else if e.dispatching {
        Err(DispatchError::AlreadyDispatching)
    } else {
        Ok(EventState { dispatching: true, target: Some(target), current_target: Some(target), phase: 2, ..e })
    }
}

/// Checks and marks the start of a dispatch at `target`.
pub fn begin_dispatch(e: &mut EventState, target: usize) -> (r: Result<(), DispatchError>)
    ensures
        match spec_begin_dispatch(*old(e), target) {
            Ok(s) => r is Ok && *final(e) == s,
            Err(x) => r == Err::<(), DispatchError>(x) && *final(e) == *old(e),
        },
{
    if !e.initialized {
        return Err(DispatchError::NotInitialized);
    }
    if e.dispatching {
        return Err(DispatchError::AlreadyDispatching);
    }
    e.dispatching = true;
    e.target = Some(target);
    e.current_target = Some(target);
    e.phase = 2;
    Ok(())
}

/// The state after a dispatch ends: no phase, no current target, propagation
/// flags cleared, not dispatching; the rest kept.
pub open spec fn spec_end_dispatch(e: EventState) -> EventState {
    EventState {
        phase: 0,
        current_target: None,
        propagation_stopped: false,
        immediate_propagation_stopped: false,
        dispatching: false,
        ..e
    }
}

/// Ends a dispatch; returns what `dispatchEvent` returns: whether the
/// default was not prevented.
pub fn end_dispatch(e: &mut EventState) -> (r: bool)
    ensures
        *final(e) == spec_end_dispatch(*old(e)),
        r == !old(e).default_prevented,
{
    e.phase = 0;
    e.current_target = None;
    e.propagation_stopped = false;
    e.immediate_propagation_stopped = false;
    e.dispatching = false;
    !e.default_prevented
}

/// `document.createEvent(interface)` makes a `CustomEvent` for the interface
/// name `customevent` in any ASCII case, and a plain `Event` otherwise.
pub fn creates_custom_event(interface: &str) -> (r: bool)
    ensures
        r == eq_ic(interface@, seq!['c', 'u', 's', 't', 'o', 'm', 'e', 'v', 'e', 'n', 't']),
{
    proof {
        reveal_strlit("customevent");
    }
    assert("customevent"@ =~= seq!['c', 'u', 's', 't', 'o', 'm', 'e', 'v', 'e', 'n', 't']);
    eq_ignore_ascii_case(interface, "customevent")
}

// ---------------------------------------------------------------------------
// Laws
// ---------------------------------------------------------------------------

/// Removing a listener leaves no entry that is that listener.
pub proof fn lemma_removed_listener_absent(entries: Seq<ListenerEntry>, event_type: Seq<char>, callback: u64, capture: bool)
    ensures
        !has_listener(
            entries.filter(|e: ListenerEntry| !same_listener(e, event_type, callback, capture)),
            event_type,
            callback,
            capture,
        ),
{
    let p = |e: ListenerEntry| !same_listener(e, event_type, callback, capture);
    broadcast use vstd::seq_lib::group_filter_ensures;
    let f = entries.filter(p);
    assert forall|i: int| 0 <= i < f.len() implies !same_listener(#[trigger] f[i], event_type, callback, capture) by {
        assert(p(f[i]));
    }
}

/// Adding a listener makes it registered, and adding it again changes
/// nothing.
pub proof fn lemma_add_listener_once(entries: Seq<ListenerEntry>, entry: ListenerEntry)
    ensures
        has_listener(
            if has_listener(entries, entry.event_type@, entry.callback, entry.capture) {
                entries
            } else {
                entries.push(entry)
            },
            entry.event_type@,
            entry.callback,
            entry.capture,
        ),
{
    if !has_listener(entries, entry.event_type@, entry.callback, entry.capture) {
        let s = entries.push(entry);
        assert(same_listener(s[entries.len() as int], entry.event_type@, entry.callback, entry.capture));
    }
}

/// The options argument of `addEventListener` gives the capture flag and the
/// `once` flag it carries: an options object's members where given (false
/// otherwise), a boolean as the capture flag with `once` false, and neither
/// flag without an argument.
pub proof fn lemma_listener_options_carry_flags(arg: ListenerOptionsArg)
    ensures
        arg matches ListenerOptionsArg::Object { capture: Some(c), .. } ==> spec_listener_options(arg).0 == c,
        arg matches ListenerOptionsArg::Object { capture: None, .. } ==> !spec_listener_options(arg).0,
        arg matches ListenerOptionsArg::Object { once: Some(o), .. } ==> spec_listener_options(arg).1 == o,
        arg matches ListenerOptionsArg::Object { once: None, .. } ==> !spec_listener_options(arg).1,
        arg matches ListenerOptionsArg::Flag(b) ==> spec_listener_options(arg) == (b, false),
        arg is Absent ==> spec_listener_options(arg) == (false, false),
{
}

/// A dispatch that starts and ends leaves the event not dispatching, with the
/// target set, and reports whether its default was not prevented.
pub proof fn lemma_dispatch_round(e: EventState, target: usize)
    requires
        e.initialized,
        !e.dispatching,
    ensures
        spec_begin_dispatch(e, target) is Ok,
        !spec_end_dispatch(spec_begin_dispatch(e, target)->Ok_0).dispatching,
        spec_end_dispatch(spec_begin_dispatch(e, target)->Ok_0).target == Some(target),
        spec_end_dispatch(spec_begin_dispatch(e, target)->Ok_0).default_prevented == e.default_prevented,
{
}

} // verus!
