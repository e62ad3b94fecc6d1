//! When the project is read again: shortly after its files changed, and every now and then.

use crate::text;
use vstd::prelude::*;

verus! {

/// How many milliseconds must pass after the last change before the project is read again.
pub const DEBOUNCE: u64 = 100;

/// After how many milliseconds the project is read again in any case.
pub const RECONCILE_INTERVAL: u64 = 2000;

/// What a watcher of files reports.
#[derive(Clone, Debug, PartialEq, Eq)]
pub enum Signal {
    /// Something happened to a file.
    Event {
        /// Whether events may have been missed.
        rescan: bool,
        /// Whether the file was merely read.
        access: bool,
    },
    /// Watching failed, for this reason.
    Failure(String),
    /// The watcher is gone.
    Disconnected,
}

/// Decides when the project is read again. Times are in milliseconds from any fixed moment.
#[derive(Clone, Debug, PartialEq, Eq)]
pub struct LiveReload {
    /// Whether there is a watcher.
    pub watching: bool,
    pub last_change: Option<u64>,
    pub next_reconciliation: u64,
    pub disconnected_reported: bool,
}

/// What is to be done now.
#[derive(Clone, Debug, PartialEq, Eq)]
pub struct ReloadTick {
    pub reload: bool,
    pub errors: Vec<String>,
}

/// Whether a signal tells of a change.
pub open spec fn is_change(signal: Signal) -> bool {
    signal matches Signal::Event { rescan, access } && (rescan || !access)
}

/// How many of the signals from `i` on count. None counts after the watcher is gone.
pub open spec fn received(signals: Seq<Signal>, i: int) -> nat
    decreases signals.len() - i,
{
    if i < 0 || i >= signals.len() {
        0
    } else if signals[i] is Disconnected {
        1
    } else {
        1 + received(signals, i + 1)
    }
}

/// Whether one of the first `n` signals tells of a change.
pub open spec fn any_change(signals: Seq<Signal>, n: nat) -> bool {
    exists|i: int| 0 <= i < n && i < signals.len() && is_change(#[trigger] signals[i])
}

/// Whether one of the first `n` signals tells that the watcher is gone.
pub open spec fn any_end(signals: Seq<Signal>, n: nat) -> bool {
    exists|i: int| 0 <= i < n && i < signals.len() && (#[trigger] signals[i]) is Disconnected
}

/// What is told of the first `n` signals.
pub open spec fn complaints(state: LiveReload, signals: Seq<Signal>, n: nat) -> Seq<Seq<char>>
    decreases n,
{
    if n == 0 || n > signals.len() {
        Seq::empty()
    } else {
        let before = complaints(state, signals, (n - 1) as nat);
        match signals[n - 1] {
            Signal::Failure(reason) => before.push("File watch error: "@ + reason@),
            Signal::Disconnected => if state.watching && !state.disconnected_reported {
                before.push("File watcher stopped; polling reconciliation remains active"@)
            } else {
                before
            },
            Signal::Event { .. } => before,
        }
    }
}

impl LiveReload {
    /// When the last change was, given what was received by now.
    pub open spec fn changed(self, now: u64, signals: Seq<Signal>) -> Option<u64> {
        if any_change(signals, received(signals, 0)) {
            Some(now)
        } else {
            self.last_change
        }
    }

    /// Whether the files have been quiet for long enough after a change.
    pub open spec fn is_settled(self, now: u64, signals: Seq<Signal>) -> bool {
        self.changed(now, signals) matches Some(time) && now - time >= DEBOUNCE
    }

    /// Whether the project is to be read again in any case.
    pub open spec fn is_due(self, now: u64) -> bool {
        now >= self.next_reconciliation
    }

    /// What is remembered after what was received by now.
    pub open spec fn after(self, now: u64, signals: Seq<Signal>) -> LiveReload {
        LiveReload {
            watching: self.watching,
            last_change: if self.is_settled(now, signals) {
                None
            } else {
                self.changed(now, signals)
            },
            next_reconciliation: if self.is_due(now) {
                (now + RECONCILE_INTERVAL) as u64
            } else {
                self.next_reconciliation
            },
            disconnected_reported: self.disconnected_reported || (self.watching && any_end(
                signals,
                received(signals, 0),
            )),
        }
    }

    /// Starts to decide.
    pub fn start(watching: bool, now: u64) -> (r: LiveReload)
        requires
            now + RECONCILE_INTERVAL <= u64::MAX,
        ensures
            r == (LiveReload {
                watching,
                last_change: None,
                next_reconciliation: (now + RECONCILE_INTERVAL) as u64,
                disconnected_reported: false,
            }),
    {
        LiveReload {
            watching,
            last_change: None,
            next_reconciliation: now + RECONCILE_INTERVAL,
            disconnected_reported: false,
        }
    }

    /// Decides what is to be done now, given what was received since the last time.
    pub fn tick(&mut self, now: u64, signals: &Vec<Signal>) -> (r: ReloadTick)
        requires
            now + RECONCILE_INTERVAL <= u64::MAX,
        ensures
            *final(self) == old(self).after(now, signals@),
            r.reload == (old(self).is_settled(now, signals@) || old(self).is_due(now)),
            text::strings(r.errors@) == complaints(*old(self), signals@, received(signals@, 0)),
    {
        let ghost before = *self;
        let mut errors: Vec<String> = Vec::new();
        let mut i: usize = 0;
        let mut ended = false;
        let mut changed = false;
        assert(text::strings(errors@) =~= Seq::empty());
        while !ended && i < signals.len()
            invariant
                i <= signals@.len(),
                *self == (LiveReload {
                    disconnected_reported: before.disconnected_reported || (before.watching
                        && ended),
                    ..before
                }),
                !ended ==> i + received(signals@, i as int) == received(signals@, 0),
                ended ==> i == received(signals@, 0),
                changed == any_change(signals@, i as nat),
                ended == any_end(signals@, i as nat),
                text::strings(errors@) == complaints(before, signals@, i as nat),
            decreases signals@.len() - i,
        {
            let ghost told = text::strings(errors@);
            let ghost at = i as int;
            assert(any_change(signals@, (i + 1) as nat) == (any_change(signals@, i as nat)
                || is_change(signals@[at]))) by {
                if is_change(signals@[at]) {
                    assert(any_change(signals@, (i + 1) as nat));
                }
            }
            assert(any_end(signals@, (i + 1) as nat) == (any_end(signals@, i as nat)
                || signals@[at] is Disconnected)) by {
                if signals@[at] is Disconnected {
                    assert(any_end(signals@, (i + 1) as nat));
                }
            }
            match &signals[i] {
                Signal::Event { rescan, access } => {
                    if *rescan || !*access {
                        changed = true;
                    }
                },
                Signal::Failure(reason) => {
                    let mut message = text::chars_of("File watch error: ");
                    text::push_str(&mut message, reason);
                    let message = text::string_of(&message);
                    let ghost added = message@;
                    errors.push(message);
                    assert(text::strings(errors@) =~= told.push(added));
                },
                Signal::Disconnected => {
                    ended = true;
                    if self.watching && !self.disconnected_reported {
                        let message = text::copy_string(
                            "File watcher stopped; polling reconciliation remains active",
                        );
                        let ghost added = message@;
                        errors.push(message);
                        assert(text::strings(errors@) =~= told.push(added));
                        self.disconnected_reported = true;
                    }
                },
            }
            i += 1;
        }
        assert(i == received(signals@, 0));
        if changed {
            self.last_change = Some(now);
        }
        let mut reload = false;
        if let Some(time) = self.last_change {
            if now >= time && now - time >= DEBOUNCE {
                self.last_change = None;
                reload = true;
            }
        }
        if now >= self.next_reconciliation {
            self.next_reconciliation = now + RECONCILE_INTERVAL;
            reload = true;
        }
        ReloadTick { reload, errors }
    }
}

/// A change is followed by a reload once nothing has changed for the debounce time, and not by a
/// reload of its own before that.
pub proof fn changes_are_debounced(state: LiveReload, changed: u64, later: u64, signal: Signal)
    requires
        is_change(signal),
        changed <= later,
        state.next_reconciliation > later,
    ensures
        ({
            let seen = state.after(changed, seq![signal]);
            &&& !state.is_settled(changed, seq![signal])
            &&& seen.is_settled(later, Seq::empty()) == (later - changed >= DEBOUNCE)
            &&& !seen.is_due(later)
        }),
{
    let signals = seq![signal];
    assert(signals[0] == signal);
    reveal_with_fuel(received, 2);
    assert(any_change(signals, received(signals, 0)));
    assert(!any_change(Seq::<Signal>::empty(), received(Seq::empty(), 0)));
}

/// Without any watcher the project is read again after each interval.
pub proof fn reconciliation_needs_no_watcher(state: LiveReload, now: u64)
    requires
        now >= state.next_reconciliation,
        now + RECONCILE_INTERVAL <= u64::MAX,
    ensures
        state.is_due(now),
        !state.after(now, Seq::empty()).is_due(now),
        state.after(now, Seq::empty()).is_due((now + RECONCILE_INTERVAL) as u64),
{
}

/// That the watcher is gone is told once.
pub proof fn the_end_is_told_once(state: LiveReload, now: u64, signals: Seq<Signal>)
    requires
        state.watching,
        any_end(signals, received(signals, 0)),
    ensures
        complaints(state.after(now, signals), seq![Signal::Disconnected], 1).len() == 0,
{
    assert(seq![Signal::Disconnected][0] is Disconnected);
    reveal_with_fuel(complaints, 2);
}

proof fn lemma_received(signals: Seq<Signal>, from: int, i: int)
    requires
        0 <= from <= i < signals.len(),
        forall|j: int| from <= j < i ==> !((#[trigger] signals[j]) is Disconnected),
    ensures
        received(signals, from) > i - from,
    decreases i - from,
{
    if from < i {
        assert(!(signals[from] is Disconnected));
        lemma_received(signals, from + 1, i);
    }
}

/// Something that happened to a file, other than that it was merely read, is noted at once, and so is
/// that events may have been missed. It is followed by a reload after a tenth of a second without
/// another change, and by none before.
pub proof fn file_changes_are_followed(
    state: LiveReload,
    now: u64,
    later: u64,
    signals: Seq<Signal>,
    i: int,
)
    requires
        0 <= i < signals.len(),
        signals[i] matches Signal::Event { rescan, access } && (rescan || !access),
        forall|j: int| 0 <= j < i ==> !((#[trigger] signals[j]) is Disconnected),
        now <= later,
    ensures
        state.after(now, signals).last_change == Some(now),
        !state.is_settled(now, signals),
        state.after(now, signals).is_settled(later, Seq::empty()) == (later - now >= 100),
{
    lemma_received(signals, 0, i);
    assert(is_change(signals[i]));
    assert(any_change(signals, received(signals, 0)));
    assert(!any_change(Seq::<Signal>::empty(), received(Seq::empty(), 0)));
}

/// Where no file changed, none is noted: a file that was merely read and a failure are no changes.
pub proof fn mere_reads_are_not_followed(state: LiveReload, now: u64, signals: Seq<Signal>)
    requires
        forall|i: int|
            0 <= i < signals.len() ==> !(#[trigger] signals[i] matches Signal::Event {
                rescan,
                access,
            } && (rescan || !access)),
        state.last_change is None,
    ensures
        state.after(now, signals).last_change is None,
        !state.is_settled(now, signals),
{
}

/// Every two seconds the project is read again, whatever the watcher says.
pub proof fn the_project_is_read_again(state: LiveReload, now: u64, signals: Seq<Signal>)
    requires
        now + 2000 <= u64::MAX,
    ensures
        state.is_due(now) == (now >= state.next_reconciliation),
        state.is_due(now) ==> state.after(now, signals).next_reconciliation == now + 2000,
        !state.is_due(now) ==> state.after(now, signals).next_reconciliation
            == state.next_reconciliation,
{
}

} // verus!
