//! Watch mode's decisions: which file-system events concern the canonical
//! file, and when a burst of them has settled long enough (the debounce
//! window) for a re-synchronization.
//!
//! The caller owns the watcher, the clock and the loop: it asks `next` what
//! to do, waits at most the time it is told for an event, reports each event
//! with `on_event`, and performs a synchronization when told to.
use vstd::prelude::*;
use crate::text::{push_str, string_of, str_eq};

verus! {

/// The debounce window, in milliseconds.
pub const DEBOUNCE_MS: u64 = 250;

/// How long to wait for an event when none is pending, in milliseconds.
pub const IDLE_WAIT_MS: u64 = 3_600_000;

/// What the watch loop does next.
#[derive(PartialEq, Eq, Structural, Clone, Copy, Debug)]
pub enum WatchAction {
    /// Re-synchronize now.
    Sync,
    /// Wait for an event at most this many milliseconds.
    Wait(u64),
}

/// The debounce state: when the last relevant event arrived, if one is
/// still pending (milliseconds on the caller's monotonic clock).
pub struct Debouncer {
    pub last_event: Option<u64>,
}

/// The milliseconds between `then` and `now`, zero when the clock reads
/// earlier.
pub open spec fn elapsed(then: u64, now: u64) -> nat {
    if now >= then { (now - then) as nat } else { 0 }
}

/// The action for the state and the time, and the state after it: a pending
/// event whose window has passed fires a synchronization and is cleared; one
/// still inside the window waits out the rest; with none pending the loop
/// waits the idle time.
pub open spec fn decide(last_event: Option<u64>, now: u64) -> (WatchAction, Option<u64>) {
    match last_event {
        Some(t) => if elapsed(t, now) >= DEBOUNCE_MS {
            (WatchAction::Sync, None)
        } else {
            (WatchAction::Wait((DEBOUNCE_MS - elapsed(t, now)) as u64), Some(t))
        },
        None => (WatchAction::Wait(IDLE_WAIT_MS), None),
    }
}

impl Debouncer {
    /// No event pending.
    pub fn new() -> (r: Self)
        ensures
            r.last_event is None,
    {
        Debouncer { last_event: None }
    }

    /// What to do at time `now`.
    pub fn next(&mut self, now: u64) -> (r: WatchAction)
        ensures
            (r, final(self).last_event) == decide(old(self).last_event, now),
    {
        match self.last_event {
            Some(t) => {
                let e: u64 = if now >= t { now - t } else { 0 };
                if e >= DEBOUNCE_MS {
                    self.last_event = None;
                    WatchAction::Sync
                } else {
                    WatchAction::Wait(DEBOUNCE_MS - e)
                }
            },
            None => WatchAction::Wait(IDLE_WAIT_MS),
        }
    }

    /// An event arrived at time `now`; `relevant` says whether it concerns
    /// the canonical file. A relevant event (re)starts the window.
    pub fn on_event(&mut self, relevant: bool, now: u64)
        ensures
            final(self).last_event == if relevant { Some(now) } else { old(self).last_event },
    {
        if relevant {
            self.last_event = Some(now);
        }
    }
}

/// The debounce window: after a relevant event at time `t` the loop only
/// waits until `t + 250 ms` (restarted by each further relevant event), and
/// the first look at or after that time fires exactly one synchronization.
pub proof fn law_debounce_window(t: u64, now: u64)
    ensures
        now >= t && now - t < DEBOUNCE_MS ==> decide(Some(t), now) == (WatchAction::Wait((DEBOUNCE_MS - (now - t)) as u64), Some(t)),
        now >= t + DEBOUNCE_MS ==> decide(Some(t), now) == (WatchAction::Sync, None::<u64>),
        decide(None, now) == (WatchAction::Wait(IDLE_WAIT_MS), None::<u64>),
{
}

/// One thing the watch loop does: look at the clock (`Poll`), or receive
/// an event (`Event`, whether it concerns the canonical file, and when).
pub enum WatchStep {
    Poll(u64),
    Event(bool, u64),
}

/// The number of synchronizations a sequence of steps fires from the state
/// `last`, and the state after them: each `Poll` goes by `decide`, each
/// relevant `Event` restarts the window.
pub open spec fn run_steps(last: Option<u64>, steps: Seq<WatchStep>) -> (nat, Option<u64>)
    decreases steps.len(),
{
    if steps.len() == 0 {
        (0, last)
    } else {
        let (fired, next) = match steps[0] {
            WatchStep::Poll(now) => {
                let (a, l) = decide(last, now);
                (a == WatchAction::Sync, l)
            },
            WatchStep::Event(relevant, now) => (false, if relevant { Some(now) } else { last }),
        };
        let (n, fin) = run_steps(next, steps.drop_first());
        ((n + if fired { 1nat } else { 0nat }) as nat, fin)
    }
}

/// The number of events in the steps that concern the canonical file.
pub open spec fn relevant_events(steps: Seq<WatchStep>) -> nat
    decreases steps.len(),
{
    if steps.len() == 0 {
        0
    } else {
        (relevant_events(steps.drop_first()) + match steps[0] {
            WatchStep::Event(true, _) => 1nat,
            _ => 0nat,
        }) as nat
    }
}

/// Over any run of the watch loop, synchronizations never outnumber the
/// relevant events (plus one for an event already pending at the start):
/// events about other files fire none, and the loop ends with an event
/// pending only if one arrived or was pending.
pub proof fn law_debounce_syncs_bounded_by_events(last: Option<u64>, steps: Seq<WatchStep>)
    ensures
        run_steps(last, steps).0 <= relevant_events(steps) + if last is Some { 1nat } else { 0nat },
        run_steps(last, steps).1 is Some ==> relevant_events(steps) > 0 || last is Some,
    decreases steps.len(),
{
    if steps.len() > 0 {
        match steps[0] {
            WatchStep::Poll(now) => {
                law_debounce_syncs_bounded_by_events(decide(last, now).1, steps.drop_first());
            },
            WatchStep::Event(relevant, now) => {
                law_debounce_syncs_bounded_by_events(if relevant { Some(now) } else { last }, steps.drop_first());
            },
        }
    }
}

/// The state after a step that is not a look at the clock: a relevant event
/// becomes the pending one.
pub open spec fn after_event(last: Option<u64>, step: WatchStep) -> Option<u64> {
    match step {
        WatchStep::Event(true, now) => Some(now),
        _ => last,
    }
}

/// The pending event after the steps if none of their looks at the clock
/// fires: the latest relevant event, else the one pending at the start.
pub open spec fn settled(last: Option<u64>, steps: Seq<WatchStep>) -> Option<u64>
    decreases steps.len(),
{
    if steps.len() == 0 {
        last
    } else {
        settled(after_event(last, steps[0]), steps.drop_first())
    }
}

/// Whether the steps form one burst: every look at the clock comes less
/// than the debounce window after the event pending at that moment (or
/// while none is pending).
pub open spec fn quiet_polls(last: Option<u64>, steps: Seq<WatchStep>) -> bool
    decreases steps.len(),
{
    if steps.len() == 0 {
        true
    } else {
        &&& match (steps[0], last) {
            (WatchStep::Poll(now), Some(t)) => elapsed(t, now) < DEBOUNCE_MS,
            _ => true,
        }
        &&& quiet_polls(after_event(last, steps[0]), steps.drop_first())
    }
}

proof fn lemma_run_steps_push(last: Option<u64>, steps: Seq<WatchStep>, step: WatchStep)
    ensures
        run_steps(last, steps.push(step)).0 == run_steps(last, steps).0 + run_steps(run_steps(last, steps).1, seq![step]).0,
        run_steps(last, steps.push(step)).1 == run_steps(run_steps(last, steps).1, seq![step]).1,
    decreases steps.len(),
{
    if steps.len() == 0 {
        assert(steps.push(step) =~= seq![step]);
    } else {
        assert(steps.push(step).drop_first() =~= steps.drop_first().push(step));
        let next = match steps[0] {
            WatchStep::Poll(now) => decide(last, now).1,
            WatchStep::Event(relevant, now) => if relevant { Some(now) } else { last },
        };
        lemma_run_steps_push(next, steps.drop_first(), step);
    }
}

proof fn lemma_quiet_run(last: Option<u64>, steps: Seq<WatchStep>)
    requires
        quiet_polls(last, steps),
    ensures
        run_steps(last, steps) == (0nat, settled(last, steps)),
    decreases steps.len(),
{
    if steps.len() > 0 {
        lemma_quiet_run(after_event(last, steps[0]), steps.drop_first());
    }
}

/// A burst of events fires one synchronization: while every look at the
/// clock comes inside the window of the event then pending, nothing fires
/// and the latest relevant event stays pending; the first look a full window
/// after it then fires exactly one synchronization and clears it.
pub proof fn law_debounce_one_sync_per_burst(last: Option<u64>, burst: Seq<WatchStep>, now: u64)
    ensures
        quiet_polls(last, burst) ==> run_steps(last, burst) == (0nat, settled(last, burst)),
        quiet_polls(last, burst) && settled(last, burst) is Some
            && elapsed(settled(last, burst).unwrap(), now) >= DEBOUNCE_MS
            ==> run_steps(last, burst.push(WatchStep::Poll(now))) == (1nat, None::<u64>),
{
    if quiet_polls(last, burst) {
        lemma_quiet_run(last, burst);
        lemma_run_steps_push(last, burst, WatchStep::Poll(now));
        let one = seq![WatchStep::Poll(now)];
        assert(one.drop_first() =~= Seq::<WatchStep>::empty());
        assert(run_steps(None, one.drop_first()) == (0nat, None::<u64>));
    }
}

/// Whether an event concerns the canonical file: one of its paths has that
/// file name (each path given by its file name, `None` when it has none).
pub open spec fn concerns(names: Seq<Option<Seq<char>>>, file_name: Seq<char>) -> bool {
    exists|j: int| 0 <= j < names.len() && names[j] == Some(file_name)
}

/// The view of a list of optional file names.
pub open spec fn names_view(v: Seq<Option<String>>) -> Seq<Option<Seq<char>>> {
    v.map_values(|n: Option<String>| crate::config::opt_str(n))
}

/// Whether an event with paths of these file names concerns `file_name`.
pub fn affects_canonical(names: &Vec<Option<String>>, file_name: &str) -> (r: bool)
    ensures
        r == concerns(names_view(names@), file_name@),
{
    let ghost nv = names_view(names@);
    let mut i: usize = 0;
    while i < names.len()
        invariant
            i <= names@.len(),
            nv == names_view(names@),
            forall|j: int| 0 <= j < i ==> nv[j] != Some(file_name@),
        decreases names@.len() - i,
    {
        match &names[i] {
            Some(n) => {
                if str_eq(n.as_str(), file_name) {
                    assert(nv[i as int] == Some(file_name@));
                    return true;
                }
            },
            None => {},
        }
        i = i + 1;
    }
    false
}

/// `Path::parent` of the path text, as text (lossily for non-UTF-8 parts).
/// Nothing is promised of the result: path syntax is the platform's.
#[verifier::external_body]
fn path_parent(path: &str) -> Option<String> {
    std::path::Path::new(path).parent().map(|p| p.to_string_lossy().into_owned())
}

/// `Path::file_name` of the path text, as text (lossily for non-UTF-8
/// parts). Nothing is promised of the result: path syntax is the platform's.
#[verifier::external_body]
fn path_file_name(path: &str) -> Option<String> {
    std::path::Path::new(path).file_name().map(|n| n.to_string_lossy().into_owned())
}

/// The error when the watched file has no parent directory.
pub open spec fn no_parent_message(path: Seq<char>) -> Seq<char> {
    "Cannot determine parent directory of "@ + path
}

/// The error when the watched path has no file name.
pub open spec fn no_file_name_message(path: Seq<char>) -> Seq<char> {
    "Invalid file path "@ + path
}

/// The directory to watch and the file name to look for, from the path's
/// parent and file name as the platform reads them: an error when either is
/// missing (the parent first).
pub fn watch_parts(path: &str, parent: Option<String>, name: Option<String>) -> (r: Result<(String, String), String>)
    ensures
        match (parent, name) {
            (None, _) => r matches Err(e) && e@ == no_parent_message(path@),
            (Some(_), None) => r matches Err(e) && e@ == no_file_name_message(path@),
            (Some(d), Some(n)) => r matches Ok(p) && p.0@ == d@ && p.1@ == n@,
        },
{
    proof {
        reveal_strlit("Cannot determine parent directory of ");
        reveal_strlit("Invalid file path ");
    }
    match parent {
        None => {
            let mut m: Vec<char> = Vec::new();
            push_str(&mut m, "Cannot determine parent directory of ");
            push_str(&mut m, path);
            assert(m@ =~= no_parent_message(path@));
            Err(string_of(m.as_slice()))
        },
        Some(d) => match name {
            None => {
                let mut m: Vec<char> = Vec::new();
                push_str(&mut m, "Invalid file path ");
                push_str(&mut m, path);
                assert(m@ =~= no_file_name_message(path@));
                Err(string_of(m.as_slice()))
            },
            Some(n) => Ok((d, n)),
        },
    }
}

/// The directory to watch and the canonical file name, for a path text.
pub fn watch_target(path: &str) -> (r: Result<(String, String), String>)
    ensures
        r matches Err(e) ==> e@ == no_parent_message(path@) || e@ == no_file_name_message(path@),
{
    watch_parts(path, path_parent(path), path_file_name(path))
}

/// The line logged when watching starts.
pub open spec fn watching_message(path: Seq<char>) -> Seq<char> {
    "Watching "@ + path + " for changes (debounce: 250ms)... Press Ctrl+C to stop."@
}

/// The line logged when watching starts on `path`.
pub fn watching_line(path: &str) -> (r: String)
    ensures
        r@ == watching_message(path@),
{
    proof {
        reveal_strlit("Watching ");
        reveal_strlit(" for changes (debounce: 250ms)... Press Ctrl+C to stop.");
    }
    let mut out: Vec<char> = Vec::new();
    push_str(&mut out, "Watching ");
    push_str(&mut out, path);
    push_str(&mut out, " for changes (debounce: 250ms)... Press Ctrl+C to stop.");
    assert(out@ =~= watching_message(path@));
    string_of(out.as_slice())
}

} // verus!
