//! The commander catalog snapshot and the refresh scheduler.
//!
//! The catalog is published as a whole: a refresh either produces a
//! complete new name list, which replaces the previous one atomically,
//! or fails, in which case the previously published snapshot stays
//! untouched.  The scheduler is the state machine that drives the
//! refresh: once at startup when no snapshot exists yet, and from then
//! on once per fixed period, never blocking readers.

use vstd::prelude::*;

verus! {

/// Why a catalog refresh cycle was abandoned.
#[derive(Clone, Copy, Debug, PartialEq, Eq)]
pub enum FetchError {
    /// The download location or the payload could not be fetched.
    Network,
    /// The payload could not be decoded as a card dataset.
    Decode,
}

/// The currently published commander-name list, if any refresh has
/// succeeded yet.
pub struct CatalogSnapshot {
    names: Option<Vec<String>>,
}

impl CatalogSnapshot {
    /// The published list, or `None` before the first successful
    /// refresh.
    pub closed spec fn spec_current(self) -> Option<Seq<String>> {
        match self.names {
            Some(v) => Some(v@),
            None => None,
        }
    }

    /// Before any refresh nothing is published.
    pub fn new() -> (r: CatalogSnapshot)
        ensures
            r.spec_current() is None,
    {
        CatalogSnapshot { names: None }
    }

    /// Publishes the outcome of one refresh cycle: a successful refresh
    /// replaces the snapshot wholesale; a failed one leaves the
    /// previously published snapshot exactly as it was.
    pub fn publish(&mut self, refreshed: Result<Vec<String>, FetchError>) -> (r: Result<
        (),
        FetchError,
    >)
        ensures
            refreshed matches Ok(names) ==> r is Ok && final(self).spec_current() == Some(names@),
            refreshed matches Err(e) ==> r == Err::<(), FetchError>(e) && final(self).spec_current()
                == old(self).spec_current(),
    {
        match refreshed {
            Ok(names) => {
                self.names = Some(names);
                Ok(())
            },
            Err(e) => Err(e),
        }
    }

    /// Whether a snapshot has been published yet.
    pub fn has_snapshot(&self) -> (r: bool)
        ensures
            r == (self.spec_current() is Some),
    {
        self.names.is_some()
    }

    /// A copy of the published list; empty before the first refresh.
    pub fn current(&self) -> (r: Vec<String>)
        ensures
            match self.spec_current() {
                Some(names) => r@ == names,
                None => r@ =~= Seq::<String>::empty(),
            },
    {
        match &self.names {
            Some(v) => v.clone(),
            None => Vec::new(),
        }
    }
}

/// The scheduler's two phases.
#[derive(Clone, Copy, Debug)]
pub enum SchedulerPhase {
    /// Waiting for the next period to elapse.
    Idle,
    /// A refresh cycle is running.
    Refreshing,
}

/// What the scheduler reacts to.
#[derive(Clone, Copy, Debug)]
pub enum SchedulerEvent {
    /// The process started; whether a cached snapshot already exists.
    Started { has_snapshot: bool },
    /// The fixed period elapsed.
    PeriodElapsed,
    /// The running refresh cycle finished, well or badly.
    RefreshFinished,
}

/// What the surrounding runtime must do next.
#[derive(Clone, Copy, Debug)]
pub enum SchedulerAction {
    /// Run one refresh cycle now.
    Refresh,
    /// Sleep for the fixed period.
    Sleep,
}

/// One step of the refresh scheduler: on startup without a cached
/// snapshot it refreshes immediately, otherwise it sleeps; each elapsed
/// period triggers one refresh; a finished refresh returns to sleeping.
/// The cycle never ends and owns no state besides its phase.
pub fn scheduler_step(phase: SchedulerPhase, event: SchedulerEvent) -> (r: (
    SchedulerPhase,
    SchedulerAction,
))
    ensures
        (phase matches SchedulerPhase::Idle && event matches SchedulerEvent::Started {
            has_snapshot: false,
        }) ==> r == (SchedulerPhase::Refreshing, SchedulerAction::Refresh),
        (phase matches SchedulerPhase::Idle && event matches SchedulerEvent::Started {
            has_snapshot: true,
        }) ==> r == (SchedulerPhase::Idle, SchedulerAction::Sleep),
        (phase matches SchedulerPhase::Idle && event matches SchedulerEvent::PeriodElapsed) ==> r
            == (SchedulerPhase::Refreshing, SchedulerAction::Refresh),
        (phase matches SchedulerPhase::Refreshing && event
            matches SchedulerEvent::RefreshFinished) ==> r == (
            SchedulerPhase::Idle,
            SchedulerAction::Sleep,
        ),
        (phase matches SchedulerPhase::Refreshing && !(event
            matches SchedulerEvent::RefreshFinished)) ==> r == (
            SchedulerPhase::Refreshing,
            SchedulerAction::Refresh,
        ),
        (phase matches SchedulerPhase::Idle && event matches SchedulerEvent::RefreshFinished) ==> r
            == (SchedulerPhase::Idle, SchedulerAction::Sleep),
{
    match (phase, event) {
        (SchedulerPhase::Idle, SchedulerEvent::Started { has_snapshot }) => {
            if has_snapshot {
                (SchedulerPhase::Idle, SchedulerAction::Sleep)
            } else {
                (SchedulerPhase::Refreshing, SchedulerAction::Refresh)
            }
        },
        (SchedulerPhase::Idle, SchedulerEvent::PeriodElapsed) => (
            SchedulerPhase::Refreshing,
            SchedulerAction::Refresh,
        ),
        (SchedulerPhase::Idle, SchedulerEvent::RefreshFinished) => (
            SchedulerPhase::Idle,
            SchedulerAction::Sleep,
        ),
        (SchedulerPhase::Refreshing, SchedulerEvent::RefreshFinished) => (
            SchedulerPhase::Idle,
            SchedulerAction::Sleep,
        ),
        (SchedulerPhase::Refreshing, _) => (SchedulerPhase::Refreshing, SchedulerAction::Refresh),
    }
}

/// The JSON text that encodes a list of names.  Encoding a list of
/// plain strings depends on the strings alone.
pub uninterp spec fn names_json(names: Seq<Seq<char>>) -> Seq<char>;

/// The list of names that a JSON text decodes to, or `None` where the
/// text is not a JSON list of strings.  The result depends on the text
/// alone.
pub uninterp spec fn json_names(text: Seq<char>) -> Option<Seq<Seq<char>>>;

/// Relies on `serde_json::to_string`: serializing a `Vec<String>`
/// cannot fail (no map keys, no fallible `Serialize` impls are
/// involved), its output is a function of the strings alone, and
/// `serde_json::from_str` decodes that output back to the same strings.
#[verifier::external_body]
fn encode_names_raw(names: &Vec<String>) -> (r: String)
    ensures
        r@ == names_json(names@.map_values(|s: String| s@)),
        json_names(r@) == Some(names@.map_values(|s: String| s@)),
{
    serde_json::to_string(names).unwrap_or_default()
}

/// Relies on `serde_json::from_str`: decoding is a function of the
/// text alone; it returns the encoded strings where the text is a JSON
/// list of strings and fails otherwise.
#[verifier::external_body]
fn decode_names_raw(text: &str) -> (r: Option<Vec<String>>)
    ensures
        match r {
            Some(v) => json_names(text@) == Some(v@.map_values(|s: String| s@)),
            None => json_names(text@) is None,
        },
{
    match serde_json::from_str::<Vec<String>>(text) {
        Ok(v) => Some(v),
        Err(_) => None,
    }
}

/// Encodes a snapshot's name list for storage.
pub fn snapshot_to_text(names: &Vec<String>) -> (r: String)
    ensures
        r@ == names_json(names@.map_values(|s: String| s@)),
        json_names(r@) == Some(names@.map_values(|s: String| s@)),
{
    encode_names_raw(names)
}

/// Decodes a stored snapshot.
pub fn snapshot_from_text(text: &str) -> (r: Option<Vec<String>>)
    ensures
        match r {
            Some(v) => json_names(text@) == Some(v@.map_values(|s: String| s@)),
            None => json_names(text@) is None,
        },
{
    decode_names_raw(text)
}

/// Round trip: decoding what `snapshot_to_text` encoded yields exactly
/// the names that were stored — a stored snapshot survives the trip to
/// disk and back unchanged.
pub fn snapshot_round_trip(names: &Vec<String>) -> (r: Option<Vec<String>>)
    ensures
        r matches Some(v) && v@.map_values(|s: String| s@) == names@.map_values(|s: String| s@),
{
    let text = snapshot_to_text(names);
    snapshot_from_text(text.as_str())
}

} // verus!
