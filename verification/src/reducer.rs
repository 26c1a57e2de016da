//! The state-transition function: commands in, new state plus a list of
//! declarative effects out. The engine performs no I/O itself; a driver
//! carries the effects out and feeds completed work back as new actions.

use vstd::prelude::*;

use crate::codec::ser_state;
use crate::parser::{parse, parse_spec};
use crate::state::{merge_spec, toggle_spec, State, StateView};
use crate::Millis;

verus! {

/// How long the driver waits between automatic reloads.
pub const AUTO_RELOAD_MILLIS: i64 = 1000 * 60 * 5;

/// A user gesture or a completed piece of outside work.
#[derive(Clone, Debug, PartialEq)]
pub enum Action {
    /// Nothing to do.
    Empty,
    /// The add-feed input field was edited.
    UpdateNewFeedUrl(String),
    /// The pending input was submitted as a new subscription.
    AddFeed,
    /// Permission was granted; the URL should be fetched.
    Fetch(String),
    /// A fetch finished: the source URL and the raw document.
    Fetched(String, String),
    /// Re-fetch every subscribed feed.
    Reload,
    /// The periodic reload timer fired.
    AutoReload,
    /// A subscription was deleted.
    RemoveFeed(String),
    /// A feed's visibility checkbox was clicked.
    ToggleFeedVisible(String),
    /// The user asked for a backup of the state.
    Export,
    /// The user chose a backup file to restore.
    StartImport,
    /// A backup was decoded; it replaces the state wholesale.
    Import(State),
}

/// Work for outside collaborators, described rather than performed.
#[derive(Clone, Debug, PartialEq)]
pub enum Effect {
    /// Ask leave to fetch the URL; a grant comes back as [`Action::Fetch`].
    RequestPermission(String),
    /// Drop the leave that was granted for the URL.
    RemovePermission(String),
    /// Issue the HTTP GET; the text comes back as [`Action::Fetched`].
    FetchUrl(String),
    /// Run [`Action::Reload`] after this many milliseconds.
    ScheduleReload(i64),
    /// Run [`Action::AutoReload`] after this many milliseconds.
    ScheduleAutoReload(i64),
    /// Offer the encoded snapshot to the user as a download.
    ExportBytes(Vec<u8>),
    /// Read the chosen backup file; it comes back as [`Action::Import`].
    ReadImportFile,
    /// Store a snapshot of the new state durably.
    Persist,
    /// Tell the user this source's document matched neither dialect.
    SurfaceParseFailure(String),
}

/// The action's payload is a valid state where it carries one.
pub open spec fn action_wf(action: Action) -> bool {
    match action {
        Action::Import(s) => s.wf(),
        _ => true,
    }
}

/// The state each action leads to. A fetched document that parses is
/// merged; one that does not leaves the state exactly as it was.
pub open spec fn apply_state_spec(s: StateView, action: Action, now: Millis) -> StateView {
    match action {
        Action::Empty => s,
        Action::UpdateNewFeedUrl(url) => StateView { new_feed_url: url@, feed_map: s.feed_map },
        Action::AddFeed => StateView { new_feed_url: Seq::<char>::empty(), feed_map: s.feed_map },
        Action::Fetch(_) => StateView {
            new_feed_url: Seq::<char>::empty(),
            feed_map: s.feed_map,
        },
        Action::Fetched(url, body) => match parse_spec(body@) {
            Ok(p) => merge_spec(s, url@, p, now),
            Err(_) => s,
        },
        Action::Reload => s,
        Action::AutoReload => s,
        Action::RemoveFeed(url) => StateView {
            new_feed_url: s.new_feed_url,
            feed_map: s.feed_map.remove(url@),
        },
        Action::ToggleFeedVisible(url) => toggle_spec(s, url@),
        Action::Export => s,
        Action::StartImport => s,
        Action::Import(s2) => s2@,
    }
}

pub open spec fn is_persist(e: Effect) -> bool {
    e is Persist
}

pub open spec fn is_request_permission(e: Effect, url: Seq<char>) -> bool {
    match e {
        Effect::RequestPermission(u) => u@ == url,
        _ => false,
    }
}

pub open spec fn is_remove_permission(e: Effect, url: Seq<char>) -> bool {
    match e {
        Effect::RemovePermission(u) => u@ == url,
        _ => false,
    }
}

pub open spec fn is_fetch_url(e: Effect, url: Seq<char>) -> bool {
    match e {
        Effect::FetchUrl(u) => u@ == url,
        _ => false,
    }
}

pub open spec fn is_schedule_reload(e: Effect, ms: i64) -> bool {
    match e {
        Effect::ScheduleReload(m) => m == ms,
        _ => false,
    }
}

pub open spec fn is_schedule_auto_reload(e: Effect, ms: i64) -> bool {
    match e {
        Effect::ScheduleAutoReload(m) => m == ms,
        _ => false,
    }
}

pub open spec fn is_export_bytes(e: Effect, bytes: Seq<u8>) -> bool {
    match e {
        Effect::ExportBytes(b) => b@ == bytes,
        _ => false,
    }
}

pub open spec fn is_surface_parse_failure(e: Effect, url: Seq<char>) -> bool {
    match e {
        Effect::SurfaceParseFailure(u) => u@ == url,
        _ => false,
    }
}

/// The effects each action emits, against the state the action found.
/// A snapshot is persisted exactly when the action changed the state;
/// a successful merge always persists, since it stamps the feed with
/// the merge's clock reading.
pub open spec fn apply_effects_spec(st: State, action: Action, effects: Seq<Effect>) -> bool {
    match action {
        Action::Empty => effects.len() == 0,
        Action::UpdateNewFeedUrl(url) => if url@ != st@.new_feed_url {
            effects.len() == 1 && is_persist(effects[0])
        } else {
            effects.len() == 0
        },
        Action::AddFeed => {
            &&& effects.len() >= 1
            &&& is_request_permission(effects[0], st@.new_feed_url)
            &&& if st@.new_feed_url.len() > 0 {
                effects.len() == 2 && is_persist(effects[1])
            } else {
                effects.len() == 1
            }
        },
        Action::Fetch(url) => {
            &&& effects.len() >= 1
            &&& is_fetch_url(effects[0], url@)
            &&& if st@.new_feed_url.len() > 0 {
                effects.len() == 2 && is_persist(effects[1])
            } else {
                effects.len() == 1
            }
        },
        Action::Fetched(url, body) => match parse_spec(body@) {
            Ok(_) => effects.len() == 1 && is_persist(effects[0]),
            Err(_) => effects.len() == 1 && is_surface_parse_failure(effects[0], url@),
        },
        Action::Reload => {
            &&& effects.len() == st.feed_map.entries@.len()
            &&& forall|i: int|
                0 <= i < effects.len() ==> is_fetch_url(
                    #[trigger] effects[i],
                    st.feed_map.entries@[i].1.url@,
                )
        },
        Action::AutoReload => {
            &&& effects.len() == 2
            &&& is_schedule_auto_reload(effects[0], AUTO_RELOAD_MILLIS)
            &&& is_schedule_reload(effects[1], 0)
        },
        Action::RemoveFeed(url) => {
            &&& effects.len() >= 1
            &&& is_remove_permission(effects[0], url@)
            &&& if st@.feed_map.contains_key(url@) {
                effects.len() == 2 && is_persist(effects[1])
            } else {
                effects.len() == 1
            }
        },
        Action::ToggleFeedVisible(url) => if st@.feed_map.contains_key(url@) {
            effects.len() == 1 && is_persist(effects[0])
        } else {
            effects.len() == 0
        },
        Action::Export => effects.len() == 1 && is_export_bytes(
            effects[0],
            ser_state(st.rep()),
        ),
        Action::StartImport => effects.len() == 1 && (effects[0] is ReadImportFile),
        Action::Import(_) => effects.len() == 1 && is_persist(effects[0]),
    }
}

/// The whole engine in one step: applies an action to the state and
/// describes the outside work it calls for. Pure: the only clock it
/// knows is the reading its caller hands it.
#[verifier::loop_isolation(false)]
pub fn apply(state: State, action: Action, now: Millis) -> (r: (State, Vec<Effect>))
    requires
        state.wf(),
        action_wf(action),
    ensures
        r.0.wf(),
        r.0@ == apply_state_spec(state@, action, now),
        apply_effects_spec(state, action, r.1@),
{
    let mut st = state;
    let mut effects: Vec<Effect> = Vec::new();
    match action {
        Action::Empty => {}
        Action::UpdateNewFeedUrl(url) => {
            let changed = !(url == st.new_feed_url);
            st.set_new_feed_url(url);
            if changed {
                effects.push(Effect::Persist);
            }
        }
        Action::AddFeed => {
            let changed = !st.new_feed_url.as_str().is_empty();
            let url = st.add_feed();
            effects.push(Effect::RequestPermission(url));
            if changed {
                effects.push(Effect::Persist);
            }
        }
        Action::Fetch(url) => {
            let changed = !st.new_feed_url.as_str().is_empty();
            st.set_new_feed_url(String::new());
            effects.push(Effect::FetchUrl(url));
            if changed {
                effects.push(Effect::Persist);
            }
        }
        Action::Fetched(url, body) => {
            match parse(body.as_str()) {
                Ok(parsed) => {
                    st.merge(&url, &parsed, now);
                    effects.push(Effect::Persist);
                }
                Err(_) => {
                    effects.push(Effect::SurfaceParseFailure(url));
                }
            }
        }
        Action::Reload => {
            let n = st.feed_map.len();
            let mut i: usize = 0;
            while i < n
                invariant
                    i <= n,
                    n == st.feed_map.entries@.len(),
                    effects@.len() == i,
                    forall|j: int|
                        0 <= j < i ==> is_fetch_url(
                            #[trigger] effects@[j],
                            st.feed_map.entries@[j].1.url@,
                        ),
                decreases n - i,
            {
                let f = st.feed_map.val_at(i);
                effects.push(Effect::FetchUrl(f.url.clone()));
                i = i + 1;
            }
        }
        Action::AutoReload => {
            effects.push(Effect::ScheduleAutoReload(AUTO_RELOAD_MILLIS));
            effects.push(Effect::ScheduleReload(0));
        }
        Action::RemoveFeed(url) => {
            let had = st.feed_map.contains_key(&url);
            st.remove_feed(&url);
            effects.push(Effect::RemovePermission(url));
            if had {
                effects.push(Effect::Persist);
            }
        }
        Action::ToggleFeedVisible(url) => {
            let had = st.feed_map.contains_key(&url);
            st.toggle_visible(&url);
            if had {
                effects.push(Effect::Persist);
            }
        }
        Action::Export => {
            let bytes = st.serialize();
            effects.push(Effect::ExportBytes(bytes));
        }
        Action::StartImport => {
            effects.push(Effect::ReadImportFile);
        }
        Action::Import(s2) => {
            st = s2;
            effects.push(Effect::Persist);
        }
    }
    (st, effects)
}

} // verus!
