//! Onboarding progress.  The list of seen tooltips is persisted as a JSON
//! array of strings inside the settings row; serde_json reads and writes
//! that text, and everything around it is verified against the parse.

use vstd::prelude::*;
use crate::clock::now_ms;
use crate::state::OnboardingState;
use crate::state::UserSettings;

verus! {

/// The list of strings that a JSON text parses to, when it parses as one.
pub uninterp spec fn json_tooltips(s: Seq<char>) -> Option<Seq<Seq<char>>>;

/// Relies on serde_json::from_str: whether and how a text parses as an
/// array of strings depends on the text alone.
#[verifier::external_body]
fn tooltips_from_json(s: &str) -> (r: Option<Vec<String>>)
    ensures
        match r {
            Some(v) => json_tooltips(s@) == Some(v@.map_values(|t: String| t@)),
            None => json_tooltips(s@) is None,
        },
{
    serde_json::from_str::<Vec<String>>(s).ok()
}

/// Relies on serde_json::to_string: a vector of strings always serializes
/// (only maps with non-string keys or failing Serialize impls can error),
/// and serde_json::from_str parses the result back to the same vector.
#[verifier::external_body]
fn tooltips_to_json(v: &Vec<String>) -> (r: String)
    ensures
        json_tooltips(r@) == Some(v@.map_values(|t: String| t@)),
{
    serde_json::to_string(v).unwrap()
}

/// The tooltip list a settings row holds: what its text parses to, or
/// nothing at all when the text is unreadable.
pub open spec fn spec_tooltips(settings: UserSettings) -> Seq<Seq<char>> {
    match json_tooltips(settings.tooltips_seen@) {
        Some(l) => l,
        None => Seq::empty(),
    }
}

/// Derives the onboarding view from the raw settings fields, against a
/// given wall-clock reading: this is the first day exactly when the
/// completion timestamp and the reading fall on the same UTC calendar day.
pub fn build_onboarding_state_at(settings: &UserSettings, now_ms: u64) -> (r: OnboardingState)
    ensures
        r.onboarding_completed == settings.onboarding_completed,
        r.onboarding_completed_at == settings.onboarding_completed_at,
        r.first_break_completed == settings.first_break_completed,
        r.tooltips_seen@.map_values(|t: String| t@) == spec_tooltips(*settings),
        r.is_first_day == match settings.onboarding_completed_at {
            Some(ts) => ts / 86400000 == now_ms / 86400000,
            None => false,
        },
{
    let tooltips_seen = match tooltips_from_json(settings.tooltips_seen.as_str()) {
        Some(v) => v,
        None => Vec::new(),
    };
    proof {
        if json_tooltips(settings.tooltips_seen@) is None {
            assert(Seq::<String>::empty().map_values(|t: String| t@) =~= Seq::<Seq<char>>::empty());
        }
    }
    let is_first_day = match settings.onboarding_completed_at {
        Some(ts_ms) => ts_ms / 86400000 == now_ms / 86400000,
        None => false,
    };
    OnboardingState {
        onboarding_completed: settings.onboarding_completed,
        onboarding_completed_at: settings.onboarding_completed_at,
        tooltips_seen,
        first_break_completed: settings.first_break_completed,
        is_first_day,
    }
}

/// The same view against the wall clock's current reading.
pub fn build_onboarding_state(settings: &UserSettings) -> (r: OnboardingState)
    ensures
        r.onboarding_completed == settings.onboarding_completed,
        r.onboarding_completed_at == settings.onboarding_completed_at,
        r.first_break_completed == settings.first_break_completed,
        r.tooltips_seen@.map_values(|t: String| t@) == spec_tooltips(*settings),
        settings.onboarding_completed_at is None ==> r.is_first_day == false,
{
    let now = now_ms();
    build_onboarding_state_at(settings, now)
}

/// Marks onboarding complete, stamping the completion with the clock.
/// Starting the timer is the caller's business.
pub fn complete_onboarding(settings: &mut UserSettings)
    ensures
        final(settings).onboarding_completed == true,
        final(settings).onboarding_completed_at is Some,
        *final(settings) == (UserSettings {
            onboarding_completed: true,
            onboarding_completed_at: final(settings).onboarding_completed_at,
            ..*old(settings)
        }),
{
    let now = now_ms();
    settings.onboarding_completed = true;
    settings.onboarding_completed_at = Some(now);
}

/// Adds a tooltip to the seen list unless it is already there, rewrites the
/// persisted text, and returns the updated list.
pub fn mark_tooltip_seen(settings: &mut UserSettings, tooltip_id: &str) -> (r: Vec<String>)
    ensures
        ({
            let old_list = spec_tooltips(*old(settings));
            let new_list = if old_list.contains(tooltip_id@) {
                old_list
            } else {
                old_list.push(tooltip_id@)
            };
            &&& r@.map_values(|t: String| t@) == new_list
            &&& json_tooltips(final(settings).tooltips_seen@) == Some(new_list)
            &&& *final(settings) == (UserSettings {
                tooltips_seen: final(settings).tooltips_seen,
                ..*old(settings)
            })
        }),
{
    let mut seen = match tooltips_from_json(settings.tooltips_seen.as_str()) {
        Some(v) => v,
        None => Vec::new(),
    };
    proof {
        if json_tooltips(settings.tooltips_seen@) is None {
            assert(Seq::<String>::empty().map_values(|t: String| t@) =~= Seq::<Seq<char>>::empty());
        }
    }
    let id = tooltip_id.to_owned();
    let mut found = false;
    let mut i: usize = 0;
    while i < seen.len()
        invariant
            0 <= i <= seen@.len(),
            id@ == tooltip_id@,
            found <==> exists|k: int| 0 <= k < i && #[trigger] seen@[k]@ == tooltip_id@,
        decreases seen@.len() - i,
    {
        if seen[i].eq(&id) {
            found = true;
        }
        i = i + 1;
    }
    proof {
        let old_list = spec_tooltips(*old(settings));
        assert(old_list == seen@.map_values(|t: String| t@));
        if found {
            let k = choose|k: int| 0 <= k < seen@.len() && #[trigger] seen@[k]@ == tooltip_id@;
            assert(old_list[k] == tooltip_id@);
        } else {
            assert forall|k: int| 0 <= k < old_list.len() implies old_list[k] != tooltip_id@ by {
                assert(old_list[k] == seen@[k]@);
            }
        }
    }
    if !found {
        seen.push(id);
        proof {
            let old_list = spec_tooltips(*old(settings));
            assert(seen@.map_values(|t: String| t@) =~= old_list.push(tooltip_id@));
        }
    }
    settings.tooltips_seen = tooltips_to_json(&seen);
    seen
}

/// Returns every onboarding field to its fresh state.
pub fn reset_onboarding(settings: &mut UserSettings)
    ensures
        final(settings).onboarding_completed == false,
        final(settings).onboarding_completed_at is None,
        final(settings).tooltips_seen@ == "[]"@,
        final(settings).first_break_completed == false,
        *final(settings) == (UserSettings {
            onboarding_completed: false,
            onboarding_completed_at: None,
            tooltips_seen: final(settings).tooltips_seen,
            first_break_completed: false,
            ..*old(settings)
        }),
{
    settings.onboarding_completed = false;
    settings.onboarding_completed_at = None;
    settings.tooltips_seen = String::from_str("[]");
    settings.first_break_completed = false;
}

} // verus!
