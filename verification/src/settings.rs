//! The preferences every service reads, the authority that holds the
//! process's current snapshot, and what a saved snapshot changed.
//!
//! The authority only holds what the process currently believes; persisting
//! a snapshot stays with the caller that owns the surrounding use case.
use vstd::prelude::*;
use crate::models::Category;
use crate::text::equal_text;

verus! {

/// Preferences for agent-activity notifications.
#[derive(Debug, Clone, Copy, PartialEq, Eq, Structural)]
pub struct AgentNotificationPreferences {
    pub enabled: bool,
    /// How long an agent may stay silent before it is reported as possibly
    /// inactive.
    pub inactivity_threshold_minutes: u32,
}

/// The user's preferences.
pub struct ZenithSettings {
    /// Whether cleanups act on AI tool caches.
    pub clean_ai_tools: bool,
    /// Whether cleanups act on developer tool caches.
    pub clean_developer_tools: bool,
    /// Whether cleanups act on container storage.
    pub clean_containers: bool,
    /// Whether cleanups act on system caches.
    pub clean_system: bool,
    /// Whether mode-gated entries are in scope.
    pub intensive_cleanup: bool,
    /// The AI providers whose account quotas are shown.
    pub ai_accounts_quota_providers: Vec<String>,
    pub agent_notifications: AgentNotificationPreferences,
}

/// The default inactivity threshold, in minutes.
pub const DEFAULT_INACTIVITY_THRESHOLD_MINUTES: u32 = 30;

impl Default for ZenithSettings {
    fn default() -> (r: Self)
        ensures
            r.clean_ai_tools,
            r.clean_developer_tools,
            r.clean_containers,
            r.clean_system,
            !r.intensive_cleanup,
            r.ai_accounts_quota_providers@.len() == 0,
            !r.agent_notifications.enabled,
            r.agent_notifications.inactivity_threshold_minutes == DEFAULT_INACTIVITY_THRESHOLD_MINUTES,
    {
        ZenithSettings {
            clean_ai_tools: true,
            clean_developer_tools: true,
            clean_containers: true,
            clean_system: true,
            intensive_cleanup: false,
            ai_accounts_quota_providers: Vec::new(),
            agent_notifications: AgentNotificationPreferences {
                enabled: false,
                inactivity_threshold_minutes: DEFAULT_INACTIVITY_THRESHOLD_MINUTES,
            },
        }
    }
}

/// A copy of a list of strings.
fn clone_strings(values: &Vec<String>) -> (r: Vec<String>)
    ensures
        r@.len() == values@.len(),
        forall|i: int| 0 <= i < r@.len() ==> (#[trigger] r@[i])@ == values@[i]@,
{
    let mut out: Vec<String> = Vec::new();
    let mut i: usize = 0;
    while i < values.len()
        invariant
            i <= values@.len(),
            out@.len() == i,
            forall|j: int| 0 <= j < i ==> (#[trigger] out@[j])@ == values@[j]@,
        decreases values@.len() - i,
    {
        out.push(values[i].clone());
        i = i + 1;
    }
    out
}

/// Two lists hold the same strings in the same order.
pub open spec fn same_strings(a: Seq<String>, b: Seq<String>) -> bool {
    a.len() == b.len() && forall|i: int| 0 <= i < a.len() ==> (#[trigger] a[i])@ == b[i]@
}

/// Two snapshots state the same preferences.
pub open spec fn same_settings(a: ZenithSettings, b: ZenithSettings) -> bool {
    &&& a.clean_ai_tools == b.clean_ai_tools
    &&& a.clean_developer_tools == b.clean_developer_tools
    &&& a.clean_containers == b.clean_containers
    &&& a.clean_system == b.clean_system
    &&& a.intensive_cleanup == b.intensive_cleanup
    &&& same_strings(a.ai_accounts_quota_providers@, b.ai_accounts_quota_providers@)
    &&& a.agent_notifications == b.agent_notifications
}

impl ZenithSettings {
    /// A copy of the snapshot.
    pub fn copy(&self) -> (r: Self)
        ensures
            same_settings(r, *self),
    {
        ZenithSettings {
            clean_ai_tools: self.clean_ai_tools,
            clean_developer_tools: self.clean_developer_tools,
            clean_containers: self.clean_containers,
            clean_system: self.clean_system,
            intensive_cleanup: self.intensive_cleanup,
            ai_accounts_quota_providers: clone_strings(&self.ai_accounts_quota_providers),
            agent_notifications: self.agent_notifications,
        }
    }

    /// Whether cleanups act on a category.
    pub open spec fn spec_category_enabled(&self, category: Category) -> bool {
        match category {
            Category::Ai => self.clean_ai_tools,
            Category::Developer => self.clean_developer_tools,
            Category::Container => self.clean_containers,
            Category::System => self.clean_system,
        }
    }

    /// Whether cleanups act on a category.
    pub fn is_category_clean_enabled(&self, category: Category) -> (r: bool)
        ensures
            r == self.spec_category_enabled(category),
    {
        match category {
            Category::Ai => self.clean_ai_tools,
            Category::Developer => self.clean_developer_tools,
            Category::Container => self.clean_containers,
            Category::System => self.clean_system,
        }
    }
}

/// The process-wide settings snapshot.
///
/// An edit that does not return — its closure panicked part-way — leaves the
/// authority poisoned: from then on it fails closed and answers nothing, since
/// what the process believes can no longer be vouched for.
pub struct SettingsAuthority {
    settings: ZenithSettings,
    poisoned: bool,
}

/// The refusal of a poisoned authority.
pub open spec fn settings_unavailable() -> Seq<char> {
    "Settings state is unavailable due to an unexpected previous error"@
}

fn unavailable() -> (r: String)
    ensures
        r@ == settings_unavailable(),
{
    proof {
        reveal_strlit("Settings state is unavailable due to an unexpected previous error");
    }
    String::from_str("Settings state is unavailable due to an unexpected previous error")
}

impl SettingsAuthority {
    /// What the process currently believes.
    pub closed spec fn current(&self) -> ZenithSettings {
        self.settings
    }

    /// Whether an interrupted edit left the authority unable to answer.
    pub closed spec fn is_poisoned(&self) -> bool {
        self.poisoned
    }

    /// An authority holding `initial`.
    pub fn new(initial: ZenithSettings) -> (r: Self)
        ensures
            r.current() == initial,
            !r.is_poisoned(),
    {
        SettingsAuthority { settings: initial, poisoned: false }
    }

    /// A copy of the current preferences; a poisoned authority refuses.
    pub fn snapshot(&self) -> (r: Result<ZenithSettings, String>)
        ensures
            r is Ok <==> !self.is_poisoned(),
            r matches Ok(s) ==> same_settings(s, self.current()),
            r matches Err(m) ==> m@ == settings_unavailable(),
    {
        if self.poisoned {
            return Err(unavailable());
        }
        Ok(self.settings.copy())
    }

    /// Replaces the snapshot after the caller persisted it; a poisoned
    /// authority refuses and keeps what it had.
    pub fn replace(&mut self, next: ZenithSettings) -> (r: Result<(), String>)
        ensures
            r is Ok <==> !old(self).is_poisoned(),
            final(self).is_poisoned() == old(self).is_poisoned(),
            r is Ok ==> final(self).current() == next,
            r matches Err(m) ==> m@ == settings_unavailable() && final(self).current() == old(self).current(),
    {
        if self.poisoned {
            return Err(unavailable());
        }
        self.settings = next;
        Ok(())
    }

    /// Applies an edit to the snapshot and returns a copy of the result. The
    /// caller owns persistence: an edit that is not saved is only the
    /// process's belief. A poisoned authority refuses; an edit whose closure
    /// does not return leaves the authority poisoned.
    pub fn edit<F: FnOnce(ZenithSettings) -> ZenithSettings>(&mut self, edit: F) -> (r: Result<
        ZenithSettings,
        String,
    >)
        requires
            forall|s: ZenithSettings| edit.requires((s,)),
        ensures
            r is Ok <==> !old(self).is_poisoned(),
            final(self).is_poisoned() == old(self).is_poisoned(),
            r is Ok ==> exists|before: ZenithSettings|
                same_settings(before, old(self).current()) && edit.ensures((before,), final(self).current()),
            r matches Ok(s) ==> same_settings(s, final(self).current()),
            r matches Err(m) ==> m@ == settings_unavailable() && final(self).current() == old(self).current(),
    {
        if self.poisoned {
            return Err(unavailable());
        }
        let before = self.settings.copy();
        let ghost witness = before;
        self.poisoned = true;
        let next = edit(before);
        proof {
            assert(same_settings(witness, old(self).current()) && edit.ensures((witness,), next));
        }
        self.settings = next;
        self.poisoned = false;
        Ok(self.settings.copy())
    }
}

/// What a saved snapshot changed, for the services that cache derived data.
#[derive(Debug, Clone, Copy, PartialEq, Eq, Structural)]
pub struct SettingsChange {
    /// The AI quota-provider selection changed.
    pub provider_selection_changed: bool,
    /// The inactivity threshold changed.
    pub inactivity_threshold_changed: bool,
}

fn same_string_list(a: &Vec<String>, b: &Vec<String>) -> (r: bool)
    ensures
        r == same_strings(a@, b@),
{
    if a.len() != b.len() {
        return false;
    }
    let mut i: usize = 0;
    while i < a.len()
        invariant
            a@.len() == b@.len(),
            i <= a@.len(),
            forall|j: int| 0 <= j < i ==> (#[trigger] a@[j])@ == b@[j]@,
        decreases a@.len() - i,
    {
        if !equal_text(a[i].as_str(), b[i].as_str()) {
            return false;
        }
        i = i + 1;
    }
    true
}

impl SettingsChange {
    /// What replacing `previous` by `next` changed.
    pub fn between(previous: &ZenithSettings, next: &ZenithSettings) -> (r: Self)
        ensures
            r.provider_selection_changed == !same_strings(
                previous.ai_accounts_quota_providers@,
                next.ai_accounts_quota_providers@,
            ),
            r.inactivity_threshold_changed == (previous.agent_notifications.inactivity_threshold_minutes
                != next.agent_notifications.inactivity_threshold_minutes),
    {
        SettingsChange {
            provider_selection_changed: !same_string_list(
                &previous.ai_accounts_quota_providers,
                &next.ai_accounts_quota_providers,
            ),
            inactivity_threshold_changed: previous.agent_notifications.inactivity_threshold_minutes
                != next.agent_notifications.inactivity_threshold_minutes,
        }
    }
}

/// The desktop-notification service a settings save may need.
pub trait DesktopNotifications {
    /// Asks for the notification permission while the system is undecided.
    fn request_permission(&self) -> Result<(), String>;
}

/// The reaction a settings save triggers in other services.
pub trait SettingsChangeReaction {
    /// The reaction refuses to let `next` be saved, whatever else happens.
    spec fn refuses(&self, next: ZenithSettings) -> bool;

    /// Runs before the snapshot is persisted or published, so a refusal
    /// leaves both the file and the shared snapshot untouched.
    fn before_save<N: DesktopNotifications>(&self, next: &ZenithSettings, notifications: &N) -> (r: Result<
        (),
        String,
    >)
        ensures
            self.refuses(*next) ==> r is Err,
    ;

    /// Runs after the snapshot is persisted and published.
    fn saved(&self, change: &SettingsChange);
}


/// Saves a settings snapshot. The reaction runs first and may refuse, which
/// leaves the file and the shared snapshot untouched; then `persist` writes
/// `next` to the file, and a refusal there leaves the snapshot untouched; then the
/// authority publishes the snapshot, and the reaction learns what changed
/// against the snapshot it replaced.
pub fn save_settings<R: SettingsChangeReaction, N: DesktopNotifications, P: FnOnce(&ZenithSettings) -> Result<
    (),
    String,
>>(
    authority: &mut SettingsAuthority,
    next: ZenithSettings,
    reaction: &R,
    notifications: &N,
    persist: P,
) -> (r: Result<SettingsChange, String>)
    requires
        forall|s: &ZenithSettings| persist.requires((s,)),
    ensures
        final(authority).is_poisoned() == old(authority).is_poisoned(),
        r is Ok ==> final(authority).current() == next && !old(authority).is_poisoned(),
        r matches Ok(change) ==> change.provider_selection_changed == !same_strings(
            old(authority).current().ai_accounts_quota_providers@,
            next.ai_accounts_quota_providers@,
        ) && change.inactivity_threshold_changed == (old(authority).current().agent_notifications.inactivity_threshold_minutes
            != next.agent_notifications.inactivity_threshold_minutes),
        r is Err ==> final(authority).current() == old(authority).current(),
        old(authority).is_poisoned() ==> r is Err,
        reaction.refuses(next) ==> r is Err,
        r is Ok ==> persist.ensures((&next,), Ok::<(), String>(())),
{
    let ghost current = authority.current();
    reaction.before_save(&next, notifications)?;
    let previous = authority.snapshot()?;
    persist(&next)?;
    let change = SettingsChange::between(&previous, &next);
    proof {
        let p = previous.ai_accounts_quota_providers@;
        let c = current.ai_accounts_quota_providers@;
        let n = next.ai_accounts_quota_providers@;
        assert(same_strings(p, n) == same_strings(c, n)) by {
            if same_strings(p, n) {
                assert forall|i: int| 0 <= i < c.len() implies (#[trigger] c[i])@ == n[i]@ by {
                    assert(p[i]@ == c[i]@);
                }
            }
            if same_strings(c, n) {
                assert forall|i: int| 0 <= i < p.len() implies (#[trigger] p[i])@ == n[i]@ by {
                    assert(p[i]@ == c[i]@);
                }
            }
        }
    }
    authority.replace(next)?;
    reaction.saved(&change);
    Ok(change)
}

} // verus!
