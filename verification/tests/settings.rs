use zenith::models::Category;
use std::cell::RefCell;
use zenith::settings::{save_settings, DesktopNotifications, SettingsAuthority, SettingsChange, SettingsChangeReaction, ZenithSettings};
use zenith::settings_store::{
    backups_to_prune, count_corrupted_backups, has_corrupted_backup, list_corrupted_backups, parse_backup_timestamp,
    settings_path, BackupCandidate, MAX_CORRUPT_BACKUPS,
};

#[test]
fn edit_returns_the_published_snapshot() {
    let mut authority = SettingsAuthority::new(ZenithSettings::default());

    let edited = authority
        .edit(|mut settings| {
            settings.clean_developer_tools = false;
            settings
        })
        .expect("authority is healthy");

    assert!(!edited.clean_developer_tools);
    assert!(
        !authority.snapshot().expect("authority is healthy").clean_developer_tools,
        "the edit must be visible to the next reader"
    );
}

#[test]
fn replace_publishes_the_persisted_snapshot() {
    let mut authority = SettingsAuthority::new(ZenithSettings::default());
    let next = ZenithSettings { intensive_cleanup: true, ..ZenithSettings::default() };

    authority.replace(next).expect("authority is healthy");

    assert!(authority.snapshot().expect("authority is healthy").intensive_cleanup);
}

#[test]
fn every_category_is_cleaned_by_default() {
    let settings = ZenithSettings::default();
    for category in [Category::Ai, Category::Developer, Category::Container, Category::System] {
        assert!(settings.is_category_clean_enabled(category));
    }
    let off = ZenithSettings { clean_containers: false, ..ZenithSettings::default() };
    assert!(!off.is_category_clean_enabled(Category::Container));
}

#[test]
fn a_save_reports_what_it_changed() {
    let previous = ZenithSettings::default();
    let mut next = ZenithSettings::default();
    assert_eq!(
        SettingsChange::between(&previous, &next),
        SettingsChange { provider_selection_changed: false, inactivity_threshold_changed: false }
    );
    next.ai_accounts_quota_providers = vec!["cursor".to_string()];
    next.agent_notifications.inactivity_threshold_minutes += 5;
    assert_eq!(
        SettingsChange::between(&previous, &next),
        SettingsChange { provider_selection_changed: true, inactivity_threshold_changed: true }
    );
}

#[test]
fn the_settings_file_lives_in_the_configuration_directory() {
    assert_eq!(settings_path("/config"), "/config/settings.json");
    assert_eq!(settings_path("/config/"), "/config/settings.json");
    assert_eq!(settings_path(""), "settings.json");
}

#[test]
fn backup_names_carry_their_timestamp() {
    assert_eq!(parse_backup_timestamp("settings.corrupt.1000.json"), Some(1000));
    assert_eq!(parse_backup_timestamp("settings.corrupt.+7.json"), Some(7));
    assert_eq!(parse_backup_timestamp("settings.corrupt.notjson.txt"), None);
    assert_eq!(parse_backup_timestamp("settings.corrupt..json"), None);
    assert_eq!(parse_backup_timestamp("settings.corrupt.12a.json"), None);
    assert_eq!(parse_backup_timestamp("settings.corrupt.json"), None);
    assert_eq!(
        parse_backup_timestamp("settings.corrupt.340282366920938463463374607431768211455.json"),
        Some(u128::MAX)
    );
    assert_eq!(parse_backup_timestamp("settings.corrupt.340282366920938463463374607431768211456.json"), None);
}

fn file(name: &str) -> BackupCandidate {
    BackupCandidate { name: name.to_string(), is_file: true, modified: None }
}

#[test]
fn corrupt_backups_cap_at_max_and_prune_oldest() {
    let mut entries: Vec<BackupCandidate> = (1000..1008).rev().map(|i| file(&format!("settings.corrupt.{i}.json"))).collect();
    entries.push(file("settings.json"));
    assert_eq!(count_corrupted_backups(&entries), 8);
    let backups = list_corrupted_backups(entries);
    let pruned = backups_to_prune(&backups, MAX_CORRUPT_BACKUPS);
    assert_eq!(
        pruned,
        vec![
            "settings.corrupt.1000.json".to_string(),
            "settings.corrupt.1001.json".to_string(),
            "settings.corrupt.1002.json".to_string()
        ]
    );
}

#[test]
fn prune_preserves_unrelated_files() {
    let mut entries = vec![
        file("settings.json"),
        file("settings.json.tmp"),
        file("settings.corrupt.notjson.txt"),
        file("unrelated.log"),
        file("notes.md"),
    ];
    entries.push(BackupCandidate { name: "settings.corrupt.50.json".to_string(), is_file: false, modified: None });
    for i in 100..107 {
        entries.push(file(&format!("settings.corrupt.{i}.json")));
    }
    assert_eq!(count_corrupted_backups(&entries), 7);
    assert!(has_corrupted_backup(&entries));
    let backups = list_corrupted_backups(entries);
    assert_eq!(backups.len(), 7, "lookalike directories are never backups");
    let pruned = backups_to_prune(&backups, 3);
    assert_eq!(pruned.len(), 4);
    assert!(pruned.iter().all(|name| name.starts_with("settings.corrupt.10")));
    assert!(backups_to_prune(&backups, 10).is_empty());
    assert!(!has_corrupted_backup(&[file("settings.json")]));
}

#[test]
fn backup_timestamps_parse_as_unsigned_integers_do() {
    for middle in ["0", "+0", "42", "+", "", "-1", "007", " 1", "1 ", "99999999999999999999999999999999999999999"] {
        let name = format!("settings.corrupt.{middle}.json");
        assert_eq!(parse_backup_timestamp(&name), middle.parse::<u128>().ok(), "{middle}");
    }
}

/// Records the order a save reports to the other bounded services.
#[derive(Default)]
struct RecordingReaction {
    calls: RefCell<Vec<&'static str>>,
    refuse: bool,
}

impl SettingsChangeReaction for RecordingReaction {
    fn refuses(&self, _next: ZenithSettings) -> bool {
        self.refuse
    }

    fn before_save<N: DesktopNotifications>(&self, _next: &ZenithSettings, _notifications: &N) -> Result<(), String> {
        self.calls.borrow_mut().push("before_save");
        if self.refuse {
            return Err("notification permission was refused".to_string());
        }
        Ok(())
    }

    fn saved(&self, _change: &SettingsChange) {
        self.calls.borrow_mut().push("saved");
    }
}

struct TestNotifications {
    grant: bool,
}

impl DesktopNotifications for TestNotifications {
    fn request_permission(&self) -> Result<(), String> {
        if self.grant {
            Ok(())
        } else {
            Err("notification permission was refused".to_string())
        }
    }
}

fn settings_with_notifications_enabled() -> ZenithSettings {
    let mut settings = ZenithSettings::default();
    settings.agent_notifications.enabled = true;
    settings
}

/// A save that cannot arrange its side effects must not publish: the file
/// and the shared snapshot stay on the previous preferences, and no service
/// is told a change happened.
#[test]
fn a_refused_settings_save_publishes_nothing() {
    let mut authority = SettingsAuthority::new(ZenithSettings::default());
    let reaction = RecordingReaction { refuse: true, ..RecordingReaction::default() };
    let persisted = RefCell::new(false);
    let refused = save_settings(
        &mut authority,
        settings_with_notifications_enabled(),
        &reaction,
        &TestNotifications { grant: false },
        |_: &ZenithSettings| {
            *persisted.borrow_mut() = true;
            Ok(())
        },
    );
    assert!(refused.is_err(), "the refusal must reach the caller");
    assert!(!*persisted.borrow(), "a refused save must not leave a settings file behind");
    assert!(
        !authority.snapshot().expect("authority is healthy").agent_notifications.enabled,
        "a refused save must not publish the snapshot"
    );
    assert_eq!(reaction.calls.borrow().as_slice(), ["before_save"], "a refused save must not report completion");
}

/// The accepted path persists, publishes, and then reports the change, in
/// that order.
#[test]
fn an_accepted_settings_save_publishes_then_reports() {
    let mut authority = SettingsAuthority::new(ZenithSettings::default());
    let reaction = RecordingReaction::default();
    let persisted = RefCell::new(false);
    save_settings(
        &mut authority,
        settings_with_notifications_enabled(),
        &reaction,
        &TestNotifications { grant: true },
        |_: &ZenithSettings| {
            *persisted.borrow_mut() = true;
            Ok(())
        },
    )
    .expect("the save succeeds");
    assert!(*persisted.borrow(), "an accepted save persists the snapshot");
    assert!(
        authority.snapshot().expect("authority is healthy").agent_notifications.enabled,
        "an accepted save publishes the snapshot"
    );
    assert_eq!(reaction.calls.borrow().as_slice(), ["before_save", "saved"], "the reaction is told after the snapshot is published");
}
