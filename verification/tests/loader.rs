use zenith::loader::{
    platform_findings, undeclared_platforms,
    inferred_platforms, is_dynamic_pattern, platform_token, prepare_signatures, symbolic, SignatureLoader,
};
use zenith::models::{Category, CleanStrategy, CleanerFamily, DiscoveryScope, ManagementMode, PlatformKind, RiskTier};
use zenith::registry::SignatureRegistry;
use zenith::signature::Signature;

fn entry(id: &str, paths: &[&str], exclusions: &[&str]) -> Signature {
    Signature {
        id: id.to_string(),
        name: "Normalized".to_string(),
        category: Category::System,
        family: CleanerFamily::System,
        risk: RiskTier::Safe,
        strategy: CleanStrategy::DeleteDirectory,
        paths: paths.iter().map(|p| p.to_string()).collect(),
        exclusions: exclusions.iter().map(|p| p.to_string()).collect(),
        description: String::new(),
        min_age_days: None,
        include_prefixes: vec![],
        exclude_prefixes: vec![],
        intensive_only: false,
        platforms: vec![],
        discovery: DiscoveryScope::ModeGated,
        unit: None,
        owner: String::new(),
        priority: 0,
        fail_if_running: Vec::new(),
        provider: String::new(),
        provider_id: None,
        management_mode: ManagementMode::Generic,
        consequence: String::new(),
        reclaimable_is_lower_bound: false,
    }
}

#[test]
fn a_windows_variable_spelling_is_normalized() {
    assert_eq!(SignatureLoader::normalize_pattern("%LOCALAPPDATA%\\Temp"), "${LOCAL_APP_DATA}\\Temp");
    assert_eq!(SignatureLoader::normalize_pattern("%TMP%"), "${TEMP}");
    assert_eq!(SignatureLoader::normalize_pattern("%SystemRoot%\\Temp"), "${SYSTEM_ROOT}\\Temp");
    assert_eq!(SignatureLoader::normalize_pattern("%USERPROFILE%\\AppData\\Roaming"), "${USER_HOME}\\AppData\\Roaming");
    assert_eq!(SignatureLoader::normalize_pattern("%APPDATA%\\tool\\settings.json"), "${ROAMING_APP_DATA}\\tool\\settings.json");
    assert_eq!(SignatureLoader::normalize_pattern("%ProgramFiles(x86)%\\tool"), "%ProgramFiles(x86)%\\tool");
    assert_eq!(SignatureLoader::normalize_pattern("100%%TEMP%"), "100%%TEMP%", "a pair that is not a known variable is skipped whole");
    assert_eq!(SignatureLoader::normalize_pattern("%X%%TEMP%"), "%X%${TEMP}");
    assert_eq!(SignatureLoader::normalize_pattern("/plain/path"), "/plain/path");
}

#[test]
fn an_unknown_variable_fails_the_manifest() {
    let parsed = vec![
        entry("test.normalized", &["%LOCALAPPDATA%\\Temp", "%TMP%", "%APPDATA%\\tool"], &["%APPDATA%\\tool\\settings.json"]),
        entry("   ", &["%UNKNOWN%"], &[]),
    ];
    let prepared = prepare_signatures(parsed).expect("the manifest loads");
    assert_eq!(prepared.len(), 1, "an entry without an id names nothing");
    assert_eq!(
        prepared[0].paths,
        vec!["${LOCAL_APP_DATA}\\Temp".to_string(), "${TEMP}".to_string(), "${ROAMING_APP_DATA}\\tool".to_string()]
    );
    assert_eq!(prepared[0].exclusions, vec!["${ROAMING_APP_DATA}\\tool\\settings.json".to_string()]);

    let refused = vec![entry("test.unknown", &["%PROGRAMFILES(X86)%\\tool"], &[])];
    assert!(prepare_signatures(refused).is_err());
}

#[test]
fn a_catalog_loads_every_named_entry_once() {
    let parsed = vec![entry("test.a", &["/tmp/a"], &[]), entry("test.b", &["%TEMP%"], &[]), entry("test.a", &["/tmp/c"], &[])];
    let registry = SignatureRegistry::load_embedded_catalog(parsed).expect("catalog");
    assert_eq!(registry.len(), 2);
    assert_eq!(registry.get("test.a").unwrap().paths, vec!["/tmp/c".to_string()]);
    assert_eq!(registry.get("test.b").unwrap().paths, vec!["${TEMP}".to_string()]);
    let broken = vec![entry("test.a", &["/tmp/a"], &[]), entry("test.bad", &["%NOPE%"], &[])];
    assert!(SignatureRegistry::load_embedded_catalog(broken).is_err());
}

#[test]
fn platform_specific_roots_are_recognized() {
    assert_eq!(SignatureRegistry::is_platform_specific_path("  ~/Library/Caches"), Some(PlatformKind::Macos));
    assert_eq!(SignatureRegistry::is_platform_specific_path("${LOCAL_APP_DATA}/x"), Some(PlatformKind::Windows));
    assert_eq!(SignatureRegistry::is_platform_specific_path("C:\\Windows"), Some(PlatformKind::Windows));
    assert_eq!(SignatureRegistry::is_platform_specific_path("%APPDATA%\\x"), Some(PlatformKind::Windows));
    assert_eq!(SignatureRegistry::is_platform_specific_path("~/.cache/tool"), None);
    let paths = vec!["~/Library/x".to_string(), "~/.cache".to_string(), "/Library/y".to_string()];
    assert_eq!(inferred_platforms(&paths), vec![PlatformKind::Macos]);
    let both = vec!["${PROGRAM_DATA}/x".to_string(), "/System/y".to_string()];
    assert_eq!(inferred_platforms(&both), vec![PlatformKind::Macos, PlatformKind::Windows]);
    assert_eq!(platform_token(PlatformKind::Windows), "windows");
}

#[test]
fn dynamic_patterns_are_placeholders() {
    assert!(is_dynamic_pattern("~/x"));
    assert!(is_dynamic_pattern("${TEMP}/x"));
    assert!(is_dynamic_pattern("a%b"));
    assert!(!is_dynamic_pattern("/tmp/x"));
}

#[test]
fn symbols_keep_placeholders_portable() {
    assert_eq!(symbolic("~/cache"), "/__zenith_placeholder/USER_HOME/cache");
    assert_eq!(symbolic("~"), "/__zenith_placeholder/USER_HOME");
    assert_eq!(symbolic("$TMPDIR/x"), "/__zenith_placeholder/TEMP/x");
    assert_eq!(symbolic("%LOCALAPPDATA%\\Packages\\x"), "/__zenith_placeholder/LOCAL_APP_DATA/Packages/x");
    assert_eq!(symbolic("/usr/local"), "/usr/local");
}

#[test]
fn an_undeclared_platform_root_is_a_finding() {
    let mac_only = vec!["~/Library/Caches/x".to_string()];
    assert_eq!(undeclared_platforms(&mac_only, &[]), vec![PlatformKind::Macos]);
    assert!(undeclared_platforms(&mac_only, &[PlatformKind::Macos]).is_empty());
    let mixed = vec!["~/Library/x".to_string(), "${LOCAL_APP_DATA}/x".to_string()];
    assert!(undeclared_platforms(&mixed, &[]).is_empty(), "an entry naming two platforms is offered where they apply");
    assert_eq!(undeclared_platforms(&mixed, &[PlatformKind::Windows]), vec![PlatformKind::Macos]);

    let mut signature = entry("test.mac", &["~/Library/Caches/x"], &[]);
    signature.platforms = vec![];
    let findings = platform_findings(&signature);
    assert_eq!(findings.len(), 1);
    assert_eq!(findings[0].signature_id, "test.mac");
    assert_eq!(findings[0].platform.as_deref(), Some("macos"));
    assert_eq!(findings[0].message, "resolves under a macos-specific root but does not declare `platforms`");
}

#[test]
fn platform_patterns_are_trimmed_as_text_is() {
    for space in ["\t", "\n", "\u{0B}", "\u{0C}", "\r", " ", "\u{85}", "\u{A0}", "\u{1680}", "\u{2000}", "\u{200A}", "\u{2028}", "\u{2029}", "\u{202F}", "\u{205F}", "\u{3000}"] {
        let pattern = format!("{space}~/Library/x{space}");
        assert_eq!(pattern.trim(), "~/Library/x");
        assert_eq!(SignatureRegistry::is_platform_specific_path(&pattern), Some(PlatformKind::Macos), "{space:?}");
    }
    let zero_width = "\u{200B}~/Library/x";
    assert_eq!(zero_width.trim(), zero_width);
    assert_eq!(SignatureRegistry::is_platform_specific_path(zero_width), None);
}

/// A manifest written the way Windows documents paths resolves, and a
/// spelling this build does not know fails the load instead of quietly
/// matching nothing.
#[test]
fn a_windows_variable_spelling_is_normalized_or_refused() {
    let paths = [
        "%LOCALAPPDATA%\\Temp",
        "%TMP%",
        "%SystemRoot%\\Temp",
        "%USERPROFILE%\\AppData\\Roaming",
        "%APPDATA%\\tool",
    ];
    let exclusions = ["%APPDATA%\\tool\\settings.json"];
    let signatures = prepare_signatures(vec![entry("test.normalized", &paths, &exclusions)]).expect("the manifest loads");
    let signature = &signatures[0];
    assert_eq!(signature.paths[0], "${LOCAL_APP_DATA}\\Temp");
    assert_eq!(signature.paths[1], "${TEMP}");
    assert_eq!(signature.paths[2], "${SYSTEM_ROOT}\\Temp");
    assert_eq!(signature.paths[3], "${USER_HOME}\\AppData\\Roaming");
    assert_eq!(signature.exclusions[0], "${ROAMING_APP_DATA}\\tool\\settings.json");

    // An unknown variable is refused rather than left to resolve to nothing.
    let unknown: Vec<String> = paths.iter().map(|p| p.replace("%LOCALAPPDATA%", "%SOMEWHERE_ELSE%")).collect();
    let unknown: Vec<&str> = unknown.iter().map(String::as_str).collect();
    let error = prepare_signatures(vec![entry("test.normalized", &unknown, &exclusions)])
        .err()
        .expect("an unknown variable is refused");
    assert!(error.contains("environment spelling"), "the refusal names the problem: {error}");

    // `%PROGRAMFILES(X86)%` is a different directory on a 64-bit machine, so
    // it is refused instead of being mapped onto the 64-bit root.
    let x86: Vec<String> = paths.iter().map(|p| p.replace("%LOCALAPPDATA%", "%PROGRAMFILES(X86)%")).collect();
    let x86: Vec<&str> = x86.iter().map(String::as_str).collect();
    let error = prepare_signatures(vec![entry("test.normalized", &x86, &exclusions)])
        .err()
        .expect("the x86 root is not the 64-bit one");
    assert!(error.contains("environment spelling"), "the refusal names the problem: {error}");
}

#[test]
fn catalog_requires_an_explicit_strategy_and_reachable_exclusions() {
    // The strategy is a required field of a manifest entry: a manifest
    // without it fails to parse before it reaches the loader.
    let valid = || entry("test.exclusions", &["~/.cache/tool"], &["~/.cache/tool/keep.bin"]);
    assert_eq!(prepare_signatures(vec![valid()]).ok().map(|v| v.len()), Some(1));

    let mut unreachable = valid();
    unreachable.exclusions = vec!["~/.cache/sibling/keep.bin".to_string()];
    let error = prepare_signatures(vec![unreachable]).err().expect("an unreachable exclusion is refused");
    assert!(error.contains("unreachable exclusion"), "{error}");
    assert_eq!(error, "Signature `test.exclusions` has unreachable exclusion `~/.cache/sibling/keep.bin`");

    let mut relative = valid();
    relative.exclusions = vec!["relative/keep.bin".to_string()];
    let error = prepare_signatures(vec![relative]).err().expect("a relative exclusion is refused");
    assert!(error.contains("bare entry name"), "{error}");
    assert_eq!(
        error,
        "Signature `test.exclusions` exclusion `relative/keep.bin` must be a bare entry name or rooted path"
    );

    let mut selector = valid();
    selector.paths = vec!["~/.cache/*/{Cache,Temp}".to_string()];
    selector.exclusions = vec!["~/.cache/editor/Cache/keep.bin".to_string()];
    assert_eq!(prepare_signatures(vec![selector]).ok().map(|v| v.len()), Some(1));
}

#[test]
fn exclusion_reachability_obeys_components_alternatives_and_case() {
    // A bare entry name is matched by name and needs no root.
    assert!(prepare_signatures(vec![entry("t.bare", &["~/.cache/tool"], &["settings.json"])]).is_ok());
    // A neighbor that shares a prefix is not below the root.
    assert!(prepare_signatures(vec![entry("t.neighbor", &["~/cache"], &["~/cache-neighbor/file"])]).is_err());
    // An alternative the group does not name is not reached.
    assert!(prepare_signatures(vec![entry(
        "t.alt",
        &["${LOCAL_APP_DATA}/Packages/*/{TempState,Temp}"],
        &["${LOCAL_APP_DATA}/Packages/app/LocalState/keep"]
    )])
    .is_err());
    assert!(prepare_signatures(vec![entry(
        "t.alt",
        &["${LOCAL_APP_DATA}/Packages/*/{TempState,Temp}"],
        &["${LOCAL_APP_DATA}/Packages/app/TempState/keep"]
    )])
    .is_ok());
    // A drive-absolute root is compared as Windows compares names.
    assert!(prepare_signatures(vec![entry("t.win", &[r"C:\Cache"], &[r"c:\cache\keep"])]).is_ok());
    assert!(prepare_signatures(vec![entry("t.posix", &["/srv/Cache"], &["/srv/cache/keep"])]).is_err());
    // An exclusion on another drive is outside the scope.
    assert!(prepare_signatures(vec![entry("t.drive", &[r"C:\Cache"], &[r"D:\Cache\keep"])]).is_err());
}

#[test]
fn unknown_spellings_are_kept_as_written() {
    assert_eq!(SignatureLoader::normalize_pattern("%SOMEWHERE_ELSE%"), "%SOMEWHERE_ELSE%");
    assert_eq!(SignatureLoader::normalize_pattern(r"%PROGRAMFILES(X86)%\x"), r"%PROGRAMFILES(X86)%\x");
    let once = SignatureLoader::normalize_pattern(r"%tmp%\a\%LocalAppData%");
    assert_eq!(once, r"${TEMP}\a\${LOCAL_APP_DATA}");
    assert_eq!(SignatureLoader::normalize_pattern(&once), once);
}

#[test]
fn normalizing_a_normalized_pattern_changes_nothing() {
    for pattern in [
        "%LocalAppData%\\Temp",
        "%TMP%TEMP%X%",
        "%X%TEMP%",
        "%%TMP%TEMP%",
        "%SOMEWHERE_ELSE%",
        r"%PROGRAMFILES(X86)%\x",
        "~/Library/Caches",
    ] {
        let once = SignatureLoader::normalize_pattern(pattern);
        assert_eq!(SignatureLoader::normalize_pattern(&once), once, "{pattern}");
    }
    assert_eq!(SignatureLoader::normalize_pattern("%X%TEMP%"), "%X%TEMP%");
    assert_eq!(SignatureLoader::normalize_pattern("%SOMEWHERE_ELSE%"), "%SOMEWHERE_ELSE%");
}

#[test]
fn a_contradicting_entry_is_refused_with_the_rule_it_breaks() {
    let mut aged_fixed = entry("test.fixed", &["/tmp/cache"], &[]);
    aged_fixed.unit = Some(zenith::models::CleanupUnitKind::FixedPath);
    aged_fixed.min_age_days = Some(7);
    assert_eq!(
        prepare_signatures(vec![aged_fixed]).err(),
        Some("An age policy ages children, not the fixed path itself".to_string())
    );
    let unknown = entry("test.unknown", &["%SOMEWHERE_ELSE%\\cache"], &[]);
    assert_eq!(
        prepare_signatures(vec![unknown]).err(),
        Some("A path uses an unsupported environment spelling".to_string())
    );
    let mut guard = entry("test.guard", &["/tmp/cache"], &[]);
    guard.fail_if_running = vec!["/usr/bin/tool".to_string()];
    assert_eq!(
        prepare_signatures(vec![guard]).err(),
        Some("A process guard names an executable, never a path".to_string())
    );
}
