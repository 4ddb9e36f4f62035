use zenith::exclusions::{is_excluded, validate_reachability};
use zenith::models::{
    Category, CleanStrategy, CleanerFamily, DiscoveryScope, ManagementMode, RiskTier,
};
use zenith::signature::Signature;

fn signature(path: &str, exclusion: &str) -> Signature {
    Signature {
        id: "test.reach".to_string(),
        name: "Reach".to_string(),
        category: Category::System,
        family: CleanerFamily::System,
        risk: RiskTier::Safe,
        strategy: CleanStrategy::DeleteContents,
        paths: vec![path.to_string()],
        exclusions: vec![exclusion.to_string()],
        description: "Caches.".to_string(),
        min_age_days: None,
        include_prefixes: vec![],
        exclude_prefixes: vec![],
        intensive_only: false,
        platforms: vec![],
        discovery: DiscoveryScope::ModeGated,
        unit: None,
        owner: String::new(),
        priority: 0,
        fail_if_running: Vec::new(),
        provider: String::new(),
        provider_id: None,
        management_mode: ManagementMode::Generic,
        consequence: String::new(),
        reclaimable_is_lower_bound: false,
    }
}

fn reachable_from(root: &str, path: &str) -> bool {
    validate_reachability(&signature(root, path)).is_ok()
}

#[test]
fn selector_reachability_obeys_components_and_alternatives() {
    let root = "${LOCAL_APP_DATA}/Packages/*/{TempState,Temp}";
    assert!(reachable_from(root, "${LOCAL_APP_DATA}/Packages/app/TempState/keep"));
    assert!(!reachable_from(root, "${LOCAL_APP_DATA}/Packages/app/LocalState/keep"));
    assert!(!reachable_from("~/cache", "~/cache-neighbor/file"));
    assert!(reachable_from("~/cache", "${USER_HOME}/cache/file"));
    assert!(reachable_from("$TMPDIR", "${TEMP}/keep"));
}

#[test]
fn filename_exclusions_are_exact_and_windows_paths_fold_case() {
    let exclusions = vec!["onboarding.json".to_string()];
    assert!(is_excluded("/cache/onboarding.json", &exclusions, false));
    assert!(!is_excluded("/cache/onboarding.json.bak", &exclusions, false));
    assert!(is_excluded("C:/cache/ONBOARDING.JSON", &exclusions, true));
    assert!(is_excluded("C:/CACHE/keep/file", &["c:/cache/keep".to_string()], true));
    assert!(!is_excluded("C:/CACHE/keep-other/file", &["c:/cache/keep".to_string()], true));
}

#[test]
fn windows_separators_are_one_and_posix_names_keep_case() {
    assert!(is_excluded("C:\\Cache\\Keep\\file", &["c:/cache/keep".to_string()], true));
    assert!(!is_excluded("/cache/ONBOARDING.JSON", &["onboarding.json".to_string()], false));
    assert!(!is_excluded("/cache/keep", &["/cache/keep/deeper".to_string()], false));
}
