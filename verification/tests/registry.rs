use zenith::models::{
    Category, CleanStrategy, CleanerFamily, CleanupUnitKind, DiscoveryScope, EligibilityGate, ManagementMode,
    PlatformKind, RiskTier,
};
use zenith::registry::SignatureRegistry;
use zenith::signature::Signature;

fn base(id: &str) -> Signature {
    Signature {
        id: id.to_string(),
        name: id.to_string(),
        category: Category::System,
        family: CleanerFamily::System,
        risk: RiskTier::Safe,
        strategy: CleanStrategy::DeleteDirectory,
        paths: vec!["/tmp/example".to_string()],
        exclusions: vec![],
        description: String::new(),
        min_age_days: None,
        include_prefixes: vec![],
        exclude_prefixes: vec![],
        intensive_only: false,
        platforms: vec![],
        discovery: DiscoveryScope::ModeGated,
        unit: None,
        owner: String::new(),
        priority: 0,
        fail_if_running: Vec::new(),
        provider: String::new(),
        provider_id: None,
        management_mode: ManagementMode::Generic,
        consequence: String::new(),
        reclaimable_is_lower_bound: false,
    }
}

fn test_signature(id: &str, paths: Vec<&str>, platforms: Vec<PlatformKind>) -> Signature {
    let mut signature = base(id);
    signature.paths = paths.into_iter().map(str::to_string).collect();
    signature.platforms = platforms;
    signature
}

#[test]
fn a_contradictory_signature_is_refused() {
    let mut child_without_age = base("test.invalid.child");
    child_without_age.unit = Some(CleanupUnitKind::ChildNamespace);
    assert!(child_without_age.validate().is_err());

    let mut named_without_age = base("test.invalid.named");
    named_without_age.unit = Some(CleanupUnitKind::NamedSubtree);
    assert!(named_without_age.validate().is_err());

    let mut fixed_with_age = base("test.invalid.fixed");
    fixed_with_age.min_age_days = Some(7);
    fixed_with_age.unit = Some(CleanupUnitKind::FixedPath);
    assert!(fixed_with_age.validate().is_err());

    let mut derived = base("test.valid.derived");
    derived.min_age_days = Some(7);
    assert!(derived.validate().is_ok());
    assert_eq!(derived.unit_kind(), CleanupUnitKind::ChildNamespace);

    let mut provider_paths = base("test.invalid.provider");
    provider_paths.strategy = CleanStrategy::ExternalCommand;
    provider_paths.unit = Some(CleanupUnitKind::ProviderAction);
    provider_paths.paths = vec!["/tmp/example".to_string()];
    assert!(provider_paths.validate().is_err());

    let mut path_guard = base("test.invalid.guard");
    path_guard.fail_if_running = vec!["/usr/bin/cargo".to_string()];
    assert!(path_guard.validate().is_err());

    let mut empty_guard = base("test.invalid.empty-guard");
    empty_guard.fail_if_running = vec!["   ".to_string()];
    assert!(empty_guard.validate().is_err());

    let mut child = base("test.valid.child");
    child.min_age_days = Some(7);
    assert!(child.validate().is_ok());
    assert_eq!(child.unit_kind(), CleanupUnitKind::ChildNamespace);

    let mut provider = base("test.valid.provider");
    provider.strategy = CleanStrategy::ExternalCommand;
    provider.paths = vec![];
    provider.provider = "example".to_string();
    assert!(provider.validate().is_ok());
    assert_eq!(provider.unit_kind(), CleanupUnitKind::ProviderAction);
    assert!(provider.ownership().is_known());
}

#[test]
fn discovery_and_eligibility_are_decided_separately_and_in_order() {
    let mut registry = SignatureRegistry::new();
    let mut broad = test_signature("test.scope.broad", vec!["/tmp/cache"], vec![PlatformKind::Macos, PlatformKind::Windows]);
    broad.intensive_only = true;
    broad.priority = 1;
    let mut specific =
        test_signature("test.scope.specific", vec!["/tmp/cache"], vec![PlatformKind::Macos, PlatformKind::Windows]);
    specific.intensive_only = true;
    specific.priority = 9;
    let mut always =
        test_signature("test.scope.always", vec!["/tmp/cache"], vec![PlatformKind::Macos, PlatformKind::Windows]);
    always.intensive_only = true;
    always.discovery = DiscoveryScope::Always;
    let always_gate = always.eligibility_gate(false);
    registry.register(broad);
    registry.register(specific);
    registry.register(always);

    let standard = registry.by_category_for_mode(Category::System, false, PlatformKind::Macos);
    let ids: Vec<&str> = standard.iter().map(|s| s.id.as_str()).collect();
    assert_eq!(ids, vec!["test.scope.always"], "a mode-gated signature is not discovered, an always-on one is");
    assert_eq!(
        always_gate,
        EligibilityGate::IntensiveCleanupDisabled,
        "the discovered unit reports why it is out of scope"
    );

    let intensive = registry.by_category_for_mode(Category::System, true, PlatformKind::Macos);
    let ids: Vec<&str> = intensive.iter().map(|s| s.id.as_str()).collect();
    assert_eq!(
        ids,
        vec!["test.scope.specific", "test.scope.broad", "test.scope.always"],
        "most specific first, then by id"
    );
    for signature in &intensive {
        assert_eq!(signature.eligibility_gate(true), EligibilityGate::Open);
    }
}

#[test]
fn a_signature_is_offered_only_on_its_platforms() {
    let mut registry = SignatureRegistry::new();
    registry.register(test_signature("test.mac", vec!["/tmp/a"], vec![PlatformKind::Macos]));
    registry.register(test_signature("test.everywhere", vec!["/tmp/b"], vec![]));
    let ids: Vec<String> = registry
        .by_category_for_mode(Category::System, true, PlatformKind::Windows)
        .iter()
        .map(|s| s.id.clone())
        .collect();
    assert_eq!(ids, vec!["test.everywhere".to_string()]);
}

#[test]
fn registering_an_id_again_replaces_the_entry() {
    let mut registry = SignatureRegistry::new();
    registry.register(base("test.same"));
    let mut replacement = base("test.same");
    replacement.name = "Replaced".to_string();
    registry.register(replacement);
    assert_eq!(registry.len(), 1);
    assert_eq!(registry.get("test.same").unwrap().name, "Replaced");
    assert!(registry.get("test.other").is_none());
}

#[test]
fn family_and_risk_listings_select_their_entries() {
    let mut registry = SignatureRegistry::new();
    let mut dev = base("test.z.dev");
    dev.family = CleanerFamily::Developer;
    dev.risk = RiskTier::Rebuild;
    registry.register(dev);
    let mut dev2 = base("test.a.dev");
    dev2.family = CleanerFamily::Developer;
    registry.register(dev2);
    registry.register(base("test.sys"));
    let family: Vec<&str> = registry.by_family(CleanerFamily::Developer).iter().map(|s| s.id.as_str()).collect();
    assert_eq!(family, vec!["test.a.dev", "test.z.dev"]);
    assert_eq!(registry.by_risk(RiskTier::Rebuild).len(), 1);
    assert_eq!(registry.by_category(Category::System).len(), 3);
    assert_eq!(registry.all().len(), 3);
}

#[test]
fn signature_catalog_failure_falls_back_to_an_empty_registry() {
    let (registry, failure) = SignatureRegistry::load_or_default(|| Err("stated catalog defect".to_string()));

    // Fail closed: a catalog that could not be loaded must not leave the
    // process scanning and cleaning from signatures nobody verified.
    assert!(registry.all().is_empty());
    let failure = failure.expect("the failure is reported, not only logged");
    assert!(failure.contains("stated catalog defect"), "{failure}");
    assert_eq!(failure, "Signature catalog could not be loaded: stated catalog defect");

    // A successful load is passed through untouched, so the fallback is not
    // a second implementation of the loader.
    let (loaded, failure) = SignatureRegistry::load_or_default(|| {
        SignatureRegistry::load_embedded_with(vec![test_signature("system.test.shared", vec!["~/.cache/test"], vec![])])
    });
    assert!(!loaded.all().is_empty());
    assert_eq!(failure, None);
}

#[test]
fn registering_counts_a_new_id_once() {
    let mut registry = SignatureRegistry::new();
    registry.register(base("a"));
    registry.register(base("b"));
    assert_eq!(registry.len(), 2);
    let mut replacement = base("a");
    replacement.name = "replacement".to_string();
    registry.register(replacement);
    assert_eq!(registry.len(), 2, "a known id replaces its entry");
    assert_eq!(registry.get("a").map(|s| s.name.clone()), Some("replacement".to_string()));
    registry.register(base("c"));
    assert_eq!(registry.len(), 3, "a new id adds one entry");
}
