use zenith::lint::{audit_signature, audit_signature_platforms, Protection, ResolvedPattern, SelectorShape};
use zenith::loader::ManifestLintFinding;
use zenith::models::{Category, CleanStrategy, CleanerFamily, DiscoveryScope, ManagementMode, PlatformKind, RiskTier};
use zenith::registry::SignatureRegistry;
use zenith::signature::Signature;

fn test_signature(id: &str, paths: Vec<&str>, platforms: Vec<PlatformKind>) -> Signature {
    Signature {
        id: id.to_string(),
        name: id.to_string(),
        category: Category::System,
        family: CleanerFamily::System,
        risk: RiskTier::Safe,
        strategy: CleanStrategy::DeleteDirectory,
        paths: paths.into_iter().map(str::to_string).collect(),
        exclusions: vec![],
        description: String::new(),
        min_age_days: None,
        include_prefixes: vec![],
        exclude_prefixes: vec![],
        intensive_only: false,
        platforms,
        discovery: DiscoveryScope::ModeGated,
        unit: None,
        owner: String::new(),
        priority: 0,
        fail_if_running: Vec::new(),
        provider: String::new(),
        provider_id: None,
        management_mode: ManagementMode::Generic,
        consequence: String::new(),
        reclaimable_is_lower_bound: false,
    }
}

/// A pattern the environment resolved to an absolute literal path that
/// nothing protects.
fn plain() -> Option<ResolvedPattern> {
    Some(ResolvedPattern { selector: SelectorShape::Literal, absolute: true, protection: Protection::Unprotected })
}

fn resolved_all(signature: &Signature) -> Vec<Option<ResolvedPattern>> {
    signature.paths.iter().map(|_| plain()).collect()
}

fn no_reach(signature: &Signature) -> Vec<Option<Vec<bool>>> {
    signature.exclusions.iter().map(|_| None).collect()
}

/// The report of one entry on a stated POSIX machine where every pattern
/// resolves plainly.
fn audit_one(signature: Signature) -> Vec<ManifestLintFinding> {
    let resolutions = resolved_all(&signature);
    let reach = no_reach(&signature);
    audit_signature_platforms(vec![audit_signature(&signature, false, &resolutions, &reach, &[], &[])])
}

#[test]
fn a_signature_resolving_to_platform_specific_root_must_declare_platforms() {
    let findings = audit_one(test_signature(
        "system.test.mac_only",
        vec!["~/Library/Caches/test", "~/.cache/test"],
        vec![],
    ));
    assert_eq!(findings.len(), 1, "{:?}", findings.iter().map(|f| &f.message).collect::<Vec<_>>());
    assert_eq!(findings[0].platform.as_deref(), Some("macos"));

    // Declaring the platform is accepted.
    let declared = audit_one(test_signature(
        "system.test.mac_only",
        vec!["~/Library/Caches/test"],
        vec![PlatformKind::Macos],
    ));
    assert!(declared.is_empty());

    // Declaring the wrong platform is not.
    let wrong = audit_one(test_signature(
        "system.test.mac_only",
        vec!["~/Library/Caches/test"],
        vec![PlatformKind::Windows],
    ));
    assert_eq!(wrong.len(), 1);
    assert_eq!(wrong[0].platform.as_deref(), Some("macos"));
}

#[test]
fn the_platform_gate_refuses_an_undeclared_signature() {
    let mut registry = SignatureRegistry::new();
    registry.register(test_signature("system.test.mac_only", vec!["~/Library/Caches/test"], vec![]));
    registry.register(test_signature("system.test.shared", vec!["~/.cache/test"], vec![]));

    let audits: Vec<Vec<ManifestLintFinding>> = registry
        .all()
        .into_iter()
        .map(|signature| audit_signature(signature, false, &resolved_all(signature), &no_reach(signature), &[], &[]))
        .collect();
    let findings = audit_signature_platforms(audits);
    assert_eq!(findings.len(), 1);
    assert_eq!(findings[0].signature_id, "system.test.mac_only");

    registry.enforce_platform_declarations();
    // The refusal applies to the offending signature only: an undeclared
    // platform root is never silently accepted, and nothing else is lost.
    assert!(registry.get("system.test.mac_only").is_none());
    assert!(registry.get("system.test.shared").is_some());
    let audits: Vec<Vec<ManifestLintFinding>> = registry
        .all()
        .into_iter()
        .map(|signature| audit_signature(signature, false, &resolved_all(signature), &no_reach(signature), &[], &[]))
        .collect();
    assert!(audit_signature_platforms(audits).is_empty());
}

#[test]
fn a_literal_relative_path_is_a_lint_finding() {
    // A relative literal does not resolve, and it names no placeholder.
    let signature = test_signature("system.test.relative", vec!["relative/cache"], vec![]);
    let findings = audit_signature(&signature, false, &vec![None], &vec![], &[], &[]);
    assert_eq!(findings.len(), 1);
    assert_eq!(findings[0].platform, None);
    assert!(findings[0].message.contains("absolute"));
    assert_eq!(findings[0].message, "path pattern `relative/cache` is not an absolute path");
}

#[test]
fn an_unresolvable_placeholder_is_not_a_lint_finding() {
    // The environment states no program files root, so the pattern simply
    // does not exist here; that is not a manifest defect.
    let signature = test_signature("system.test.program_files", vec!["${PROGRAM_FILES}/test"], vec![PlatformKind::Windows]);
    let findings = audit_signature(&signature, false, &vec![None], &vec![], &[], &[]);
    assert!(findings.is_empty());
    // Judged on a Windows machine, an unresolved placeholder is not a
    // finding either.
    let findings = audit_signature(&signature, true, &vec![None], &vec![], &[], &[]);
    assert!(findings.is_empty());
}

#[test]
fn an_exclusion_outside_the_signature_scope_is_a_lint_finding() {
    let mut signature = test_signature("system.test.exclusion", vec!["~/.cache/test/logs"], vec![]);
    signature.exclusions = vec!["~/Documents/keep".to_string()];
    let findings = audit_signature_platforms(vec![audit_signature(
        &signature,
        false,
        &resolved_all(&signature),
        &vec![Some(vec![false])],
        &[],
        &[],
    )]);
    assert_eq!(findings.len(), 1);
    assert!(findings[0].message.contains("scope"));

    // A common ancestor does not make a sibling reachable from either root.
    let mut signature = test_signature(
        "system.test.exclusion",
        vec!["~/.cache/test/logs", "~/.cache/test/tmp"],
        vec![],
    );
    signature.exclusions = vec!["~/.cache/test/settings.json".to_string()];
    let findings = audit_signature_platforms(vec![audit_signature(
        &signature,
        false,
        &resolved_all(&signature),
        &vec![Some(vec![false, false])],
        &[],
        &[],
    )]);
    assert_eq!(findings.len(), 1);
    assert!(findings[0].message.contains("scope"));
}

#[test]
fn a_windows_absolute_exclusion_is_scope_checked() {
    let mut signature = test_signature(
        "developer.test.windows-exclusion",
        vec![r"${LOCAL_APP_DATA}\Zenith\cache"],
        vec![PlatformKind::Windows],
    );
    signature.exclusions = vec![r"D:\Documents\do-not-delete".to_string()];
    // The exclusion is absolute in its own spelling, so the scope audit runs.
    let findings = audit_signature_platforms(vec![audit_signature(
        &signature,
        true,
        &resolved_all(&signature),
        &vec![Some(vec![false])],
        &[],
        &[],
    )]);
    assert_eq!(findings.len(), 1);
    assert!(findings[0].message.contains("scope"));
    assert_eq!(
        findings[0].message,
        r"exclusion `D:\Documents\do-not-delete` resolves outside the signature's scope"
    );
}

#[test]
fn the_stated_environment_decides_the_blacklist_verdict() {
    let mut signature = test_signature("developer.test.host-decides", vec![r"C:\Windows\Temp\zenith"], vec![PlatformKind::Windows]);
    signature.min_age_days = None;

    // Windows rules refuse the system directory.
    let protected = vec![Some(ResolvedPattern {
        selector: SelectorShape::Literal,
        absolute: true,
        protection: Protection::ProtectedRoot("Windows directory".to_string()),
    })];
    let windows_findings = audit_signature_platforms(vec![audit_signature(&signature, true, &protected, &vec![], &[], &[])]);
    assert_eq!(windows_findings.len(), 1);
    assert!(windows_findings[0].message.contains("protected Windows directory"));

    // The same literal is a Windows spelling, so the POSIX audit does not
    // judge it at all.
    let posix_findings = audit_signature_platforms(vec![audit_signature(&signature, false, &vec![None], &vec![], &[], &[])]);
    assert!(posix_findings.is_empty());

    // A pattern that names no platform is judged on every machine.
    let mut relative = test_signature("developer.test.relative", vec!["data/cache"], vec![]);
    relative.min_age_days = None;
    for windows in [false, true] {
        let findings = audit_signature_platforms(vec![audit_signature(&relative, windows, &vec![None], &vec![], &[], &[])]);
        assert_eq!(findings.len(), 1);
        assert!(findings[0].message.contains("not an absolute path"));
    }
}

#[test]
fn the_lint_output_is_sorted_and_deterministic() {
    // The order entries are audited in must not leak into the lint output.
    let signatures = [
        test_signature("system.test.c", vec!["~/Library/Caches/c"], vec![]),
        test_signature("system.test.a", vec!["~/Library/Caches/a"], vec![]),
        test_signature("system.test.b", vec!["relative/b"], vec![]),
    ];
    let audits: Vec<Vec<ManifestLintFinding>> = signatures
        .iter()
        .map(|signature| {
            let resolutions: Vec<Option<ResolvedPattern>> =
                if signature.id == "system.test.b" { vec![None] } else { resolved_all(signature) };
            audit_signature(signature, false, &resolutions, &vec![], &[], &[])
        })
        .collect();
    let ids: Vec<String> = audit_signature_platforms(audits).into_iter().map(|finding| finding.signature_id).collect();
    assert_eq!(
        ids,
        vec!["system.test.a".to_string(), "system.test.b".to_string(), "system.test.c".to_string()]
    );
}

#[test]
fn one_entry_reports_its_findings_in_a_fixed_order() {
    let mut signature = test_signature("system.test.order", vec!["~/Library/x", "/srv/*/cache", "rel", "${X}/y"], vec![]);
    signature.exclusions = vec!["~/elsewhere".to_string(), "name.txt".to_string()];
    let resolutions = vec![
        Some(ResolvedPattern { selector: SelectorShape::Literal, absolute: true, protection: Protection::Blacklisted }),
        Some(ResolvedPattern {
            selector: SelectorShape::Unusable("unclosed brace".to_string()),
            absolute: false,
            protection: Protection::Unprotected,
        }),
        None,
        None,
    ];
    let reach = vec![Some(vec![false, false, false, false]), None];
    let findings = audit_signature(&signature, false, &resolutions, &reach, &[], &[]);
    let messages: Vec<&str> = findings.iter().map(|f| f.message.as_str()).collect();
    assert_eq!(
        messages,
        vec![
            "path pattern `~/Library/x` resolves to a blacklisted location",
            "pattern `/srv/*/cache` is not a usable selector: unclosed brace",
            "path pattern `/srv/*/cache` did not resolve to an absolute path",
            "path pattern `rel` is not an absolute path",
            "exclusion `~/elsewhere` resolves outside the signature's scope",
            "resolves under a macos-specific root but does not declare `platforms`",
        ]
    );
    assert!(findings.iter().all(|f| f.signature_id == "system.test.order"));
    assert_eq!(findings[5].platform.as_deref(), Some("macos"));
    assert!(findings[..5].iter().all(|f| f.platform.is_none()));
}

#[test]
fn an_unanchored_selector_needs_an_absolute_literal_prefix() {
    let signature = test_signature("system.test.selector", vec!["*/cache"], vec![]);
    let resolutions = vec![Some(ResolvedPattern {
        selector: SelectorShape::Unanchored,
        absolute: true,
        protection: Protection::Unprotected,
    })];
    let findings = audit_signature(&signature, false, &resolutions, &vec![], &[], &[]);
    assert_eq!(findings.len(), 1);
    assert_eq!(findings[0].message, "pattern `*/cache` begins with a selector; it needs an absolute literal prefix");
    // An anchored selector is fine.
    let anchored = vec![Some(ResolvedPattern {
        selector: SelectorShape::Anchored,
        absolute: true,
        protection: Protection::Unprotected,
    })];
    assert!(audit_signature(&signature, false, &anchored, &vec![], &[], &[]).is_empty());
}

#[test]
fn observation_only_and_aged_entries_skip_the_deletion_boundary() {
    let protected = vec![Some(ResolvedPattern {
        selector: SelectorShape::Literal,
        absolute: true,
        protection: Protection::ProtectedRoot("system directory".to_string()),
    })];
    let mut manual = test_signature("system.test.manual", vec!["/System/Library/Caches"], vec![PlatformKind::Macos]);
    manual.strategy = CleanStrategy::Manual;
    assert!(audit_signature(&manual, false, &protected, &vec![], &[], &[]).is_empty());

    let mut aged = test_signature("system.test.aged", vec!["/System/Library/Caches"], vec![PlatformKind::Macos]);
    aged.min_age_days = Some(7);
    assert!(audit_signature(&aged, false, &protected, &vec![], &[], &[]).is_empty());

    let deleting = test_signature("system.test.deleting", vec!["/System/Library/Caches"], vec![PlatformKind::Macos]);
    let findings = audit_signature(&deleting, false, &protected, &vec![], &[], &[]);
    assert_eq!(findings.len(), 1);
    assert_eq!(findings[0].message, "path pattern `/System/Library/Caches` resolves under a protected system directory");
}

#[test]
fn an_exclusion_is_checked_only_against_a_resolved_scope() {
    let mut signature = test_signature("system.test.unresolved", vec!["${HOME_CACHE}/x"], vec![]);
    signature.exclusions = vec!["~/keep".to_string()];
    // No pattern resolved here, so no exclusion can be judged against it.
    let findings = audit_signature(&signature, false, &vec![None], &vec![Some(vec![false])], &[], &[]);
    assert!(findings.is_empty());
    // An exclusion inside a resolved root is in scope.
    let findings = audit_signature(&signature, false, &vec![plain()], &vec![Some(vec![true])], &[], &[]);
    assert!(findings.is_empty());
}

#[test]
fn a_provider_this_build_lacks_is_a_finding() {
    let owner = vec!["docker".to_string(), "xcode".to_string()];
    let lifecycle = vec!["brew".to_string()];
    let mut signature = test_signature("system.test.provider", vec!["/opt/x"], vec![]);
    signature.strategy = CleanStrategy::OwnerProvider;
    signature.provider_id = Some("gradle".to_string());
    let findings = audit_signature(&signature, false, &resolved_all(&signature), &vec![], &owner, &lifecycle);
    assert_eq!(findings.len(), 1);
    assert_eq!(
        findings[0].message,
        "names owner-scoped provider `gradle`, which this build does not implement (implemented: docker, xcode)"
    );

    // A lifecycle action is looked up among lifecycle providers only.
    signature.strategy = CleanStrategy::LifecycleProvider;
    signature.provider_id = Some("docker".to_string());
    let findings = audit_signature(&signature, false, &resolved_all(&signature), &vec![], &owner, &lifecycle);
    assert_eq!(findings.len(), 1);
    assert_eq!(
        findings[0].message,
        "names lifecycle provider `docker`, which this build does not implement (implemented: brew)"
    );

    signature.provider_id = Some("brew".to_string());
    assert!(audit_signature(&signature, false, &resolved_all(&signature), &vec![], &owner, &lifecycle).is_empty());

    // A blank provider id names nothing.
    signature.provider_id = Some("  ".to_string());
    assert!(audit_signature(&signature, false, &resolved_all(&signature), &vec![], &owner, &lifecycle).is_empty());
}

#[test]
fn the_report_orders_by_entry_then_message() {
    let a = test_signature("b.entry", vec!["rel-two", "rel-one"], vec![]);
    let b = test_signature("a.entry", vec!["rel"], vec![]);
    let report = audit_signature_platforms(vec![
        audit_signature(&a, false, &vec![None, None], &vec![], &[], &[]),
        audit_signature(&b, false, &vec![None], &vec![], &[], &[]),
    ]);
    let pairs: Vec<(&str, &str)> = report.iter().map(|f| (f.signature_id.as_str(), f.message.as_str())).collect();
    assert_eq!(
        pairs,
        vec![
            ("a.entry", "path pattern `rel` is not an absolute path"),
            ("b.entry", "path pattern `rel-one` is not an absolute path"),
            ("b.entry", "path pattern `rel-two` is not an absolute path"),
        ]
    );
}
