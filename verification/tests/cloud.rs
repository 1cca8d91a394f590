use appscale_core::cloud::ledger::CacheLedger;
use appscale_core::cloud::{
    evaluate_ota, validate_pipeline, BuildJobConfig, BuildMode, BuildPipeline, BuildStatus, BuildTarget,
    BundleVersion, CacheKey, CloudError, OtaDecision, OtaManifest, OtaUpdate,
};
use appscale_core::platform::PlatformId;
use std::collections::HashMap;

fn job(target: BuildTarget, mode: BuildMode) -> BuildJobConfig {
    BuildJobConfig { target, mode, env_vars: HashMap::new(), features: vec![], signing_profile: None }
}

fn update(version: BundleVersion, min_native: BundleVersion, mandatory: bool, platforms: Vec<BuildTarget>) -> OtaUpdate {
    OtaUpdate {
        version,
        min_native_version: min_native,
        bundle_url: "https://cdn.example.com/b.js".into(),
        bundle_hash: "h".into(),
        bundle_size_bytes: 1024,
        release_notes: "".into(),
        is_mandatory: mandatory,
        rollout_percentage: 100,
        target_platforms: platforms,
    }
}

#[test]
fn test_pipeline_creation_and_validation() {
    let mut pipeline = BuildPipeline::new("p1", "MyApp", "1.0.0");
    pipeline.add_job(BuildJobConfig {
        target: BuildTarget::Ios,
        mode: BuildMode::Release,
        env_vars: HashMap::new(),
        features: vec!["push".into()],
        signing_profile: Some("dist".into()),
    });
    pipeline.add_job(BuildJobConfig {
        target: BuildTarget::Android,
        mode: BuildMode::Release,
        env_vars: HashMap::new(),
        features: vec![],
        signing_profile: None,
    });

    assert_eq!(pipeline.jobs.len(), 2);
    assert!(!pipeline.is_complete());
    assert!(validate_pipeline(&pipeline).is_ok());
}

#[test]
fn test_pipeline_validation_empty_name() {
    let pipeline = BuildPipeline::new("p1", "", "1.0.0");
    assert!(validate_pipeline(&pipeline).is_err());
}

#[test]
fn test_pipeline_validation_no_jobs() {
    let pipeline = BuildPipeline::new("p1", "App", "1.0.0");
    assert!(validate_pipeline(&pipeline).is_err());
}

#[test]
fn test_pipeline_validation_duplicate_targets() {
    let mut pipeline = BuildPipeline::new("p1", "App", "1.0.0");
    pipeline.add_job(job(BuildTarget::Ios, BuildMode::Release));
    pipeline.add_job(job(BuildTarget::Ios, BuildMode::Release));
    assert!(validate_pipeline(&pipeline).is_err());
}

#[test]
fn test_build_status_terminal() {
    assert!(!BuildStatus::Queued.is_terminal());
    assert!(!BuildStatus::Running.is_terminal());
    assert!(BuildStatus::Succeeded.is_terminal());
    assert!(BuildStatus::Failed { reason: "e".into() }.is_terminal());
    assert!(BuildStatus::Cancelled.is_terminal());
}

#[test]
fn test_pipeline_completion_tracking() {
    let mut pipeline = BuildPipeline::new("p1", "App", "1.0.0");
    pipeline.add_job(job(BuildTarget::Web, BuildMode::Debug));
    assert!(!pipeline.is_complete());

    pipeline.jobs[0].status = BuildStatus::Succeeded;
    assert!(pipeline.is_complete());
    assert!(pipeline.all_succeeded());

    pipeline.jobs[0].status = BuildStatus::Failed { reason: "oom".into() };
    assert!(pipeline.is_complete());
    assert!(!pipeline.all_succeeded());
}

#[test]
fn test_version_ordering() {
    let v1 = BundleVersion::new(1, 0, 0);
    let v1_1 = BundleVersion::new(1, 1, 0);
    let v2 = BundleVersion::new(2, 0, 0);

    assert!(v1 < v1_1);
    assert!(v1_1 < v2);
    assert!(v1 < v2);
}

#[test]
fn test_version_compatibility() {
    let v1_2_0 = BundleVersion::new(1, 2, 0);
    let v1_1_0 = BundleVersion::new(1, 1, 0);
    let v1_3_0 = BundleVersion::new(1, 3, 0);
    let v2_0_0 = BundleVersion::new(2, 0, 0);

    assert!(v1_2_0.is_compatible_with(&v1_1_0));
    assert!(v1_2_0.is_compatible_with(&v1_2_0));
    assert!(!v1_1_0.is_compatible_with(&v1_2_0));
    assert!(!v2_0_0.is_compatible_with(&v1_3_0));
    assert!(!v1_3_0.is_compatible_with(&v2_0_0));
}

#[test]
fn test_version_display() {
    assert_eq!(BundleVersion::new(1, 2, 3).to_string(), "1.2.3");
    assert_eq!(BundleVersion::new(1, 0, 0).with_build(42).to_string(), "1.0.0+42");
}

#[test]
fn test_ota_no_updates() {
    let manifest = OtaManifest::new("app1");
    let current = BundleVersion::new(1, 0, 0);
    let native = BundleVersion::new(1, 0, 0);
    assert_eq!(evaluate_ota(&manifest, &current, &native, BuildTarget::Ios), OtaDecision::NoUpdate);
}

#[test]
fn test_ota_optional_update() {
    let mut manifest = OtaManifest::new("app1");
    manifest.updates.push(OtaUpdate {
        version: BundleVersion::new(1, 1, 0),
        min_native_version: BundleVersion::new(1, 0, 0),
        bundle_url: "https://cdn.example.com/bundle-1.1.0.js".into(),
        bundle_hash: "abc123".into(),
        bundle_size_bytes: 1024,
        release_notes: "Bug fixes".into(),
        is_mandatory: false,
        rollout_percentage: 100,
        target_platforms: vec![BuildTarget::Ios, BuildTarget::Android],
    });

    let current = BundleVersion::new(1, 0, 0);
    let native = BundleVersion::new(1, 0, 0);
    assert_eq!(
        evaluate_ota(&manifest, &current, &native, BuildTarget::Ios),
        OtaDecision::Optional { version: BundleVersion::new(1, 1, 0) }
    );
}

#[test]
fn test_ota_mandatory_update() {
    let mut manifest = OtaManifest::new("app1");
    manifest.updates.push(OtaUpdate {
        version: BundleVersion::new(1, 2, 0),
        min_native_version: BundleVersion::new(1, 0, 0),
        bundle_url: "https://cdn.example.com/b.js".into(),
        bundle_hash: "def456".into(),
        bundle_size_bytes: 2048,
        release_notes: "Critical fix".into(),
        is_mandatory: true,
        rollout_percentage: 100,
        target_platforms: vec![BuildTarget::Ios],
    });

    let current = BundleVersion::new(1, 0, 0);
    let native = BundleVersion::new(1, 0, 0);
    assert_eq!(
        evaluate_ota(&manifest, &current, &native, BuildTarget::Ios),
        OtaDecision::Mandatory { version: BundleVersion::new(1, 2, 0) }
    );
}

#[test]
fn test_ota_native_update_required() {
    let mut manifest = OtaManifest::new("app1");
    manifest.updates.push(OtaUpdate {
        version: BundleVersion::new(2, 0, 0),
        min_native_version: BundleVersion::new(2, 0, 0),
        bundle_url: "https://cdn.example.com/b.js".into(),
        bundle_hash: "ghi789".into(),
        bundle_size_bytes: 4096,
        release_notes: "Major update".into(),
        is_mandatory: true,
        rollout_percentage: 100,
        target_platforms: vec![BuildTarget::Ios],
    });

    let current = BundleVersion::new(1, 0, 0);
    let native = BundleVersion::new(1, 0, 0);
    assert_eq!(
        evaluate_ota(&manifest, &current, &native, BuildTarget::Ios),
        OtaDecision::NativeUpdateRequired { min_native: BundleVersion::new(2, 0, 0) }
    );
}

#[test]
fn test_ota_already_latest() {
    let mut manifest = OtaManifest::new("app1");
    manifest.updates.push(update(BundleVersion::new(1, 0, 0), BundleVersion::new(1, 0, 0), false, vec![BuildTarget::Ios]));

    let current = BundleVersion::new(1, 0, 0);
    let native = BundleVersion::new(1, 0, 0);
    assert_eq!(evaluate_ota(&manifest, &current, &native, BuildTarget::Ios), OtaDecision::NoUpdate);
}

#[test]
fn test_build_target_platform_id_mapping() {
    assert_eq!(BuildTarget::Ios.to_platform_id(), Some(PlatformId::Ios));
    assert_eq!(BuildTarget::Android.to_platform_id(), Some(PlatformId::Android));
    assert_eq!(BuildTarget::Web.to_platform_id(), Some(PlatformId::Web));
    assert_eq!(BuildTarget::Linux.to_platform_id(), None);
}

#[test]
fn pipeline_error_messages() {
    let p = BuildPipeline::new("p1", "", "1.0.0");
    assert!(matches!(validate_pipeline(&p), Err(CloudError::InvalidConfig(m)) if m == "app_name is required"));
    let p = BuildPipeline::new("p1", "App", "");
    assert!(matches!(validate_pipeline(&p), Err(CloudError::InvalidConfig(m)) if m == "app_version is required"));
    let p = BuildPipeline::new("p1", "App", "1.0");
    assert!(matches!(validate_pipeline(&p),
        Err(CloudError::InvalidConfig(m)) if m == "pipeline must have at least one job"));
    let mut p = BuildPipeline::new("p1", "App", "1.0");
    p.add_job(job(BuildTarget::Web, BuildMode::Debug));
    p.add_job(job(BuildTarget::Web, BuildMode::Release));
    p.add_job(job(BuildTarget::Web, BuildMode::Debug));
    assert!(matches!(validate_pipeline(&p),
        Err(CloudError::InvalidConfig(m)) if m == "Duplicate target Web with mode Debug"));
}

#[test]
fn pipeline_job_ids_and_queries() {
    let mut p = BuildPipeline::new("p9", "App", "1.0");
    let id0 = p.add_job(job(BuildTarget::Ios, BuildMode::Debug)).id.clone();
    let id1 = p.add_job(job(BuildTarget::Android, BuildMode::Release)).id.clone();
    assert_eq!(id0, "p9-Ios-0");
    assert_eq!(id1, "p9-Android-1");
    assert_eq!(p.targets(), vec![BuildTarget::Ios, BuildTarget::Android]);
    assert_eq!(p.jobs[0].status, BuildStatus::Queued);
    p.jobs[1].status = BuildStatus::Running;
    assert_eq!(p.jobs_with_status(&BuildStatus::Queued).len(), 1);
    assert_eq!(p.jobs_with_status(&BuildStatus::Running)[0].id, "p9-Android-1");
    assert!(!p.all_succeeded());
}

#[test]
fn ota_offers_newest_compatible_update() {
    let mut manifest = OtaManifest::new("app1");
    manifest.updates.push(update(BundleVersion::new(1, 1, 0), BundleVersion::new(1, 0, 0), false, vec![BuildTarget::Ios]));
    manifest.updates.push(update(BundleVersion::new(1, 3, 0), BundleVersion::new(1, 0, 0), false, vec![BuildTarget::Ios]));
    manifest.updates.push(update(BundleVersion::new(1, 2, 0), BundleVersion::new(1, 0, 0), true, vec![BuildTarget::Ios]));
    manifest.updates.push(update(BundleVersion::new(1, 9, 0), BundleVersion::new(1, 0, 0), true, vec![BuildTarget::Web]));
    let current = BundleVersion::new(1, 0, 0);
    let native = BundleVersion::new(1, 0, 0);
    assert_eq!(
        evaluate_ota(&manifest, &current, &native, BuildTarget::Ios),
        OtaDecision::Optional { version: BundleVersion::new(1, 3, 0) }
    );
    assert!(manifest.has_update_for(&current, &native, BuildTarget::Ios));
    assert!(!manifest.has_update_for(&BundleVersion::new(1, 3, 0), &native, BuildTarget::Ios));
    assert_eq!(manifest.latest_update(&native, BuildTarget::Web).unwrap().version, BundleVersion::new(1, 9, 0));
    assert!(manifest.latest_update(&native, BuildTarget::Linux).is_none());
}

#[test]
fn cache_key_text() {
    let key = CacheKey::new("abc123", BuildTarget::Ios, BuildMode::Release);
    assert_eq!(key.to_string(), "Ios-Release-abc123");
}

#[test]
fn version_order_is_lexicographic() {
    assert!(BundleVersion::new(1, 9, 9) < BundleVersion::new(2, 0, 0));
    assert!(BundleVersion::new(1, 2, 3) < BundleVersion::new(1, 2, 4));
    assert!(!(BundleVersion::new(1, 2, 3) < BundleVersion::new(1, 2, 3)));
}

#[test]
fn compatibility_counts_the_build_number() {
    let min = BundleVersion::new(1, 0, 0).with_build(5);
    assert!(!BundleVersion::new(1, 0, 0).with_build(1).is_compatible_with(&min));
    assert!(BundleVersion::new(1, 0, 0).with_build(5).is_compatible_with(&min));
    assert!(BundleVersion::new(1, 0, 0).with_build(6).is_compatible_with(&min));
    assert!(BundleVersion::new(1, 0, 0).with_build(5).is_compatible_with(&BundleVersion::new(1, 0, 0)));
    assert!(BundleVersion::new(1, 0, 1).is_compatible_with(&min));
}

#[test]
fn cache_ledger_counts_bytes() {
    let mut ledger = CacheLedger::new(100);
    assert!(ledger.admits(100));
    assert!(!ledger.admits(101));
    ledger.charge(60);
    assert_eq!(ledger.used_bytes(), 60);
    assert!(ledger.must_evict(50, true));
    assert!(!ledger.must_evict(50, false));
    assert!(!ledger.must_evict(40, true));
    ledger.release(70);
    assert_eq!(ledger.used_bytes(), 0);
    assert_eq!(ledger.limit_bytes(), 100);
}
