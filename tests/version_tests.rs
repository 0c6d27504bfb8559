use potato_crust::states::GameState;
use potato_crust::version::{LatestVersions, VersionError, VersionId, VersionType};

#[test]
fn version_types_read_from_names() {
    assert_eq!(VersionType::try_from("snapshot"), Ok(VersionType::Snapshot));
    assert_eq!(VersionType::try_from("release"), Ok(VersionType::Release));
    assert_eq!(VersionType::try_from("old_beta"), Ok(VersionType::OldBeta));
    assert_eq!(VersionType::try_from("old_alpha"), Ok(VersionType::OldAlpha));
    assert_eq!(
        VersionType::try_from("Release"),
        Err(VersionError::UnknownVersionType("Release".to_string()))
    );
    assert!(VersionType::try_from("").is_err());
}

#[test]
fn version_ids_and_latest() {
    assert_eq!(VersionId::from("1.19.3"), VersionId("1.19.3".into()));
    let latest = LatestVersions { release: VersionId::from("1.19.3"), snapshot: VersionId::from("23w04a") };
    assert!(!latest.snapshot.0.is_empty());
    assert_eq!(GameState::default(), GameState::LoadingAssets);
}
