use decky_power_host::versioning::{compare, VersionRelation};

#[test]
fn only_patch_differences_are_silent() {
    assert_eq!(compare("1.2.9", "1.2.0"), VersionRelation::Compatible);
    assert_eq!(compare("1.3.0", "1.2.9"), VersionRelation::UpdateHost);
    assert_eq!(compare("1.2.0", "1.3.0"), VersionRelation::UpdatePlugin);
    assert_eq!(compare("2.0.0", "1.9.0"), VersionRelation::Incompatible);
    assert_eq!(compare("v1.2.3", "1.2.3"), VersionRelation::Unknown);
}

#[test]
fn equal_versions_are_compatible() {
    assert_eq!(compare("0.1.0", "0.1.0"), VersionRelation::Compatible);
    assert_eq!(compare("10.20.30", "10.20.30"), VersionRelation::Compatible);
}

#[test]
fn update_host_and_update_plugin_are_mirror_images() {
    assert_eq!(compare("1.4.0", "1.2.0"), VersionRelation::UpdateHost);
    assert_eq!(compare("1.2.0", "1.4.0"), VersionRelation::UpdatePlugin);
}

#[test]
fn versions_that_are_not_three_numbers_are_unknown() {
    assert_eq!(compare("1.2", "1.2.0"), VersionRelation::Unknown);
    assert_eq!(compare("1.2.3.4", "1.2.3"), VersionRelation::Unknown);
    assert_eq!(compare("1.2.x", "1.2.3"), VersionRelation::Unknown);
    assert_eq!(compare("1.2.3", ""), VersionRelation::Unknown);
    assert_eq!(compare("1..3", "1.2.3"), VersionRelation::Unknown);
}

#[test]
fn non_canonical_numbers_are_unknown() {
    assert_eq!(compare("01.2.3", "1.2.3"), VersionRelation::Unknown);
    assert_eq!(compare("+1.2.3", "1.2.3"), VersionRelation::Unknown);
    assert_eq!(compare("1.2.3", "1.02.3"), VersionRelation::Unknown);
}
