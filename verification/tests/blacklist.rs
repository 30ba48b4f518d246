use steam_roulette::blacklist::filter_catalog;
use steam_roulette::is_blacklisted;
use steam_roulette::is_proton;
use steam_roulette::manifest::ManifestRecord;

fn entry(name: &str, id: &str) -> ManifestRecord {
    ManifestRecord { name: name.to_string(), id: id.to_string() }
}

fn pairs(v: &[ManifestRecord]) -> Vec<(String, String)> {
    v.iter().map(|r| (r.name.clone(), r.id.clone())).collect()
}

#[test]
fn versioned_proton_is_proton() {
    assert!(is_proton("Proton 7.0"));
    assert!(is_proton("Proton 8.0"));
    assert!(is_proton("Proton 5"));
}

#[test]
fn unversioned_proton_is_not_proton() {
    assert!(!is_proton("Proton"));
}

#[test]
fn proton_experimental_fails_the_proton_rule() {
    assert!(!is_proton("Proton Experimental"));
}

#[test]
fn proton_experimental_is_blacklisted_by_exact_match() {
    assert!(is_blacklisted("Proton Experimental"));
}

#[test]
fn zero_version_is_not_proton() {
    assert!(!is_proton("Proton 0"));
    assert!(!is_proton("Proton 0.0"));
    assert!(!is_proton("Proton 0.00"));
}

#[test]
fn non_numeric_version_is_not_proton() {
    assert!(!is_proton("Proton Hotfix"));
    assert!(!is_proton("Proton 7.0-3"));
    assert!(!is_proton("Proton .."));
}

#[test]
fn dotted_and_signed_versions_read_as_numbers() {
    assert!(is_proton("Proton 7."));
    assert!(is_proton("Proton .5"));
    assert!(is_proton("Proton -7.0"));
    assert!(is_proton("Proton 1e2"));
    assert!(!is_proton("Proton 1e"));
    assert!(!is_proton("Proton ."));
}

#[test]
fn double_space_hides_the_version() {
    // The second space-separated token is then empty, which is not a number.
    assert!(!is_proton("Proton  7.0"));
}

#[test]
fn exact_matches_are_blacklisted() {
    assert!(is_blacklisted("Steamworks Common Redistributables"));
    assert!(is_blacklisted("SteamVR"));
}

#[test]
fn soundtrack_suffix_is_blacklisted() {
    assert!(is_blacklisted("Portal Soundtrack"));
    assert!(is_blacklisted("Soundtrack"));
}

#[test]
fn soundtrack_elsewhere_is_not_blacklisted() {
    assert!(!is_blacklisted("Soundtrack Player"));
}

#[test]
fn steam_linux_runtime_prefix_is_blacklisted() {
    assert!(is_blacklisted("Steam Linux Runtime 3.0 (sniper)"));
    assert!(is_blacklisted("Steam Linux Runtime"));
}

#[test]
fn ordinary_games_are_not_blacklisted() {
    assert!(!is_blacklisted("Half-Life 2"));
    assert!(!is_blacklisted("Portal"));
    assert!(!is_blacklisted(""));
}

#[test]
fn filtering_twice_equals_filtering_once() {
    let catalog = vec![
        entry("Half-Life 2", "220"),
        entry("Proton 8.0", "0"),
        entry("Portal Soundtrack", "323180"),
        entry("SteamVR", "250820"),
        entry("Portal", "400"),
    ];
    let once = filter_catalog(catalog.clone());
    let twice = filter_catalog(filter_catalog(catalog));
    assert_eq!(pairs(&once), pairs(&twice));
    assert_eq!(
        pairs(&once),
        vec![
            ("Half-Life 2".to_string(), "220".to_string()),
            ("Portal".to_string(), "400".to_string()),
        ]
    );
}
