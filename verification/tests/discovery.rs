use steam_roulette::SteamKind;
use steam_roulette::build_catalog;
use steam_roulette::generate_steam_rungame;
use steam_roulette::install::default_library_root;
use steam_roulette::install::detect_steam_linux;
use steam_roulette::install::detect_steam_macos;
use steam_roulette::install::detect_steam_windows;
use steam_roulette::install::join_path;
use steam_roulette::install::launch_command;
use steam_roulette::install::launch_command_windows;
use steam_roulette::install::manifest_dir;
use steam_roulette::install::parse_flatpak_count;
use steam_roulette::install::vanilla_candidate_dirs;
use steam_roulette::libraries::parse_library_folders;
use steam_roulette::library_catalog;
use steam_roulette::manifest::ManifestRecord;
use steam_roulette::scanner::is_manifest_filename;
use steam_roulette::scanner::scan_manifests;
use steam_roulette::scanner::select_manifest_names;
use steam_roulette::text::parse_u32;

fn pairs(v: &[ManifestRecord]) -> Vec<(String, String)> {
    v.iter().map(|r| (r.name.clone(), r.id.clone())).collect()
}

fn manifest_text(name: &str, id: &str) -> String {
    format!("AppState\n{{\n\t\"appid\"\t\"{}\"\n\t\"name\"\t\"{}\"\n}}", id, name)
}

#[test]
fn unlistable_library_yields_empty_catalog() {
    let r = library_catalog(&None);
    assert!(r.is_empty());
}

#[test]
fn default_library_with_two_manifests() {
    let texts = vec![
        manifest_text("Half-Life 2", "220"),
        manifest_text("Proton 8.0", "0"),
    ];
    let catalog = build_catalog(&vec![Some(texts)]);
    assert_eq!(
        pairs(&catalog),
        vec![("Half-Life 2".to_string(), "220".to_string())]
    );
}

#[test]
fn catalogs_concatenate_across_libraries() {
    let a = vec![manifest_text("Half-Life 2", "220")];
    let b = vec![manifest_text("Portal", "400")];
    let catalog = build_catalog(&vec![Some(a), None, Some(b)]);
    assert_eq!(
        pairs(&catalog),
        vec![
            ("Half-Life 2".to_string(), "220".to_string()),
            ("Portal".to_string(), "400".to_string()),
        ]
    );
}

#[test]
fn empty_manifest_aborts_the_directory_scan() {
    let texts = vec![
        manifest_text("Half-Life 2", "220"),
        String::new(),
        manifest_text("Portal", "400"),
    ];
    let r = scan_manifests(&texts);
    assert_eq!(pairs(&r), vec![("Half-Life 2".to_string(), "220".to_string())]);
}

#[test]
fn manifest_filenames_are_selected_by_prefix() {
    assert!(is_manifest_filename("appmanifest_220.acf"));
    assert!(is_manifest_filename("appmanifest"));
    assert!(!is_manifest_filename("libraryfolders.vdf"));
    assert!(!is_manifest_filename("app"));
    let names = vec![
        "appmanifest_220.acf".to_string(),
        "libraryfolders.vdf".to_string(),
        "appmanifest_400.acf".to_string(),
    ];
    let selected = select_manifest_names(&names);
    assert_eq!(
        selected,
        vec!["appmanifest_220.acf".to_string(), "appmanifest_400.acf".to_string()]
    );
}

#[test]
fn registry_path_line_yields_the_quoted_value() {
    let text = "\"libraryfolders\"\n{\n\"path\"\t\t\"D:\\\\Games\\\\SteamLibrary\"\n}";
    let r = parse_library_folders(text).expect("well-formed registry");
    assert_eq!(r, vec!["D:\\\\Games\\\\SteamLibrary".to_string()]);
}

#[test]
fn registry_without_path_lines_yields_nothing() {
    let text = "\"libraryfolders\"\n{\n}\n";
    let r = parse_library_folders(text).expect("well-formed registry");
    assert!(r.is_empty());
}

#[test]
fn malformed_path_line_is_fatal() {
    assert!(parse_library_folders("path").is_none());
    assert!(parse_library_folders("\"path\"").is_none());
}

#[test]
fn several_path_lines_yield_all_values() {
    let text = "\"path\" \"/mnt/a\"\n\"junk\" \"x\"\n\"path\" \"/mnt/b\"\n";
    let r = parse_library_folders(text).expect("well-formed registry");
    assert_eq!(r, vec!["/mnt/a".to_string(), "/mnt/b".to_string()]);
}

#[test]
fn not_detected_yields_not_found() {
    // With no executable on the search path and no sandboxed package listed,
    // nothing is detected: the caller must stop before any library scanning.
    assert_eq!(detect_steam_linux(false, 0), SteamKind::NotFound);
    assert_eq!(detect_steam_macos(false), SteamKind::NotFound);
    assert_eq!(detect_steam_windows(false, None, false), SteamKind::NotFound);
}

#[test]
fn native_install_wins_detection() {
    assert_eq!(detect_steam_linux(true, 3), SteamKind::Vanilla);
    assert_eq!(detect_steam_linux(false, 1), SteamKind::Flatpak);
    assert_eq!(detect_steam_macos(true), SteamKind::Vanilla);
}

#[test]
fn registry_root_gives_alternate_path() {
    assert_eq!(
        detect_steam_windows(false, Some("D:\\Steam".to_string()), true),
        SteamKind::AltPath("D:\\Steam".to_string())
    );
    assert_eq!(
        detect_steam_windows(false, Some("D:\\Steam".to_string()), false),
        SteamKind::NotFound
    );
}

#[test]
fn flatpak_count_drops_the_trailing_character() {
    assert_eq!(parse_flatpak_count("3\n"), Some(3));
    assert_eq!(parse_flatpak_count("0\n"), Some(0));
    assert_eq!(parse_flatpak_count("12\n"), Some(12));
    // The final character goes whatever it is: the count text is expected to
    // end in a line break.
    assert_eq!(parse_flatpak_count("12"), Some(1));
    assert_eq!(parse_flatpak_count(""), None);
    assert_eq!(parse_flatpak_count("abc\n"), None);
    assert_eq!(parse_flatpak_count("99999999999\n"), None);
}

#[test]
fn digit_strings_parse_within_range() {
    assert_eq!(parse_u32("0"), Some(0));
    assert_eq!(parse_u32("4294967295"), Some(u32::MAX));
    assert_eq!(parse_u32("4294967296"), None);
    assert_eq!(parse_u32(""), None);
    assert_eq!(parse_u32("1a"), None);
}

#[test]
fn rungame_uri_carries_the_id() {
    assert_eq!(generate_steam_rungame("220"), "steam://rungameid/220");
    assert_eq!(generate_steam_rungame(""), "steam://rungameid/");
}

#[test]
fn paths_join_with_a_separator() {
    assert_eq!(join_path("/home/user", ".steam/steam"), "/home/user/.steam/steam");
    assert_eq!(manifest_dir(), "steamapps/");
}

#[test]
fn default_roots_follow_the_variant() {
    let home = "/home/user";
    assert_eq!(
        default_library_root(&SteamKind::Flatpak, home, false, false),
        Some("/home/user/.var/app/com.valvesoftware.Steam/data/Steam".to_string())
    );
    assert_eq!(
        default_library_root(&SteamKind::Vanilla, home, true, true),
        Some("/home/user/.local/share/steam".to_string())
    );
    assert_eq!(
        default_library_root(&SteamKind::Vanilla, home, false, true),
        Some("/home/user/.steam/steam".to_string())
    );
    assert_eq!(default_library_root(&SteamKind::Vanilla, home, false, false), None);
    assert_eq!(
        default_library_root(&SteamKind::AltPath("D:\\Steam".to_string()), home, false, false),
        Some("D:\\Steam".to_string())
    );
    assert_eq!(default_library_root(&SteamKind::NotFound, home, false, false), None);
    let candidates = vanilla_candidate_dirs();
    assert_eq!(candidates, vec![".local/share/steam".to_string(), ".steam/steam".to_string()]);
}

#[test]
fn launch_commands_follow_the_variant() {
    let uri = "steam://rungameid/220".to_string();
    assert_eq!(
        launch_command(&SteamKind::Flatpak, "220"),
        Some((
            "flatpak".to_string(),
            vec!["run".to_string(), "com.valvesoftware.Steam".to_string(), uri.clone()]
        ))
    );
    assert_eq!(
        launch_command(&SteamKind::Vanilla, "220"),
        Some(("steam".to_string(), vec![uri.clone()]))
    );
    assert_eq!(launch_command(&SteamKind::NotFound, "220"), None);
    assert_eq!(
        launch_command_windows(&SteamKind::Vanilla, "220"),
        Some(("C:\\Program Files (x86)\\Steam\\steam.exe".to_string(), vec![uri.clone()]))
    );
    assert_eq!(
        launch_command_windows(&SteamKind::AltPath("D:\\Steam".to_string()), "220"),
        Some(("D:\\Steam\\steam.exe".to_string(), vec![uri]))
    );
    assert_eq!(launch_command_windows(&SteamKind::Flatpak, "220"), None);
}
