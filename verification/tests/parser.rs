use steam_roulette::manifest::ManifestRecord;
use steam_roulette::parse_manifest;

fn rec(r: Option<ManifestRecord>) -> (String, String) {
    let r = r.expect("a record was expected");
    (r.name, r.id)
}

#[test]
fn empty_text_yields_no_record() {
    assert!(parse_manifest("").is_none());
}

#[test]
fn one_line_yields_no_record() {
    assert!(parse_manifest("AppState").is_none());
    assert!(parse_manifest("AppState\n").is_none());
}

#[test]
fn two_lines_yield_no_record() {
    assert!(parse_manifest("AppState\n{").is_none());
    assert!(parse_manifest("AppState\n{\n").is_none());
}

#[test]
fn three_lines_yield_empty_record() {
    let (name, id) = rec(parse_manifest("AppState\n{\n}"));
    assert_eq!(name, "");
    assert_eq!(id, "");
}

#[test]
fn appid_then_name() {
    let text = "AppState\n{\n\t\"appid\"\t\"123\"\n\t\"name\"\t\"Foo\"\n}";
    let (name, id) = rec(parse_manifest(text));
    assert_eq!(name, "Foo");
    assert_eq!(id, "123");
}

#[test]
fn name_then_appid() {
    let text = "AppState\n{\n\t\"name\"\t\"Foo\"\n\t\"appid\"\t\"123\"\n}";
    let (name, id) = rec(parse_manifest(text));
    assert_eq!(name, "Foo");
    assert_eq!(id, "123");
}

#[test]
fn last_occurrence_wins() {
    let text = "AppState\n{\n\t\"name\"\t\"First\"\n\t\"name\"\t\"Second\"\n}";
    let (name, _) = rec(parse_manifest(text));
    assert_eq!(name, "Second");
}

#[test]
fn short_lines_are_skipped() {
    let text = "AppState\n{\n\t\"name\"\n\t\"appid\"\t\"42\"\n}";
    let (name, id) = rec(parse_manifest(text));
    assert_eq!(name, "");
    assert_eq!(id, "42");
}

#[test]
fn closing_line_is_not_scanned() {
    let text = "AppState\n{\n\t\"name\"\t\"Kept\"\n\t\"name\"\t\"Dropped\"";
    let (name, _) = rec(parse_manifest(text));
    assert_eq!(name, "Kept");
}

#[test]
fn quotes_are_stripped_from_values() {
    let text = "AppState\n{\n\t\"name\"\t\"Half-Life 2\"\n\t\"appid\"\t\"220\"\n}";
    let (name, id) = rec(parse_manifest(text));
    assert_eq!(name, "Half-Life 2");
    assert_eq!(id, "220");
}

#[test]
fn crlf_lines_parse_the_same() {
    let text = "AppState\r\n{\r\n\t\"appid\"\t\"123\"\r\n\t\"name\"\t\"Foo\"\r\n}";
    let (name, id) = rec(parse_manifest(text));
    assert_eq!(name, "Foo");
    assert_eq!(id, "123");
}

#[test]
fn empty_fragments_are_discarded() {
    let text = "AppState\n{\n\t\t\"appid\"\t\t\"123\"\t\n}";
    let (_, id) = rec(parse_manifest(text));
    assert_eq!(id, "123");
}
