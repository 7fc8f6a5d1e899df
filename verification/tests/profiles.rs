use kata_device_provisioner::keyed::Keyed;
use kata_device_provisioner::profiles::{
    entry, index, is_profile_name, make_entry, parse_args, profile, profile_names, to_hex,
    values_file, verify_current, verify_listed, Catalog, FamilySource, ValuesFile,
};
use kata_device_provisioner::refusal::Stop;

fn strings(list: &[&str]) -> Vec<String> {
    list.iter().map(|text| text.to_string()).collect()
}

fn family(id: &str, display_name: &str, profiles: &[&str]) -> FamilySource {
    FamilySource {
        id: id.to_string(),
        display_name: display_name.to_string(),
        model_examples: strings(&["H100", "H200"]),
        profiles: strings(profiles),
    }
}

fn catalog(families: Vec<FamilySource>) -> Catalog {
    Catalog { schema_version: 1, families }
}

fn value(json: &str) -> serde_json::Value {
    serde_json::from_str(json).unwrap()
}

fn values(name: &str, json: &str) -> ValuesFile {
    ValuesFile::Profiles(vec![(name.to_string(), value(json))])
}

const GOOD: &str = r#"{"ccMode": "off", "enabled": true}"#;

fn files(names: &[&str]) -> Keyed<ValuesFile> {
    let mut files = Keyed::new();
    for name in names {
        files.insert(name.to_string(), values(name, GOOD));
    }
    files
}

fn refusal<T: std::fmt::Debug>(result: Result<T, Stop>) -> String {
    match result {
        Err(Stop::Refused { message }) => message,
        other => panic!("{other:?}"),
    }
}

fn context<T: std::fmt::Debug>(result: Result<T, Stop>) -> Option<String> {
    match result {
        Err(Stop::Failed { context }) => context,
        other => panic!("{other:?}"),
    }
}

#[test]
fn an_index_follows_the_catalog() {
    let catalog = catalog(vec![
        family("hopper", "HGX Hopper", &["HGX-Hx00", "HGX-Hx00-ppcie"]),
        family("pcie", "Discrete", &["PCIe"]),
    ]);
    let made = index(&catalog, &files(&["HGX-Hx00", "HGX-Hx00-ppcie", "PCIe"])).unwrap();
    assert_eq!(made.schema_version, 1);
    assert_eq!(made.families.len(), 2);
    assert_eq!(made.families[0].id, "hopper");
    assert_eq!(made.families[0].display_name, "HGX Hopper");
    assert_eq!(made.families[0].model_examples, ["H100", "H200"]);
    assert_eq!(made.families[0].profiles[1].name, "HGX-Hx00-ppcie");
    assert_eq!(made.families[1].profiles[0].values_file, "profiles/PCIe.values.yaml");
    assert_eq!(made.families[1].profiles[0].cc_mode, "off");
    assert_eq!(profile_names(&catalog), ["HGX-Hx00", "HGX-Hx00-ppcie", "PCIe"]);
}

/// The digest is that of the values as compact JSON, keys in order.
#[test]
fn an_entry_has_the_digest_of_its_values() {
    let made = entry("A", &value("{}"));
    assert_eq!(refusal(made), "profiles/A.values.yaml has a disabled profile or invalid ccMode");
    let one = entry("A", &value(GOOD)).unwrap();
    let spaced = entry("B", &value("{ \"enabled\":true,\n\"ccMode\":\"off\" }")).unwrap();
    assert_eq!(one.values_sha256, spaced.values_sha256);
    assert_eq!(one.values_sha256.len(), 64);
    assert!(one.values_sha256.bytes().all(|c| matches!(c, b'0'..=b'9' | b'a'..=b'f')));
    let other = entry("A", &value(r#"{"ccMode": "on", "enabled": true}"#)).unwrap();
    assert_ne!(one.values_sha256, other.values_sha256);
    assert_eq!(other.cc_mode, "on");
}

#[test]
fn the_digest_is_sha_256() {
    use_digest_of(GOOD, "{\"ccMode\":\"off\",\"enabled\":true}");
}

fn use_digest_of(json: &str, bytes: &str) {
    let sum = <sha2::Sha256 as sha2::Digest>::digest(bytes.as_bytes()).to_vec();
    assert_eq!(entry("A", &value(json)).unwrap().values_sha256, to_hex(&sum));
}

#[test]
fn bytes_are_written_as_two_digits_each() {
    assert_eq!(to_hex(&vec![0x00, 0x0f, 0xa0, 0xff]), "000fa0ff");
    assert_eq!(to_hex(&Vec::new()), "");
    let empty = <sha2::Sha256 as sha2::Digest>::digest(b"").to_vec();
    assert_eq!(
        to_hex(&empty),
        "e3b0c44298fc1c149afbf4c8996fb92427ae41e4649b934ca495991b7852b855"
    );
}

#[test]
fn every_mode_can_be_asked_for_and_nothing_else() {
    let made = |enabled, mode: Option<&str>| {
        make_entry("A", enabled, mode.map(str::to_string), Some(vec![1]))
    };
    for mode in ["off", "on", "devtools", "ppcie"] {
        let entry = made(Some(true), Some(mode)).unwrap();
        assert_eq!(entry.cc_mode, mode);
        assert_eq!(entry.values_sha256, "01");
    }
    for (enabled, mode) in [
        (Some(false), Some("on")),
        (None, Some("on")),
        (Some(true), None),
        (Some(true), Some("enabled")),
        (Some(true), Some("")),
    ] {
        assert_eq!(
            refusal(made(enabled, mode)),
            "profiles/A.values.yaml has a disabled profile or invalid ccMode"
        );
    }
    assert_eq!(
        context(make_entry("A", Some(true), Some("on".to_string()), None)),
        None
    );
}

#[test]
fn members_of_another_type_do_not_count() {
    for json in [
        r#"{"ccMode": "off", "enabled": "true"}"#,
        r#"{"ccMode": true, "enabled": true}"#,
        r#"["ccMode", "enabled"]"#,
        r#"null"#,
    ] {
        assert!(entry("A", &value(json)).is_err());
    }
}

#[test]
fn a_values_file_holds_its_own_profile_and_no_other() {
    assert_eq!(
        context(profile("A", &ValuesFile::Unreadable)).unwrap(),
        "read profiles/A.values.yaml"
    );
    assert_eq!(
        context(profile("A", &ValuesFile::Unparsable)).unwrap(),
        "parse profiles/A.values.yaml"
    );
    let two = ValuesFile::Profiles(vec![
        ("A".to_string(), value(GOOD)),
        ("B".to_string(), value(GOOD)),
    ]);
    assert_eq!(refusal(profile("A", &two)), "profiles/A.values.yaml must contain one profile");
    assert_eq!(
        refusal(profile("A", &ValuesFile::Profiles(Vec::new()))),
        "profiles/A.values.yaml must contain one profile"
    );
    assert_eq!(
        refusal(profile("A", &values("B", GOOD))),
        "profiles/A.values.yaml must contain profiles.A"
    );
    assert_eq!(profile("A", &values("A", GOOD)).unwrap().name, "A");
}

#[test]
fn a_catalog_that_is_not_in_order_is_refused() {
    let none = files(&[]);
    let refused = |families| refusal(index(&catalog(families), &files(&["A", "B"])));
    assert_eq!(
        refusal(index(&Catalog { schema_version: 2, families: Vec::new() }, &none)),
        "unsupported catalog schema"
    );
    assert_eq!(refused(vec![family("", "F", &["A"])]), "empty or duplicate family id: ");
    assert_eq!(
        refused(vec![family("f", "F", &["A"]), family("f", "G", &["B"])]),
        "empty or duplicate family id: f"
    );
    assert_eq!(
        refused(vec![family("f", "", &["A"])]),
        "family f needs a display name and profiles"
    );
    assert_eq!(
        refused(vec![family("f", "F", &[])]),
        "family f needs a display name and profiles"
    );
    assert_eq!(
        refused(vec![family("f", "F", &["A", "A"])]),
        "invalid or duplicate profile name: A"
    );
    assert_eq!(
        refused(vec![family("f", "F", &["A"]), family("g", "G", &["B", "A"])]),
        "invalid or duplicate profile name: A"
    );
    assert_eq!(
        refused(vec![family("f", "F", &["../A"])]),
        "invalid or duplicate profile name: ../A"
    );
    assert_eq!(
        context(index(&catalog(vec![family("f", "F", &["C"])]), &none)).unwrap(),
        "read profiles/C.values.yaml"
    );
}

#[test]
fn the_first_thing_that_is_wrong_is_told() {
    let families = vec![family("f", "F", &["A", "C"]), family("f", "", &[])];
    assert_eq!(
        context(index(&catalog(families), &files(&["A"]))).unwrap(),
        "read profiles/C.values.yaml"
    );
}

#[test]
fn profile_names_are_letters_digits_and_dashes() {
    for name in ["A", "HGX-Hx00", "9", "-"] {
        assert!(is_profile_name(name));
    }
    for name in ["", "a b", "a_b", "a.b", "\u{e9}", "a/b"] {
        assert!(!is_profile_name(name));
    }
    assert_eq!(values_file("HGX-Hx00"), "profiles/HGX-Hx00.values.yaml");
}

#[test]
fn a_values_file_that_is_not_listed_is_refused() {
    let names = strings(&["A"]);
    verify_listed(
        &names,
        &strings(&["A.values.yaml", "MIXED-FLEET.values.yaml", "catalog.json", "B.yaml"]),
    )
    .unwrap();
    assert_eq!(
        verify_listed(&names, &strings(&["A.values.yaml", "B.values.yaml", "C.values.yaml"]))
            .unwrap_err()
            .message,
        "unlisted deployable profile: B"
    );
    assert_eq!(
        verify_listed(&names, &strings(&[".values.yaml"])).unwrap_err().message,
        "unlisted deployable profile: "
    );
}

#[test]
fn a_stale_index_is_refused() {
    verify_current("{}\n", "{}\n").unwrap();
    assert_eq!(
        verify_current("{}", "{}\n").unwrap_err().message,
        "profiles/index.json is stale; run cargo run --manifest-path \
         tools/profile-index/Cargo.toml"
    );
}

#[test]
fn the_only_flag_is_check() {
    assert!(!parse_args(&Vec::new()).unwrap());
    assert!(parse_args(&strings(&["--check"])).unwrap());
    for args in [strings(&["--force"]), strings(&["--check", "--check"])] {
        assert_eq!(
            parse_args(&args).unwrap_err().message,
            "usage: generate-profile-index [--check]"
        );
    }
}
