use oidc_claims::{wire_name, Claims, DecodeError, NumericDate, RunnerEnvironment, Visibility, FIELD_COUNT};

fn members(visibility: &str, runner: &str) -> Vec<(String, String)> {
    let pairs: Vec<(&str, &str)> = vec![
        ("aud", "\"https://example.org\""),
        ("iss", "\"https://token.actions.githubusercontent.com\""),
        ("sub", "\"repo:acme/app:ref:refs/heads/main\""),
        ("exp", "1690369707"),
        ("iat", "1690366107"),
        ("jti", "\"5f1b3c1e-0000-4000-8000-000000000001\""),
        ("nbf", "1690365807"),
        ("actor", "\"octocat\""),
        ("actor_id", "\"583231\""),
        ("base_ref", "\"\""),
        ("event_name", "\"push\""),
        ("head_ref", "\"\""),
        ("ref", "\"refs/heads/main\""),
        ("ref_type", "\"branch\""),
        ("repository_visibility", visibility),
        ("repository", "\"acme/app\""),
        ("repository_id", "\"123456\""),
        ("repository_owner", "\"acme\""),
        ("repository_owner_id", "\"654321\""),
        ("run_id", "\"987654321\""),
        ("run_number", "\"42\""),
        ("run_attempt", "\"1\""),
        ("runner_environment", runner),
        ("workflow", "\"CI\""),
        ("workflow_ref", "\"acme/app/.github/workflows/ci.yml@refs/heads/main\""),
        ("workflow_sha", "\"0123456789abcdef0123456789abcdef01234567\""),
    ];
    pairs.into_iter().map(|(k, v)| (k.to_string(), v.to_string())).collect()
}

fn document(ms: &[(String, String)]) -> String {
    let body: Vec<String> = ms.iter().map(|(k, v)| format!("\"{}\": {}", k, v)).collect();
    format!("{{{}}}", body.join(", "))
}

fn standard_doc() -> String {
    document(&members("\"public\"", "\"self-hosted\""))
}

fn without(key: &str) -> String {
    let ms: Vec<(String, String)> = members("\"public\"", "\"self-hosted\"").into_iter().filter(|(k, _)| k != key).collect();
    document(&ms)
}

fn with_value(key: &str, value: &str) -> String {
    let ms: Vec<(String, String)> = members("\"public\"", "\"self-hosted\"")
        .into_iter()
        .map(|(k, v)| if k == key { (k, value.to_string()) } else { (k, v) })
        .collect();
    document(&ms)
}

#[test]
fn decodes_the_example_document() {
    let c = Claims::decode(&standard_doc()).unwrap();
    assert_eq!(c.git_ref, "refs/heads/main");
    assert_eq!(c.repository_visibility, Visibility::Public);
    assert_eq!(c.runner_environment, RunnerEnvironment::SelfHosted);
    assert_eq!(c.aud, "https://example.org");
    assert_eq!(c.iss, "https://token.actions.githubusercontent.com");
    assert_eq!(c.sub, "repo:acme/app:ref:refs/heads/main");
    assert_eq!(c.exp.as_str(), "1690369707");
    assert_eq!(c.environment, None);
    assert_eq!(c.job_workflow_ref, None);
    assert_eq!(c.job_workflow_sha, None);
}

#[test]
fn example_round_trips() {
    let c = Claims::decode(&standard_doc()).unwrap();
    let again = Claims::decode(&c.encode()).unwrap();
    assert_eq!(again, c);
}

#[test]
fn dummy_round_trips_with_defaults() {
    let d = Claims::make_dummy();
    assert_eq!(d.repository_visibility, Visibility::Public);
    assert_eq!(d.runner_environment, RunnerEnvironment::GithubHosted);
    assert_eq!(d.git_ref, "refs/heads/main");
    assert_eq!(d.ref_type, "branch");
    assert_eq!(d.run_attempt, "1");
    assert_eq!(d.exp.as_str(), "33247274880");
    assert_eq!(d.iat.as_str(), "1690366107");
    assert_eq!(d.nbf.as_str(), "1690366107");
    assert_eq!(d.environment, None);
    assert_eq!(d.aud, "");
    assert_eq!(Claims::decode(&d.encode()), Ok(d));
}

#[test]
fn dummy_encodes_exactly() {
    let expected = [
        "{\"aud\":\"\",\"iss\":\"\",\"sub\":\"\",\"exp\":33247274880,\"iat\":1690366107,",
        "\"jti\":\"\",\"nbf\":1690366107,\"actor\":\"\",\"actor_id\":\"\",\"base_ref\":\"\",",
        "\"event_name\":\"\",\"head_ref\":\"\",\"ref\":\"refs/heads/main\",\"ref_type\":\"branch\",",
        "\"repository_visibility\":\"public\",\"repository\":\"\",\"repository_id\":\"\",",
        "\"repository_owner\":\"\",\"repository_owner_id\":\"\",\"run_id\":\"\",\"run_number\":\"\",",
        "\"run_attempt\":\"1\",\"runner_environment\":\"github-hosted\",\"workflow\":\"\",",
        "\"workflow_ref\":\"\",\"workflow_sha\":\"\"}",
    ]
    .concat();
    assert_eq!(Claims::make_dummy().encode(), expected);
}

#[test]
fn unknown_visibility_is_kept() {
    let c = Claims::decode(&with_value("repository_visibility", "\"secret-ish\"")).unwrap();
    assert_eq!(c.repository_visibility, Visibility::Other("secret-ish".to_string()));
    let text = c.encode();
    assert!(text.contains("\"repository_visibility\":\"secret-ish\""));
    assert_eq!(Claims::decode(&text).unwrap().repository_visibility, Visibility::Other("secret-ish".to_string()));
}

#[test]
fn unknown_runner_is_kept() {
    let c = Claims::decode(&with_value("runner_environment", "\"larger-runner\"")).unwrap();
    assert_eq!(c.runner_environment, RunnerEnvironment::Other("larger-runner".to_string()));
    let text = c.encode();
    assert!(text.contains("\"runner_environment\":\"larger-runner\""));
    assert_eq!(Claims::decode(&text).unwrap(), c);
}

#[test]
fn known_tags_decode_to_their_variants() {
    let c = Claims::decode(&with_value("repository_visibility", "\"internal\"")).unwrap();
    assert_eq!(c.repository_visibility, Visibility::Internal);
    let c = Claims::decode(&with_value("repository_visibility", "\"private\"")).unwrap();
    assert_eq!(c.repository_visibility, Visibility::Private);
    let c = Claims::decode(&with_value("runner_environment", "\"github-hosted\"")).unwrap();
    assert_eq!(c.runner_environment, RunnerEnvironment::GithubHosted);
}

#[test]
fn missing_subject_is_refused() {
    assert_eq!(Claims::decode(&without("sub")), Err(DecodeError::MissingField(2)));
    assert_eq!(wire_name(2), "sub");
}

#[test]
fn missing_date_and_tag_are_refused() {
    assert_eq!(Claims::decode(&without("exp")), Err(DecodeError::MissingField(3)));
    assert_eq!(Claims::decode(&without("runner_environment")), Err(DecodeError::MissingField(25)));
}

#[test]
fn ref_key_maps_to_git_ref() {
    let c = Claims::decode(&with_value("ref", "\"refs/tags/v1.0\"")).unwrap();
    assert_eq!(c.git_ref, "refs/tags/v1.0");
    let text = c.encode();
    assert!(text.contains("\"ref\":\"refs/tags/v1.0\""));
    assert!(!text.contains("git_ref"));
    assert_eq!(wire_name(15), "ref");
    assert_eq!(Claims::decode(&without("ref")), Err(DecodeError::MissingField(15)));
}

#[test]
fn unknown_keys_are_passed_over() {
    let mut ms = members("\"public\"", "\"self-hosted\"");
    ms.push(("ref_protected".to_string(), "\"true\"".to_string()));
    ms.push(("enterprise".to_string(), "{\"a\": [1, 2.5e-3, {\"b\": null}], \"c\": true, \"d\": false}".to_string()));
    ms.push(("empty_list".to_string(), "[ ]".to_string()));
    ms.push(("empty_map".to_string(), "{}".to_string()));
    let c = Claims::decode(&document(&ms)).unwrap();
    assert_eq!(c, Claims::decode(&standard_doc()).unwrap());
}

#[test]
fn malformed_text_is_refused() {
    assert_eq!(Claims::decode(""), Err(DecodeError::Malformed));
    assert_eq!(Claims::decode("not json"), Err(DecodeError::Malformed));
    assert_eq!(Claims::decode("["), Err(DecodeError::Malformed));
    assert_eq!(Claims::decode("{"), Err(DecodeError::Malformed));
    assert_eq!(Claims::decode("{\"aud\" \"x\"}"), Err(DecodeError::Malformed));
    assert_eq!(Claims::decode("{\"aud\": \"x\",}"), Err(DecodeError::Malformed));
    let doc = standard_doc();
    assert_eq!(Claims::decode(&format!("{} x", doc)), Err(DecodeError::Malformed));
    assert_eq!(Claims::decode(&doc[..doc.len() - 1]), Err(DecodeError::Malformed));
    assert!(Claims::decode(&format!(" \n{}\t ", doc)).is_ok());
}

#[test]
fn empty_object_lacks_audience() {
    assert_eq!(Claims::decode("{}"), Err(DecodeError::MissingField(0)));
    assert_eq!(Claims::decode(" { } "), Err(DecodeError::MissingField(0)));
}

#[test]
fn duplicate_claim_is_refused() {
    let mut ms = members("\"public\"", "\"self-hosted\"");
    ms.push(("aud".to_string(), "\"https://other.example\"".to_string()));
    assert_eq!(Claims::decode(&document(&ms)), Err(DecodeError::DuplicateField(0)));
}

#[test]
fn wrong_types_are_refused() {
    assert_eq!(Claims::decode(&with_value("exp", "\"1690369707\"")), Err(DecodeError::WrongType(3)));
    assert_eq!(Claims::decode(&with_value("aud", "17")), Err(DecodeError::WrongType(0)));
    assert_eq!(Claims::decode(&with_value("repository_visibility", "1")), Err(DecodeError::WrongType(17)));
    assert_eq!(Claims::decode(&with_value("runner_environment", "[\"x\"]")), Err(DecodeError::WrongType(25)));
    assert_eq!(Claims::decode(&with_value("sub", "null")), Err(DecodeError::WrongType(2)));
    assert_eq!(Claims::decode(&with_value("actor", "true")), Err(DecodeError::WrongType(7)));
}

#[test]
fn optional_claims_present_absent_or_null() {
    let mut ms = members("\"public\"", "\"self-hosted\"");
    ms.push(("environment".to_string(), "\"production\"".to_string()));
    ms.push(("job_workflow_ref".to_string(), "null".to_string()));
    ms.push(("job_workflow_sha".to_string(), "\"abc123\"".to_string()));
    let c = Claims::decode(&document(&ms)).unwrap();
    assert_eq!(c.environment, Some("production".to_string()));
    assert_eq!(c.job_workflow_ref, None);
    assert_eq!(c.job_workflow_sha, Some("abc123".to_string()));
    let text = c.encode();
    assert!(text.contains("\"environment\":\"production\""));
    assert!(!text.contains("job_workflow_ref"));
    assert_eq!(Claims::decode(&text).unwrap(), c);
    let mut bad = members("\"public\"", "\"self-hosted\"");
    bad.push(("environment".to_string(), "5".to_string()));
    assert_eq!(Claims::decode(&document(&bad)), Err(DecodeError::WrongType(10)));
}

#[test]
fn escapes_are_decoded() {
    let c = Claims::decode(&with_value("actor", "\"a\\\"b\\\\c\\/d\\n\\t\\u00e9\\ud83d\\ude00\"")).unwrap();
    assert_eq!(c.actor, "a\"b\\c/d\n\t\u{e9}\u{1F600}");
    assert_eq!(Claims::decode(&with_value("actor", "\"\\u00E9\"")).unwrap().actor, "\u{e9}");
}

#[test]
fn bad_escapes_are_refused() {
    assert_eq!(Claims::decode(&with_value("actor", "\"\\x\"")), Err(DecodeError::Malformed));
    assert_eq!(Claims::decode(&with_value("actor", "\"\\ud83d\"")), Err(DecodeError::Malformed));
    assert_eq!(Claims::decode(&with_value("actor", "\"\\ude00\"")), Err(DecodeError::Malformed));
    assert_eq!(Claims::decode(&with_value("actor", "\"\\u12g4\"")), Err(DecodeError::Malformed));
    assert_eq!(Claims::decode(&with_value("actor", "\"a\u{1}b\"")), Err(DecodeError::Malformed));
}

#[test]
fn special_characters_round_trip() {
    let mut c = Claims::make_dummy();
    c.actor = "quote\" back\\ nl\n ctl\u{1} \u{1F600} é".to_string();
    c.environment = Some("stage \"two\"".to_string());
    let text = c.encode();
    assert!(text.contains("\"actor\":\"quote\\\" back\\\\ nl\\u000a ctl\\u0001 \u{1F600} é\""));
    assert_eq!(Claims::decode(&text), Ok(c));
}

#[test]
fn dates_keep_their_text() {
    let c = Claims::decode(&with_value("exp", "1.6903697075e9")).unwrap();
    assert_eq!(c.exp.as_str(), "1.6903697075e9");
    assert!(c.encode().contains("\"exp\":1.6903697075e9"));
    let c = Claims::decode(&with_value("iat", "-0.5E+2")).unwrap();
    assert_eq!(c.iat.as_str(), "-0.5E+2");
    assert_eq!(Claims::decode(&c.encode()), Ok(c));
}

#[test]
fn bad_numbers_are_refused() {
    assert_eq!(Claims::decode(&with_value("exp", "01")), Err(DecodeError::Malformed));
    assert_eq!(Claims::decode(&with_value("exp", "-")), Err(DecodeError::Malformed));
    assert_eq!(Claims::decode(&with_value("exp", "1.")), Err(DecodeError::Malformed));
    assert_eq!(Claims::decode(&with_value("exp", "1e")), Err(DecodeError::Malformed));
    assert_eq!(Claims::decode(&with_value("exp", "+1")), Err(DecodeError::Malformed));
}

#[test]
fn numeric_date_parse() {
    assert_eq!(NumericDate::parse("1690366107").unwrap().as_str(), "1690366107");
    assert_eq!(NumericDate::parse("0").unwrap().as_str(), "0");
    assert_eq!(NumericDate::parse("-12.25e-3").unwrap().as_str(), "-12.25e-3");
    assert!(NumericDate::parse("").is_none());
    assert!(NumericDate::parse("00").is_none());
    assert!(NumericDate::parse("1.5 ").is_none());
    assert!(NumericDate::parse("NaN").is_none());
}

#[test]
fn open_enumerations_map_text() {
    assert_eq!(Visibility::from_wire("public"), Visibility::Public);
    assert_eq!(Visibility::from_wire("Public"), Visibility::Other("Public".to_string()));
    assert_eq!(Visibility::Other("x".to_string()).as_wire(), "x");
    assert_eq!(Visibility::Internal.as_wire(), "internal");
    assert_eq!(RunnerEnvironment::from_wire("self-hosted"), RunnerEnvironment::SelfHosted);
    assert_eq!(RunnerEnvironment::from_wire(""), RunnerEnvironment::Other(String::new()));
    assert_eq!(RunnerEnvironment::GithubHosted.as_wire(), "github-hosted");
}

#[test]
fn field_table_keys() {
    assert_eq!(FIELD_COUNT, 29);
    assert_eq!(wire_name(0), "aud");
    assert_eq!(wire_name(17), "repository_visibility");
    assert_eq!(wire_name(28), "workflow_sha");
}

#[test]
fn deep_nesting_is_refused() {
    let deep = format!("{}{}", "[".repeat(200), "]".repeat(200));
    let mut ms = members("\"public\"", "\"self-hosted\"");
    ms.push(("extra".to_string(), deep));
    assert_eq!(Claims::decode(&document(&ms)), Err(DecodeError::Malformed));
    let shallow = format!("{}{}", "[".repeat(100), "]".repeat(100));
    let mut ms = members("\"public\"", "\"self-hosted\"");
    ms.push(("extra".to_string(), shallow));
    assert!(Claims::decode(&document(&ms)).is_ok());
}

#[test]
fn errors_name_their_claim() {
    assert_eq!(DecodeError::MissingField(2).field(), Some("sub"));
    assert_eq!(DecodeError::WrongType(15).field(), Some("ref"));
    assert_eq!(DecodeError::DuplicateField(0).field(), Some("aud"));
    assert_eq!(DecodeError::Malformed.field(), None);
    assert_eq!(DecodeError::WrongType(29).field(), None);
}
