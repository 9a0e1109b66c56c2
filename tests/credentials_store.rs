use oktaws::credentials::{CredentialsStore, ProfileCredentials, StoreError};

fn sts(a: &str, s: &str, t: &str) -> ProfileCredentials {
    ProfileCredentials::Sts {
        access_key_id: String::from(a),
        secret_access_key: String::from(s),
        session_token: String::from(t),
    }
}

fn iam(a: &str, s: &str) -> ProfileCredentials {
    ProfileCredentials::Iam { access_key_id: String::from(a), secret_access_key: String::from(s) }
}

#[test]
fn parse_sts() {
    let text = "[example]
aws_access_key_id=ACCESS_KEY
aws_secret_access_key=SECRET_ACCESS_KEY
aws_session_token=SESSION_TOKEN";
    let credentials_store = CredentialsStore::parse(text).unwrap();
    let expected_credentials = vec![(
        String::from("example"),
        sts("ACCESS_KEY", "SECRET_ACCESS_KEY", "SESSION_TOKEN"),
    )];
    assert_eq!(credentials_store.credentials, expected_credentials);
}

#[test]
fn double_entries() {
    let text = "
[example]
aws_access_key_id=ACCESS_KEY
aws_secret_access_key=SECRET_ACCESS_KEY
aws_session_token=SESSION_TOKEN
[example]
aws_access_key_id=ACCESS_KEY
aws_secret_access_key=SECRET_ACCESS_KEY
aws_session_token=SESSION_TOKEN";
    let credentials_store = CredentialsStore::parse(text).unwrap();
    let expected_credentials = vec![(
        String::from("example"),
        sts("ACCESS_KEY", "SECRET_ACCESS_KEY", "SESSION_TOKEN"),
    )];
    assert_eq!(credentials_store.credentials, expected_credentials);
}

#[test]
fn save_sts() {
    let text = "
[existing]
aws_access_key_id=ACCESS_KEY
aws_secret_access_key=SECRET_ACCESS_KEY
[example]
aws_access_key_id=ACCESS_KEY
aws_secret_access_key=SECRET_ACCESS_KEY
aws_session_token=SESSION_TOKEN";
    let mut credentials_store = CredentialsStore::parse(text).unwrap();
    credentials_store
        .set_profile(
            String::from("example"),
            sts("ACCESS_KEY2", "SECRET_ACCESS_KEY2", "SESSION_TOKEN2"),
        )
        .unwrap();
    let buf = credentials_store.save();
    assert_eq!(
        &buf,
        "[example]\r\naws_access_key_id=ACCESS_KEY2\r\naws_secret_access_key=SECRET_ACCESS_KEY2\r\naws_session_token=SESSION_TOKEN2\r\n[existing]\r\naws_access_key_id=ACCESS_KEY\r\naws_secret_access_key=SECRET_ACCESS_KEY\r\n"
    );
}

#[test]
fn parse_iam() {
    let text = "[example]\naws_access_key_id=ACCESS_KEY\naws_secret_access_key=SECRET_ACCESS_KEY";
    let credentials_store = CredentialsStore::parse(text).unwrap();
    let expected_credentials =
        vec![(String::from("example"), iam("ACCESS_KEY", "SECRET_ACCESS_KEY"))];
    assert_eq!(credentials_store.credentials, expected_credentials);
}

#[test]
fn duplicate_sections_last_wins() {
    let text = "[a]\naws_access_key_id=K1\naws_secret_access_key=S1\n[a]\naws_access_key_id=K2\naws_secret_access_key=S2\naws_session_token=T2\n";
    let store = CredentialsStore::parse(text).unwrap();
    assert_eq!(store.len(), 1);
    assert_eq!(store.get("a"), Some(&sts("K2", "S2", "T2")));
}

#[test]
fn upsert_over_iam_is_refused() {
    let mut store = CredentialsStore::new();
    store.set_profile(String::from("existing"), iam("K", "S")).unwrap();
    let r = store.set_profile(String::from("existing"), sts("K2", "S2", "T2"));
    match r {
        Err(StoreError::NotStsManaged(name)) => assert_eq!(name, "existing"),
        other => panic!("unexpected {:?}", other),
    }
    assert_eq!(store.get("existing"), Some(&iam("K", "S")));
    assert_eq!(store.len(), 1);
}

#[test]
fn upsert_over_sts_replaces_all_fields() {
    let mut store = CredentialsStore::new();
    store.set_profile(String::from("p"), sts("K1", "S1", "T1")).unwrap();
    store.set_profile(String::from("p"), sts("K2", "S2", "T2")).unwrap();
    assert_eq!(store.get("p"), Some(&sts("K2", "S2", "T2")));
    assert_eq!(store.len(), 1);
}

#[test]
fn upsert_keeps_names_sorted() {
    let mut store = CredentialsStore::new();
    store.set_profile(String::from("m"), sts("1", "1", "1")).unwrap();
    store.set_profile(String::from("b"), sts("2", "2", "2")).unwrap();
    store.set_profile(String::from("z"), sts("3", "3", "3")).unwrap();
    store.set_profile(String::from("ba"), sts("4", "4", "4")).unwrap();
    let names: Vec<&str> = store.credentials.iter().map(|e| e.0.as_str()).collect();
    assert_eq!(names, vec!["b", "ba", "m", "z"]);
    assert_eq!(store.get("q"), None);
}

#[test]
fn empty_store_renders_nothing() {
    let store = CredentialsStore::parse("").unwrap();
    assert_eq!(store.len(), 0);
    assert_eq!(store.save(), "");
}

#[test]
fn comments_and_crlf_are_read() {
    let text = "; comment\r\n# other\r\n[x]\r\naws_access_key_id=A=B\r\naws_secret_access_key=S\r\n";
    let store = CredentialsStore::parse(text).unwrap();
    assert_eq!(store.get("x"), Some(&iam("A=B", "S")));
}

#[test]
fn pair_before_section_is_a_syntax_error() {
    assert!(matches!(CredentialsStore::parse("a=b\n[x]\n"), Err(StoreError::Syntax)));
    assert!(matches!(CredentialsStore::parse("[x]\nnot a pair\n"), Err(StoreError::Syntax)));
}

#[test]
fn section_without_secret_is_rejected() {
    match CredentialsStore::parse("[x]\naws_access_key_id=A\n") {
        Err(StoreError::MissingField(name)) => assert_eq!(name, "x"),
        other => panic!("unexpected {:?}", other),
    }
}

#[test]
fn rendered_file_reads_back() {
    let mut store = CredentialsStore::new();
    store.set_profile(String::from("b"), sts("K", "S", "T")).unwrap();
    store.set_profile(String::from("a"), iam("K0", "S0")).unwrap();
    let again = CredentialsStore::parse(&store.save()).unwrap();
    assert_eq!(again.credentials, store.credentials);
}
