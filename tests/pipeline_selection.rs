use oktaws::pipeline::{select_application, select_role, AppLink, PipelineError, Profile};
use oktaws::role::Role;

fn link(app: &str, label: &str, url: &str) -> AppLink {
    AppLink { app_name: String::from(app), label: String::from(label), link_url: String::from(url) }
}

fn profile() -> Profile {
    Profile {
        name: String::from("prod"),
        application_name: String::from("AWS Prod"),
        role: String::from("admin"),
        duration_seconds: Some(3600),
    }
}

#[test]
fn application_is_matched_by_type_and_label() {
    let links = vec![
        link("salesforce", "AWS Prod", "u0"),
        link("amazon_aws", "AWS Dev", "u1"),
        link("amazon_aws", "AWS Prod", "u2"),
    ];
    assert_eq!(select_application(&links, &profile()).unwrap(), 2);
    match select_application(&links[..2].iter().map(|l| link(&l.app_name, &l.label, &l.link_url)).collect(), &profile()) {
        Err(PipelineError::NoApplication { profile }) => assert_eq!(profile, "prod"),
        other => panic!("unexpected {:?}", other),
    }
}

#[test]
fn role_is_matched_by_name() {
    let roles = vec![
        Role::from_str("p,arn:aws:iam::1:role/reader").unwrap(),
        Role::from_str("p,arn:aws:iam::1:role/admin").unwrap(),
    ];
    assert_eq!(select_role(&roles, &profile()).unwrap(), 1);
    match select_role(&roles[..1].iter().map(|r| Role::from_str(&r.to_string()).unwrap()).collect(), &profile()) {
        Err(PipelineError::NoRole { profile, role }) => {
            assert_eq!(profile, "prod");
            assert_eq!(role, "admin");
        }
        other => panic!("unexpected {:?}", other),
    }
}
