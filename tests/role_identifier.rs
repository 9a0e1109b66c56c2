use oktaws::role::{Role, RoleErrorKind};

#[test]
fn role_parses_and_renders_back() {
    let s = "arn:aws:iam::123456789012:saml-provider/okta-idp,arn:aws:iam::123456789012:role/admin";
    let role = Role::from_str(s).unwrap();
    assert_eq!(role.provider_arn, "arn:aws:iam::123456789012:saml-provider/okta-idp");
    assert_eq!(role.role_arn, "arn:aws:iam::123456789012:role/admin");
    assert_eq!(role.to_string(), s);
}

#[test]
fn role_without_comma_is_rejected() {
    let e = Role::from_str("arn:aws:iam::123456789012:saml-provider/okta-idp").unwrap_err();
    assert_eq!(e.kind, RoleErrorKind::NotEnoughElements);
    assert_eq!(
        e.message(),
        "Not enough elements in arn:aws:iam::123456789012:saml-provider/okta-idp"
    );
}

#[test]
fn role_with_two_commas_is_rejected() {
    let e = Role::from_str("a,b,c").unwrap_err();
    assert_eq!(e.kind, RoleErrorKind::TooManyElements);
    assert_eq!(e.message(), "Too many elements in a,b,c");
}

#[test]
fn role_with_empty_component_is_rejected() {
    assert_eq!(Role::from_str(",b").unwrap_err().kind, RoleErrorKind::EmptyComponent);
    assert_eq!(Role::from_str("a,").unwrap_err().kind, RoleErrorKind::EmptyComponent);
    assert_eq!(Role::from_str("").unwrap_err().kind, RoleErrorKind::NotEnoughElements);
}

#[test]
fn role_name_is_after_the_slash() {
    let role = Role::from_str("p,arn:aws:iam::1:role/admin").unwrap();
    assert_eq!(role.role_name(), Some(String::from("admin")));
    let nested = Role::from_str("p,arn:aws:iam::1:role/a/b").unwrap();
    assert_eq!(nested.role_name(), None);
    let bare = Role::from_str("p,arn:aws:iam::1:root").unwrap();
    assert_eq!(bare.role_name(), None);
}

#[test]
fn roles_compare_by_both_components() {
    let a = Role::from_str("p,r").unwrap();
    let b = Role::from_str("p,r").unwrap();
    let c = Role::from_str("p,s").unwrap();
    assert_eq!(a, b);
    assert_ne!(a, c);
    let mut set = std::collections::HashSet::new();
    set.insert(a);
    set.insert(b);
    set.insert(c);
    assert_eq!(set.len(), 2);
}
