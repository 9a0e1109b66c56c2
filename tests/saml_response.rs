use oktaws::saml::{Response, SamlError};

fn assertion(values: &[&str]) -> String {
    let mut xml = String::from(
        "<?xml version=\"1.0\" encoding=\"UTF-8\"?><saml2p:Response xmlns:saml2p=\"urn:oasis:names:tc:SAML:2.0:protocol\" xmlns:saml2=\"urn:oasis:names:tc:SAML:2.0:assertion\"><saml2:Assertion><saml2:AttributeStatement><saml2:Attribute Name=\"https://aws.amazon.com/SAML/Attributes/Role\">",
    );
    for v in values {
        xml.push_str("<saml2:AttributeValue>");
        xml.push_str(v);
        xml.push_str("</saml2:AttributeValue>");
    }
    xml.push_str("</saml2:Attribute><saml2:Attribute Name=\"other\"><saml2:AttributeValue>x</saml2:AttributeValue></saml2:Attribute></saml2:AttributeStatement></saml2:Assertion></saml2p:Response>");
    xml
}

#[test]
fn parse_response_invalid_no_role() {
    let saml_xml = assertion(&["arn:aws:iam::123456789012:saml-provider/okta-idp"]);
    let saml_base64 = base64::encode(&saml_xml);
    let response: SamlError = Response::from_str(&saml_base64).unwrap_err();
    assert_eq!(
        response.message(),
        "Not enough elements in arn:aws:iam::123456789012:saml-provider/okta-idp"
    );
}

#[test]
fn parse_response_with_roles() {
    let saml_xml = assertion(&["provider-a,arn:aws:iam::1:role/a", "provider-b,arn:aws:iam::2:role/b"]);
    let saml_base64 = base64::encode(&saml_xml);
    let response = Response::from_str(&saml_base64).unwrap();
    assert_eq!(response.raw, saml_base64);
    assert_eq!(response.roles.len(), 2);
    assert_eq!(response.roles[0].provider_arn, "provider-a");
    assert_eq!(response.roles[0].role_arn, "arn:aws:iam::1:role/a");
    assert_eq!(response.roles[1].provider_arn, "provider-b");
    assert_eq!(response.roles[1].role_arn, "arn:aws:iam::2:role/b");
}

#[test]
fn parse_response_without_roles() {
    let saml_base64 = base64::encode(&assertion(&[]));
    let response = Response::from_str(&saml_base64).unwrap();
    assert!(response.roles.is_empty());
}

#[test]
fn parse_response_bad_base64() {
    assert!(matches!(Response::from_str("not base64!"), Err(SamlError::Encoding)));
}

#[test]
fn parse_response_bad_utf8() {
    let encoded = base64::encode(&[0xffu8, 0xfe, 0xfd]);
    assert!(matches!(Response::from_str(&encoded), Err(SamlError::Encoding)));
}

#[test]
fn parse_response_bad_xml() {
    let encoded = base64::encode("<a><b></a>");
    assert!(matches!(Response::from_str(&encoded), Err(SamlError::Document)));
}

#[test]
fn attribute_values_one_bad_fails_all() {
    let values = vec![String::from("p,r"), String::from("bad"), String::from("q,s")];
    match Response::from_attribute_values(String::from("raw"), &values) {
        Err(SamlError::Role(e)) => assert_eq!(e.text, "bad"),
        other => panic!("unexpected {:?}", other),
    }
    let good = vec![String::from("p,r"), String::from("q,s"), String::from("p,r")];
    let response = Response::from_attribute_values(String::from("raw"), &good).unwrap();
    assert_eq!(response.roles.len(), 2);
    assert_eq!(response.roles[0].to_string(), "p,r");
    assert_eq!(response.roles[1].to_string(), "q,s");
    assert_eq!(response.raw, "raw");
}

#[test]
fn parse_response_repeated_role_counts_once() {
    let saml_base64 = base64::encode(&assertion(&["p,arn:aws:iam::1:role/a", "p,arn:aws:iam::1:role/a"]));
    let response = Response::from_str(&saml_base64).unwrap();
    assert_eq!(response.roles.len(), 1);
}
