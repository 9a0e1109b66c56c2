use oktaws::auth::{
    Action, AuthError, Client, Event, Factor, LoginEmbedded, LoginRequest, LoginResponse,
    LoginState, Phase,
};

fn response(status: LoginState, state: Option<&str>, session: Option<&str>, factors: Option<Vec<Factor>>) -> LoginResponse {
    LoginResponse {
        state_token: state.map(String::from),
        session_token: session.map(String::from),
        expires_at: String::from("2030-01-01T00:00:00.000Z"),
        status,
        relay_state: None,
        embedded: factors.map(|factors| LoginEmbedded { factors }),
    }
}

fn sms(id: &str) -> Factor {
    Factor { id: String::from(id), factor_type: String::from("sms"), label: String::from("SMS") }
}

#[test]
fn request_constructors() {
    let r = LoginRequest::from_credentials(String::from("u"), String::from("p"));
    assert_eq!(r.username.as_deref(), Some("u"));
    assert_eq!(r.password.as_deref(), Some("p"));
    assert!(r.state_token.is_none());
    let t = LoginRequest::from_state_token(String::from("st"));
    assert_eq!(t.state_token.as_deref(), Some("st"));
    assert!(t.username.is_none() && t.password.is_none());
}

#[test]
fn login_success_skips_mfa() {
    let client = Client::new(String::from("org"));
    let (mut session, action) =
        client.login(LoginRequest::from_credentials(String::from("u"), String::from("p")));
    assert!(matches!(action, Action::Login(_)));
    let next = session.advance(Event::Response(response(LoginState::Success, None, Some("sess"), None)));
    match next {
        Action::Done(t) => assert_eq!(t, "sess"),
        other => panic!("unexpected {:?}", other),
    }
    assert_eq!(session.phase, Phase::Success);
}

#[test]
fn login_with_one_factor_goes_to_passcode() {
    let client = Client::new(String::from("org"));
    let (mut session, _) =
        client.login(LoginRequest::from_credentials(String::from("u"), String::from("p")));
    let next = session.advance(Event::Response(response(
        LoginState::MfaRequired,
        Some("st1"),
        None,
        Some(vec![sms("f1")]),
    )));
    match next {
        Action::Verify { factor, request } => {
            assert_eq!(factor, 0);
            assert_eq!(request.state_token, "st1");
            assert!(request.pass_code.is_none());
        }
        other => panic!("unexpected {:?}", other),
    }
    let next = session.advance(Event::Response(response(LoginState::MfaChallenge, Some("st2"), None, None)));
    assert!(matches!(next, Action::PromptPasscode));
    let next = session.advance(Event::Passcode(String::from("123456")));
    match next {
        Action::Verify { factor, request } => {
            assert_eq!(factor, 0);
            assert_eq!(request.state_token, "st2");
            assert_eq!(request.pass_code.as_deref(), Some("123456"));
        }
        other => panic!("unexpected {:?}", other),
    }
    let next = session.advance(Event::Response(response(LoginState::Success, None, Some("sess"), None)));
    assert!(matches!(next, Action::Done(ref t) if t == "sess"));
}

#[test]
fn login_with_many_factors_asks_for_a_choice() {
    let client = Client::new(String::from("org"));
    let (mut session, _) = client.login(LoginRequest::from_state_token(String::from("st0")));
    let next = session.advance(Event::Response(response(
        LoginState::MfaRequired,
        Some("st1"),
        None,
        Some(vec![sms("f1"), sms("f2")]),
    )));
    assert!(matches!(next, Action::ChooseFactor));
    assert_eq!(session.factors.len(), 2);
    let next = session.advance(Event::FactorChosen(1));
    assert!(matches!(next, Action::Verify { factor: 1, .. }));
}

#[test]
fn login_failures() {
    let client = Client::new(String::from("org"));
    let (mut s1, _) = client.login(LoginRequest::from_state_token(String::from("x")));
    let a = s1.advance(Event::Response(response(LoginState::MfaRequired, Some("st"), None, Some(vec![]))));
    assert!(matches!(a, Action::Fail(AuthError::NoFactors)));
    assert_eq!(s1.phase, Phase::Failed);

    let (mut s2, _) = client.login(LoginRequest::from_state_token(String::from("x")));
    let a = s2.advance(Event::Response(response(LoginState::LockedOut, None, None, None)));
    match a {
        Action::Fail(AuthError::UnsupportedStatus(r)) => assert_eq!(r.status, LoginState::LockedOut),
        other => panic!("unexpected {:?}", other),
    }

    let (mut s3, _) = client.login(LoginRequest::from_state_token(String::from("x")));
    let a = s3.advance(Event::Response(response(LoginState::Success, None, None, None)));
    assert!(matches!(a, Action::Fail(AuthError::MissingSessionToken)));

    let (mut s4, _) = client.login(LoginRequest::from_state_token(String::from("x")));
    let a = s4.advance(Event::Response(response(LoginState::MfaRequired, None, None, Some(vec![sms("f")]))));
    assert!(matches!(a, Action::Fail(AuthError::MissingStateToken)));

    let (mut s5, _) = client.login(LoginRequest::from_state_token(String::from("x")));
    s5.advance(Event::Response(response(LoginState::MfaRequired, Some("a"), None, Some(vec![sms("f")]))));
    s5.advance(Event::Response(response(LoginState::MfaChallenge, Some("b"), None, None)));
    s5.advance(Event::Passcode(String::from("1")));
    let a = s5.advance(Event::Response(response(LoginState::MfaChallenge, Some("c"), None, None)));
    match a {
        Action::Fail(AuthError::VerificationFailed(r)) => {
            assert_eq!(r.status, LoginState::MfaChallenge);
            assert_eq!(r.state_token.as_deref(), Some("c"));
        }
        other => panic!("unexpected {:?}", other),
    }

    let (mut s6, _) = client.login(LoginRequest::from_state_token(String::from("x")));
    s6.advance(Event::Response(response(LoginState::MfaRequired, Some("a"), None, Some(vec![sms("f"), sms("g")]))));
    let a = s6.advance(Event::FactorChosen(2));
    assert!(matches!(a, Action::Fail(AuthError::InvalidFactorChoice)));
    let a = s6.advance(Event::Passcode(String::from("1")));
    assert!(matches!(a, Action::Fail(AuthError::UnexpectedEvent)));
}

#[test]
fn mfa_without_factor_list_is_a_protocol_error() {
    let client = Client::new(String::from("org"));
    let (mut session, _) = client.login(LoginRequest::from_state_token(String::from("x")));
    let a = session.advance(Event::Response(response(LoginState::MfaRequired, Some("st"), None, None)));
    assert!(matches!(a, Action::Fail(AuthError::MissingFactors)));
    assert_eq!(session.phase, Phase::Failed);
}
