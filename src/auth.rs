use vstd::prelude::*;

verus! {

/// Where the login request is posted, relative to the organization's URL.
pub const LOGIN_PATH: &'static str = "api/v1/authn";

/// Options of a login request.
#[derive(Debug, Clone, Copy, PartialEq, Eq, Structural)]
pub struct Options {
    pub multi_optional_factor_enroll: bool,
    pub warn_before_password_expired: bool,
}

/// A request to the authentication endpoint: a username and password, or a
/// state token issued earlier.
#[derive(Debug)]
pub struct LoginRequest {
    pub username: Option<String>,
    pub password: Option<String>,
    pub relay_state: Option<String>,
    pub options: Option<Options>,
    pub state_token: Option<String>,
}

impl LoginRequest {
    pub fn from_credentials(username: String, password: String) -> (r: LoginRequest)
        ensures
            r == (LoginRequest {
                username: Some(username),
                password: Some(password),
                relay_state: None,
                options: None,
                state_token: None,
            }),
    {
        LoginRequest {
            username: Some(username),
            password: Some(password),
            relay_state: None,
            options: None,
            state_token: None,
        }
    }

    pub fn from_state_token(token: String) -> (r: LoginRequest)
        ensures
            r == (LoginRequest {
                username: None,
                password: None,
                relay_state: None,
                options: None,
                state_token: Some(token),
            }),
    {
        LoginRequest {
            username: None,
            password: None,
            relay_state: None,
            options: None,
            state_token: Some(token),
        }
    }
}

/// The status that the identity provider reports for a login.
#[derive(Debug, Clone, Copy, PartialEq, Eq, Structural)]
pub enum LoginState {
    Unauthenticated,
    PasswordWarn,
    PasswordExpired,
    Recovery,
    RecoveryChallenge,
    PasswordReset,
    LockedOut,
    MfaEnroll,
    MfaEnrollActivate,
    MfaRequired,
    MfaChallenge,
    Success,
}

/// One multi-factor mechanism offered to the user.
#[derive(Debug)]
pub struct Factor {
    pub id: String,
    pub factor_type: String,
    pub label: String,
}

/// What a login response embeds.
#[derive(Debug)]
pub struct LoginEmbedded {
    pub factors: Vec<Factor>,
}

/// A response of the authentication or the factor verification endpoint.
#[derive(Debug)]
pub struct LoginResponse {
    pub state_token: Option<String>,
    pub session_token: Option<String>,
    pub expires_at: String,
    pub status: LoginState,
    pub relay_state: Option<String>,
    pub embedded: Option<LoginEmbedded>,
}

/// A request to the factor verification endpoint; without a passcode it
/// asks the factor to issue a challenge.
#[derive(Debug)]
pub struct FactorVerificationRequest {
    pub state_token: String,
    pub pass_code: Option<String>,
}

/// Why a login failed.
#[derive(Debug)]
pub enum AuthError {
    /// A successful response carried no session token.
    MissingSessionToken,
    /// A response that should carry a state token did not.
    MissingStateToken,
    /// A response that requires a second factor embedded no factor list.
    MissingFactors,
    /// A second factor is required and none is available.
    NoFactors,
    /// The operator chose a factor that is not offered.
    InvalidFactorChoice,
    /// The login ended in a status that this library does not handle; the
    /// response is kept for diagnostics.
    UnsupportedStatus(LoginResponse),
    /// Factor verification ended in a status other than success; the
    /// response is kept for diagnostics.
    VerificationFailed(LoginResponse),
    /// An event came that the current phase does not expect.
    UnexpectedEvent,
}

/// Where a login stands.
#[derive(Debug, Clone, Copy, PartialEq, Eq, Structural)]
pub enum Phase {
    AwaitingLogin,
    AwaitingFactorChoice,
    AwaitingPrime,
    AwaitingPasscode,
    AwaitingVerification,
    Success,
    Failed,
}

/// What the caller does next.
#[derive(Debug)]
pub enum Action {
    /// Post this request to the authentication endpoint and hand back the
    /// response.
    Login(LoginRequest),
    /// Ask the operator to pick one of the session's factors and hand back
    /// its index.
    ChooseFactor,
    /// Post this request to the verification endpoint of the session's
    /// factor at this index and hand back the response.
    Verify { factor: usize, request: FactorVerificationRequest },
    /// Ask the operator for the passcode and hand it back.
    PromptPasscode,
    /// The login succeeded with this session token.
    Done(String),
    /// The login failed.
    Fail(AuthError),
}

/// What the caller hands back.
#[derive(Debug)]
pub enum Event {
    Response(LoginResponse),
    FactorChosen(usize),
    Passcode(String),
}

/// One login attempt.
#[derive(Debug)]
pub struct LoginSession {
    pub phase: Phase,
    pub state_token: Option<String>,
    pub factors: Vec<Factor>,
    pub factor: usize,
}

/// The session failed with `e`.
pub open spec fn failed(s: LoginSession, e: AuthError) -> (LoginSession, Action) {
    (LoginSession { phase: Phase::Failed, ..s }, Action::Fail(e))
}

/// Factor `i` is selected: ask it for a challenge with the current state
/// token.
pub open spec fn prime(s: LoginSession, i: usize) -> (LoginSession, Action) {
    match s.state_token {
        Some(t) => (
            LoginSession { phase: Phase::AwaitingPrime, state_token: None, factor: i, ..s },
            Action::Verify {
                factor: i,
                request: FactorVerificationRequest { state_token: t, pass_code: None },
            },
        ),
        None => failed(s, AuthError::MissingStateToken),
    }
}

/// A session token when the status is success.
pub open spec fn finish(s: LoginSession, r: LoginResponse) -> (LoginSession, Action) {
    match r.session_token {
        Some(t) => (LoginSession { phase: Phase::Success, ..s }, Action::Done(t)),
        None => failed(s, AuthError::MissingSessionToken),
    }
}

/// The next session and action of a login, given what came back.
pub open spec fn step_spec(s: LoginSession, e: Event) -> (LoginSession, Action) {
    match (s.phase, e) {
        (Phase::AwaitingLogin, Event::Response(r)) => match r.status {
            LoginState::Success => finish(s, r),
            LoginState::MfaRequired => match r.embedded {
                None => failed(s, AuthError::MissingFactors),
                Some(emb) => {
                    let s2 = LoginSession { state_token: r.state_token, factors: emb.factors, ..s };
                    if emb.factors.len() == 0 {
                        failed(s2, AuthError::NoFactors)
                    } else if emb.factors.len() == 1 {
                        prime(s2, 0)
                    } else {
                        (LoginSession { phase: Phase::AwaitingFactorChoice, ..s2 }, Action::ChooseFactor)
                    }
                },
            },
            _ => failed(s, AuthError::UnsupportedStatus(r)),
        },
        (Phase::AwaitingFactorChoice, Event::FactorChosen(i)) => if i < s.factors.len() {
            prime(s, i)
        } else {
            failed(s, AuthError::InvalidFactorChoice)
        },
        (Phase::AwaitingPrime, Event::Response(r)) => match r.state_token {
            Some(t) => (
                LoginSession { phase: Phase::AwaitingPasscode, state_token: Some(t), ..s },
                Action::PromptPasscode,
            ),
            None => failed(s, AuthError::MissingStateToken),
        },
        (Phase::AwaitingPasscode, Event::Passcode(code)) => match s.state_token {
            Some(t) => (
                LoginSession { phase: Phase::AwaitingVerification, state_token: None, ..s },
                Action::Verify {
                    factor: s.factor,
                    request: FactorVerificationRequest { state_token: t, pass_code: Some(code) },
                },
            ),
            None => failed(s, AuthError::MissingStateToken),
        },
        (Phase::AwaitingVerification, Event::Response(r)) => match r.status {
            LoginState::Success => finish(s, r),
            _ => failed(s, AuthError::VerificationFailed(r)),
        },
        _ => failed(s, AuthError::UnexpectedEvent),
    }
}

/// The factor index of a session is in range while a factor is in use.
pub open spec fn session_wf(s: LoginSession) -> bool {
    (s.phase == Phase::AwaitingPrime || s.phase == Phase::AwaitingPasscode || s.phase
        == Phase::AwaitingVerification) ==> s.factor < s.factors.len()
}

/// A client of one organization's identity provider.
#[derive(Debug)]
pub struct Client {
    pub organization: String,
}

impl Client {
    pub fn new(organization: String) -> (r: Client)
        ensures
            r.organization == organization,
    {
        Client { organization }
    }

    /// Starts a login: the session waits for the response to `req`, which
    /// the returned action posts.
    pub fn login(&self, req: LoginRequest) -> (r: (LoginSession, Action))
        ensures
            r.0.phase == Phase::AwaitingLogin,
            r.0.state_token is None,
            r.0.factors@.len() == 0,
            r.1 == Action::Login(req),
            session_wf(r.0),
    {
        (
            LoginSession { phase: Phase::AwaitingLogin, state_token: None, factors: Vec::new(), factor: 0 },
            Action::Login(req),
        )
    }
}

impl LoginSession {
    fn fail(&mut self, e: AuthError) -> (a: Action)
        ensures
            (*final(self), a) == failed(*old(self), e),
    {
        self.phase = Phase::Failed;
        Action::Fail(e)
    }

    fn prime(&mut self, i: usize) -> (a: Action)
        ensures
            (*final(self), a) == prime(*old(self), i),
    {
        match self.state_token.take() {
            Some(t) => {
                self.phase = Phase::AwaitingPrime;
                self.factor = i;
                Action::Verify {
                    factor: i,
                    request: FactorVerificationRequest { state_token: t, pass_code: None },
                }
            },
            None => self.fail(AuthError::MissingStateToken),
        }
    }

    fn finish(&mut self, r: LoginResponse) -> (a: Action)
        ensures
            (*final(self), a) == finish(*old(self), r),
    {
        match r.session_token {
            Some(t) => {
                self.phase = Phase::Success;
                Action::Done(t)
            },
            None => self.fail(AuthError::MissingSessionToken),
        }
    }

    /// Takes what came back for the last action and decides the next one.
    pub fn advance(&mut self, event: Event) -> (a: Action)
        requires
            session_wf(*old(self)),
        ensures
            (*final(self), a) == step_spec(*old(self), event),
            session_wf(*final(self)),
            a matches Action::Verify { factor, .. } ==> factor < final(self).factors@.len(),
    {
        match (self.phase, event) {
            (Phase::AwaitingLogin, Event::Response(r)) => match r.status {
                LoginState::Success => self.finish(r),
                LoginState::MfaRequired => match r.embedded {
                    None => self.fail(AuthError::MissingFactors),
                    Some(emb) => {
                        self.state_token = r.state_token;
                        self.factors = emb.factors;
                        let n = self.factors.len();
                        if n == 0 {
                            self.fail(AuthError::NoFactors)
                        } else if n == 1 {
                            self.prime(0)
                        } else {
                            self.phase = Phase::AwaitingFactorChoice;
                            Action::ChooseFactor
                        }
                    },
                },
                _ => self.fail(AuthError::UnsupportedStatus(r)),
            },
            (Phase::AwaitingFactorChoice, Event::FactorChosen(i)) => {
                if i < self.factors.len() {
                    self.prime(i)
                } else {
                    self.fail(AuthError::InvalidFactorChoice)
                }
            },
            (Phase::AwaitingPrime, Event::Response(r)) => match r.state_token {
                Some(t) => {
                    self.phase = Phase::AwaitingPasscode;
                    self.state_token = Some(t);
                    Action::PromptPasscode
                },
                None => self.fail(AuthError::MissingStateToken),
            },
            (Phase::AwaitingPasscode, Event::Passcode(code)) => match self.state_token.take() {
                Some(t) => {
                    self.phase = Phase::AwaitingVerification;
                    Action::Verify {
                        factor: self.factor,
                        request: FactorVerificationRequest { state_token: t, pass_code: Some(code) },
                    }
                },
                None => self.fail(AuthError::MissingStateToken),
            },
            (Phase::AwaitingVerification, Event::Response(r)) => match r.status {
                LoginState::Success => self.finish(r),
                _ => self.fail(AuthError::VerificationFailed(r)),
            },
            _ => self.fail(AuthError::UnexpectedEvent),
        }
    }
}

/// Position of a phase in the order in which a login goes through them.
pub open spec fn phase_rank(p: Phase) -> int {
    match p {
        Phase::AwaitingLogin => 0,
        Phase::AwaitingFactorChoice => 1,
        Phase::AwaitingPrime => 2,
        Phase::AwaitingPasscode => 3,
        Phase::AwaitingVerification => 4,
        Phase::Success => 5,
        Phase::Failed => 6,
    }
}

/// A login only moves forward: every step leads to a later phase, or to
/// failure; no phase is entered twice.
pub proof fn phase_moves_forward(s: LoginSession, e: Event)
    ensures
        step_spec(s, e).0.phase == Phase::Failed || phase_rank(step_spec(s, e).0.phase)
            > phase_rank(s.phase),
{
}

} // verus!
