use vstd::prelude::*;

verus! {

/// First championship id.
pub const CHAMPIONSHIP_ID_MIN: i32 = 700000000;
/// Last championship id.
pub const CHAMPIONSHIP_ID_MAX: i32 = 799999999;
/// First user id.
pub const USER_ID_MIN: i32 = 600000000;
/// Last user id.
pub const USER_ID_MAX: i32 = 699999999;

/// How an account signs in.
#[derive(Clone, Copy, Debug, PartialEq, Eq, Structural)]
pub enum Provider {
    Local,
    Google,
}

/// Subscription level of an account.
#[derive(Clone, Copy, Debug, PartialEq, Eq, Structural)]
pub enum Role {
    Free,
    Premium,
    Business,
    Admin,
}

/// Whether a service runs and how many clients it streams to.
#[derive(Clone, Copy, Debug, PartialEq, Eq, Structural)]
pub struct ServiceStatus {
    pub active: bool,
    pub connections: u32,
}

/// Whether a socket runs and how many clients it streams to.
#[derive(Clone, Copy, Debug, PartialEq, Eq, Structural)]
pub struct SocketStatus {
    pub active: bool,
    pub connections: usize,
}

/// Latest payloads of a championship's session.
pub struct ChampionshipCacheData {
    pub session_data: Vec<u8>,
    pub motion_data: Vec<u8>,
    pub participants_data: Vec<u8>,
    pub history_data: Option<Vec<Vec<u8>>>,
}

/// A championship id taken from a request path.
#[derive(Clone, Copy, Debug, PartialEq, Eq, Structural)]
pub struct ChampionshipId(pub i32);

impl ChampionshipId {
    /// The id lies in the championship range.
    pub fn validate(&self) -> (r: bool)
        ensures
            r == (CHAMPIONSHIP_ID_MIN <= self.0 <= CHAMPIONSHIP_ID_MAX),
    {
        CHAMPIONSHIP_ID_MIN <= self.0 && self.0 <= CHAMPIONSHIP_ID_MAX
    }
}

/// A championship id and a user id taken from a request path.
#[derive(Clone, Copy, Debug, PartialEq, Eq, Structural)]
pub struct ChampionshipAndUserId {
    pub championship_id: i32,
    pub user_id: i32,
}

impl ChampionshipAndUserId {
    /// Each id lies in its range.
    pub fn validate(&self) -> (r: bool)
        ensures
            r == (CHAMPIONSHIP_ID_MIN <= self.championship_id <= CHAMPIONSHIP_ID_MAX
                && USER_ID_MIN <= self.user_id <= USER_ID_MAX),
    {
        CHAMPIONSHIP_ID_MIN <= self.championship_id && self.championship_id <= CHAMPIONSHIP_ID_MAX
            && USER_ID_MIN <= self.user_id && self.user_id <= USER_ID_MAX
    }
}

pub struct LoginCredentials {
    pub email: String,
    pub password: String,
}

pub struct AuthTokens {
    pub access_token: String,
    pub refresh_token: String,
}

pub struct NewAccessToken {
    pub access_token: String,
}

/// What a new account is registered with.
pub struct UserRegistrationData {
    pub username: String,
    pub email: String,
    pub password: Option<String>,
    pub avatar: Option<String>,
    pub provider: Option<Provider>,
}

/// The profile Google hands back after sign-in.
pub struct GoogleUserInfo {
    pub email: String,
    pub family_name: Option<String>,
    pub given_name: Option<String>,
    pub id: String,
    pub name: String,
    pub picture: String,
    pub verified_email: bool,
}

impl UserRegistrationData {
    /// Registration data for a Google account: its name, e-mail and picture, no password.
    pub fn from_google_user_info(google_info: GoogleUserInfo) -> (r: Self)
        ensures
            r.username@ == google_info.name@,
            r.email@ == google_info.email@,
            r.password is None,
            r.avatar matches Some(a) && a@ == google_info.picture@,
            r.provider == Some(Provider::Google),
    {
        UserRegistrationData {
            username: google_info.name,
            email: google_info.email,
            password: None,
            avatar: Some(google_info.picture),
            provider: Some(Provider::Google),
        }
    }
}

pub struct PasswordResetRequest {
    pub email: String,
}

pub struct PasswordUpdateData {
    pub password: String,
}

pub struct TokenVerification {
    pub token: String,
}

pub struct RefreshTokenRequest {
    pub fingerprint: String,
    pub refresh_token: String,
}

pub struct ClientFingerprint {
    pub fingerprint: String,
}

pub struct GoogleAuthorizationCode {
    pub code: String,
}

pub struct GoogleTokenExchangeRequest<'a> {
    pub client_id: &'a str,
    pub client_secret: &'a str,
    pub code: &'a str,
    pub grant_type: &'a str,
    pub redirect_uri: &'a str,
}

pub struct GoogleAuthTokens {
    pub access_token: String,
    pub expires_in: i64,
    pub id_token: String,
    pub scope: String,
    pub token_type: String,
}

pub struct VerifyEmailParams {
    pub token: String,
}

/// The name and address an e-mail goes to.
pub struct EmailUser<'a> {
    pub username: &'a str,
    pub email: &'a str,
}

pub struct VerifyEmailTemplate<'a> {
    pub username: &'a str,
    pub token: &'a str,
}

pub struct ResetPasswordTemplate<'a> {
    pub name: &'a str,
    pub token: &'a str,
}

/// The e-mails the platform sends.
pub enum Templates<'a> {
    VerifyEmail(VerifyEmailTemplate<'a>),
    ResetPassword(ResetPasswordTemplate<'a>),
}

} // verus!
