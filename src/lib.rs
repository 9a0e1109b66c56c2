pub mod role;
pub mod saml;
pub mod credentials;
pub mod auth;
pub mod pipeline;
