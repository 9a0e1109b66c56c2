use vstd::prelude::*;

use crate::role::{role_name_spec, same_text, Role};

verus! {

/// The application name of the cloud role federation application.
pub const AWS_APP_NAME: &'static str = "amazon_aws";

/// An application available to a signed-in user.
#[derive(Debug)]
pub struct AppLink {
    pub app_name: String,
    pub label: String,
    pub link_url: String,
}

/// A profile to obtain credentials for.
#[derive(Debug)]
pub struct Profile {
    pub name: String,
    pub application_name: String,
    pub role: String,
    pub duration_seconds: Option<i64>,
}

/// Why no credentials could be obtained for a profile.
#[derive(Debug)]
pub enum PipelineError {
    /// No federation application carries the profile's application name.
    NoApplication { profile: String },
    /// The assertion grants no role of the profile's role name.
    NoRole { profile: String, role: String },
}

/// `link` is the federation application labelled `application_name`.
pub open spec fn is_target_app(link: AppLink, application_name: Seq<char>) -> bool {
    link.app_name@ == AWS_APP_NAME@ && link.label@ == application_name
}

/// `role` is called `name`.
pub open spec fn is_target_role(role: Role, name: Seq<char>) -> bool {
    role_name_spec(role.role_arn@) == Some(name)
}

/// The first federation application labelled with the profile's
/// application name.
pub fn select_application(links: &Vec<AppLink>, profile: &Profile) -> (r: Result<
    usize,
    PipelineError,
>)
    ensures
        match r {
            Ok(i) => i < links@.len() && is_target_app(links@[i as int], profile.application_name@)
                && forall|j: int|
                0 <= j < i ==> !is_target_app(#[trigger] links@[j], profile.application_name@),
            Err(e) => e == PipelineError::NoApplication { profile: profile.name } && forall|j: int|
                0 <= j < links@.len() ==> !is_target_app(
                    #[trigger] links@[j],
                    profile.application_name@,
                ),
        },
{
    let mut i: usize = 0;
    while i < links.len()
        invariant
            i <= links@.len(),
            forall|j: int|
                0 <= j < i ==> !is_target_app(#[trigger] links@[j], profile.application_name@),
        decreases links@.len() - i,
    {
        if same_text(links[i].app_name.as_str(), AWS_APP_NAME) && same_text(
            links[i].label.as_str(),
            profile.application_name.as_str(),
        ) {
            return Ok(i);
        }
        i = i + 1;
    }
    Err(PipelineError::NoApplication { profile: profile.name.clone() })
}

/// The first role of `roles` called by the profile's role name.
pub fn select_role(roles: &Vec<Role>, profile: &Profile) -> (r: Result<usize, PipelineError>)
    ensures
        match r {
            Ok(i) => i < roles@.len() && is_target_role(roles@[i as int], profile.role@) && forall|
                j: int,
            | 0 <= j < i ==> !is_target_role(#[trigger] roles@[j], profile.role@),
            Err(e) => e == PipelineError::NoRole { profile: profile.name, role: profile.role }
                && forall|j: int|
                0 <= j < roles@.len() ==> !is_target_role(#[trigger] roles@[j], profile.role@),
        },
{
    let mut i: usize = 0;
    while i < roles.len()
        invariant
            i <= roles@.len(),
            forall|j: int| 0 <= j < i ==> !is_target_role(#[trigger] roles@[j], profile.role@),
        decreases roles@.len() - i,
    {
        match roles[i].role_name() {
            Some(name) => {
                if same_text(name.as_str(), profile.role.as_str()) {
                    return Ok(i);
                }
            },
            None => {},
        }
        i = i + 1;
    }
    Err(PipelineError::NoRole { profile: profile.name.clone(), role: profile.role.clone() })
}

} // verus!
