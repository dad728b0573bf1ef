//! The credential check that every guarded request goes through.
//!
//! Two pairs of credentials may be configured: a baseline pair, and an
//! elevated pair that also allows removing what was collected. A pair is
//! configured when its user name or its password is not empty.

use vstd::prelude::*;
use crate::text::text_equal;

verus! {

/// What the service was started with, as far as requests are judged by it.
#[derive(Debug)]
pub struct AppState {
    pub username: String,
    pub password: String,
    pub admin_account: String,
    pub admin_password: String,
}

/// The credentials that came with a request.
#[derive(Debug)]
pub struct Credentials {
    pub user_id: String,
    /// A request may name a user and give no password: that counts as the
    /// empty password.
    pub password: Option<String>,
}

/// The caller did not present the baseline credentials and is to be asked
/// for them again.
#[derive(Clone, Copy, Debug, PartialEq, Eq, Structural)]
pub struct Challenge;

impl AppState {
    /// Whether an elevated pair is configured.
    pub open spec fn has_elevated(self) -> bool {
        self.admin_account@.len() > 0 || self.admin_password@.len() > 0
    }

    /// Whether a baseline pair is configured.
    pub open spec fn has_baseline(self) -> bool {
        self.username@.len() > 0 || self.password@.len() > 0
    }
}

impl Credentials {
    /// The password presented: empty where none was given.
    pub open spec fn presented(self) -> Seq<char> {
        match self.password {
            Some(password) => password@,
            None => Seq::empty(),
        }
    }

    /// Whether these are the elevated credentials: both fields agree.
    pub open spec fn are_elevated(self, app: AppState) -> bool {
        self.user_id@ == app.admin_account@ && self.presented() == app.admin_password@
    }

    /// Whether these are the baseline credentials: both fields agree.
    pub open spec fn are_baseline(self, app: AppState) -> bool {
        self.user_id@ == app.username@ && self.presented() == app.password@
    }
}

/// How a request with `credentials` is judged: `Ok(true)` for an elevated
/// caller, `Ok(false)` for any other caller that is let in, and a challenge
/// for one that is not.
pub open spec fn judged(credentials: Credentials, app: AppState) -> Result<bool, Challenge> {
    if app.has_elevated() && credentials.are_elevated(app) {
        Ok(true)
    } else if app.has_baseline() {
        if credentials.are_baseline(app) {
            Ok(false)
        } else {
            Err(Challenge)
        }
    } else {
        Ok(false)
    }
}

/// Judges the credentials of a request.
///
/// With an elevated pair configured, a caller that presents it is elevated.
/// Any other caller must present the baseline pair if one is configured,
/// user name and password both, and is challenged if it does not. With no
/// baseline pair configured every caller is let in, not elevated.
pub fn user_authentication(credentials: &Credentials, app_data: &AppState) -> (outcome: Result<
    bool,
    Challenge,
>)
    ensures
        outcome == judged(*credentials, *app_data),
{
    let user = credentials.user_id.as_str();
    let password = match &credentials.password {
        Some(given) => given.as_str(),
        None => "",
    };
    proof {
        reveal_strlit("");
        assert(password@ =~= credentials.presented());
    }
    if !app_data.admin_account.as_str().is_empty() || !app_data.admin_password.as_str().is_empty() {
        if text_equal(user, app_data.admin_account.as_str()) && text_equal(
            password,
            app_data.admin_password.as_str(),
        ) {
            return Ok(true);
        }
    }
    if !app_data.username.as_str().is_empty() || !app_data.password.as_str().is_empty() {
        return if text_equal(user, app_data.username.as_str()) && text_equal(
            password,
            app_data.password.as_str(),
        ) {
            Ok(false)
        } else {
            Err(Challenge)
        };
    }
    Ok(false)
}

/// Whether a request judged as `outcome` may use what only elevated callers
/// may use.
pub open spec fn is_elevated(outcome: Result<bool, Challenge>) -> bool {
    outcome == Ok::<bool, Challenge>(true)
}

/// A caller that presents the configured elevated credentials is judged
/// elevated, whatever baseline credentials are configured beside them.
pub proof fn lemma_elevated_credentials_are_elevated(credentials: Credentials, app: AppState)
    requires
        app.has_elevated(),
        credentials.are_elevated(app),
    ensures
        is_elevated(judged(credentials, app)),
{
}

/// With a baseline pair configured, a caller whose password is not the
/// baseline password is challenged, unless it presents the elevated pair.
/// The same holds of a wrong user name: one right field is not enough.
pub proof fn lemma_wrong_baseline_field_is_challenged(credentials: Credentials, app: AppState)
    requires
        app.has_baseline(),
        !(app.has_elevated() && credentials.are_elevated(app)),
        credentials.presented() != app.password@ || credentials.user_id@ != app.username@,
    ensures
        judged(credentials, app) == Err::<bool, Challenge>(Challenge),
{
}

/// With no pair configured every caller is let in and none is elevated.
pub proof fn lemma_open_service_lets_everyone_in(credentials: Credentials, app: AppState)
    requires
        !app.has_elevated(),
        !app.has_baseline(),
    ensures
        judged(credentials, app) == Ok::<bool, Challenge>(false),
{
}

} // verus!
