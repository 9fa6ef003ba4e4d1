//! Accounts: users, linked sign-in providers, and the decisions that the
//! account operations take between their database reads and writes.
//!
//! The database work is done by the caller; each function here takes what a
//! read returned and says what to do next.

use vstd::prelude::*;
use crate::text::{chars_eq, chars_of};

verus! {

/// A user of the application.
#[derive(Debug, Clone, PartialEq, Eq)]
pub struct User {
    pub id: String,
    pub email: Option<String>,
    pub name: Option<String>,
    pub picture: Option<String>,
    pub created_at: Option<String>,
    pub updated_at: Option<String>,
    /// The providers linked to the account.
    pub providers: Vec<String>,
    /// IANA timezone name, e.g. `America/New_York`.
    pub timezone: Option<String>,
    pub is_admin: Option<bool>,
    pub enabled: Option<bool>,
}

/// Why an account operation is refused.
#[derive(Debug, Clone, PartialEq, Eq)]
pub enum AccountError {
    /// A row that must name a user has no textual user id.
    MissingUserId,
    /// The provider account is already linked to another user.
    ProviderLinkedElsewhere,
    /// The provider is the user's last one and cannot be unlinked.
    LastProvider,
    /// A user with this e-mail address already exists.
    EmailAlreadyRegistered,
}

/// A database row as the account operations read it: absent, or present
/// with an optional textual user id.
pub type UserRow = Option<Option<String>>;

/// The next step of a sign-in with an external provider, after looking up
/// the provider account.
#[derive(Debug, Clone, PartialEq, Eq)]
pub enum LoginStep {
    /// The provider account is linked to this user; update the stored profile
    /// first when the provider supplied an e-mail address.
    UseLinkedUser { user_id: String, update_profile: bool },
    /// Not linked yet, and an address was supplied: look up a user by address.
    LookUpEmail,
    /// Not linked, no address: create a new user and link the provider.
    CreateUser,
}

/// The next step of a sign-in after looking up a user by e-mail address.
#[derive(Debug, Clone, PartialEq, Eq)]
pub enum EmailStep {
    /// Link the provider to this existing user (account linking).
    LinkExisting { user_id: String },
    /// No user has this address: create one and link the provider.
    CreateUser,
}

/// What linking a provider to a user does.
#[derive(Debug, Clone, PartialEq, Eq)]
pub enum LinkDecision {
    /// This exact link exists already; nothing to do.
    AlreadyLinked,
    /// Insert the link.
    Insert,
}

/// What unlinking a provider does besides deleting the link.
#[derive(Debug, Clone, PartialEq, Eq)]
pub struct UnlinkPlan {
    /// The provider is the local (password) one: delete the stored password.
    pub delete_credentials: bool,
}

/// `local`, the password provider.
pub open spec fn local_provider() -> Seq<char> {
    seq!['l', 'o', 'c', 'a', 'l']
}

/// Decide the sign-in step after looking up the provider account.
pub fn after_provider_lookup(row: UserRow, has_email: bool) -> (r: Result<LoginStep, AccountError>)
    ensures
        match row {
            Some(Some(u)) => r matches Ok(LoginStep::UseLinkedUser { user_id, update_profile })
                && user_id@ == u@ && update_profile == has_email,
            Some(None) => r matches Err(AccountError::MissingUserId),
            None => if has_email {
                r matches Ok(LoginStep::LookUpEmail)
            } else {
                r matches Ok(LoginStep::CreateUser)
            },
        },
{
    match row {
        Some(Some(u)) => Ok(LoginStep::UseLinkedUser { user_id: u, update_profile: has_email }),
        Some(None) => Err(AccountError::MissingUserId),
        None => if has_email {
            Ok(LoginStep::LookUpEmail)
        } else {
            Ok(LoginStep::CreateUser)
        },
    }
}

/// Decide the sign-in step after looking up a user by e-mail address.
pub fn after_email_lookup(row: UserRow) -> (r: Result<EmailStep, AccountError>)
    ensures
        match row {
            Some(Some(u)) => r matches Ok(EmailStep::LinkExisting { user_id }) && user_id@ == u@,
            Some(None) => r matches Err(AccountError::MissingUserId),
            None => r matches Ok(EmailStep::CreateUser),
        },
{
    match row {
        Some(Some(u)) => Ok(EmailStep::LinkExisting { user_id: u }),
        Some(None) => Err(AccountError::MissingUserId),
        None => Ok(EmailStep::CreateUser),
    }
}

/// Decide how to link a provider account to `user_id`, given whether this
/// exact link exists and the user the provider account is linked to, if any.
pub fn decide_link(already_linked: bool, linked_to: UserRow, user_id: &str) -> (r: Result<
    LinkDecision,
    AccountError,
>)
    ensures
        already_linked ==> r matches Ok(LinkDecision::AlreadyLinked),
        !already_linked ==> match linked_to {
            Some(Some(other)) => if other@ == user_id@ {
                r matches Ok(LinkDecision::Insert)
            } else {
                r matches Err(AccountError::ProviderLinkedElsewhere)
            },
            Some(None) => r matches Err(AccountError::MissingUserId),
            None => r matches Ok(LinkDecision::Insert),
        },
{
    if already_linked {
        return Ok(LinkDecision::AlreadyLinked);
    }
    match linked_to {
        Some(Some(other)) => {
            if chars_eq(&chars_of(other.as_str()), &chars_of(user_id)) {
                Ok(LinkDecision::Insert)
            } else {
                Err(AccountError::ProviderLinkedElsewhere)
            }
        },
        Some(None) => Err(AccountError::MissingUserId),
        None => Ok(LinkDecision::Insert),
    }
}

/// Decide whether a provider can be unlinked, given the user's number of
/// linked providers (missing counts as 0): at least two are needed. Unlinking
/// the local provider also deletes the stored password.
pub fn decide_unlink(provider_count: Option<i64>, provider: &str) -> (r: Result<
    UnlinkPlan,
    AccountError,
>)
    ensures
        match provider_count {
            Some(c) => c <= 1,
            None => true,
        } <==> r is Err,
        r matches Err(e) ==> e is LastProvider,
        r matches Ok(plan) ==> plan.delete_credentials == (provider@ == local_provider()),
{
    let count = match provider_count {
        Some(c) => c,
        None => 0,
    };
    if count <= 1 {
        return Err(AccountError::LastProvider);
    }
    let local = vec!['l', 'o', 'c', 'a', 'l'];
    assert(local@ =~= local_provider());
    Ok(UnlinkPlan { delete_credentials: chars_eq(&chars_of(provider), &local) })
}

/// Decide whether a local (password) account can be registered: not when a
/// user with the address exists.
pub fn decide_local_registration(email_taken: bool) -> (r: Result<(), AccountError>)
    ensures
        email_taken <==> r is Err,
        r matches Err(e) ==> e is EmailAlreadyRegistered,
{
    if email_taken {
        Err(AccountError::EmailAlreadyRegistered)
    } else {
        Ok(())
    }
}

/// The user a valid (unexpired) password-reset token belongs to: none when no
/// valid token matched; an error when the matching row names no user. When a
/// user is returned, the token is to be deleted (one-time use).
pub fn reset_token_user(row: UserRow) -> (r: Result<Option<String>, AccountError>)
    ensures
        match row {
            Some(Some(u)) => r matches Ok(Some(v)) && v@ == u@,
            Some(None) => r matches Err(AccountError::MissingUserId),
            None => r matches Ok(None),
        },
{
    match row {
        Some(Some(u)) => Ok(Some(u)),
        Some(None) => Err(AccountError::MissingUserId),
        None => Ok(None),
    }
}

/// Whether `providers` has a provider with the name `p`.
pub open spec fn has_provider(providers: Seq<String>, p: Seq<char>) -> bool {
    exists|k: int| 0 <= k < providers.len() && #[trigger] providers[k]@ == p
}

/// A provider list has a provider exactly when its names, as a list of
/// texts, contain that name: no position of the list is left out.
pub proof fn lemma_has_provider_contains(providers: Seq<String>, p: Seq<char>)
    ensures
        has_provider(providers, p) == providers.map_values(|s: String| s@).contains(p),
{
    let names = providers.map_values(|s: String| s@);
    if names.contains(p) {
        let k = choose|k: int| 0 <= k < names.len() && names[k] == p;
        assert(providers[k]@ == p);
    }
    if has_provider(providers, p) {
        let k = choose|k: int| 0 <= k < providers.len() && #[trigger] providers[k]@ == p;
        assert(names[k] == p);
    }
}

/// Whether the user has the provider `provider` linked: whether it is one of
/// the user's providers.
pub fn is_provider_linked(user: &User, provider: &str) -> (r: bool)
    ensures
        r == has_provider(user.providers@, provider@),
        r == user.providers@.map_values(|s: String| s@).contains(provider@),
{
    proof {
        lemma_has_provider_contains(user.providers@, provider@);
    }
    let p = chars_of(provider);
    let mut k: usize = 0;
    while k < user.providers.len()
        invariant
            k <= user.providers.len(),
            p@ == provider@,
            forall|j: int| 0 <= j < k ==> user.providers@[j]@ != provider@,
        decreases user.providers.len() - k,
    {
        if chars_eq(&chars_of(user.providers[k].as_str()), &p) {
            assert(user.providers@[k as int]@ == provider@);
            assert(has_provider(user.providers@, provider@));
            proof {
                lemma_has_provider_contains(user.providers@, provider@);
            }
            return true;
        }
        k += 1;
    }
    false
}

/// Whether a linked provider may be unlinked from the account page: only when
/// the user has more than one provider.
pub fn can_unlink(provider_count: usize) -> (r: bool)
    ensures
        r == (provider_count > 1),
{
    provider_count > 1
}

} // verus!
