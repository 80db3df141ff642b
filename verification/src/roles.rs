//! Caller roles and token-expiry policy.
//!
//! Issuing and validating the tokens themselves is a collaborator's
//! business; what belongs to this crate is the policy: how long a
//! token of each role lives, and what an expiry instant works out to.

use vstd::prelude::*;

verus! {

/// The role a caller's token carries.
#[derive(Debug, Clone, Copy, PartialEq, Eq, Structural)]
pub enum Role {
    Admin,
    Premium,
    Regular,
    Free,
}

/// The lifetime, in seconds, a token of this role gets by default;
/// an admin token never expires.
pub open spec fn spec_default_expiration(role: Role) -> int {
    match role {
        Role::Admin => usize::MAX as int,
        Role::Premium => 31_536_000,
        Role::Regular => 2_592_000,
        Role::Free => 3_600,
    }
}

impl Role {
    /// The default lifetime of this role's tokens, in seconds.
    pub fn default_expiration(&self) -> (r: usize)
        ensures
            r == spec_default_expiration(*self),
    {
        match self {
            Role::Admin => usize::MAX,
            Role::Premium => 365 * 24 * 60 * 60,
            Role::Regular => 30 * 24 * 60 * 60,
            Role::Free => 60 * 60,
        }
    }
}

/// What a token asserts: its expiry instant and its caller's role.
#[derive(Debug, Clone, Copy, PartialEq, Eq, Structural)]
pub struct Claims {
    pub exp: usize,
    pub role: Role,
}

/// The instant a token issued now should expire: never for an admin,
/// the role's lifetime from now for everyone else.
pub fn calculate_expiration(role: &Role, current_time: usize) -> (r: usize)
    requires
        !(role is Admin) ==> current_time + spec_default_expiration(*role) <= usize::MAX,
    ensures
        role is Admin ==> r == usize::MAX,
        !(role is Admin) ==> r == current_time + spec_default_expiration(*role),
{
    match role {
        Role::Admin => usize::MAX,
        _ => current_time + role.default_expiration(),
    }
}

impl Claims {
    /// Whether these claims carry the administrator role.
    pub fn is_admin(&self) -> (r: bool)
        ensures
            r == (self.role is Admin),
    {
        matches!(self.role, Role::Admin)
    }
}

} // verus!
