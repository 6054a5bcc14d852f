//! The state that the request handlers share.

use vstd::prelude::*;
use crate::auth::{SuperAdmins, AUTH_CODE_TTL_MILLIS, OAUTH_STATE_TTL_MILLIS};
use crate::registry::Registry;
use crate::tokens::TokenStore;
use crate::wallet::NonceStore;

verus! {

/// The tribe that voice chat requires where none is configured.
pub open spec fn default_required_tribe() -> Seq<char> {
    "Fire"@
}

/// Everything the handlers work on: the durable registry, the short-lived
/// tokens held in memory, and the configuration read at startup.
pub struct AppState {
    pub db: Registry,
    /// Normalized address to outstanding challenge.
    pub wallet_nonces: NonceStore,
    pub mumble_required_tribe: String,
    pub identity_hash_pepper: String,
    /// State tokens of login attempts under way.
    pub oauth_states: TokenStore,
    /// One-time codes to session tokens.
    pub auth_codes: TokenStore,
    pub super_admins: SuperAdmins,
}

impl AppState {
    /// The invariant of the shared state.
    pub open spec fn wf(&self) -> bool {
        &&& self.db.wf()
        &&& self.wallet_nonces.wf()
        &&& self.oauth_states.wf()
        &&& self.oauth_states.ttl() == OAUTH_STATE_TTL_MILLIS
        &&& self.auth_codes.wf()
        &&& self.auth_codes.ttl() == AUTH_CODE_TTL_MILLIS
    }

    /// The state at startup: the given registry and configuration, and no
    /// token outstanding. Voice chat requires the tribe "Fire" where none is
    /// configured.
    pub fn new(
        db: Registry,
        mumble_required_tribe: Option<String>,
        identity_hash_pepper: String,
        super_admins: SuperAdmins,
    ) -> (r: Self)
        requires
            db.wf(),
        ensures
            r.wf(),
            r.db@ == db@,
            r.wallet_nonces@ == Map::<Seq<char>, (Seq<char>, i64)>::empty(),
            r.oauth_states@ == Map::<Seq<char>, (Seq<char>, i64)>::empty(),
            r.auth_codes@ == Map::<Seq<char>, (Seq<char>, i64)>::empty(),
            r.mumble_required_tribe@ == match mumble_required_tribe {
                Some(t) => t@,
                None => default_required_tribe(),
            },
            r.identity_hash_pepper@ == identity_hash_pepper@,
            r.super_admins == super_admins,
    {
        let tribe = match mumble_required_tribe {
            Some(t) => t,
            None => "Fire".to_owned(),
        };
        AppState {
            db,
            wallet_nonces: NonceStore::new(),
            mumble_required_tribe: tribe,
            identity_hash_pepper,
            oauth_states: TokenStore::new(OAUTH_STATE_TTL_MILLIS),
            auth_codes: TokenStore::new(AUTH_CODE_TTL_MILLIS),
            super_admins,
        }
    }
}

} // verus!
