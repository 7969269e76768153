//! The merged runtime configuration the pipeline works from. Reading
//! command-line arguments, environment variables and the TOML file
//! happens at the boundary; this model holds the settled values.

use vstd::prelude::*;

verus! {

/// How requests authenticate.
#[derive(Debug, Clone, Copy, PartialEq, Eq, Structural)]
pub enum AuthMode {
    Disabled,
    JwtSecret,
    Oidc,
}

/// How the pipeline authenticates to the database.
#[derive(Debug, Clone, Copy, PartialEq, Eq, Structural)]
pub enum DbAuthMode {
    Password,
    ManagedIdentity,
    ServicePrincipal,
}

/// The settled configuration.
#[derive(Debug, Clone)]
pub struct AppConfig {
    pub server: String,
    pub port: u16,
    pub user: String,
    pub password: String,
    pub database: Option<String>,
    pub listen_port: u16,
    pub default_schema: String,
    pub jwt_secret: Option<String>,
    pub anon_role: Option<String>,
    pub pool_size: usize,
    pub trust_cert: bool,
    pub schemas: Option<Vec<String>>,
    pub auth_mode: AuthMode,
    pub oidc_issuer: Option<String>,
    pub oidc_audience: Option<String>,
    pub role_claim: String,
    pub context_claims: Vec<String>,
    pub role_map: Vec<(String, String)>,
    pub db_auth: DbAuthMode,
    pub sp_tenant_id: Option<String>,
    pub sp_client_id: Option<String>,
    pub sp_client_secret: Option<String>,
    pub realtime: bool,
    pub realtime_poll_ms: u64,
}

} // verus!
