//! Trust boundary of a function-hosting platform: connection planning for the
//! secure transport, credential handling, and the per-user project quota store.

mod credential;
mod project;
mod quota;
mod text;
mod transport;

pub use credential::{parse_credential, verify_login, Credential, ProviderReply};
pub use project::{package_for_dir, same_file_path, wasm_file_name, PackageEntry};
pub use quota::{
    add_twice_law, contains_project, quota_law, reload_law, remove_absent_law, GitHubAuth, UserData,
    MAX_PROJECTS_PER_USER,
};
pub use text::{contains_text, find_char, parse_port, same_text, starts_with_text};
pub use transport::{
    classify_connect_failure, first_address, host_of, loopback_trust_law, plan_connection,
    resolve_target, select_trust_policy, sni_server_name, ConnectError, ConnectionPlan,
    Resolution, TrustPolicy,
};
