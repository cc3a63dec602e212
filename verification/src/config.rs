//! The application configuration: plain values that the persistence
//! layer reads and writes, and the policy snapshots the gates consume.
//! No ambient globals: the configuration lives in an explicit value
//! that the caller owns and passes along.

use vstd::prelude::*;

use crate::access::BlacklistPolicy;
use crate::command::{clone_string_vec, CommandPolicy};
use crate::credential::{argon2_matches, credential_accepts, CredentialError, CredentialStore};

verus! {

/// The interface theme.
#[derive(PartialEq, Eq, Structural, Debug, Clone, Copy)]
pub enum Theme {
    Light,
    Dark,
    System,
    Glass,
}

/// Everything the application persists about itself.
pub struct AppConfig {
    pub api_port: u16,
    pub password_hash: Option<String>,
    pub log_buffer_size: usize,
    pub log_file_path: Option<String>,
    pub enable_log_file: bool,
    pub log_file_max_size: u64,
    pub auto_start_api: bool,
    pub auto_start_on_boot: bool,
    pub command_whitelist: Vec<String>,
    pub custom_commands: Vec<String>,
    pub theme: Theme,
    pub ip_blacklist: Vec<String>,
    pub enable_ip_blacklist: bool,
}

/// Two configurations that agree on every field (list fields compared
/// element-wise).
pub open spec fn same_config(a: &AppConfig, b: &AppConfig) -> bool {
    &&& a.api_port == b.api_port
    &&& a.password_hash == b.password_hash
    &&& a.log_buffer_size == b.log_buffer_size
    &&& a.log_file_path == b.log_file_path
    &&& a.enable_log_file == b.enable_log_file
    &&& a.log_file_max_size == b.log_file_max_size
    &&& a.auto_start_api == b.auto_start_api
    &&& a.auto_start_on_boot == b.auto_start_on_boot
    &&& a.command_whitelist@ == b.command_whitelist@
    &&& a.custom_commands@ == b.custom_commands@
    &&& a.theme == b.theme
    &&& a.ip_blacklist@ == b.ip_blacklist@
    &&& a.enable_ip_blacklist == b.enable_ip_blacklist
}

impl Clone for AppConfig {
    fn clone(&self) -> (r: Self)
        ensures
            same_config(&r, self),
    {
        AppConfig {
            api_port: self.api_port,
            password_hash: match &self.password_hash {
                Some(h) => Some(h.clone()),
                None => None,
            },
            log_buffer_size: self.log_buffer_size,
            log_file_path: match &self.log_file_path {
                Some(p) => Some(p.clone()),
                None => None,
            },
            enable_log_file: self.enable_log_file,
            log_file_max_size: self.log_file_max_size,
            auto_start_api: self.auto_start_api,
            auto_start_on_boot: self.auto_start_on_boot,
            command_whitelist: clone_string_vec(&self.command_whitelist),
            custom_commands: clone_string_vec(&self.custom_commands),
            theme: self.theme,
            ip_blacklist: clone_string_vec(&self.ip_blacklist),
            enable_ip_blacklist: self.enable_ip_blacklist,
        }
    }
}

impl Default for AppConfig {
    /// The out-of-the-box configuration: port 8080, no password, every
    /// builtin command enabled, no custom commands, blacklist off.
    fn default() -> (r: Self)
        ensures
            r.api_port == 8080,
            r.password_hash is None,
            r.log_buffer_size == 100,
            r.log_file_path is None,
            r.enable_log_file,
            r.log_file_max_size == 10,
            !r.auto_start_api,
            !r.auto_start_on_boot,
            crate::command::views_of(r.command_whitelist@) =~= seq![
                "shutdown"@,
                "restart"@,
                "sleep"@,
                "lock"@,
                "systeminfo"@,
                "tasklist"@,
                "wmic"@,
            ],
            r.custom_commands@ =~= Seq::<String>::empty(),
            r.theme == Theme::System,
            r.ip_blacklist@ =~= Seq::<String>::empty(),
            !r.enable_ip_blacklist,
    {
        let mut whitelist: Vec<String> = Vec::new();
        whitelist.push("shutdown".to_owned());
        whitelist.push("restart".to_owned());
        whitelist.push("sleep".to_owned());
        whitelist.push("lock".to_owned());
        whitelist.push("systeminfo".to_owned());
        whitelist.push("tasklist".to_owned());
        whitelist.push("wmic".to_owned());
        proof {
            assert(crate::command::views_of(whitelist@) =~= seq![
                "shutdown"@,
                "restart"@,
                "sleep"@,
                "lock"@,
                "systeminfo"@,
                "tasklist"@,
                "wmic"@,
            ]);
        }
        AppConfig {
            api_port: 8080,
            password_hash: None,
            log_buffer_size: 100,
            log_file_path: None,
            enable_log_file: true,
            log_file_max_size: 10,
            auto_start_api: false,
            auto_start_on_boot: false,
            command_whitelist: whitelist,
            custom_commands: Vec::new(),
            theme: Theme::System,
            ip_blacklist: Vec::new(),
            enable_ip_blacklist: false,
        }
    }
}

impl AppConfig {
    /// Whether a password hash is stored.
    pub fn has_password(&self) -> (r: bool)
        ensures
            r == (self.password_hash is Some),
    {
        self.password_hash.is_some()
    }

    /// Drop the stored password hash.
    pub fn clear_password(&mut self)
        ensures
            final(self).password_hash is None,
            final(self).api_port == old(self).api_port,
            final(self).command_whitelist == old(self).command_whitelist,
            final(self).custom_commands == old(self).custom_commands,
            final(self).ip_blacklist == old(self).ip_blacklist,
            final(self).enable_ip_blacklist == old(self).enable_ip_blacklist,
            final(self).theme == old(self).theme,
            final(self).log_buffer_size == old(self).log_buffer_size,
            final(self).log_file_path == old(self).log_file_path,
            final(self).enable_log_file == old(self).enable_log_file,
            final(self).log_file_max_size == old(self).log_file_max_size,
            final(self).auto_start_api == old(self).auto_start_api,
            final(self).auto_start_on_boot == old(self).auto_start_on_boot,
    {
        self.password_hash = None;
    }

    /// Hash `password` with a fresh salt and store the hash here.
    pub fn set_password(&mut self, password: &str) -> (r: Result<(), CredentialError>)
        ensures
            r is Err ==> r == Err::<(), CredentialError>(CredentialError::HashUnavailable)
                && *final(self) == *old(self),
            r is Ok ==> final(self).password_hash is Some && (forall|q: Seq<char>|
                argon2_matches(final(self).password_hash->0@, q) <==> q == password@),
            final(self).command_whitelist == old(self).command_whitelist,
            final(self).custom_commands == old(self).custom_commands,
            final(self).ip_blacklist == old(self).ip_blacklist,
    {
        match crate::credential::argon2_hash(password) {
            Some(h) => {
                self.password_hash = Some(h);
                Ok(())
            },
            None => Err(CredentialError::HashUnavailable),
        }
    }

    /// Whether `password` matches the stored hash; false when none is
    /// stored.
    pub fn verify_password(&self, password: &str) -> (r: bool)
        ensures
            r == credential_accepts(
                match self.password_hash {
                    Some(h) => Some::<Seq<char>>(h@),
                    None => None::<Seq<char>>,
                },
                password@,
            ),
    {
        let store = CredentialStore::from_hash(
            match &self.password_hash {
                Some(h) => Some(h.clone()),
                None => None,
            },
        );
        store.verify(password)
    }

    /// The blacklist policy this configuration stands for.
    pub fn blacklist_policy(&self) -> (r: BlacklistPolicy)
        ensures
            r.enabled == self.enable_ip_blacklist,
            r.entries@ == self.ip_blacklist@,
    {
        BlacklistPolicy {
            enabled: self.enable_ip_blacklist,
            entries: clone_string_vec(&self.ip_blacklist),
        }
    }

    /// The command policy this configuration stands for: the one
    /// whitelist serves as builtin and custom allow-list alike, and the
    /// registered custom commands name what counts as custom.
    pub fn command_policy(&self) -> (r: CommandPolicy)
        ensures
            r.builtin_allow@ == self.command_whitelist@,
            r.custom_allow@ == self.command_whitelist@,
            r.custom_names@ == self.custom_commands@,
    {
        CommandPolicy {
            builtin_allow: clone_string_vec(&self.command_whitelist),
            custom_allow: clone_string_vec(&self.command_whitelist),
            custom_names: clone_string_vec(&self.custom_commands),
        }
    }
}

/// A copy of the current configuration for a reader.
pub fn get_config(store: &AppConfig) -> (r: AppConfig)
    ensures
        same_config(&r, store),
{
    store.clone()
}

/// Replace the configuration with an edited value; the caller persists
/// the returned copy.
pub fn update_config(store: &mut AppConfig, new_value: AppConfig) -> (r: AppConfig)
    ensures
        *final(store) == new_value,
        same_config(&r, &new_value),
{
    let copy = new_value.clone();
    *store = new_value;
    copy
}

/// Replace the configuration with one re-read from disk.
pub fn reload_config(store: &mut AppConfig, loaded: AppConfig)
    ensures
        *final(store) == loaded,
{
    *store = loaded;
}

} // verus!
