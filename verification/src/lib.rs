//! Verified core of the `enterance` game launcher: user-name sanitising,
//! the launcher's file layout, command-line parsing, the update cache and
//! the decisions of the update step, SHA-256 file digests, the login token,
//! and the conversion of the server list into the game client's form.
pub mod text;
pub mod username;
pub mod paths;
pub mod cli;
pub mod hashing;
pub mod update;
pub mod config;
pub mod responses;
pub mod server_list;

pub use config::Config;
pub use responses::{AccountInfoResponse, AuthResponse, CharacterResponse, LoginResponse};
pub use update::{FileInfo, HashFile};
pub use username::{sanitize_username, set_selected_auth_user};
pub use paths::{
    get_cache_file_path, get_config_path, get_login_token_path, get_login_token_path_for_user,
    get_my_dir, get_server_path, PathStyle,
};
pub use hashing::calculate_file_hash;
pub use server_list::{ipv4_to_u32, parse_server_list_json, utf16_to_bytes, utf16_to_bytes_opt};
