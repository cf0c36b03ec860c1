use enterance::{
    get_cache_file_path, get_config_path, get_login_token_path, get_login_token_path_for_user,
    get_my_dir, get_server_path, PathStyle,
};
use std::path::Path;

#[test]
fn unix_join_matches_std_path_join() {
    for base in ["/opt/game", "/opt/game/", "", "rel", "a//"].iter() {
        let expected = Path::new(base).join("cache");
        assert_eq!(get_cache_file_path(PathStyle::Unix, base), expected.to_str().unwrap(), "{:?}", base);
    }
}

#[test]
fn fixed_files_live_in_the_directory() {
    assert_eq!(get_cache_file_path(PathStyle::Unix, "/opt/game"), "/opt/game/cache");
    assert_eq!(get_config_path(PathStyle::Unix, "/opt/game"), "/opt/game/enterance.ini");
    assert_eq!(get_server_path(PathStyle::Unix, "/opt/game/"), "/opt/game/server");
}

#[test]
fn windows_join_rules() {
    assert_eq!(get_config_path(PathStyle::Windows, "C:\\Games\\Tera"), "C:\\Games\\Tera\\enterance.ini");
    assert_eq!(get_cache_file_path(PathStyle::Windows, "C:\\Games\\"), "C:\\Games\\cache");
    assert_eq!(get_cache_file_path(PathStyle::Windows, "C:/Games/"), "C:/Games/cache");
    assert_eq!(get_server_path(PathStyle::Windows, "C:"), "C:server");
    assert_eq!(get_server_path(PathStyle::Windows, ""), "server");
    assert_eq!(get_server_path(PathStyle::Windows, "d"), "d\\server");
    assert_eq!(
        get_login_token_path_for_user(PathStyle::Windows, "D:\\x", "Bob"),
        "D:\\x\\auth_bob"
    );
}

#[test]
fn token_path_for_user_uses_sanitized_name() {
    assert_eq!(
        get_login_token_path_for_user(PathStyle::Unix, "/opt/game", " Bob/Evil "),
        "/opt/game/auth_bob_evil"
    );
    assert_eq!(get_login_token_path_for_user(PathStyle::Unix, "/opt/game", ""), "/opt/game/auth_user");
}

#[test]
fn token_path_prefers_selected_then_env() {
    assert_eq!(get_login_token_path(PathStyle::Unix, "/d", Some("sel"), Some("env")), "/d/auth_sel");
    assert_eq!(get_login_token_path(PathStyle::Unix, "/d", None, Some("Env")), "/d/auth_env");
    assert_eq!(get_login_token_path(PathStyle::Unix, "/d", None, None), "/d/auth");
}

#[test]
fn selected_user_path_equals_own_path() {
    let mut selected: Option<String> = None;
    enterance::set_selected_auth_user(&mut selected, " Some User ");
    assert_eq!(
        get_login_token_path(PathStyle::Unix, "/d", selected.as_deref(), Some("other")),
        get_login_token_path_for_user(PathStyle::Unix, "/d", " Some User ")
    );
}

#[test]
fn my_dir_prefers_environment() {
    assert_eq!(get_my_dir(Some("/env".to_string()), Some("/exe".to_string()), "/cwd".to_string()), "/env");
    assert_eq!(get_my_dir(None, Some("/exe".to_string()), "/cwd".to_string()), "/exe");
    assert_eq!(get_my_dir(None, None, "/cwd".to_string()), "/cwd");
}
