use enterance::responses::has_launcher_cookie;
use enterance::{AccountInfoResponse, AuthResponse, CharacterResponse, Config, LoginResponse};

fn auth(ok: bool) -> AuthResponse {
    AuthResponse { return_value: ok, return_code: 7, msg: "denied".to_string(), auth_key: "KEY".to_string() }
}

fn account(ok: bool) -> AccountInfoResponse {
    AccountInfoResponse {
        return_value: ok,
        return_code: -2,
        msg: "no".to_string(),
        permission: Some(1),
        privilege: None,
        user_no: Some(42),
        user_name: Some("bob".to_string()),
    }
}

fn characters(ok: bool) -> CharacterResponse {
    CharacterResponse { return_value: ok, return_code: 9, msg: "m".to_string(), character_count: "0|2800,3|".to_string() }
}

#[test]
fn accepted_answers_have_no_rejection() {
    assert!(auth(true).rejection().is_none());
    assert!(account(true).rejection().is_none());
    assert!(characters(true).rejection().is_none());
}

#[test]
fn refused_answers_carry_code_and_message() {
    let r = auth(false).rejection().unwrap();
    assert_eq!((r.return_code, r.msg.as_str()), (7, "denied"));
    let r = account(false).rejection().unwrap();
    assert_eq!((r.return_code, r.msg.as_str()), (-2, "no"));
    let r = characters(false).rejection().unwrap();
    assert_eq!((r.return_code, r.msg.as_str()), (9, "m"));
}

#[test]
fn login_token_from_parts() {
    let t = LoginResponse::from_parts(auth(true), account(true), characters(true));
    assert!(t.return_value);
    assert_eq!(t.return_code, 0);
    assert_eq!(t.msg, "success");
    assert_eq!(t.character_count.as_deref(), Some("0|2800,3|"));
    assert_eq!(t.permission, Some(1));
    assert_eq!(t.privilege, None);
    assert_eq!(t.user_no, Some(42));
    assert_eq!(t.user_name.as_deref(), Some("bob"));
    assert_eq!(t.auth_key.as_deref(), Some("KEY"));
}

#[test]
fn launcher_cookie_is_found_by_name() {
    let names = vec!["session".to_string(), "x_launcher_y".to_string()];
    assert!(has_launcher_cookie(&names));
    assert!(!has_launcher_cookie(&vec!["session".to_string(), "launch".to_string()]));
    assert!(!has_launcher_cookie(&Vec::new()));
}

#[test]
fn default_config() {
    let c = Config::new();
    assert_eq!(c.update, "");
    assert_eq!(c.login, "");
    assert_eq!(c.world, "");
    assert_eq!(c.characters, "");
    assert_eq!(c.auth, "");
    assert_eq!(c.account, "");
    assert_eq!(c.path.as_deref(), Some("Binaries/TERA.exe"));
    assert_eq!(c.lang.as_deref(), Some("EUR"));
}
