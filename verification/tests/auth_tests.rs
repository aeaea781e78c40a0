use vrserver::auth::{AuthService, LoginRequest, SignupRequest, TOKEN_LIFETIME_SECS};
use vrserver::session::SessionManager;

fn signup_req(username: &str, email: &str, password: &str) -> SignupRequest {
    SignupRequest {
        username: username.to_string(),
        email: email.to_string(),
        password: password.to_string(),
    }
}

#[test]
fn test_signup_and_login() {
    let mut auth = AuthService::new("test_secret_key".to_string());

    let signup_req = SignupRequest {
        username: "testuser".to_string(),
        email: "test@example.com".to_string(),
        password: "password123".to_string(),
    };

    let signup_resp = auth.signup(signup_req);
    assert!(signup_resp.success);
    assert!(signup_resp.token.is_some());

    let login_req = LoginRequest {
        email: "test@example.com".to_string(),
        password: "password123".to_string(),
    };

    let login_resp = auth.login(login_req);
    assert!(login_resp.success);
    assert!(login_resp.token.is_some());
}

#[test]
fn test_token_verification() {
    let mut auth = AuthService::new("test_secret_key".to_string());

    let signup_req = SignupRequest {
        username: "testuser2".to_string(),
        email: "test2@example.com".to_string(),
        password: "password123".to_string(),
    };

    let resp = auth.signup(signup_req);
    let token = resp.token.unwrap();

    let user_id = auth.verify_token(&token);
    assert!(user_id.is_some());
}

#[test]
fn signup_rejects_short_username() {
    let mut auth = AuthService::new("secret".to_string());
    let resp = auth.signup(signup_req("ab", "a@x", "password123"));
    assert!(!resp.success);
    assert_eq!(resp.message, "Username must be at least 3 characters");
    assert!(resp.token.is_none());
    assert!(resp.user.is_none());
}

#[test]
fn signup_rejects_bad_email() {
    let mut auth = AuthService::new("secret".to_string());
    let resp = auth.signup(signup_req("alice", "not-an-email", "password123"));
    assert!(!resp.success);
    assert_eq!(resp.message, "Invalid email address");
}

#[test]
fn signup_rejects_short_password() {
    let mut auth = AuthService::new("secret".to_string());
    let resp = auth.signup(signup_req("alice", "a@x", "short"));
    assert!(!resp.success);
    assert_eq!(resp.message, "Password must be at least 8 characters");
}

#[test]
fn signup_rejects_duplicate_email() {
    let mut auth = AuthService::new("secret".to_string());
    let first = auth.signup(signup_req("alice", "b@x", "password123"));
    assert!(first.success);
    let second = auth.signup(signup_req("bob", "b@x", "password456"));
    assert!(!second.success);
    assert_eq!(second.message, "Email already registered");
}

#[test]
fn signup_login_round_trip_resolves_subject() {
    let mut auth = AuthService::new("secret".to_string());
    let signup_resp = auth.signup(signup_req("alice", "a@x", "password123"));
    assert!(signup_resp.success);
    let profile = signup_resp.user.unwrap();
    let t1 = signup_resp.token.unwrap();

    let login_resp = auth.login(LoginRequest { email: "a@x".to_string(), password: "password123".to_string() });
    assert!(login_resp.success);
    let t2 = login_resp.token.unwrap();

    assert_eq!(auth.verify_token(&t1), Some(profile.id.clone()));
    assert_eq!(auth.verify_token(&t2), Some(profile.id.clone()));
}

#[test]
fn login_conflates_unknown_email_and_bad_password() {
    let mut auth = AuthService::new("secret".to_string());
    let resp = auth.signup(signup_req("alice", "a@x", "password123"));
    assert!(resp.success);

    let unknown = auth.login(LoginRequest { email: "z@x".to_string(), password: "password123".to_string() });
    let wrong = auth.login(LoginRequest { email: "a@x".to_string(), password: "wrongpassword".to_string() });
    assert!(!unknown.success);
    assert!(!wrong.success);
    assert_eq!(unknown.message, "Invalid email or password");
    assert_eq!(wrong.message, "Invalid email or password");
}

#[test]
fn public_profile_carries_no_password_material() {
    let mut auth = AuthService::new("secret".to_string());
    let resp = auth.signup(signup_req("alice", "a@x", "password123"));
    let id = resp.user.unwrap().id;
    let profile = auth.get_user(&id).unwrap();
    assert_eq!(profile.id, id);
    assert_eq!(profile.username, "alice");
    assert_eq!(profile.email, "a@x");
    assert_eq!(profile.avatar_url, None);
    assert_eq!(profile.games_created, Vec::<String>::new());
    assert_eq!(profile.games_played, Vec::<String>::new());
    assert_eq!(profile.friend_count, 0);
}

#[test]
fn update_avatar_reports_existence() {
    let mut auth = AuthService::new("secret".to_string());
    let resp = auth.signup(signup_req("alice", "a@x", "password123"));
    let id = resp.user.unwrap().id;
    assert!(auth.update_user(&id, Some("http://avatar".to_string())));
    assert_eq!(auth.get_user(&id).unwrap().avatar_url, Some("http://avatar".to_string()));
    assert!(auth.update_user(&id, None));
    assert_eq!(auth.get_user(&id).unwrap().avatar_url, None);
    assert!(!auth.update_user("nobody", None));
}

#[test]
fn add_friend_deduplicates() {
    let mut auth = AuthService::new("secret".to_string());
    let resp = auth.signup(signup_req("alice", "a@x", "password123"));
    let id = resp.user.unwrap().id;
    assert!(auth.add_friend(&id, "friend_1"));
    assert!(!auth.add_friend(&id, "friend_1"));
    assert!(auth.add_friend(&id, "friend_2"));
    assert_eq!(auth.get_user(&id).unwrap().friend_count, 2);
    assert!(!auth.add_friend("nobody", "friend_1"));
}

#[test]
fn record_played_game_is_idempotent() {
    let mut auth = AuthService::new("secret".to_string());
    let resp = auth.signup(signup_req("alice", "a@x", "password123"));
    let id = resp.user.unwrap().id;
    auth.add_played_game(&id, "game_a");
    auth.add_played_game(&id, "game_a");
    auth.add_played_game(&id, "game_b");
    assert_eq!(
        auth.get_user(&id).unwrap().games_played,
        vec!["game_a".to_string(), "game_b".to_string()]
    );
}

#[test]
fn record_created_game_appends_unconditionally() {
    let mut auth = AuthService::new("secret".to_string());
    let resp = auth.signup(signup_req("alice", "a@x", "password123"));
    let id = resp.user.unwrap().id;
    auth.add_created_game(&id, "game_a");
    auth.add_created_game(&id, "game_a");
    assert_eq!(
        auth.get_user(&id).unwrap().games_created,
        vec!["game_a".to_string(), "game_a".to_string()]
    );
}

#[test]
fn token_valid_within_lifetime_and_dead_after() {
    let auth = AuthService::new("secret".to_string());
    let issued_at: i64 = 1_000_000;
    let token = auth.issue_token_at("player_42", issued_at);

    assert_eq!(auth.verify_token_at(&token, issued_at + 60), Some("player_42".to_string()));
    assert_eq!(auth.verify_token_at(&token, issued_at + TOKEN_LIFETIME_SECS - 1), Some("player_42".to_string()));
    assert_eq!(auth.verify_token_at(&token, issued_at + TOKEN_LIFETIME_SECS), None);
    assert_eq!(auth.verify_token_at(&token, issued_at + TOKEN_LIFETIME_SECS + 5), None);
}

#[test]
fn token_rejected_under_wrong_secret() {
    let auth = AuthService::new("secret".to_string());
    let other = AuthService::new("another_secret".to_string());
    let token = auth.issue_token_at("player_42", 1_000);
    assert_eq!(other.verify_token_at(&token, 1_060), None);
    assert_eq!(other.verify_token(&token), None);
    assert_eq!(auth.verify_token_at("garbage.token.text", 1_060), None);
}

#[test]
fn session_manager_tracks_sessions() {
    let mut sessions = SessionManager::new();
    assert_eq!(sessions.active_count(), 0);
    sessions.create_session("tok1".to_string(), "user_a".to_string());
    sessions.create_session("tok2".to_string(), "user_b".to_string());
    assert_eq!(sessions.active_count(), 2);
    assert_eq!(sessions.get_user_id("tok1"), Some("user_a".to_string()));
    assert_eq!(sessions.get_user_id("tok3"), None);
    sessions.remove_session("tok1");
    assert_eq!(sessions.get_user_id("tok1"), None);
    assert_eq!(sessions.active_count(), 1);
}

#[test]
fn distinct_signups_get_distinct_ids() {
    let mut auth = AuthService::new("secret".to_string());
    let a = auth.signup(signup_req("alice", "a@x", "password123"));
    let b = auth.signup(signup_req("bob", "b@x", "password123"));
    assert!(a.success && b.success);
    let ida = a.user.unwrap().id;
    let idb = b.user.unwrap().id;
    assert_ne!(ida, idb);
    assert!(auth.get_user(&ida).is_some());
    assert!(auth.get_user(&idb).is_some());
}

#[test]
fn unlock_achievement_appends_without_dedupe() {
    let mut auth = AuthService::new("secret".to_string());
    let resp = auth.signup(signup_req("alice", "a@x", "password123"));
    assert!(resp.success);
    let id = resp.user.unwrap().id;
    auth.unlock_achievement(&id, "ach_1", "First Steps", "Joined a room");
    auth.unlock_achievement(&id, "ach_1", "First Steps", "Joined a room");
    auth.unlock_achievement("nobody", "ach_2", "Ghost", "Never stored");
    assert!(auth.get_user(&id).is_some());
}
