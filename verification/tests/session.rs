use feed_cache::session::{feeds_update, login_post, logout, register_post, Cookie, Reply};

fn cookie(name: &str, value: &str) -> Cookie {
    Cookie { name: name.to_string(), value: value.to_string() }
}

#[test]
fn logout_removes_both_cookies_and_goes_home() {
    assert_eq!(
        logout(),
        Reply {
            set: Vec::new(),
            removed: vec!["user".to_string(), "token".to_string()],
            success: true,
            target: "/".to_string(),
            message: "Logout".to_string(),
        }
    );
}

#[test]
fn login_post_with_a_token_sets_cookies_and_goes_to_the_reader() {
    assert_eq!(
        login_post(&"ada".to_string(), Some("secret".to_string())),
        Reply {
            set: vec![cookie("token", "secret"), cookie("user", "ada")],
            removed: Vec::new(),
            success: true,
            target: "/ada".to_string(),
            message: "Login".to_string(),
        }
    );
}

#[test]
fn login_post_without_a_token_goes_back_to_login() {
    assert_eq!(
        login_post(&"ada".to_string(), None),
        Reply {
            set: Vec::new(),
            removed: Vec::new(),
            success: false,
            target: "/login".to_string(),
            message: "Login Failed".to_string(),
        }
    );
}

#[test]
fn register_post_with_a_token_admits_the_reader() {
    assert_eq!(
        register_post(&"bob".to_string(), Some("t0k3n".to_string())),
        Reply {
            set: vec![cookie("token", "t0k3n"), cookie("user", "bob")],
            removed: Vec::new(),
            success: true,
            target: "/bob".to_string(),
            message: "Login".to_string(),
        }
    );
}

#[test]
fn register_post_without_a_token_reports_the_failure() {
    assert_eq!(
        register_post(&"bob".to_string(), None),
        Reply {
            set: Vec::new(),
            removed: Vec::new(),
            success: false,
            target: "/login".to_string(),
            message: "Register Failed".to_string(),
        }
    );
}

#[test]
fn feeds_update_allowed_goes_to_the_reader() {
    assert_eq!(
        feeds_update(&"ada".to_string(), true),
        Reply {
            set: Vec::new(),
            removed: Vec::new(),
            success: true,
            target: "/ada".to_string(),
            message: "Feeds Updated.".to_string(),
        }
    );
}

#[test]
fn feeds_update_refused_goes_home() {
    assert_eq!(
        feeds_update(&"ada".to_string(), false),
        Reply {
            set: Vec::new(),
            removed: Vec::new(),
            success: false,
            target: "/".to_string(),
            message: "Error".to_string(),
        }
    );
}
