//! What the pages answer to a reader who signs in, signs out or changes the
//! list of feeds: which cookies change, where the reader is sent, and with
//! which message.
//!
//! Checking a password, issuing a token and keeping the list of feeds are the
//! caller's; the answer to their outcome is decided here.

use vstd::prelude::*;
use vstd::string::StringExecFns;

verus! {

/// A cookie to set.
#[derive(Debug, PartialEq, Eq)]
pub struct Cookie {
    pub name: String,
    pub value: String,
}

/// What a `Cookie` stands for.
pub struct CookieView {
    pub name: Seq<char>,
    pub value: Seq<char>,
}

impl View for Cookie {
    type V = CookieView;

    open spec fn view(&self) -> CookieView {
        CookieView { name: self.name@, value: self.value@ }
    }
}

/// The answer to a request that changes the session: cookies to set and to
/// remove, then a redirect that carries a message.
#[derive(Debug, PartialEq, Eq)]
pub struct Reply {
    /// Cookies to set, in this order.
    pub set: Vec<Cookie>,
    /// Names of the cookies to remove, in this order.
    pub removed: Vec<String>,
    /// Whether the message reports success.
    pub success: bool,
    /// The path to redirect to.
    pub target: String,
    pub message: String,
}

/// What a `Reply` stands for.
pub struct ReplyView {
    pub set: Seq<CookieView>,
    pub removed: Seq<Seq<char>>,
    pub success: bool,
    pub target: Seq<char>,
    pub message: Seq<char>,
}

impl View for Reply {
    type V = ReplyView;

    open spec fn view(&self) -> ReplyView {
        ReplyView {
            set: self.set@.map_values(|cookie: Cookie| cookie@),
            removed: self.removed@.map_values(|name: String| name@),
            success: self.success,
            target: self.target@,
            message: self.message@,
        }
    }
}

/// The answer to a reader who signs out: both session cookies go, and the
/// reader is sent to the front page.
pub open spec fn signed_out() -> ReplyView {
    ReplyView {
        set: Seq::empty(),
        removed: seq!["user"@, "token"@],
        success: true,
        target: "/"@,
        message: "Logout"@,
    }
}

/// The answer to a reader who was admitted with this token: the token and the
/// name are kept in cookies, and the reader is sent to their own page.
pub open spec fn admitted(user: Seq<char>, token: Seq<char>) -> ReplyView {
    ReplyView {
        set: seq![
            CookieView { name: "token"@, value: token },
            CookieView { name: "user"@, value: user },
        ],
        removed: Seq::empty(),
        success: true,
        target: "/"@ + user,
        message: "Login"@,
    }
}

/// The answer to a reader who was turned away: no cookie changes.
pub open spec fn turned_away(target: Seq<char>, message: Seq<char>) -> ReplyView {
    ReplyView {
        set: Seq::empty(),
        removed: Seq::empty(),
        success: false,
        target: target,
        message: message,
    }
}

/// The answer to a reader whose list of feeds was stored.
pub open spec fn feeds_stored(user: Seq<char>) -> ReplyView {
    ReplyView {
        set: Seq::empty(),
        removed: Seq::empty(),
        success: true,
        target: "/"@ + user,
        message: "Feeds Updated."@,
    }
}

/// The view of a token that may be absent.
pub open spec fn token_view(token: Option<String>) -> Option<Seq<char>> {
    match token {
        Some(t) => Some(t@),
        None => None,
    }
}

fn path_of(user: &String) -> (path: String)
    ensures
        path@ == "/"@ + user@,
{
    String::from_str("/").concat(user.as_str())
}

fn admit_reader(user: &String, token: String) -> (reply: Reply)
    ensures
        reply@ == admitted(user@, token@),
{
    let mut set: Vec<Cookie> = Vec::new();
    set.push(Cookie { name: String::from_str("token"), value: token });
    set.push(Cookie { name: String::from_str("user"), value: user.clone() });
    let reply = Reply {
        set,
        removed: Vec::new(),
        success: true,
        target: path_of(user),
        message: String::from_str("Login"),
    };
    assert(reply@.set =~= admitted(user@, token@).set);
    assert(reply@.removed =~= admitted(user@, token@).removed);
    reply
}

fn turn_away(target: &str, message: &str) -> (reply: Reply)
    ensures
        reply@ == turned_away(target@, message@),
{
    let reply = Reply {
        set: Vec::new(),
        removed: Vec::new(),
        success: false,
        target: String::from_str(target),
        message: String::from_str(message),
    };
    assert(reply@.set =~= Seq::<CookieView>::empty());
    assert(reply@.removed =~= Seq::<Seq<char>>::empty());
    reply
}

/// Signs the reader out.
pub fn logout() -> (reply: Reply)
    ensures
        reply@ == signed_out(),
{
    let mut removed: Vec<String> = Vec::new();
    removed.push(String::from_str("user"));
    removed.push(String::from_str("token"));
    let reply = Reply {
        set: Vec::new(),
        removed,
        success: true,
        target: String::from_str("/"),
        message: String::from_str("Logout"),
    };
    assert(reply@.set =~= signed_out().set);
    assert(reply@.removed =~= signed_out().removed);
    reply
}

/// Answers an attempt to sign in, where `token` is the token that was issued
/// if the password was right.
pub fn login_post(user: &String, token: Option<String>) -> (reply: Reply)
    ensures
        reply@ == match token_view(token) {
            Some(t) => admitted(user@, t),
            None => turned_away("/login"@, "Login Failed"@),
        },
{
    match token {
        Some(t) => admit_reader(user, t),
        None => turn_away("/login", "Login Failed"),
    }
}

/// Answers an attempt to register, where `token` is the token that was
/// issued if the name was free.
pub fn register_post(user: &String, token: Option<String>) -> (reply: Reply)
    ensures
        reply@ == match token_view(token) {
            Some(t) => admitted(user@, t),
            None => turned_away("/login"@, "Register Failed"@),
        },
{
    match token {
        Some(t) => admit_reader(user, t),
        None => turn_away("/login", "Register Failed"),
    }
}

/// Answers a change of the list of feeds, which was stored if the reader was
/// `allowed` to change it.
pub fn feeds_update(user: &String, allowed: bool) -> (reply: Reply)
    ensures
        reply@ == if allowed {
            feeds_stored(user@)
        } else {
            turned_away("/"@, "Error"@)
        },
{
    if allowed {
        let reply = Reply {
            set: Vec::new(),
            removed: Vec::new(),
            success: true,
            target: path_of(user),
            message: String::from_str("Feeds Updated."),
        };
        assert(reply@.set =~= Seq::<CookieView>::empty());
        assert(reply@.removed =~= Seq::<Seq<char>>::empty());
        reply
    } else {
        turn_away("/", "Error")
    }
}

} // verus!
