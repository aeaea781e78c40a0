use vstd::prelude::*;

use crate::strmap::StrMap;
use crate::trusted;

verus! {

use crate::trusted::{password_matches, token_of, claims_of, TokenClaimsView};
use vstd::utf8::encode_utf8;
use crate::seqs::{views_of, opt_view, push_unique, contains_string};
use vstd::string::StringSliceAdditionalSpecFns;

/// How long an issued bearer token stays valid, in seconds (30 days).
pub const TOKEN_LIFETIME_SECS: i64 = 2592000;

/// True when the byte sequence contains an ASCII `@`.
pub open spec fn has_at_sign(s: Seq<u8>) -> bool {
    exists|i: int| 0 <= i < s.len() && s[i] == 64u8
}

pub open spec fn valid_username(u: Seq<char>) -> bool {
    encode_utf8(u).len() >= 3
}

pub open spec fn valid_email(e: Seq<char>) -> bool {
    has_at_sign(encode_utf8(e))
}

pub open spec fn valid_password(p: Seq<char>) -> bool {
    encode_utf8(p).len() >= 8
}

/// Appending the same element twice has the same effect as appending it once.
pub proof fn lemma_push_unique_idempotent(s: Seq<Seq<char>>, x: Seq<char>)
    ensures
        push_unique(push_unique(s, x), x) == push_unique(s, x),
{
    if !s.contains(x) {
        assert(s.push(x)[s.len() as int] == x);
    }
}

/// Scan a string for the `@` character.
pub fn contains_at(s: &str) -> (r: bool)
    ensures
        r == has_at_sign(s.spec_bytes()),
{
    let bytes = s.as_bytes();
    let mut i: usize = 0;
    while i < bytes.len()
        invariant
            bytes@ == s.spec_bytes(),
            0 <= i <= bytes@.len(),
            forall|j: int| 0 <= j < i ==> bytes@[j] != 64u8,
        decreases bytes@.len() - i,
    {
        if bytes[i] == 64u8 {
            return true;
        }
        i = i + 1;
    }
    false
}

fn clone_string_vec(v: &Vec<String>) -> (r: Vec<String>)
    ensures
        r@ == v@,
{
    let mut r: Vec<String> = Vec::new();
    let mut i: usize = 0;
    while i < v.len()
        invariant
            0 <= i <= v@.len(),
            r@ == v@.subrange(0, i as int),
        decreases v@.len() - i,
    {
        r.push(v[i].clone());
        proof {
            assert(r@ =~= v@.subrange(0, i + 1 as int));
        }
        i = i + 1;
    }
    proof {
        assert(r@ =~= v@);
    }
    r
}

/// A stored account: credentials plus the profile data the services mutate.
pub struct User {
    pub id: String,
    pub username: String,
    pub email: String,
    pub password_hash: String,
    pub created_at: i64,
    pub avatar_url: Option<String>,
    pub games_created: Vec<String>,
    pub games_played: Vec<String>,
    pub friends: Vec<String>,
    pub achievements: Vec<Achievement>,
}

pub struct Achievement {
    pub id: String,
    pub name: String,
    pub description: String,
    pub unlocked_at: i64,
}

pub struct SignupRequest {
    pub username: String,
    pub email: String,
    pub password: String,
}

pub struct LoginRequest {
    pub email: String,
    pub password: String,
}

/// The redacted public view of a profile: no password hash, and the friend
/// list is reduced to its count.
pub struct UserProfile {
    pub id: String,
    pub username: String,
    pub email: String,
    pub avatar_url: Option<String>,
    pub games_created: Vec<String>,
    pub games_played: Vec<String>,
    pub friend_count: usize,
}

pub struct AuthResponse {
    pub success: bool,
    pub message: String,
    pub token: Option<String>,
    pub user: Option<UserProfile>,
}

/// The projection relation between a stored user and its public profile.
/// The password hash and the friend list have no counterpart on the right.
pub open spec fn is_profile_of(p: UserProfile, u: User) -> bool {
    &&& p.id@ == u.id@
    &&& p.username@ == u.username@
    &&& p.email@ == u.email@
    &&& opt_view(p.avatar_url) == opt_view(u.avatar_url)
    &&& views_of(p.games_created@) == views_of(u.games_created@)
    &&& views_of(p.games_played@) == views_of(u.games_played@)
    &&& p.friend_count == u.friends@.len()
}

/// A failure response carrying the given message and nothing else.
pub open spec fn failed(r: AuthResponse, msg: Seq<char>) -> bool {
    &&& !r.success
    &&& r.message@ == msg
    &&& r.token is None
    &&& r.user is None
}

fn fail_response(msg: &str) -> (r: AuthResponse)
    ensures
        failed(r, msg@),
{
    AuthResponse { success: false, message: msg.to_owned(), token: None, user: None }
}

/// What token verification under a secret answers at a given time.
pub open spec fn spec_verify_token(secret: Seq<char>, token: Seq<char>, now: int) -> Option<
    Seq<char>,
> {
    match claims_of(secret, token) {
        Some(c) => if now < c.exp {
            Some(c.sub)
        } else {
            None
        },
        None => None,
    }
}

/// A token whose claims decode under a secret resolves to its subject
/// whenever it is verified before the expiry it carries.
pub proof fn lemma_verify_within_lifetime(
    secret: Seq<char>,
    token: Seq<char>,
    c: TokenClaimsView,
    now: int,
)
    requires
        claims_of(secret, token) == Some(c),
        now < c.exp,
    ensures
        spec_verify_token(secret, token, now) == Some(c.sub),
{
}

/// Once the clock reaches the expiry a token carries, verification answers
/// nothing, however valid the signature.
pub proof fn lemma_verify_expired(
    secret: Seq<char>,
    token: Seq<char>,
    c: TokenClaimsView,
    now: int,
)
    requires
        claims_of(secret, token) == Some(c),
        now >= c.exp,
    ensures
        spec_verify_token(secret, token, now) is None,
{
}

/// The identity and account service: id-keyed profiles, an email index kept
/// consistent with them, and the token-signing secret.
pub struct AuthService {
    users: StrMap<User>,
    email_to_id: StrMap<String>,
    jwt_secret: String,
}

impl AuthService {
    pub closed spec fn users_map(&self) -> Map<Seq<char>, User> {
        self.users@
    }

    pub closed spec fn emails(&self) -> Map<Seq<char>, String> {
        self.email_to_id@
    }

    pub closed spec fn secret(&self) -> Seq<char> {
        self.jwt_secret@
    }

    /// The store's invariant: profiles are keyed by their own id, the email
    /// index maps every profile's email back to its id, and every index entry
    /// points at a profile carrying that email.
    pub closed spec fn wf(&self) -> bool {
        &&& self.users.wf()
        &&& self.email_to_id.wf()
        &&& forall|id: Seq<char>| #[trigger]
            self.users@.contains_key(id) ==> {
                let u = self.users@[id];
                &&& u.id@ == id
                &&& self.email_to_id@.contains_key(u.email@)
                &&& self.email_to_id@[u.email@]@ == id
            }
        &&& forall|e: Seq<char>| #[trigger]
            self.email_to_id@.contains_key(e) ==> {
                let id = self.email_to_id@[e]@;
                &&& self.users@.contains_key(id)
                &&& self.users@[id].email@ == e
            }
    }

    /// No two stored profiles share an email address.
    pub proof fn lemma_emails_unique(&self, id1: Seq<char>, id2: Seq<char>)
        requires
            self.wf(),
            self.users_map().contains_key(id1),
            self.users_map().contains_key(id2),
            self.users_map()[id1].email@ == self.users_map()[id2].email@,
        ensures
            id1 == id2,
    {
    }

    /// Every stored profile is found again under its own email.
    pub proof fn lemma_email_index_consistent(&self, id: Seq<char>)
        requires
            self.wf(),
            self.users_map().contains_key(id),
        ensures
            self.emails().contains_key(self.users_map()[id].email@),
            self.emails()[self.users_map()[id].email@]@ == id,
    {
    }

    pub fn new(jwt_secret: String) -> (r: Self)
        ensures
            r.wf(),
            r.users_map() == Map::<Seq<char>, User>::empty(),
            r.emails() == Map::<Seq<char>, String>::empty(),
            r.secret() == jwt_secret@,
    {
        AuthService { users: StrMap::new(), email_to_id: StrMap::new(), jwt_secret }
    }

    pub fn user_to_profile(&self, user: &User) -> (p: UserProfile)
        ensures
            is_profile_of(p, *user),
    {
        let avatar_url = match &user.avatar_url {
            Some(s) => Some(s.clone()),
            None => None,
        };
        UserProfile {
            id: user.id.clone(),
            username: user.username.clone(),
            email: user.email.clone(),
            avatar_url,
            games_created: clone_string_vec(&user.games_created),
            games_played: clone_string_vec(&user.games_played),
            friend_count: user.friends.len(),
        }
    }

    pub fn get_user(&self, user_id: &str) -> (r: Option<UserProfile>)
        requires
            self.wf(),
        ensures
            match r {
                Some(p) => self.users_map().contains_key(user_id@) && is_profile_of(
                    p,
                    self.users_map()[user_id@],
                ),
                None => !self.users_map().contains_key(user_id@),
            },
    {
        match self.users.get(user_id) {
            Some(u) => Some(self.user_to_profile(u)),
            None => None,
        }
    }

    /// Issue a token for a subject with an explicit issue time.
    pub fn issue_token_at(&self, user_id: &str, now: i64) -> (r: String)
        requires
            now <= i64::MAX - TOKEN_LIFETIME_SECS,
        ensures
            r@ == token_of(self.secret(), user_id@, now as int, now + TOKEN_LIFETIME_SECS as int),
            claims_of(self.secret(), r@) == Some(
                TokenClaimsView {
                    sub: user_id@,
                    iat: now as int,
                    exp: now + TOKEN_LIFETIME_SECS as int,
                },
            ),
    {
        trusted::token_encode(self.jwt_secret.as_str(), user_id, now, now + TOKEN_LIFETIME_SECS)
    }

    fn generate_token(&self, user_id: &str) -> (r: Option<String>)
        ensures
            r matches Some(t) ==> claims_of(self.secret(), t@) matches Some(c) && c.sub == user_id@
                && c.exp == c.iat + TOKEN_LIFETIME_SECS,
    {
        let now = trusted::now_ts();
        if now <= i64::MAX - TOKEN_LIFETIME_SECS {
            Some(self.issue_token_at(user_id, now))
        } else {
            None
        }
    }

    /// Verify a token against an explicit clock reading.
    pub fn verify_token_at(&self, token: &str, now: i64) -> (r: Option<String>)
        ensures
            match r {
                Some(s) => spec_verify_token(self.secret(), token@, now as int) == Some(s@),
                None => spec_verify_token(self.secret(), token@, now as int) is None,
            },
    {
        match trusted::token_decode(self.jwt_secret.as_str(), token) {
            Some(c) => if now < c.exp {
                Some(c.sub)
            } else {
                None
            },
            None => None,
        }
    }

    /// Verify a token against the current clock. Whatever the clock says, a
    /// returned subject always comes out of claims that decode under the
    /// secret, and a token that does not decode is never accepted.
    pub fn verify_token(&self, token: &str) -> (r: Option<String>)
        ensures
            match r {
                Some(s) => claims_of(self.secret(), token@) matches Some(c) && c.sub == s@,
                None => true,
            },
            claims_of(self.secret(), token@) is None ==> r is None,
    {
        let now = trusted::now_ts();
        self.verify_token_at(token, now)
    }

    pub fn signup(&mut self, request: SignupRequest) -> (r: AuthResponse)
        requires
            old(self).wf(),
        ensures
            final(self).wf(),
            final(self).secret() == old(self).secret(),
            !r.success ==> *final(self) == *old(self),
            !valid_username(request.username@) ==> failed(
                r,
                "Username must be at least 3 characters"@,
            ),
            valid_username(request.username@) && !valid_email(request.email@) ==> failed(
                r,
                "Invalid email address"@,
            ),
            valid_username(request.username@) && valid_email(request.email@) && !valid_password(
                request.password@,
            ) ==> failed(r, "Password must be at least 8 characters"@),
            valid_username(request.username@) && valid_email(request.email@) && valid_password(
                request.password@,
            ) && old(self).emails().contains_key(request.email@) ==> failed(
                r,
                "Email already registered"@,
            ),
            valid_username(request.username@) && valid_email(request.email@) && valid_password(
                request.password@,
            ) && !old(self).emails().contains_key(request.email@) && !r.success ==> failed(
                r,
                "Internal server error"@,
            ),
            r.success ==> valid_username(request.username@) && valid_email(request.email@)
                && valid_password(request.password@) && !old(self).emails().contains_key(
                request.email@,
            ),
            r.success ==> r.message@ == "Account created successfully"@ && (r.user matches Some(p)
                && {
                let id = p.id@;
                &&& !old(self).users_map().contains_key(id)
                &&& final(self).users_map() == old(self).users_map().insert(
                    id,
                    final(self).users_map()[id],
                )
                &&& final(self).emails() == old(self).emails().insert(
                    request.email@,
                    final(self).emails()[request.email@],
                )
                &&& final(self).emails()[request.email@]@ == id
                &&& ({
                    let u = final(self).users_map()[id];
                    &&& u.id@ == id
                    &&& u.username@ == request.username@
                    &&& u.email@ == request.email@
                    &&& password_matches(request.password@, u.password_hash@)
                    &&& u.avatar_url is None
                    &&& u.games_created@.len() == 0
                    &&& u.games_played@.len() == 0
                    &&& u.friends@.len() == 0
                    &&& u.achievements@.len() == 0
                    &&& is_profile_of(p, u)
                })
                &&& (r.token matches Some(t) && claims_of(old(self).secret(), t@) matches Some(c)
                    && c.sub == id && c.exp == c.iat + TOKEN_LIFETIME_SECS)
            }),
    {
        if request.username.as_str().as_bytes().len() < 3 {
            return fail_response("Username must be at least 3 characters");
        }
        if !contains_at(request.email.as_str()) {
            return fail_response("Invalid email address");
        }
        if request.password.as_str().as_bytes().len() < 8 {
            return fail_response("Password must be at least 8 characters");
        }
        if self.email_to_id.contains_key(request.email.as_str()) {
            return fail_response("Email already registered");
        }
        let password_hash = match trusted::hash_password(request.password.as_str()) {
            Some(h) => h,
            None => {
                return fail_response("Internal server error");
            },
        };
        let user_id = trusted::mint_id("user");
        if self.users.contains_key(user_id.as_str()) {
            return fail_response("Internal server error");
        }
        let token = match self.generate_token(user_id.as_str()) {
            Some(t) => t,
            None => {
                return fail_response("Internal server error");
            },
        };
        let created_at = trusted::now_ts();
        let user = User {
            id: user_id.clone(),
            username: request.username.clone(),
            email: request.email.clone(),
            password_hash,
            created_at,
            avatar_url: None,
            games_created: Vec::new(),
            games_played: Vec::new(),
            friends: Vec::new(),
            achievements: Vec::new(),
        };
        let profile = self.user_to_profile(&user);
        let ghost pre = *self;
        self.users.insert(user_id.clone(), user);
        self.email_to_id.insert(request.email.clone(), user_id);
        proof {
            assert(final(self).wf()) by {
                assert forall|id: Seq<char>| #[trigger]
                    self.users@.contains_key(id) implies {
                    let u = self.users@[id];
                    &&& u.id@ == id
                    &&& self.email_to_id@.contains_key(u.email@)
                    &&& self.email_to_id@[u.email@]@ == id
                } by {
                    if id != profile.id@ {
                        assert(pre.users@.contains_key(id));
                        assert(pre.users@[id].email@ != request.email@);
                    }
                }
            }
        }
        AuthResponse {
            success: true,
            message: "Account created successfully".to_owned(),
            token: Some(token),
            user: Some(profile),
        }
    }

    pub fn login(&self, request: LoginRequest) -> (r: AuthResponse)
        requires
            self.wf(),
        ensures
            ({
                let e = request.email@;
                let ok = self.emails().contains_key(e) && password_matches(
                    request.password@,
                    self.users_map()[self.emails()[e]@].password_hash@,
                );
                &&& !ok ==> failed(r, "Invalid email or password"@)
                &&& ok && !r.success ==> failed(r, "Internal server error"@)
                &&& r.success ==> ok && {
                    let u = self.users_map()[self.emails()[e]@];
                    &&& r.message@ == "Login successful"@
                    &&& (r.user matches Some(p) && is_profile_of(p, u))
                    &&& (r.token matches Some(t) && claims_of(self.secret(), t@) matches Some(c)
                        && c.sub == u.id@ && c.exp == c.iat + TOKEN_LIFETIME_SECS)
                }
            }),
    {
        let user_id = match self.email_to_id.get(request.email.as_str()) {
            Some(id) => id.clone(),
            None => {
                return fail_response("Invalid email or password");
            },
        };
        let user = match self.users.get(user_id.as_str()) {
            Some(u) => u,
            None => {
                return fail_response("Invalid email or password");
            },
        };
        if trusted::check_password(request.password.as_str(), user.password_hash.as_str()) {
            let token = match self.generate_token(user_id.as_str()) {
                Some(t) => t,
                None => {
                    return fail_response("Internal server error");
                },
            };
            AuthResponse {
                success: true,
                message: "Login successful".to_owned(),
                token: Some(token),
                user: Some(self.user_to_profile(user)),
            }
        } else {
            fail_response("Invalid email or password")
        }
    }

    proof fn lemma_wf_update(pre: Self, post: Self, id: Seq<char>)
        requires
            pre.wf(),
            pre.users@.contains_key(id),
            post.users.wf(),
            post.email_to_id.wf(),
            post.email_to_id@ == pre.email_to_id@,
            post.users@ == pre.users@.insert(id, post.users@[id]),
            post.users@[id].id@ == pre.users@[id].id@,
            post.users@[id].email@ == pre.users@[id].email@,
        ensures
            post.wf(),
    {
    }

    /// Replace the avatar; idempotent, and answers whether the profile exists.
    pub fn update_user(&mut self, user_id: &str, avatar_url: Option<String>) -> (r: bool)
        requires
            old(self).wf(),
        ensures
            final(self).wf(),
            final(self).secret() == old(self).secret(),
            final(self).emails() == old(self).emails(),
            r == old(self).users_map().contains_key(user_id@),
            !r ==> *final(self) == *old(self),
            r ==> ({
                let u = old(self).users_map()[user_id@];
                let nu = final(self).users_map()[user_id@];
                &&& final(self).users_map() == old(self).users_map().insert(user_id@, nu)
                &&& nu.id == u.id
                &&& nu.username == u.username
                &&& nu.email == u.email
                &&& nu.password_hash == u.password_hash
                &&& nu.created_at == u.created_at
                &&& nu.avatar_url == avatar_url
                &&& nu.games_created == u.games_created
                &&& nu.games_played == u.games_played
                &&& nu.friends == u.friends
                &&& nu.achievements == u.achievements
            }),
    {
        if !self.users.contains_key(user_id) {
            return false;
        }
        let ghost pre = *self;
        let mut u = match self.users.remove(user_id) {
            Some(u) => u,
            None => {
                proof {
                    assert(false);
                }
                return false;
            },
        };
        u.avatar_url = avatar_url;
        let key = u.id.clone();
        self.users.insert(key, u);
        proof {
            assert(self.users@ =~= pre.users@.insert(user_id@, self.users@[user_id@]));
            Self::lemma_wf_update(pre, *self, user_id@);
        }
        true
    }

    /// Record a friendship edge; answers whether an insertion happened.
    pub fn add_friend(&mut self, user_id: &str, friend_id: &str) -> (r: bool)
        requires
            old(self).wf(),
        ensures
            final(self).wf(),
            final(self).secret() == old(self).secret(),
            final(self).emails() == old(self).emails(),
            r == (old(self).users_map().contains_key(user_id@) && !views_of(
                old(self).users_map()[user_id@].friends@,
            ).contains(friend_id@)),
            !r ==> *final(self) == *old(self),
            r ==> ({
                let u = old(self).users_map()[user_id@];
                let nu = final(self).users_map()[user_id@];
                &&& final(self).users_map() == old(self).users_map().insert(user_id@, nu)
                &&& nu.id == u.id
                &&& nu.username == u.username
                &&& nu.email == u.email
                &&& nu.password_hash == u.password_hash
                &&& nu.created_at == u.created_at
                &&& nu.avatar_url == u.avatar_url
                &&& nu.games_created == u.games_created
                &&& nu.games_played == u.games_played
                &&& nu.achievements == u.achievements
                &&& views_of(nu.friends@) == views_of(u.friends@).push(friend_id@)
            }),
    {
        let f = friend_id.to_owned();
        let already = match self.users.get(user_id) {
            Some(u) => contains_string(&u.friends, &f),
            None => {
                return false;
            },
        };
        if already {
            return false;
        }
        let ghost pre = *self;
        let mut u = match self.users.remove(user_id) {
            Some(u) => u,
            None => {
                proof {
                    assert(false);
                }
                return false;
            },
        };
        u.friends.push(f);
        let key = u.id.clone();
        self.users.insert(key, u);
        proof {
            assert(self.users@ =~= pre.users@.insert(user_id@, self.users@[user_id@]));
            Self::lemma_wf_update(pre, *self, user_id@);
            let uf = pre.users@[user_id@].friends@;
            assert(views_of(self.users@[user_id@].friends@) =~= views_of(uf).push(friend_id@));
        }
        true
    }

    /// Record that the player created a game; an unconditional append.
    pub fn add_created_game(&mut self, user_id: &str, game_id: &str)
        requires
            old(self).wf(),
        ensures
            final(self).wf(),
            final(self).secret() == old(self).secret(),
            final(self).emails() == old(self).emails(),
            !old(self).users_map().contains_key(user_id@) ==> *final(self) == *old(self),
            old(self).users_map().contains_key(user_id@) ==> ({
                let u = old(self).users_map()[user_id@];
                let nu = final(self).users_map()[user_id@];
                &&& final(self).users_map() == old(self).users_map().insert(user_id@, nu)
                &&& nu.id == u.id
                &&& nu.username == u.username
                &&& nu.email == u.email
                &&& nu.password_hash == u.password_hash
                &&& nu.created_at == u.created_at
                &&& nu.avatar_url == u.avatar_url
                &&& nu.games_played == u.games_played
                &&& nu.friends == u.friends
                &&& nu.achievements == u.achievements
                &&& views_of(nu.games_created@) == views_of(u.games_created@).push(game_id@)
            }),
    {
        if !self.users.contains_key(user_id) {
            return ;
        }
        let ghost pre = *self;
        let mut u = match self.users.remove(user_id) {
            Some(u) => u,
            None => {
                proof {
                    assert(false);
                }
                return ;
            },
        };
        u.games_created.push(game_id.to_owned());
        let key = u.id.clone();
        self.users.insert(key, u);
        proof {
            assert(self.users@ =~= pre.users@.insert(user_id@, self.users@[user_id@]));
            Self::lemma_wf_update(pre, *self, user_id@);
            let gc = pre.users@[user_id@].games_created@;
            assert(views_of(self.users@[user_id@].games_created@) =~= views_of(gc).push(game_id@));
        }
    }

    /// Record that the player played a game; a deduplicated append.
    pub fn add_played_game(&mut self, user_id: &str, game_id: &str)
        requires
            old(self).wf(),
        ensures
            final(self).wf(),
            final(self).secret() == old(self).secret(),
            final(self).emails() == old(self).emails(),
            !old(self).users_map().contains_key(user_id@) ==> *final(self) == *old(self),
            old(self).users_map().contains_key(user_id@) ==> ({
                let u = old(self).users_map()[user_id@];
                let nu = final(self).users_map()[user_id@];
                &&& final(self).users_map() == old(self).users_map().insert(user_id@, nu)
                &&& nu.id == u.id
                &&& nu.username == u.username
                &&& nu.email == u.email
                &&& nu.password_hash == u.password_hash
                &&& nu.created_at == u.created_at
                &&& nu.avatar_url == u.avatar_url
                &&& nu.games_created == u.games_created
                &&& nu.friends == u.friends
                &&& nu.achievements == u.achievements
                &&& views_of(nu.games_played@) == push_unique(
                    views_of(u.games_played@),
                    game_id@,
                )
            }),
    {
        let g = game_id.to_owned();
        let already = match self.users.get(user_id) {
            Some(u) => contains_string(&u.games_played, &g),
            None => {
                return ;
            },
        };
        if already {
            proof {
                assert(self.users@ =~= self.users@.insert(user_id@, self.users@[user_id@]));
            }
            return ;
        }
        let ghost pre = *self;
        let mut u = match self.users.remove(user_id) {
            Some(u) => u,
            None => {
                proof {
                    assert(false);
                }
                return ;
            },
        };
        u.games_played.push(g);
        let key = u.id.clone();
        self.users.insert(key, u);
        proof {
            assert(self.users@ =~= pre.users@.insert(user_id@, self.users@[user_id@]));
            Self::lemma_wf_update(pre, *self, user_id@);
            let gp = pre.users@[user_id@].games_played@;
            assert(views_of(self.users@[user_id@].games_played@) =~= views_of(gp).push(game_id@));
        }
    }

    /// Append a newly unlocked achievement, stamped with the current time.
    /// Repeated unlocks of the same achievement id are not collapsed.
    pub fn unlock_achievement(
        &mut self,
        user_id: &str,
        achievement_id: &str,
        name: &str,
        description: &str,
    )
        requires
            old(self).wf(),
        ensures
            final(self).wf(),
            final(self).secret() == old(self).secret(),
            final(self).emails() == old(self).emails(),
            !old(self).users_map().contains_key(user_id@) ==> *final(self) == *old(self),
            old(self).users_map().contains_key(user_id@) ==> ({
                let u = old(self).users_map()[user_id@];
                let nu = final(self).users_map()[user_id@];
                &&& final(self).users_map() == old(self).users_map().insert(user_id@, nu)
                &&& nu.id == u.id
                &&& nu.username == u.username
                &&& nu.email == u.email
                &&& nu.password_hash == u.password_hash
                &&& nu.created_at == u.created_at
                &&& nu.avatar_url == u.avatar_url
                &&& nu.games_created == u.games_created
                &&& nu.games_played == u.games_played
                &&& nu.friends == u.friends
                &&& nu.achievements@.len() == u.achievements@.len() + 1
                &&& nu.achievements@.subrange(0, u.achievements@.len() as int) == u.achievements@
                &&& nu.achievements@.last().id@ == achievement_id@
                &&& nu.achievements@.last().name@ == name@
                &&& nu.achievements@.last().description@ == description@
            }),
    {
        if !self.users.contains_key(user_id) {
            return ;
        }
        let ghost pre = *self;
        let mut u = match self.users.remove(user_id) {
            Some(u) => u,
            None => {
                proof {
                    assert(false);
                }
                return ;
            },
        };
        let achievement = Achievement {
            id: achievement_id.to_owned(),
            name: name.to_owned(),
            description: description.to_owned(),
            unlocked_at: trusted::now_ts(),
        };
        u.achievements.push(achievement);
        let key = u.id.clone();
        self.users.insert(key, u);
        proof {
            assert(self.users@ =~= pre.users@.insert(user_id@, self.users@[user_id@]));
            Self::lemma_wf_update(pre, *self, user_id@);
            let oa = pre.users@[user_id@].achievements@;
            assert(self.users@[user_id@].achievements@.subrange(0, oa.len() as int) =~= oa);
        }
    }
}

} // verus!
