//! User accounts, roles and the checks behind sessions.
//!
//! [`UserTable`] decides account changes: who may be created, how a role or
//! password change invalidates earlier sessions (by bumping the user's
//! session version), and that the last admin cannot be deleted.  Claims
//! carried by a session are current only while the user still exists with
//! the same role and session version.  Password hashing uses Argon2id with
//! a random salt; writing the accounts file and signing tokens are done by
//! the caller.

use vstd::prelude::*;
use crate::ids::{new_uuid_v4, uuid_v4_text};
use crate::text::str_equal;

verus! {

// ---------------------------------------------------------------------------
// Records
// ---------------------------------------------------------------------------

#[derive(Debug, Clone, Copy, PartialEq, Eq, Structural)]
pub enum Role {
    /// Full access: server config, user management, all operations.
    Admin,
    /// Manage groups, streams, clients and volumes; not users or config.
    Operator,
    /// Read-only access.
    Viewer,
}

pub open spec fn role_text(r: Role) -> Seq<char> {
    match r {
        Role::Admin => "admin"@,
        Role::Operator => "operator"@,
        Role::Viewer => "viewer"@,
    }
}

impl Role {
    /// The role's name as written in tokens and files.
    pub fn as_str(&self) -> (s: &'static str)
        ensures
            s@ == role_text(*self),
    {
        match self {
            Role::Admin => "admin",
            Role::Operator => "operator",
            Role::Viewer => "viewer",
        }
    }
}

#[derive(Debug)]
pub struct User {
    pub id: String,
    pub username: String,
    pub password_hash: String,
    pub role: Role,
    pub must_change_password: bool,
    /// Bumped whenever earlier sessions of the user must stop being valid.
    pub session_version: u64,
}

pub ghost struct UserModel {
    pub id: Seq<char>,
    pub username: Seq<char>,
    pub password_hash: Seq<char>,
    pub role: Role,
    pub must_change_password: bool,
    pub session_version: u64,
}

impl View for User {
    type V = UserModel;

    open spec fn view(&self) -> UserModel {
        UserModel {
            id: self.id@,
            username: self.username@,
            password_hash: self.password_hash@,
            role: self.role,
            must_change_password: self.must_change_password,
            session_version: self.session_version,
        }
    }
}

impl User {
    pub fn copy(&self) -> (c: User)
        ensures
            c@ == self@,
    {
        User {
            id: self.id.clone(),
            username: self.username.clone(),
            password_hash: self.password_hash.clone(),
            role: self.role,
            must_change_password: self.must_change_password,
            session_version: self.session_version,
        }
    }
}

/// Public view of a user, without the password hash.
#[derive(Debug)]
pub struct UserView {
    pub id: String,
    pub username: String,
    pub role: Role,
    pub must_change_password: bool,
}

impl UserView {
    pub fn from_user(u: &User) -> (v: UserView)
        ensures
            v.id@ == u.id@,
            v.username@ == u.username@,
            v.role == u.role,
            v.must_change_password == u.must_change_password,
    {
        UserView {
            id: u.id.clone(),
            username: u.username.clone(),
            role: u.role,
            must_change_password: u.must_change_password,
        }
    }
}

/// Claims carried by a session token.
#[derive(Debug)]
pub struct Claims {
    /// The user's id.
    pub sub: String,
    pub username: String,
    /// The role's name.
    pub role: String,
    pub must_change_password: bool,
    pub session_version: u64,
    /// Expiry in Unix seconds.
    pub exp: usize,
}

impl Claims {
    /// A field-by-field copy.
    pub fn copy(&self) -> (c: Claims)
        ensures
            c == *self,
    {
        Claims {
            sub: self.sub.clone(),
            username: self.username.clone(),
            role: self.role.clone(),
            must_change_password: self.must_change_password,
            session_version: self.session_version,
            exp: self.exp,
        }
    }
}

/// Failure while issuing a WebSocket admission ticket.
#[derive(Debug, Clone, Copy, PartialEq, Eq, Structural)]
pub enum WsTicketIssueError {
    InvalidToken,
    CapacityExceeded,
}

/// Why an account change or an accounts file was refused.
#[derive(Debug)]
pub enum AuthError {
    /// Hashing the password failed.
    Hash(String),
    /// The user's session version cannot be bumped any further.
    SessionVersionExhausted,
    /// The accounts file breaks a rule; the message names it.
    InvalidFile(String),
}

// ---------------------------------------------------------------------------
// Argon2id
// ---------------------------------------------------------------------------

/// Whether `password` matches the PHC string `hash` under Argon2.
pub uninterp spec fn argon2_accepts(password: Seq<char>, hash: Seq<char>) -> bool;

/// `argon2::Argon2::default().hash_password` with a salt from the operating
/// system's generator, written as a PHC string.  The salt is random, so the
/// text itself is not stated; what is stated is that verifying `password`
/// against it succeeds (verification re-hashes with the string's own salt and
/// parameters) and that it names Argon2id, the default algorithm.  A failure
/// carries the crate's error text unchanged.
#[verifier::external_body]
fn argon2_hash(password: &str) -> (r: Result<String, String>)
    ensures
        r matches Ok(h) ==> argon2_accepts(password@, h@) && phc_algorithm(h@) == Some("argon2id"@),
{
    let salt = argon2::password_hash::SaltString::generate(&mut argon2::password_hash::rand_core::OsRng);
    match argon2::password_hash::PasswordHasher::hash_password(&argon2::Argon2::default(), password.as_bytes(), &salt) {
        Ok(hash) => Ok(hash.to_string()),
        Err(e) => Err(e.to_string()),
    }
}

/// The error of a failed password hash, naming the hasher's `detail`.
fn hash_error(detail: String) -> (e: AuthError)
    ensures
        e matches AuthError::Hash(m) && m@ == "hash error: "@ + detail@,
{
    let mut m = String::from_str("hash error: ");
    m.append(detail.as_str());
    AuthError::Hash(m)
}

/// A hashing failure: the fixed prefix, then the hasher's own text.
pub open spec fn is_hash_error(e: AuthError) -> bool {
    e matches AuthError::Hash(m) && exists|d: Seq<char>| m@ == "hash error: "@ + d
}

/// `argon2::PasswordHash::new` followed by `Argon2::default().verify_password`:
/// false when `hash` does not parse.  The result is a function of the two
/// texts.
#[verifier::external_body]
fn argon2_verify(password: &str, hash: &str) -> (ok: bool)
    ensures
        ok == argon2_accepts(password@, hash@),
{
    match argon2::password_hash::PasswordHash::new(hash) {
        Ok(parsed) => argon2::password_hash::PasswordVerifier::verify_password(
            &argon2::Argon2::default(),
            password.as_bytes(),
            &parsed,
        ).is_ok(),
        Err(_) => false,
    }
}

/// The algorithm identifier of a PHC string, or none when it does not parse.
pub uninterp spec fn phc_algorithm(hash: Seq<char>) -> Option<Seq<char>>;

/// `argon2::password_hash::PasswordHash::new`, keeping the algorithm
/// identifier.  The result is a function of the text.
#[verifier::external_body]
fn phc_algorithm_of(hash: &str) -> (r: Option<String>)
    ensures
        match r {
            Some(a) => phc_algorithm(hash@) == Some(a@),
            None => phc_algorithm(hash@) is None,
        },
{
    match argon2::password_hash::PasswordHash::new(hash) {
        Ok(parsed) => Some(parsed.algorithm.as_str().to_string()),
        Err(_) => None,
    }
}

// ---------------------------------------------------------------------------
// The table
// ---------------------------------------------------------------------------

pub open spec fn find_user(s: Seq<UserModel>, id: Seq<char>) -> Option<int> {
    if exists|i: int| 0 <= i < s.len() && #[trigger] s[i].id == id {
        Some(choose|i: int| 0 <= i < s.len() && #[trigger] s[i].id == id)
    } else {
        None
    }
}

pub open spec fn find_username(s: Seq<UserModel>, name: Seq<char>) -> Option<int> {
    if exists|i: int| 0 <= i < s.len() && #[trigger] s[i].username == name {
        Some(choose|i: int| 0 <= i < s.len() && #[trigger] s[i].username == name)
    } else {
        None
    }
}

/// User ids and usernames are unique.
pub open spec fn users_wf(s: Seq<UserModel>) -> bool {
    &&& forall|i: int, j: int| 0 <= i < s.len() && 0 <= j < s.len() && i != j ==> s[i].id != s[j].id
    &&& forall|i: int, j: int|
        0 <= i < s.len() && 0 <= j < s.len() && i != j ==> s[i].username != s[j].username
}

pub open spec fn admin_count(s: Seq<UserModel>) -> nat {
    s.filter(|u: UserModel| u.role == Role::Admin).len()
}

/// The accounts, in the order they were added.
pub struct UserTable {
    users: Vec<User>,
}

impl View for UserTable {
    type V = Seq<UserModel>;

    closed spec fn view(&self) -> Seq<UserModel> {
        self.users@.map_values(|u: User| u@)
    }
}

/// The table after inserting `u` under its id: a user with that id is
/// replaced, else `u` is appended.
pub open spec fn insert_user_spec(s: Seq<UserModel>, u: UserModel) -> Seq<UserModel> {
    match find_user(s, u.id) {
        Some(i) => s.update(i, u),
        None => s.push(u),
    }
}

/// A user after a change of role and/or password (`new_hash` being the hash
/// of the new password): a changed role or any new password bumps the
/// session version; a new password clears the must-change flag.
pub open spec fn updated_user(u: UserModel, role: Option<Role>, new_hash: Option<Seq<char>>) -> UserModel {
    let role_changed = role matches Some(r) && r != u.role;
    let invalidate = role_changed || new_hash is Some;
    UserModel {
        role: match role {
            Some(r) => r,
            None => u.role,
        },
        password_hash: match new_hash {
            Some(h) => h,
            None => u.password_hash,
        },
        must_change_password: if new_hash is Some { false } else { u.must_change_password },
        session_version: if invalidate { (u.session_version + 1) as u64 } else { u.session_version },
        ..u
    }
}

/// Whether a change would have to bump a session version that is already
/// at its maximum.
pub open spec fn update_exhausts(u: UserModel, role: Option<Role>, new_hash: bool) -> bool {
    let role_changed = role matches Some(r) && r != u.role;
    (role_changed || new_hash) && u.session_version == u64::MAX
}

/// Claims are current while their user exists with the same role and
/// session version.
pub open spec fn claims_current_spec(s: Seq<UserModel>, sub: Seq<char>, role: Seq<char>, session_version: u64) -> bool {
    match find_user(s, sub) {
        Some(i) => role_text(s[i].role) == role && s[i].session_version == session_version,
        None => false,
    }
}

impl UserTable {
    pub closed spec fn wf(&self) -> bool {
        users_wf(self@)
    }

    pub fn new() -> (t: Self)
        ensures
            t.wf(),
            t@ == Seq::<UserModel>::empty(),
    {
        let t = UserTable { users: Vec::new() };
        assert(t@ =~= Seq::<UserModel>::empty());
        t
    }

    /// True while no account exists.
    pub fn is_setup_needed(&self) -> (b: bool)
        ensures
            b == (self@.len() == 0),
    {
        self.users.len() == 0
    }

    fn user_pos(&self, id: &str) -> (r: Option<usize>)
        requires
            self.wf(),
        ensures
            r matches Some(i) ==> find_user(self@, id@) == Some(i as int),
            r is None ==> find_user(self@, id@) is None,
    {
        let mut i: usize = 0;
        while i < self.users.len()
            invariant
                0 <= i <= self.users@.len(),
                users_wf(self@),
                self@.len() == self.users@.len(),
                forall|j: int| 0 <= j < i ==> (#[trigger] self@[j]).id != id@,
            decreases self.users@.len() - i,
        {
            if str_equal(self.users[i].id.as_str(), id) {
                assert(self@[i as int].id == id@);
                return Some(i);
            }
            i = i + 1;
        }
        None
    }

    fn username_pos(&self, name: &str) -> (r: Option<usize>)
        requires
            self.wf(),
        ensures
            r matches Some(i) ==> find_username(self@, name@) == Some(i as int),
            r is None ==> find_username(self@, name@) is None,
    {
        let mut i: usize = 0;
        while i < self.users.len()
            invariant
                0 <= i <= self.users@.len(),
                users_wf(self@),
                self@.len() == self.users@.len(),
                forall|j: int| 0 <= j < i ==> (#[trigger] self@[j]).username != name@,
            decreases self.users@.len() - i,
        {
            if str_equal(self.users[i].username.as_str(), name) {
                assert(self@[i as int].username == name@);
                return Some(i);
            }
            i = i + 1;
        }
        None
    }

    /// Every account's public view, in table order.
    pub fn all_users(&self) -> (r: Vec<UserView>)
        ensures
            r@.len() == self@.len(),
            forall|k: int|
                0 <= k < r@.len() ==> (#[trigger] r@[k]).id@ == self@[k].id && r@[k].username@ == self@[k].username
                    && r@[k].role == self@[k].role && r@[k].must_change_password
                    == self@[k].must_change_password,
    {
        let mut r: Vec<UserView> = Vec::new();
        let mut k: usize = 0;
        while k < self.users.len()
            invariant
                0 <= k <= self.users@.len(),
                self@.len() == self.users@.len(),
                r@.len() == k,
                forall|j: int|
                    0 <= j < k ==> (#[trigger] r@[j]).id@ == self@[j].id && r@[j].username@ == self@[j].username
                        && r@[j].role == self@[j].role && r@[j].must_change_password
                        == self@[j].must_change_password,
            decreases self.users@.len() - k,
        {
            r.push(UserView::from_user(&self.users[k]));
            k = k + 1;
        }
        r
    }

    pub fn get_user(&self, id: &str) -> (r: Option<UserView>)
        requires
            self.wf(),
        ensures
            match find_user(self@, id@) {
                Some(i) => r matches Some(v) && v.id@ == self@[i].id && v.username@ == self@[i].username
                    && v.role == self@[i].role && v.must_change_password == self@[i].must_change_password,
                None => r is None,
            },
    {
        match self.user_pos(id) {
            Some(i) => Some(UserView::from_user(&self.users[i])),
            None => None,
        }
    }

    /// Insert `u` under its id, replacing a user with that id.  The new
    /// username must be free (or belong to the replaced user).
    pub fn insert_user(&mut self, u: User)
        requires
            old(self).wf(),
            match find_username(old(self)@, u.username@) {
                Some(j) => old(self)@[j].id == u.id@,
                None => true,
            },
        ensures
            final(self).wf(),
            final(self)@ == insert_user_spec(old(self)@, u@),
    {
        let ghost s0 = self@;
        let ghost uv = u@;
        match self.user_pos(u.id.as_str()) {
            Some(i) => {
                self.users.set(i, u);
                proof {
                    assert(self@ =~= s0.update(i as int, uv));
                    assert forall|a: int, b: int|
                        0 <= a < self@.len() && 0 <= b < self@.len() && a != b implies self@[a].username
                        != self@[b].username by {
                        if a == i {
                            if s0[b].username == uv.username {
                                assert(find_username(s0, uv.username) is Some);
                                let j = find_username(s0, uv.username)->0;
                                assert(s0[j].id == uv.id);
                                assert(j == i);
                            }
                        } else if b == i {
                            if s0[a].username == uv.username {
                                assert(find_username(s0, uv.username) is Some);
                                let j = find_username(s0, uv.username)->0;
                                assert(j == i);
                            }
                        }
                    }
                }
            },
            None => {
                self.users.push(u);
                proof {
                    assert(self@ =~= s0.push(uv));
                    assert forall|a: int, b: int|
                        0 <= a < self@.len() && 0 <= b < self@.len() && a != b implies self@[a].username
                        != self@[b].username && self@[a].id != self@[b].id by {
                        if a == s0.len() || b == s0.len() {
                            let o = if a == s0.len() { b } else { a };
                            if s0[o].username == uv.username {
                                assert(find_username(s0, uv.username) is Some);
                                let j = find_username(s0, uv.username)->0;
                                assert(s0[j].id == uv.id);
                            }
                            assert(s0[o].id != uv.id);
                        }
                    }
                }
            },
        }
    }

    /// Create an account with a random id and a freshly hashed password.
    /// `Ok(None)`, with nothing changed, when the username is taken.
    pub fn create_user(&mut self, username: &str, password: &str, role: Role) -> (r: Result<
        Option<UserView>,
        AuthError,
    >)
        requires
            old(self).wf(),
        ensures
            final(self).wf(),
            find_username(old(self)@, username@) is Some ==> (r matches Ok(None) && final(self)@ == old(self)@),
            find_username(old(self)@, username@) is None ==> !(r matches Ok(None)),
            r is Err ==> final(self)@ == old(self)@,
            r matches Err(e) ==> is_hash_error(e),
            r matches Ok(Some(v)) ==> (find_username(final(self)@, username@) matches Some(k)
                && argon2_accepts(password@, final(self)@[k].password_hash)),
            r matches Ok(Some(v)) ==> find_username(old(self)@, username@) is None && uuid_v4_text(v.id@)
                && v.username@ == username@ && v.role == role && !v.must_change_password && exists|h: Seq<char>|
                final(self)@ == insert_user_spec(
                    old(self)@,
                    UserModel {
                        id: v.id@,
                        username: username@,
                        password_hash: h,
                        role,
                        must_change_password: false,
                        session_version: 0,
                    },
                ),
    {
        self.create_user_internal(username, password, role, false)
    }

    /// Create an account, optionally forced to change its password at the
    /// first login.
    pub fn create_user_internal(
        &mut self,
        username: &str,
        password: &str,
        role: Role,
        must_change: bool,
    ) -> (r: Result<Option<UserView>, AuthError>)
        requires
            old(self).wf(),
        ensures
            final(self).wf(),
            find_username(old(self)@, username@) is Some ==> (r matches Ok(None) && final(self)@ == old(self)@),
            find_username(old(self)@, username@) is None ==> !(r matches Ok(None)),
            r is Err ==> final(self)@ == old(self)@,
            r matches Err(e) ==> is_hash_error(e),
            r matches Ok(Some(v)) ==> (find_username(final(self)@, username@) matches Some(k)
                && argon2_accepts(password@, final(self)@[k].password_hash)),
            r matches Ok(Some(v)) ==> find_username(old(self)@, username@) is None && uuid_v4_text(v.id@)
                && v.username@ == username@ && v.role == role && v.must_change_password == must_change && exists|
                h: Seq<char>,
            |
                final(self)@ == insert_user_spec(
                    old(self)@,
                    UserModel {
                        id: v.id@,
                        username: username@,
                        password_hash: h,
                        role,
                        must_change_password: must_change,
                        session_version: 0,
                    },
                ),
    {
        if self.username_pos(username).is_some() {
            return Ok(None);
        }
        let hash = match argon2_hash(password) {
            Ok(h) => h,
            Err(e) => return Err(hash_error(e)),
        };
        let id = new_uuid_v4();
        let u = User {
            id,
            username: username.to_string(),
            password_hash: hash,
            role,
            must_change_password: must_change,
            session_version: 0,
        };
        let view = UserView::from_user(&u);
        let ghost s0 = self@;
        let ghost uv = u@;
        self.insert_user(u);
        proof {
            let k = match find_user(s0, uv.id) {
                Some(i) => i,
                None => s0.len() as int,
            };
            assert(self@[k] == uv);
            lemma_find_username_at(self@, k);
        }
        assert(self@ == insert_user_spec(
            s0,
            UserModel {
                id: view.id@,
                username: username@,
                password_hash: uv.password_hash,
                role,
                must_change_password: must_change,
                session_version: 0,
            },
        ));
        Ok(Some(view))
    }
}


impl UserTable {
    /// Apply a change of role and/or password hash to a user.  `Ok(false)`
    /// for an unknown user; an error, with nothing changed, when the
    /// session version would overflow.
    pub fn apply_update(&mut self, id: &str, role: Option<Role>, new_hash: Option<String>) -> (r: Result<
        bool,
        AuthError,
    >)
        requires
            old(self).wf(),
        ensures
            final(self).wf(),
            match find_user(old(self)@, id@) {
                None => r matches Ok(false) && final(self)@ == old(self)@,
                Some(i) => if update_exhausts(old(self)@[i], role, new_hash is Some) {
                    r matches Err(e) && e is SessionVersionExhausted && final(self)@ == old(self)@
                } else {
                    r matches Ok(true) && final(self)@ == old(self)@.update(
                        i,
                        updated_user(old(self)@[i], role, opt_text(new_hash)),
                    )
                },
            },
    {
        let i = match self.user_pos(id) {
            Some(i) => i,
            None => return Ok(false),
        };
        let mut u = self.users[i].copy();
        let mut invalidate = false;
        if let Some(r) = role {
            if u.role != r {
                u.role = r;
                invalidate = true;
            }
        }
        if let Some(h) = new_hash {
            u.password_hash = h;
            u.must_change_password = false;
            invalidate = true;
        }
        if invalidate {
            match u.session_version.checked_add(1) {
                Some(v) => u.session_version = v,
                None => return Err(AuthError::SessionVersionExhausted),
            }
        }
        let ghost s0 = self@;
        self.users.set(i, u);
        proof {
            assert(self@ =~= s0.update(i as int, u@));
        }
        Ok(true)
    }

    /// Change a user's role and/or password.  A changed role or a new
    /// password bumps the session version, so earlier sessions stop being
    /// current.  `Ok(false)` for an unknown user; errors leave the table
    /// unchanged.
    pub fn update_user(&mut self, id: &str, role: Option<Role>, new_password: Option<&str>) -> (r: Result<
        bool,
        AuthError,
    >)
        requires
            old(self).wf(),
        ensures
            final(self).wf(),
            r is Err ==> final(self)@ == old(self)@,
            r matches Err(e) ==> is_hash_error(e) || e is SessionVersionExhausted,
            new_password is None ==> (r matches Err(e) ==> e is SessionVersionExhausted),
            match find_user(old(self)@, id@) {
                None => r matches Ok(false) && final(self)@ == old(self)@,
                Some(i) => {
                    &&& update_exhausts(old(self)@[i], role, new_password is Some) ==> r is Err
                    &&& (!update_exhausts(old(self)@[i], role, new_password is Some) && new_password is None)
                        ==> (r matches Ok(true) && final(self)@ == old(self)@.update(i, updated_user(old(self)@[i], role, None)))
                    &&& (r matches Ok(true) && new_password is Some) ==> argon2_accepts(
                        new_password.unwrap()@,
                        final(self)@[i].password_hash,
                    ) && !final(self)@[i].must_change_password
                    &&& r matches Ok(true) ==> exists|h: Option<Seq<char>>|
                        h is Some == new_password is Some && #[trigger] old(self)@.update(
                            i,
                            updated_user(old(self)@[i], role, h),
                        ) == final(self)@
                },
            },
    {
        if self.user_pos(id).is_none() {
            return Ok(false);
        }
        let new_hash = match new_password {
            Some(p) => match argon2_hash(p) {
                Ok(h) => Some(h),
                Err(e) => return Err(hash_error(e)),
            },
            None => None,
        };
        let ghost s0 = self@;
        let ghost hv = opt_text(new_hash);
        let r = self.apply_update(id, role, new_hash);
        proof {
            if r is Ok {
                let i = find_user(s0, id@)->0;
                assert(s0.update(i, updated_user(s0[i], role, hv)) == self@);
            }
        }
        r
    }

    /// Delete a user.  `false`, with nothing changed, for an unknown user or
    /// the last admin.
    pub fn delete_user(&mut self, id: &str) -> (r: bool)
        requires
            old(self).wf(),
        ensures
            final(self).wf(),
            match find_user(old(self)@, id@) {
                Some(i) if old(self)@[i].role != Role::Admin || admin_count(old(self)@) > 1 => r
                    && final(self)@ == old(self)@.remove(i),
                _ => !r && final(self)@ == old(self)@,
            },
    {
        let i = match self.user_pos(id) {
            Some(i) => i,
            None => return false,
        };
        if self.users[i].role == Role::Admin {
            let admins = self.count_admins();
            if admins <= 1 {
                return false;
            }
        }
        let ghost s0 = self@;
        self.users.remove(i);
        proof {
            assert(self@ =~= s0.remove(i as int));
        }
        true
    }

    fn count_admins(&self) -> (n: usize)
        ensures
            n == admin_count(self@),
    {
        let ghost pred = |u: UserModel| u.role == Role::Admin;
        let mut n: usize = 0;
        let mut k: usize = 0;
        while k < self.users.len()
            invariant
                0 <= k <= self.users@.len(),
                self@.len() == self.users@.len(),
                pred == (|u: UserModel| u.role == Role::Admin),
                n == self@.subrange(0, k as int).filter(pred).len(),
                n <= k,
            decreases self.users@.len() - k,
        {
            proof {
                let s = self@.subrange(0, k as int + 1);
                assert(s.drop_last() =~= self@.subrange(0, k as int));
                s.drop_last().lemma_filter_push(s.last(), pred);
                assert(s =~= s.drop_last().push(s.last()));
            }
            if self.users[k].role == Role::Admin {
                n = n + 1;
            }
            k = k + 1;
        }
        assert(self@.subrange(0, self.users@.len() as int) =~= self@);
        n
    }

    /// The account whose username and password match.
    pub fn authenticate(&self, username: &str, password: &str) -> (r: Option<User>)
        requires
            self.wf(),
        ensures
            match find_username(self@, username@) {
                Some(i) => if argon2_accepts(password@, self@[i].password_hash) {
                    r matches Some(u) && u@ == self@[i]
                } else {
                    r is None
                },
                None => r is None,
            },
    {
        match self.username_pos(username) {
            Some(i) => if argon2_verify(password, self.users[i].password_hash.as_str()) {
                Some(self.users[i].copy())
            } else {
                None
            },
            None => None,
        }
    }

    /// Whether a session's claims are still current.
    pub fn claims_current(&self, claims: &Claims) -> (b: bool)
        requires
            self.wf(),
        ensures
            b == claims_current_spec(self@, claims.sub@, claims.role@, claims.session_version),
    {
        match self.user_pos(claims.sub.as_str()) {
            Some(i) => str_equal(self.users[i].role.as_str(), claims.role.as_str())
                && self.users[i].session_version == claims.session_version,
            None => false,
        }
    }

    /// The claims of a session token for `user`, expiring `ttl_hours` after
    /// `now_secs`.
    pub fn claims_for(user: &User, ttl_hours: u64, now_secs: usize) -> (c: Claims)
        requires
            now_secs + ttl_hours * 3600 <= usize::MAX,
        ensures
            c.sub@ == user.id@,
            c.username@ == user.username@,
            c.role@ == role_text(user.role),
            c.must_change_password == user.must_change_password,
            c.session_version == user.session_version,
            c.exp == now_secs + ttl_hours * 3600,
    {
        Claims {
            sub: user.id.clone(),
            username: user.username.clone(),
            role: user.role.as_str().to_string(),
            must_change_password: user.must_change_password,
            session_version: user.session_version,
            exp: now_secs + (ttl_hours * 3600) as usize,
        }
    }
}

pub open spec fn opt_text(o: Option<String>) -> Option<Seq<char>> {
    match o {
        Some(s) => Some(s@),
        None => None,
    }
}

// ---------------------------------------------------------------------------
// Accounts file
// ---------------------------------------------------------------------------

/// The first rule the `i`-th saved account breaks, given those before it.
pub open spec fn record_error(rs: Seq<UserModel>, i: int) -> Option<Seq<char>> {
    if exists|j: int| 0 <= j < i && #[trigger] rs[j].username == rs[i].username {
        Some("users file contains duplicate usernames"@)
    } else if phc_algorithm(rs[i].password_hash) is None {
        Some("users file contains an invalid password hash"@)
    } else if phc_algorithm(rs[i].password_hash)->0 != "argon2id"@ {
        Some("users file contains an unsupported password hash algorithm"@)
    } else if exists|j: int| 0 <= j < i && #[trigger] rs[j].id == rs[i].id {
        Some("users file contains duplicate user IDs"@)
    } else {
        None
    }
}

pub open spec fn first_record_error(rs: Seq<UserModel>, i: int) -> bool {
    &&& 0 <= i < rs.len()
    &&& record_error(rs, i) is Some
    &&& forall|j: int| 0 <= j < i ==> (#[trigger] record_error(rs, j)) is None
}

/// Why a saved accounts file is refused, if it is: an empty signing
/// secret, the first account that repeats a username, carries an invalid
/// or non-Argon2id hash, or repeats an id; then no accounts at all, or no
/// admin.
pub open spec fn file_error(rs: Seq<UserModel>, secret: Option<Seq<char>>) -> Option<Seq<char>> {
    if secret == Some(Seq::<char>::empty()) {
        Some("users file contains an empty JWT secret"@)
    } else if exists|i: int| first_record_error(rs, i) {
        record_error(rs, choose|i: int| first_record_error(rs, i))
    } else if rs.len() == 0 {
        Some("users file contains no accounts"@)
    } else if !(exists|i: int| 0 <= i < rs.len() && #[trigger] rs[i].role == Role::Admin) {
        Some("users file contains no admin account"@)
    } else {
        None
    }
}

proof fn lemma_first_record_error_unique(rs: Seq<UserModel>, a: int, b: int)
    requires
        first_record_error(rs, a),
        first_record_error(rs, b),
    ensures
        a == b,
{
    if a < b {
        assert(record_error(rs, a) is None);
    } else if b < a {
        assert(record_error(rs, b) is None);
    }
}

fn invalid_file(message: &str) -> (e: AuthError)
    ensures
        e matches AuthError::InvalidFile(m) && m@ == message@,
{
    AuthError::InvalidFile(String::from_str(message))
}

impl UserTable {
    /// The accounts of a saved file, checked; the table keeps their order.
    pub fn from_records(records: Vec<User>, jwt_secret: &Option<String>) -> (r: Result<UserTable, AuthError>)
        ensures
            match file_error(records@.map_values(|u: User| u@), opt_text(*jwt_secret)) {
                Some(m) => r matches Err(e) && e matches AuthError::InvalidFile(t) && t@ == m,
                None => r matches Ok(t) && t.wf() && t@ == records@.map_values(|u: User| u@),
            },
    {
        let ghost rs = records@.map_values(|u: User| u@);
        if let Some(secret) = jwt_secret {
            proof {
                reveal_strlit("");
                assert(""@ =~= Seq::<char>::empty());
            }
            if str_equal(secret.as_str(), "") {
                return Err(invalid_file("users file contains an empty JWT secret"));
            }
        }
        proof {
            reveal_strlit("");
            assert(""@ =~= Seq::<char>::empty());
        }
        let mut has_admin = false;
        let mut i: usize = 0;
        while i < records.len()
            invariant
                rs == records@.map_values(|u: User| u@),
                0 <= i <= rs.len(),
                forall|j: int| 0 <= j < i ==> (#[trigger] record_error(rs, j)) is None,
                has_admin == exists|j: int| 0 <= j < i && #[trigger] rs[j].role == Role::Admin,
                opt_text(*jwt_secret) != Some(Seq::<char>::empty()),
            decreases rs.len() - i,
        {
            let ghost err = record_error(rs, i as int);
            let mut j: usize = 0;
            while j < i
                invariant
                    rs == records@.map_values(|u: User| u@),
                    0 <= j <= i < rs.len(),
                    forall|q: int| 0 <= q < j ==> (#[trigger] rs[q]).username != rs[i as int].username,
                    forall|q: int| 0 <= q < i ==> (#[trigger] record_error(rs, q)) is None,
                    opt_text(*jwt_secret) != Some(Seq::<char>::empty()),
                decreases i - j,
            {
                if str_equal(records[j].username.as_str(), records[i].username.as_str()) {
                    proof {
                        assert(rs[j as int].username == rs[i as int].username);
                        assert(first_record_error(rs, i as int));
                        lemma_first_record_error_unique(rs, i as int, choose|q: int| first_record_error(rs, q));
                    }
                    return Err(invalid_file("users file contains duplicate usernames"));
                }
                j = j + 1;
            }
            match phc_algorithm_of(records[i].password_hash.as_str()) {
                None => {
                    proof {
                        assert(first_record_error(rs, i as int));
                        lemma_first_record_error_unique(rs, i as int, choose|q: int| first_record_error(rs, q));
                    }
                    return Err(invalid_file("users file contains an invalid password hash"));
                },
                Some(alg) => {
                    if !str_equal(alg.as_str(), "argon2id") {
                        proof {
                            assert(first_record_error(rs, i as int));
                            lemma_first_record_error_unique(rs, i as int, choose|q: int| first_record_error(rs, q));
                        }
                        return Err(invalid_file("users file contains an unsupported password hash algorithm"));
                    }
                },
            }
            let mut j: usize = 0;
            while j < i
                invariant
                    rs == records@.map_values(|u: User| u@),
                    0 <= j <= i < rs.len(),
                    forall|q: int| 0 <= q < j ==> (#[trigger] rs[q]).id != rs[i as int].id,
                    forall|q: int| 0 <= q < i ==> (#[trigger] record_error(rs, q)) is None,
                    opt_text(*jwt_secret) != Some(Seq::<char>::empty()),
                    forall|q: int| 0 <= q < i ==> (#[trigger] rs[q]).username != rs[i as int].username,
                    phc_algorithm(rs[i as int].password_hash) matches Some(a) && a == "argon2id"@,
                decreases i - j,
            {
                if str_equal(records[j].id.as_str(), records[i].id.as_str()) {
                    proof {
                        assert(rs[j as int].id == rs[i as int].id);
                        assert(first_record_error(rs, i as int));
                        lemma_first_record_error_unique(rs, i as int, choose|q: int| first_record_error(rs, q));
                    }
                    return Err(invalid_file("users file contains duplicate user IDs"));
                }
                j = j + 1;
            }
            assert(rs[i as int].role == records@[i as int].role);
            if records[i].role == Role::Admin {
                has_admin = true;
            }
            assert(record_error(rs, i as int) is None);
            i = i + 1;
        }
        proof {
            assert(!exists|q: int| first_record_error(rs, q));
        }
        if records.len() == 0 {
            return Err(invalid_file("users file contains no accounts"));
        }
        if !has_admin {
            return Err(invalid_file("users file contains no admin account"));
        }
        let t = UserTable { users: records };
        proof {
            assert(t@ == rs);
            assert forall|a: int, b: int| 0 <= a < rs.len() && 0 <= b < rs.len() && a != b implies rs[a].id
                != rs[b].id && rs[a].username != rs[b].username by {
                let (lo, hi) = if a < b { (a, b) } else { (b, a) };
                assert(record_error(rs, hi) is None);
            }
        }
        Ok(t)
    }

    /// A copy of the table, to restore when saving a change fails.
    pub fn snapshot(&self) -> (t: UserTable)
        ensures
            t@ == self@,
            self.wf() ==> t.wf(),
    {
        let mut users: Vec<User> = Vec::new();
        let mut k: usize = 0;
        while k < self.users.len()
            invariant
                0 <= k <= self.users@.len(),
                users@.len() == k,
                forall|j: int| 0 <= j < k ==> (#[trigger] users@[j])@ == self.users@[j]@,
            decreases self.users@.len() - k,
        {
            users.push(self.users[k].copy());
            k = k + 1;
        }
        let t = UserTable { users };
        assert(t@ =~= self@);
        t
    }

    /// Every account, in table order, for writing the accounts file.
    pub fn records(&self) -> (r: Vec<User>)
        ensures
            r@.map_values(|u: User| u@) == self@,
    {
        let t = self.snapshot();
        t.users
    }
}

// ---------------------------------------------------------------------------
// Revoked tokens and WebSocket tickets
// ---------------------------------------------------------------------------

/// The lower-case hexadecimal SHA-256 digest of a text's UTF-8 bytes.
pub uninterp spec fn sha256_hex(text: Seq<char>) -> Seq<char>;

/// `sha2::Sha256` over the token's bytes, written with `{:x}`.  The digest
/// is a function of the text.
#[verifier::external_body]
fn token_digest(token: &str) -> (h: String)
    ensures
        h@ == sha256_hex(token@),
{
    let mut hasher = <sha2::Sha256 as sha2::Digest>::new();
    sha2::Digest::update(&mut hasher, token.as_bytes());
    format!("{:x}", sha2::Digest::finalize(hasher))
}

pub open spec fn is_ascii_alphanumeric(c: char) -> bool {
    ('A' <= c && c <= 'Z') || ('a' <= c && c <= 'z') || ('0' <= c && c <= '9')
}

/// `rand::distributions::Alphanumeric.sample_string` with the thread's
/// generator: `len` random characters from `A-Z`, `a-z` and `0-9`.
#[verifier::external_body]
pub(crate) fn random_alphanumeric(len: usize) -> (s: String)
    ensures
        s@.len() == len,
        forall|i: int| 0 <= i < s@.len() ==> is_ascii_alphanumeric(#[trigger] s@[i]),
{
    rand::distributions::DistString::sample_string(&rand::distributions::Alphanumeric, &mut rand::thread_rng(), len)
}

/// The digest under which a token is revoked and remembered by tickets.
pub fn token_hash(token: &str) -> (h: String)
    ensures
        h@ == sha256_hex(token@),
{
    token_digest(token)
}

/// A fresh 64-character secret for signing session tokens.
pub fn generate_secret() -> (s: String)
    ensures
        s@.len() == 64,
        forall|i: int| 0 <= i < 64 ==> is_ascii_alphanumeric(#[trigger] s@[i]),
{
    random_alphanumeric(64)
}

/// Digests of revoked tokens.
pub struct RevocationList {
    digests: Vec<String>,
}

impl View for RevocationList {
    type V = Seq<Seq<char>>;

    closed spec fn view(&self) -> Seq<Seq<char>> {
        self.digests@.map_values(|d: String| d@)
    }
}

impl RevocationList {
    pub fn new() -> (r: Self)
        ensures
            r@ == Seq::<Seq<char>>::empty(),
    {
        let r = RevocationList { digests: Vec::new() };
        assert(r@ =~= Seq::<Seq<char>>::empty());
        r
    }

    fn contains_digest(&self, digest: &str) -> (b: bool)
        ensures
            b == self@.contains(digest@),
    {
        let mut k: usize = 0;
        while k < self.digests.len()
            invariant
                0 <= k <= self.digests@.len(),
                self@.len() == self.digests@.len(),
                forall|j: int| 0 <= j < k ==> self@[j] != digest@,
            decreases self.digests@.len() - k,
        {
            if str_equal(self.digests[k].as_str(), digest) {
                assert(self@[k as int] == digest@);
                return true;
            }
            k = k + 1;
        }
        false
    }

    /// Reject a token from now on.
    pub fn revoke(&mut self, token: &str)
        ensures
            final(self)@ == old(self)@.push(sha256_hex(token@)),
    {
        let d = token_digest(token);
        let ghost v0 = self@;
        self.digests.push(d);
        assert(self@ =~= v0.push(sha256_hex(token@)));
    }

    pub fn is_revoked(&self, token: &str) -> (b: bool)
        ensures
            b == self@.contains(sha256_hex(token@)),
    {
        let d = token_digest(token);
        self.contains_digest(d.as_str())
    }
}

/// Claims admitted by a one-use WebSocket ticket.
#[derive(Debug)]
pub struct WsTicketClaims {
    pub claims: Claims,
    /// Digest of the token the ticket was issued for.
    pub token_hash: String,
    /// Expiry (Unix milliseconds).
    pub expires_at_ms: i64,
}

/// Lifetime of a WebSocket ticket.
pub const WS_TICKET_TTL_MS: i64 = 60_000;
/// Most tickets pending at once.
pub const MAX_PENDING_WS_TICKETS: usize = 1024;

/// A connected WebSocket's admitted session is still valid: its token has
/// not expired or been revoked, and its claims are current.
pub open spec fn ticket_claims_valid_spec(
    users: Seq<UserModel>,
    revoked: Seq<Seq<char>>,
    claims_sub: Seq<char>,
    claims_role: Seq<char>,
    claims_version: u64,
    claims_exp: usize,
    token_hash: Seq<char>,
    now_secs: usize,
) -> bool {
    &&& claims_exp > now_secs
    &&& !revoked.contains(token_hash)
    &&& claims_current_spec(users, claims_sub, claims_role, claims_version)
}

pub fn verify_ws_ticket_claims(users: &UserTable, revoked: &RevocationList, ticket: &WsTicketClaims, now_secs: usize) -> (b: bool)
    requires
        users.wf(),
    ensures
        b == ticket_claims_valid_spec(
            users@,
            revoked@,
            ticket.claims.sub@,
            ticket.claims.role@,
            ticket.claims.session_version,
            ticket.claims.exp,
            ticket.token_hash@,
            now_secs,
        ),
{
    if ticket.claims.exp <= now_secs {
        return false;
    }
    if revoked.contains_digest(ticket.token_hash.as_str()) {
        return false;
    }
    users.claims_current(&ticket.claims)
}

/// A pending ticket: its text, the claims and token digest it admits, and
/// its expiry.
pub ghost struct PendingModel {
    pub ticket: Seq<char>,
    pub claims: Claims,
    pub token_hash: Seq<char>,
    pub expires_at_ms: i64,
}

pub open spec fn pending_of(ticket: Seq<char>, e: WsTicketClaims) -> PendingModel {
    PendingModel { ticket, claims: e.claims, token_hash: e.token_hash@, expires_at_ms: e.expires_at_ms }
}

/// Pending one-use tickets.
pub struct TicketTable {
    tickets: Vec<(String, WsTicketClaims)>,
}

impl View for TicketTable {
    type V = Seq<PendingModel>;

    closed spec fn view(&self) -> Seq<PendingModel> {
        self.tickets@.map_values(|e: (String, WsTicketClaims)| pending_of(e.0@, e.1))
    }
}

pub open spec fn tickets_distinct(s: Seq<PendingModel>) -> bool {
    forall|i: int, j: int| 0 <= i < s.len() && 0 <= j < s.len() && i != j ==> s[i].ticket != s[j].ticket
}

pub open spec fn find_ticket(s: Seq<PendingModel>, t: Seq<char>) -> Option<int> {
    if exists|i: int| 0 <= i < s.len() && #[trigger] s[i].ticket == t {
        Some(choose|i: int| 0 <= i < s.len() && #[trigger] s[i].ticket == t)
    } else {
        None
    }
}

/// Pending ticket `p` admits its session at `now_ms`: it has not expired,
/// and its token is unexpired, unrevoked and current.
pub open spec fn admits(
    p: PendingModel,
    users: Seq<UserModel>,
    revoked: Seq<Seq<char>>,
    now_ms: i64,
    now_secs: usize,
) -> bool {
    &&& p.expires_at_ms > now_ms
    &&& ticket_claims_valid_spec(
        users,
        revoked,
        p.claims.sub@,
        p.claims.role@,
        p.claims.session_version,
        p.claims.exp,
        p.token_hash,
        now_secs,
    )
}

/// The pending tickets that have not expired at `now_ms`, in order.
pub open spec fn unexpired(s: Seq<PendingModel>, now_ms: i64) -> Seq<PendingModel> {
    s.filter(|p: PendingModel| p.expires_at_ms > now_ms)
}

impl TicketTable {
    pub closed spec fn wf(&self) -> bool {
        tickets_distinct(self@)
    }

    pub fn new() -> (t: Self)
        ensures
            t.wf(),
            t@ == Seq::<PendingModel>::empty(),
    {
        let t = TicketTable { tickets: Vec::new() };
        assert(t@ =~= Seq::<PendingModel>::empty());
        t
    }

    fn ticket_pos(&self, ticket: &str) -> (r: Option<usize>)
        requires
            self.wf(),
        ensures
            r matches Some(i) ==> find_ticket(self@, ticket@) == Some(i as int),
            r is None ==> find_ticket(self@, ticket@) is None,
    {
        let mut i: usize = 0;
        while i < self.tickets.len()
            invariant
                0 <= i <= self.tickets@.len(),
                tickets_distinct(self@),
                self@.len() == self.tickets@.len(),
                forall|j: int| 0 <= j < i ==> (#[trigger] self@[j]).ticket != ticket@,
            decreases self.tickets@.len() - i,
        {
            if str_equal(self.tickets[i].0.as_str(), ticket) {
                assert(self@[i as int].ticket == ticket@);
                return Some(i);
            }
            i = i + 1;
        }
        None
    }

    /// Drop the tickets that expired at `now_ms`.
    fn drop_expired(&mut self, now_ms: i64)
        requires
            old(self).wf(),
        ensures
            final(self).wf(),
            final(self)@ == unexpired(old(self)@, now_ms),
    {
        let ghost s0 = self@;
        let ghost pred = |p: PendingModel| p.expires_at_ms > now_ms;
        let mut kept: Vec<(String, WsTicketClaims)> = Vec::new();
        let mut old_tickets: Vec<(String, WsTicketClaims)> = Vec::new();
        std::mem::swap(&mut old_tickets, &mut self.tickets);
        let ghost ov = old_tickets@;
        assert(ov.map_values(|e: (String, WsTicketClaims)| pending_of(e.0@, e.1)) == s0);
        let mut k: usize = 0;
        let n = old_tickets.len();
        let mut rest = old_tickets;
        while k < n
            invariant
                0 <= k <= n,
                n == ov.len(),
                rest@ == ov.subrange(k as int, n as int),
                pred == (|p: PendingModel| p.expires_at_ms > now_ms),
                s0 == ov.map_values(|e: (String, WsTicketClaims)| pending_of(e.0@, e.1)),
                kept@.map_values(|e: (String, WsTicketClaims)| pending_of(e.0@, e.1))
                    == s0.subrange(0, k as int).filter(pred),
            decreases n - k,
        {
            let e = rest.remove(0);
            proof {
                assert(e == ov[k as int]);
                assert(rest@ =~= ov.subrange(k as int + 1, n as int));
                let s = s0.subrange(0, k as int + 1);
                assert(s.drop_last() =~= s0.subrange(0, k as int));
                s.drop_last().lemma_filter_push(s.last(), pred);
                assert(s =~= s.drop_last().push(s.last()));
            }
            if e.1.expires_at_ms > now_ms {
                let ghost kv = kept@;
                kept.push(e);
                proof {
                    assert(kept@.map_values(|e: (String, WsTicketClaims)| pending_of(e.0@, e.1))
                        =~= kv.map_values(|e: (String, WsTicketClaims)| pending_of(e.0@, e.1)).push(s0[k as int]));
                }
            }
            k = k + 1;
        }
        self.tickets = kept;
        proof {
            assert(s0.subrange(0, n as int) =~= s0);
            let f = unexpired(s0, now_ms);
            assert forall|i: int, j: int| 0 <= i < f.len() && 0 <= j < f.len() && i != j implies f[i].ticket != f[j].ticket by {
                lemma_filter_distinct(s0, pred, i, j);
            }
        }
    }

    /// Add ticket `ticket` admitting `entry`, unless that ticket is already
    /// pending; whether it was added.
    pub fn insert_if_fresh(&mut self, ticket: String, entry: WsTicketClaims) -> (inserted: bool)
        requires
            old(self).wf(),
        ensures
            final(self).wf(),
            inserted <==> find_ticket(old(self)@, ticket@) is None,
            inserted ==> final(self)@ == old(self)@.push(pending_of(ticket@, entry)),
            !inserted ==> final(self)@ == old(self)@,
    {
        if self.ticket_pos(ticket.as_str()).is_some() {
            return false;
        }
        let ghost live = self@;
        let ghost tv = ticket@;
        let ghost p = pending_of(ticket@, entry);
        self.tickets.push((ticket, entry));
        proof {
            assert(self@ =~= live.push(p));
            assert forall|i: int, j: int| 0 <= i < self@.len() && 0 <= j < self@.len() && i != j implies self@[i].ticket != self@[j].ticket by {
                if i < live.len() && j < live.len() {
                } else if i == live.len() {
                    assert(live[j].ticket != tv);
                } else {
                    assert(live[i].ticket != tv);
                }
            }
        }
        true
    }

    /// Issue a random 48-character ticket for a verified session, after
    /// dropping expired tickets.  `InvalidToken` when the session did not
    /// verify; `CapacityExceeded` when 1024 tickets are pending or four
    /// random tickets in a row were already taken.  The ticket admits the
    /// session's claims and token digest until `now_ms + ttl_ms`.
    pub fn issue(
        &mut self,
        claims: Option<Claims>,
        token_hash: String,
        now_ms: i64,
        ttl_ms: i64,
    ) -> (r: Result<String, WsTicketIssueError>)
        requires
            old(self).wf(),
            now_ms + ttl_ms <= i64::MAX,
            i64::MIN <= now_ms + ttl_ms,
        ensures
            final(self).wf(),
            claims is None ==> r == Err::<String, WsTicketIssueError>(WsTicketIssueError::InvalidToken) && final(self)@ == old(self)@,
            claims is Some ==> {
                let live = unexpired(old(self)@, now_ms);
                match r {
                    Ok(t) => live.len() < MAX_PENDING_WS_TICKETS && t@.len() == 48 && find_ticket(live, t@) is None
                        && final(self)@ == live.push(PendingModel {
                            ticket: t@,
                            claims: claims->0,
                            token_hash: token_hash@,
                            expires_at_ms: (now_ms + ttl_ms) as i64,
                        }),
                    Err(e) => e == WsTicketIssueError::CapacityExceeded && final(self)@ == live,
                }
            },
            claims is Some && unexpired(old(self)@, now_ms).len() >= MAX_PENDING_WS_TICKETS ==> r is Err,
    {
        let c = match claims {
            Some(c) => c,
            None => return Err(WsTicketIssueError::InvalidToken),
        };
        self.drop_expired(now_ms);
        if self.tickets.len() >= MAX_PENDING_WS_TICKETS {
            return Err(WsTicketIssueError::CapacityExceeded);
        }
        let mut attempt: usize = 0;
        let ghost live = self@;
        while attempt < 4
            invariant
                self@ == live,
                self.wf(),
                live.len() < MAX_PENDING_WS_TICKETS,
                live == unexpired(old(self)@, now_ms),
                claims == Some(c),
                now_ms + ttl_ms <= i64::MAX,
                i64::MIN <= now_ms + ttl_ms,
            decreases 4 - attempt,
        {
            let ticket = random_alphanumeric(48);
            let ghost tv = ticket@;
            let entry = WsTicketClaims {
                claims: c.copy(),
                token_hash: token_hash.clone(),
                expires_at_ms: now_ms + ttl_ms,
            };
            let returned = ticket.clone();
            if self.insert_if_fresh(ticket, entry) {
                return Ok(returned);
            }
            attempt = attempt + 1;
        }
        Err(WsTicketIssueError::CapacityExceeded)
    }

    /// Take a ticket out, whatever its state; the stored claims are returned
    /// exactly when it has not expired and its session is still valid.
    pub fn consume(
        &mut self,
        ticket: &str,
        now_ms: i64,
        now_secs: usize,
        users: &UserTable,
        revoked: &RevocationList,
    ) -> (r: Option<WsTicketClaims>)
        requires
            old(self).wf(),
            users.wf(),
        ensures
            final(self).wf(),
            match find_ticket(old(self)@, ticket@) {
                Some(i) => {
                    &&& final(self)@ == old(self)@.remove(i)
                    &&& r is Some <==> admits(old(self)@[i], users@, revoked@, now_ms, now_secs)
                    &&& r matches Some(c) ==> pending_of(ticket@, c) == old(self)@[i]
                },
                None => r is None && final(self)@ == old(self)@,
            },
    {
        let i = match self.ticket_pos(ticket) {
            Some(i) => i,
            None => return None,
        };
        let ghost s0 = self@;
        let (_, claims) = self.tickets.remove(i);
        proof {
            assert(self@ =~= s0.remove(i as int));
            assert forall|a: int, b: int| 0 <= a < self@.len() && 0 <= b < self@.len() && a != b implies self@[a].ticket != self@[b].ticket by {
                let a0 = if a < i { a } else { a + 1 };
                let b0 = if b < i { b } else { b + 1 };
                assert(self@[a] == s0[a0] && self@[b] == s0[b0]);
            }
        }
        if claims.expires_at_ms > now_ms && verify_ws_ticket_claims(users, revoked, &claims, now_secs) {
            Some(claims)
        } else {
            None
        }
    }
}

proof fn lemma_filter_distinct(s: Seq<PendingModel>, pred: spec_fn(PendingModel) -> bool, i: int, j: int)
    requires
        tickets_distinct(s),
        0 <= i < s.filter(pred).len(),
        0 <= j < s.filter(pred).len(),
        i != j,
    ensures
        s.filter(pred)[i].ticket != s.filter(pred)[j].ticket,
    decreases s.len(),
{
    reveal_with_fuel(Seq::<PendingModel>::filter, 1);
    let rest = s.drop_last();
    assert(tickets_distinct(rest)) by {
        assert forall|a: int, b: int| 0 <= a < rest.len() && 0 <= b < rest.len() && a != b implies rest[a].ticket != rest[b].ticket by {
            assert(rest[a] == s[a] && rest[b] == s[b]);
        }
    }
    let f = rest.filter(pred);
    if pred(s.last()) {
        if i < f.len() && j < f.len() {
            lemma_filter_distinct(rest, pred, i, j);
        } else {
            let k = if i < f.len() { i } else { j };
            rest.lemma_filter_contains_rev(pred, f[k]);
            let q = choose|q: int| 0 <= q < rest.len() && rest[q] == f[k];
            assert(s[q] == rest[q]);
            assert(s[s.len() - 1] == s.last());
        }
    } else {
        lemma_filter_distinct(rest, pred, i, j);
    }
}

// ---------------------------------------------------------------------------
// Laws
// ---------------------------------------------------------------------------

proof fn lemma_find_username_at(s: Seq<UserModel>, k: int)
    requires
        users_wf(s),
        0 <= k < s.len(),
    ensures
        find_username(s, s[k].username) == Some(k),
{
    assert(s[k].username == s[k].username);
}

proof fn lemma_find_user_update(s: Seq<UserModel>, i: int, u: UserModel)
    requires
        users_wf(s),
        0 <= i < s.len(),
        u.id == s[i].id,
    ensures
        find_user(s.update(i, u), u.id) == Some(i),
{
    let t = s.update(i, u);
    assert(t[i].id == u.id);
    let j = choose|j: int| 0 <= j < t.len() && #[trigger] t[j].id == u.id;
    if j != i {
        assert(s[j].id == t[j].id);
    }
}

/// Setting a new password stores its hash and lifts the demand to change
/// the password, whatever the role change; without one, the hash and the
/// demand stay as they were.
pub proof fn lemma_new_password_clears_must_change(u: UserModel, role: Option<Role>, new_hash: Option<Seq<char>>)
    ensures
        new_hash matches Some(h) ==> updated_user(u, role, new_hash).password_hash == h
            && !updated_user(u, role, new_hash).must_change_password,
        new_hash is None ==> updated_user(u, role, new_hash).password_hash == u.password_hash
            && updated_user(u, role, new_hash).must_change_password == u.must_change_password,
        updated_user(u, role, new_hash).id == u.id && updated_user(u, role, new_hash).username == u.username,
{
}

/// A new password, or a change of role, makes every earlier session of the
/// user stop being current.
pub proof fn lemma_credential_change_ends_sessions(s: Seq<UserModel>, id: Seq<char>, role: Option<Role>, new_hash: Option<Seq<char>>)
    requires
        users_wf(s),
        find_user(s, id) is Some,
        new_hash is Some || (role matches Some(r) && r != s[find_user(s, id)->0].role),
        !update_exhausts(s[find_user(s, id)->0], role, new_hash is Some),
    ensures
        ({
            let i = find_user(s, id)->0;
            let after = s.update(i, updated_user(s[i], role, new_hash));
            claims_current_spec(s, id, role_text(s[i].role), s[i].session_version)
                && !claims_current_spec(after, id, role_text(s[i].role), s[i].session_version)
        }),
{
    let i = find_user(s, id)->0;
    lemma_find_user_update(s, i, updated_user(s[i], role, new_hash));
}

/// A change that touches neither role nor password keeps sessions current.
pub proof fn lemma_plain_update_keeps_sessions(s: Seq<UserModel>, id: Seq<char>)
    requires
        users_wf(s),
        find_user(s, id) is Some,
    ensures
        ({
            let i = find_user(s, id)->0;
            let after = s.update(i, updated_user(s[i], None, None));
            claims_current_spec(after, id, role_text(s[i].role), s[i].session_version)
        }),
{
    let i = find_user(s, id)->0;
    lemma_find_user_update(s, i, updated_user(s[i], None, None));
}

/// Once a user is deleted, no claims naming it are current.
pub proof fn lemma_deleted_user_sessions_end(s: Seq<UserModel>, id: Seq<char>, role: Seq<char>, version: u64)
    requires
        users_wf(s),
        find_user(s, id) is Some,
    ensures
        !claims_current_spec(s.remove(find_user(s, id)->0), id, role, version),
{
    let i = find_user(s, id)->0;
    let t = s.remove(i);
    if exists|j: int| 0 <= j < t.len() && #[trigger] t[j].id == id {
        let j = choose|j: int| 0 <= j < t.len() && #[trigger] t[j].id == id;
        let j0 = if j < i { j } else { j + 1 };
        assert(t[j] == s[j0]);
    }
}
} // verus!
