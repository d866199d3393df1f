use vstd::prelude::*;
use vstd::string::*;
use crate::protocol::text;
use crate::status::{STATUS_CONFLICT, STATUS_CREATED, STATUS_INTERNAL_ERROR, STATUS_NOT_FOUND, STATUS_OK, STATUS_UNAUTHORIZED};

verus! {

/// Whether `bcrypt::verify(password, hash)` answers `Ok(true)`: the hash is a
/// well formed bcrypt hash and hashing the password again with its salt and
/// cost gives it back.
pub uninterp spec fn bcrypt_accepts(password: Seq<char>, hash: Seq<char>) -> bool;

/// `bcrypt::hash(password, DEFAULT_COST)`, with its error dropped. The salt is
/// random, so the hash is not a function of the password; what the contract
/// claims is what the crate's source shows of every hash it makes:
/// `bcrypt::verify` accepts the password against it. The hash fails only
/// when the system gives no random bytes.
#[verifier::external_body]
fn hash_password(password: &str) -> (h: Option<String>)
    ensures
        h matches Some(s) ==> bcrypt_accepts(password@, s@),
{
    bcrypt::hash(password, bcrypt::DEFAULT_COST).ok()
}

/// `bcrypt::verify(password, hash)`, an error (a malformed hash) read as a
/// refusal.
#[verifier::external_body]
fn password_matches(password: &str, hash: &str) -> (ok: bool)
    ensures
        ok == bcrypt_accepts(password@, hash@),
{
    bcrypt::verify(password, hash).unwrap_or(false)
}

/// A lower case hexadecimal digit.
pub open spec fn is_hex_lower(c: char) -> bool {
    ('0' <= c && c <= '9') || ('a' <= c && c <= 'f')
}

/// The text of a UUID in its hyphenated form: 36 characters, hyphens at
/// positions 8, 13, 18 and 23, lower case hexadecimal digits elsewhere.
pub open spec fn is_uuid_text(s: Seq<char>) -> bool {
    &&& s.len() == 36
    &&& forall|i: int|
        0 <= i < 36 ==> if i == 8 || i == 13 || i == 18 || i == 23 {
            s[i] == '-'
        } else {
            is_hex_lower(s[i])
        }
}

/// `uuid::Uuid::new_v4().to_string()`: a random UUID. Which one comes back is
/// chance; the contract claims the layout that the crate's `Display` writes,
/// the hyphenated lower case form. The crate panics when the system gives no
/// random bytes, which no contract can rule out.
#[verifier::external_body]
pub(crate) fn new_uuid_text() -> (s: String)
    ensures
        is_uuid_text(s@),
{
    uuid::Uuid::new_v4().to_string()
}

/// An account of the users service.
pub struct User {
    pub id: String,
    pub name: String,
    pub email: String,
    pub password_hash: String,
}

/// An account as the specifications see it.
pub struct UserView {
    pub id: Seq<char>,
    pub name: Seq<char>,
    pub email: Seq<char>,
    pub password_hash: Seq<char>,
}

impl View for User {
    type V = UserView;

    open spec fn view(&self) -> UserView {
        UserView { id: self.id@, name: self.name@, email: self.email@, password_hash: self.password_hash@ }
    }
}

/// A request to open an account.
pub struct SignInRequest {
    pub name: String,
    pub email: String,
    pub password: String,
}

/// A request to log in.
pub struct LoginRequest {
    pub email: String,
    pub password: String,
}

/// What the service shows of an account: never its password hash.
pub struct UserPublic {
    pub id: String,
    pub name: String,
    pub email: String,
}

/// The public part of an account as the specifications see it.
pub struct UserPublicView {
    pub id: Seq<char>,
    pub name: Seq<char>,
    pub email: Seq<char>,
}

impl View for UserPublic {
    type V = UserPublicView;

    open spec fn view(&self) -> UserPublicView {
        UserPublicView { id: self.id@, name: self.name@, email: self.email@ }
    }
}

/// The public part of an account.
pub open spec fn public_of(u: UserView) -> UserPublicView {
    UserPublicView { id: u.id, name: u.name, email: u.email }
}

/// An answer of the users service: its HTTP status, whether it succeeded, a
/// message, and the account it concerns.
pub struct UserReply {
    pub status: u16,
    pub success: bool,
    pub message: String,
    pub data: Option<UserPublic>,
}

/// An answer of the users service as the specifications see it.
pub struct UserReplyView {
    pub status: u16,
    pub success: bool,
    pub message: Seq<char>,
    pub data: Option<UserPublicView>,
}

impl View for UserReply {
    type V = UserReplyView;

    open spec fn view(&self) -> UserReplyView {
        UserReplyView {
            status: self.status,
            success: self.success,
            message: self.message@,
            data: match self.data {
                Some(u) => Some(u@),
                None => None,
            },
        }
    }
}

/// A failed answer with the given status and message.
pub open spec fn failure(status: u16, message: Seq<char>) -> UserReplyView {
    UserReplyView { status, success: false, message, data: None }
}

/// A successful answer with the given status and message, about `u`.
pub open spec fn success_with(status: u16, message: Seq<char>, u: UserView) -> UserReplyView {
    UserReplyView { status, success: true, message, data: Some(public_of(u)) }
}

/// `i` is the first position of an account with this email.
pub open spec fn first_with_email(users: Seq<UserView>, email: Seq<char>, i: int) -> bool {
    &&& 0 <= i < users.len()
    &&& users[i].email == email
    &&& forall|j: int| 0 <= j < i ==> users[j].email != email
}

/// Some account has this email.
pub open spec fn registered(users: Seq<UserView>, email: Seq<char>) -> bool {
    exists|i: int| 0 <= i < users.len() && users[i].email == email
}

/// The first account with this email; meaningful when one is registered.
pub open spec fn account_of(users: Seq<UserView>, email: Seq<char>) -> UserView {
    users[choose|i: int| first_with_email(users, email, i)]
}

/// There is only one first position of an email.
proof fn lemma_first_unique(users: Seq<UserView>, email: Seq<char>, i: int, k: int)
    requires
        first_with_email(users, email, i),
        first_with_email(users, email, k),
    ensures
        i == k,
{
}

/// An email that some account has has a first position.
proof fn lemma_first_exists(users: Seq<UserView>, email: Seq<char>, i: int)
    requires
        0 <= i < users.len(),
        users[i].email == email,
    ensures
        exists|k: int| first_with_email(users, email, k),
    decreases i,
{
    if exists|j: int| 0 <= j < i && users[j].email == email {
        let j = choose|j: int| 0 <= j < i && users[j].email == email;
        lemma_first_exists(users, email, j);
    } else {
        assert(first_with_email(users, email, i));
    }
}

/// The answer to a login with `password` for the account registered under
/// `email`.
pub open spec fn login_result(users: Seq<UserView>, email: Seq<char>, password: Seq<char>) -> UserReplyView {
    if !registered(users, email) {
        failure(STATUS_NOT_FOUND, "Usuario no encontrado"@)
    } else if bcrypt_accepts(password, account_of(users, email).password_hash) {
        success_with(STATUS_OK, "Login exitoso"@, account_of(users, email))
    } else {
        failure(STATUS_UNAUTHORIZED, "Contraseña incorrecta"@)
    }
}

/// The answer to a lookup of `email`.
pub open spec fn lookup_result(users: Seq<UserView>, email: Seq<char>) -> UserReplyView {
    if registered(users, email) {
        success_with(STATUS_OK, "Usuario encontrado"@, account_of(users, email))
    } else {
        failure(STATUS_NOT_FOUND, "Usuario no encontrado"@)
    }
}

/// The account that a sign-in with `req` opens under this id and hash.
pub open spec fn new_account(req: &SignInRequest, id: Seq<char>, hash: Seq<char>) -> UserView {
    UserView { id, name: req.name@, email: req.email@, password_hash: hash }
}

/// Once a sign-in has opened account `u`, its email is registered (a second
/// sign-in with it is refused), a lookup of the email finds `u`, and a login
/// with the email and the password that was hashed succeeds and shows `u`.
pub proof fn lemma_sign_in_then_login(users: Seq<UserView>, u: UserView, password: Seq<char>)
    requires
        !registered(users, u.email),
        bcrypt_accepts(password, u.password_hash),
    ensures
        registered(users.push(u), u.email),
        lookup_result(users.push(u), u.email) == success_with(STATUS_OK, "Usuario encontrado"@, u),
        login_result(users.push(u), u.email, password) == success_with(STATUS_OK, "Login exitoso"@, u),
{
    let all = users.push(u);
    let n = users.len() as int;
    assert(first_with_email(all, u.email, n));
    let k = choose|k: int| first_with_email(all, u.email, k);
    lemma_first_unique(all, u.email, n, k);
}

/// Opening an account for one email changes no answer about another email.
pub proof fn lemma_sign_in_keeps_others(users: Seq<UserView>, u: UserView, email: Seq<char>, password: Seq<char>)
    requires
        email != u.email,
    ensures
        lookup_result(users.push(u), email) == lookup_result(users, email),
        login_result(users.push(u), email, password) == login_result(users, email, password),
{
    let all = users.push(u);
    assert(registered(all, email) == registered(users, email)) by {
        if registered(all, email) {
            let i = choose|i: int| 0 <= i < all.len() && all[i].email == email;
            assert(users[i].email == email);
        }
        if registered(users, email) {
            let i = choose|i: int| 0 <= i < users.len() && users[i].email == email;
            assert(all[i].email == email);
        }
    }
    if registered(users, email) {
        let w = choose|w: int| 0 <= w < users.len() && users[w].email == email;
        lemma_first_exists(users, email, w);
        lemma_first_exists(all, email, w);
        let i = choose|i: int| first_with_email(all, email, i);
        let k = choose|k: int| first_with_email(users, email, k);
        assert(first_with_email(users, email, k));
        assert(first_with_email(all, email, k));
        lemma_first_unique(all, email, i, k);
    }
}

/// The accounts of the users service. No email is registered twice.
pub struct UserDirectory {
    users: Vec<User>,
}

/// The views of a list of accounts.
pub open spec fn user_views(users: Seq<User>) -> Seq<UserView> {
    users.map_values(|u: User| u@)
}

/// No email appears twice.
pub open spec fn emails_distinct(users: Seq<UserView>) -> bool {
    forall|i: int, j: int| 0 <= i < j < users.len() ==> users[i].email != users[j].email
}

impl View for UserDirectory {
    type V = Seq<UserView>;

    closed spec fn view(&self) -> Seq<UserView> {
        user_views(self.users@)
    }
}

impl User {
    /// The public part of this account.
    pub fn public(&self) -> (p: UserPublic)
        ensures
            p@ == public_of(self@),
    {
        UserPublic { id: self.id.clone(), name: self.name.clone(), email: self.email.clone() }
    }
}

impl UserDirectory {
    /// No email is registered twice.
    pub open spec fn wf(&self) -> bool {
        emails_distinct(self@)
    }

    /// A directory with the given accounts.
    pub fn from_users(users: Vec<User>) -> (d: UserDirectory)
        requires
            emails_distinct(user_views(users@)),
        ensures
            d.wf(),
            d@ == user_views(users@),
    {
        UserDirectory { users }
    }

    /// The number of accounts.
    pub fn len(&self) -> (n: usize)
        ensures
            n == self@.len(),
    {
        self.users.len()
    }

    /// The position of the first account with this email, if any.
    fn find(&self, email: &String) -> (p: Option<usize>)
        ensures
            match p {
                Some(i) => first_with_email(self@, email@, i as int),
                None => !registered(self@, email@),
            },
    {
        let mut i: usize = 0;
        while i < self.users.len()
            invariant
                i <= self.users@.len(),
                self@ == user_views(self.users@),
                forall|j: int| 0 <= j < i ==> self@[j].email != email@,
            decreases self.users@.len() - i,
        {
            if self.users[i].email == *email {
                return Some(i);
            }
            i = i + 1;
        }
        None
    }

    /// The account found at `i` is the one that the specifications name.
    proof fn lemma_found(&self, email: Seq<char>, i: int)
        requires
            first_with_email(self@, email, i),
        ensures
            registered(self@, email),
            account_of(self@, email) == self@[i],
    {
        let k = choose|k: int| first_with_email(self@, email, k);
        lemma_first_unique(self@, email, i, k);
    }

    /// `GET /users/email/{email}`: the account registered under `email`.
    pub fn get_by_email(&self, email: &String) -> (r: UserReply)
        ensures
            r@ == lookup_result(self@, email@),
    {
        match self.find(email) {
            Some(i) => {
                proof { self.lemma_found(email@, i as int); }
                UserReply { status: STATUS_OK, success: true, message: text("Usuario encontrado"), data: Some(self.users[i].public()) }
            },
            None => UserReply { status: STATUS_NOT_FOUND, success: false, message: text("Usuario no encontrado"), data: None },
        }
    }

    /// Opens an account for `req` with the given password hash and id; the
    /// email is not registered yet.
    pub fn add(&mut self, req: &SignInRequest, hash: String, id: String) -> (r: UserReply)
        requires
            old(self).wf(),
            !registered(old(self)@, req.email@),
        ensures
            final(self).wf(),
            final(self)@ == old(self)@.push(new_account(req, id@, hash@)),
            r@ == success_with(STATUS_CREATED, "Usuario registrado exitosamente"@, new_account(req, id@, hash@)),
    {
        let user = User { id, name: req.name.clone(), email: req.email.clone(), password_hash: hash };
        let public = user.public();
        self.users.push(user);
        proof {
            assert(self@ =~= old(self)@.push(new_account(req, user@.id, user@.password_hash)));
        }
        UserReply { status: STATUS_CREATED, success: true, message: text("Usuario registrado exitosamente"), data: Some(public) }
    }

    /// `POST /users/signin`: an email already registered is refused with 409;
    /// otherwise the password is hashed with bcrypt (a failure there gives
    /// 500) and the account is opened under a random UUID, answered with 201.
    pub fn sign_in(&mut self, req: &SignInRequest) -> (r: UserReply)
        requires
            old(self).wf(),
        ensures
            final(self).wf(),
            registered(old(self)@, req.email@) ==> {
                &&& r@ == failure(STATUS_CONFLICT, "El correo ya está registrado"@)
                &&& final(self)@ == old(self)@
            },
            !registered(old(self)@, req.email@) && r.status != STATUS_CREATED ==> {
                &&& r@ == failure(STATUS_INTERNAL_ERROR, "Error al procesar la contraseña"@)
                &&& final(self)@ == old(self)@
            },
            !registered(old(self)@, req.email@) && r.status == STATUS_CREATED ==> {
                let u = final(self)@.last();
                &&& final(self)@ == old(self)@.push(u)
                &&& u.name == req.name@
                &&& u.email == req.email@
                &&& is_uuid_text(u.id)
                &&& bcrypt_accepts(req.password@, u.password_hash)
                &&& r@ == success_with(STATUS_CREATED, "Usuario registrado exitosamente"@, u)
            },
    {
        if self.find(&req.email).is_some() {
            return UserReply { status: STATUS_CONFLICT, success: false, message: text("El correo ya está registrado"), data: None };
        }
        match hash_password(req.password.as_str()) {
            None => UserReply { status: STATUS_INTERNAL_ERROR, success: false, message: text("Error al procesar la contraseña"), data: None },
            Some(hash) => {
                let id = new_uuid_text();
                self.add(req, hash, id)
            },
        }
    }

    /// The two accounts that the service starts with, Alice and Bob, both
    /// with the password `password123`; nothing when bcrypt cannot hash.
    pub fn seeded() -> (d: Option<UserDirectory>)
        ensures
            d matches Some(dir) ==> {
                &&& dir.wf()
                &&& dir@.len() == 2
                &&& dir@[0].name == "Alice García"@
                &&& dir@[0].email == "alice@microstore.com"@
                &&& dir@[1].name == "Bob Martínez"@
                &&& dir@[1].email == "bob@microstore.com"@
                &&& forall|i: int| 0 <= i < 2 ==> is_uuid_text(#[trigger] dir@[i].id) && bcrypt_accepts("password123"@, dir@[i].password_hash)
            },
    {
        let alice_id = new_uuid_text();
        let alice_hash = match hash_password("password123") {
            Some(h) => h,
            None => return None,
        };
        let bob_id = new_uuid_text();
        let bob_hash = match hash_password("password123") {
            Some(h) => h,
            None => return None,
        };
        let alice = User { id: alice_id, name: text("Alice García"), email: text("alice@microstore.com"), password_hash: alice_hash };
        let bob = User { id: bob_id, name: text("Bob Martínez"), email: text("bob@microstore.com"), password_hash: bob_hash };
        proof {
            reveal_strlit("alice@microstore.com");
            reveal_strlit("bob@microstore.com");
            assert(alice@.email[0] != bob@.email[0]);
        }
        let users = vec![alice, bob];
        proof {
            assert(user_views(users@) =~= seq![alice@, bob@]);
        }
        Some(UserDirectory::from_users(users))
    }

    /// The answer to a login once bcrypt has compared the password with the
    /// hash of the account found (`accepted`): no account gives 404, a
    /// refused password 401.
    pub fn login_answer(found: Option<&User>, accepted: bool) -> (r: UserReply)
        ensures
            r@ == match found {
                None => failure(STATUS_NOT_FOUND, "Usuario no encontrado"@),
                Some(u) => if accepted {
                    success_with(STATUS_OK, "Login exitoso"@, u@)
                } else {
                    failure(STATUS_UNAUTHORIZED, "Contraseña incorrecta"@)
                },
            },
    {
        match found {
            None => UserReply { status: STATUS_NOT_FOUND, success: false, message: text("Usuario no encontrado"), data: None },
            Some(u) => {
                if accepted {
                    UserReply { status: STATUS_OK, success: true, message: text("Login exitoso"), data: Some(u.public()) }
                } else {
                    UserReply { status: STATUS_UNAUTHORIZED, success: false, message: text("Contraseña incorrecta"), data: None }
                }
            },
        }
    }

    /// `GET /users/login`: checks the password against the account of the
    /// email with bcrypt.
    pub fn login(&self, req: &LoginRequest) -> (r: UserReply)
        ensures
            r@ == login_result(self@, req.email@, req.password@),
    {
        match self.find(&req.email) {
            Some(i) => {
                proof { self.lemma_found(req.email@, i as int); }
                let u = &self.users[i];
                let accepted = password_matches(req.password.as_str(), u.password_hash.as_str());
                UserDirectory::login_answer(Some(u), accepted)
            },
            None => UserDirectory::login_answer(None, false),
        }
    }
}

} // verus!
