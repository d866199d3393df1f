use vstd::prelude::*;
use vstd::string::*;
use crate::loot::{Item, pool_spec, roll_item};
use crate::protocol::text;
use crate::status::{STATUS_OK, STATUS_UNAUTHORIZED};

verus! {

/// A character of Unicode's `White_Space` property.
pub open spec fn is_white_space(c: char) -> bool {
    let u = c as u32;
    ||| 0x09 <= u <= 0x0D
    ||| u == 0x20
    ||| u == 0x85
    ||| u == 0xA0
    ||| u == 0x1680
    ||| 0x2000 <= u <= 0x200A
    ||| u == 0x2028
    ||| u == 0x2029
    ||| u == 0x202F
    ||| u == 0x205F
    ||| u == 0x3000
}

/// `s` without its leading white space.
pub open spec fn trim_start(s: Seq<char>) -> Seq<char>
    decreases s.len(),
{
    if s.len() > 0 && is_white_space(s[0]) {
        trim_start(s.drop_first())
    } else {
        s
    }
}

/// `s` without its trailing white space.
pub open spec fn trim_end(s: Seq<char>) -> Seq<char>
    decreases s.len(),
{
    if s.len() > 0 && is_white_space(s.last()) {
        trim_end(s.drop_last())
    } else {
        s
    }
}

/// `s` without its leading and trailing white space.
pub open spec fn trimmed(s: Seq<char>) -> Seq<char> {
    trim_end(trim_start(s))
}

/// Whether `c` is white space, as in [`is_white_space`].
fn white_space(c: char) -> (b: bool)
    ensures
        b == is_white_space(c),
{
    let u = c as u32;
    (0x09 <= u && u <= 0x0D) || u == 0x20 || u == 0x85 || u == 0xA0 || u == 0x1680 || (0x2000 <= u && u <= 0x200A)
        || u == 0x2028 || u == 0x2029 || u == 0x202F || u == 0x205F || u == 0x3000
}

/// `s` without its leading and trailing white space, as `str::trim` gives it.
fn trim_text(s: &str) -> (r: String)
    ensures
        r@ == trimmed(s@),
{
    let n = s.unicode_len();
    let mut i: usize = 0;
    assert(s@.subrange(0, n as int) =~= s@);
    while i < n && white_space(s.get_char(i))
        invariant
            n == s@.len(),
            i <= n,
            trim_start(s@) == trim_start(s@.subrange(i as int, n as int)),
        decreases n - i,
    {
        assert(s@.subrange(i as int, n as int).drop_first() =~= s@.subrange(i as int + 1, n as int));
        i = i + 1;
    }
    assert(trim_start(s@) == s@.subrange(i as int, n as int));
    let mut j: usize = n;
    while j > i && white_space(s.get_char(j - 1))
        invariant
            n == s@.len(),
            i <= j <= n,
            trim_end(s@.subrange(i as int, n as int)) == trim_end(s@.subrange(i as int, j as int)),
        decreases j - i,
    {
        assert(s@.subrange(i as int, j as int).drop_last() =~= s@.subrange(i as int, j as int - 1));
        j = j - 1;
    }
    assert(trim_end(s@.subrange(i as int, j as int)) == s@.subrange(i as int, j as int));
    text(s.substring_char(i, j))
}

/// `s[a..b]` is one of the pieces of `s` between commas: it starts at the
/// beginning or right after a comma, ends at the end or right before a comma,
/// and holds no comma.
pub open spec fn is_field(s: Seq<char>, a: int, b: int) -> bool {
    &&& 0 <= a <= b <= s.len()
    &&& (a == 0 || s[a - 1] == ',')
    &&& (b == s.len() || s[b] == ',')
    &&& forall|k: int| a <= k < b ==> s[k] != ','
}

/// Whether `name` is one of the comma separated entries of `users`, each
/// entry taken without the white space around it.
pub open spec fn user_listed(users: Seq<char>, name: Seq<char>) -> bool {
    exists|a: int, b: int| #[trigger] is_field(users, a, b) && trimmed(users.subrange(a, b)) == name
}

/// Two pieces between commas that end at the same place start at the same
/// place.
proof fn lemma_field_start_unique(s: Seq<char>, a1: int, a2: int, b: int)
    requires
        is_field(s, a1, b),
        is_field(s, a2, b),
    ensures
        a1 == a2,
{
    if a1 < a2 {
        assert(s[a2 - 1] != ',');
    } else if a2 < a1 {
        assert(s[a1 - 1] != ',');
    }
}

/// Whether `name` is one of the comma separated entries of `users`
/// (`users.split(',').map(str::trim)` holds `name`).
pub fn is_listed(users: &str, name: &str) -> (b: bool)
    ensures
        b == user_listed(users@, name@),
{
    let n = users.unicode_len();
    let target = String::from_str(name);
    let mut start: usize = 0;
    let mut i: usize = 0;
    loop
        invariant
            n == users@.len(),
            target@ == name@,
            start <= i <= n,
            start == 0 || users@[start - 1] == ',',
            forall|k: int| start <= k < i ==> users@[k] != ',',
            forall|a: int, b: int|
                #![trigger is_field(users@, a, b)]
                is_field(users@, a, b) && b < i ==> trimmed(users@.subrange(a, b)) != name@,
        decreases n - i,
    {
        if i == n || users.get_char(i) == ',' {
            assert(is_field(users@, start as int, i as int));
            let piece = users.substring_char(start, i);
            let t = trim_text(piece);
            if t == target {
                return true;
            }
            assert forall|a: int, b: int|
                #![trigger is_field(users@, a, b)]
                is_field(users@, a, b) && b <= i implies trimmed(users@.subrange(a, b)) != name@ by {
                if b == i {
                    lemma_field_start_unique(users@, a, start as int, b);
                }
            }
            if i == n {
                return false;
            }
            start = i + 1;
        } else {
            assert forall|a: int, b: int|
                #![trigger is_field(users@, a, b)]
                is_field(users@, a, b) && b <= i implies trimmed(users@.subrange(a, b)) != name@ by {
                if b == i {
                    assert(users@[b] != ',');
                }
            }
        }
        i = i + 1;
    }
}


/// The sessions of the game server: for each API key, the level that its
/// player has reached. No key appears twice.
pub struct Sessions {
    entries: Vec<(String, u32)>,
}

/// The map that a list of `(key, level)` pairs describes, later pairs
/// taking precedence.
pub open spec fn session_map(entries: Seq<(String, u32)>) -> Map<Seq<char>, u32>
    decreases entries.len(),
{
    if entries.len() == 0 {
        Map::empty()
    } else {
        session_map(entries.drop_last()).insert(entries.last().0@, entries.last().1)
    }
}

/// No key appears twice in the list.
pub open spec fn keys_distinct(entries: Seq<(String, u32)>) -> bool {
    forall|i: int, j: int| 0 <= i < j < entries.len() ==> entries[i].0@ != entries[j].0@
}

/// A key is in the map exactly when some pair carries it, and then the map
/// holds that pair's level.
proof fn lemma_session_map_lookup(entries: Seq<(String, u32)>, key: Seq<char>)
    requires
        keys_distinct(entries),
    ensures
        session_map(entries).dom().contains(key) <==> exists|i: int| 0 <= i < entries.len() && entries[i].0@ == key,
        forall|i: int| 0 <= i < entries.len() && entries[i].0@ == key ==> session_map(entries)[key] == entries[i].1,
    decreases entries.len(),
{
    if entries.len() > 0 {
        let init = entries.drop_last();
        assert(keys_distinct(init));
        lemma_session_map_lookup(init, key);
        if entries.last().0@ != key {
            assert forall|i: int| 0 <= i < entries.len() && entries[i].0@ == key implies 0 <= i < init.len() && init[i].0@ == key by {
                assert(i != entries.len() - 1);
            }
        } else {
            assert forall|i: int| 0 <= i < entries.len() && entries[i].0@ == key implies i == entries.len() - 1 by {
                if i < entries.len() - 1 {
                    assert(entries[i].0@ != entries[entries.len() - 1].0@);
                }
            }
        }
    }
}

/// Replacing the level of the pair at `idx` replaces the level of its key
/// in the map.
proof fn lemma_session_map_update(entries: Seq<(String, u32)>, idx: int, level: u32)
    requires
        keys_distinct(entries),
        0 <= idx < entries.len(),
    ensures
        session_map(entries.update(idx, (entries[idx].0, level)))
            == session_map(entries).insert(entries[idx].0@, level),
    decreases entries.len(),
{
    let updated = entries.update(idx, (entries[idx].0, level));
    let last = entries.len() - 1;
    assert(updated.drop_last() == if idx == last { entries.drop_last() } else { entries.drop_last().update(idx, (entries[idx].0, level)) });
    if idx == last {
        assert(session_map(updated) =~= session_map(entries).insert(entries[idx].0@, level));
    } else {
        assert(keys_distinct(entries.drop_last()));
        lemma_session_map_update(entries.drop_last(), idx, level);
        assert(entries[idx].0@ != entries[last].0@);
        assert(session_map(updated) =~= session_map(entries).insert(entries[idx].0@, level));
    }
}

impl View for Sessions {
    type V = Map<Seq<char>, u32>;

    closed spec fn view(&self) -> Map<Seq<char>, u32> {
        session_map(self.entries@)
    }
}

impl Sessions {
    /// The sessions hold no key twice.
    pub closed spec fn wf(&self) -> bool {
        keys_distinct(self.entries@)
    }

    /// No session yet.
    pub fn new() -> (s: Sessions)
        ensures
            s.wf(),
            s@ == Map::<Seq<char>, u32>::empty(),
    {
        Sessions { entries: Vec::new() }
    }

    /// Where the pair of `key` stands, if any.
    fn position(&self, key: &String) -> (p: Option<usize>)
        requires
            self.wf(),
        ensures
            match p {
                Some(i) => i < self.entries@.len() && self.entries@[i as int].0@ == key@,
                None => forall|i: int| 0 <= i < self.entries@.len() ==> self.entries@[i].0@ != key@,
            },
    {
        let mut i: usize = 0;
        while i < self.entries.len()
            invariant
                i <= self.entries@.len(),
                forall|j: int| 0 <= j < i ==> self.entries@[j].0@ != key@,
            decreases self.entries@.len() - i,
        {
            if self.entries[i].0 == *key {
                return Some(i);
            }
            i = i + 1;
        }
        None
    }

    /// The level of the session of `key`, if there is one.
    pub fn level(&self, key: &String) -> (l: Option<u32>)
        requires
            self.wf(),
        ensures
            l == (if self@.dom().contains(key@) { Some(self@[key@]) } else { None::<u32> }),
    {
        proof { lemma_session_map_lookup(self.entries@, key@); }
        match self.position(key) {
            Some(i) => Some(self.entries[i].1),
            None => None,
        }
    }

    /// Sets the level of the session of `key`, opening it if needed.
    pub fn set_level(&mut self, key: &String, level: u32)
        requires
            old(self).wf(),
        ensures
            final(self).wf(),
            final(self)@ == old(self)@.insert(key@, level),
    {
        proof { lemma_session_map_lookup(self.entries@, key@); }
        match self.position(key) {
            Some(i) => {
                proof { lemma_session_map_update(self.entries@, i as int, level); }
                let k = self.entries[i].0.clone();
                self.entries.set(i, (k, level));
            },
            None => {
                self.entries.push((key.clone(), level));
                assert(self.entries@.drop_last() == old(self).entries@);
            },
        }
    }

    /// Opens the session of `key` at level 1, unless it is already open.
    pub fn open(&mut self, key: &String)
        requires
            old(self).wf(),
        ensures
            final(self).wf(),
            final(self)@ == (if old(self)@.dom().contains(key@) { old(self)@ } else { old(self)@.insert(key@, 1) }),
    {
        proof { lemma_session_map_lookup(self.entries@, key@); }
        match self.position(key) {
            Some(_) => {},
            None => {
                self.entries.push((key.clone(), 1));
                assert(self.entries@.drop_last() == old(self).entries@);
            },
        }
    }
}


/// What the server reads from its environment for each request: the list of
/// players (`API_USERS`, empty when unset), their shared password
/// (`PASSWORD`) and the API key that a login hands out (`API_PASSWORD`).
pub struct Credentials {
    pub users: String,
    pub password: Option<String>,
    pub api_key: Option<String>,
}

/// A login attempt.
pub struct PetitionPost {
    pub username: String,
    pub password: String,
}

/// The answer to a login attempt.
pub struct ResponsePost {
    pub api_key: String,
    pub success: bool,
    pub message: String,
}

/// A request for an item for the given level.
pub struct PetitionGetItem {
    pub api_key: String,
    pub level: u32,
}

/// The answer to a request for an item.
pub struct ResponseGetItem {
    pub item: Option<Item>,
    pub success: bool,
    pub message: String,
}

/// A report of the level that a player has reached.
pub struct PetitionUpdateLevel {
    pub api_key: String,
    pub level: u32,
}

/// The answer to a level report.
pub struct ResponseUpdateLevel {
    pub success: bool,
    pub message: String,
    pub current_level: u32,
}

/// The sessions after a login that hands out `key`: a new session starts at
/// level 1, an open one keeps its level.
pub open spec fn opened(m: Map<Seq<char>, u32>, key: Seq<char>) -> Map<Seq<char>, u32> {
    if m.dom().contains(key) {
        m
    } else {
        m.insert(key, 1)
    }
}

/// After a login its key has a session, and logging in again changes
/// nothing.
pub proof fn lemma_login_idempotent(m: Map<Seq<char>, u32>, key: Seq<char>)
    ensures
        opened(m, key).dom().contains(key),
        opened(opened(m, key), key) == opened(m, key),
{
}

/// A login never takes a player back: after a level report, or after an
/// item request for a level, logging in keeps that level.
pub proof fn lemma_login_keeps_level(m: Map<Seq<char>, u32>, key: Seq<char>, level: u32)
    ensures
        opened(m.insert(key, level), key) == m.insert(key, level),
        opened(m.insert(key, level), key)[key] == level,
{
}

/// A first login starts its session at level 1.
pub proof fn lemma_first_login_at_level_one(m: Map<Seq<char>, u32>, key: Seq<char>)
    requires
        !m.dom().contains(key),
    ensures
        opened(m, key)[key] == 1,
{
}

/// The password of `creds` matches the one in `req`.
pub open spec fn password_ok(creds: &Credentials, req: &PetitionPost) -> bool {
    creds.password matches Some(p) && p@ == req.password@
}

/// The answer `r` to a login, and the sessions `new` after it, when they
/// were `old` before: a player not on the list, or with the wrong password,
/// is refused with 401 and nothing changes; otherwise the session of the API
/// key is opened and the key handed out.
pub open spec fn login_post(
    creds: &Credentials,
    req: &PetitionPost,
    old: Map<Seq<char>, u32>,
    new: Map<Seq<char>, u32>,
    r: (u16, ResponsePost),
) -> bool {
    if !user_listed(creds.users@, req.username@) {
        &&& r.0 == STATUS_UNAUTHORIZED
        &&& r.1.api_key@ == Seq::<char>::empty()
        &&& !r.1.success
        &&& r.1.message@ == "Usuario no registrado"@
        &&& new == old
    } else if !password_ok(creds, req) {
        &&& r.0 == STATUS_UNAUTHORIZED
        &&& r.1.api_key@ == Seq::<char>::empty()
        &&& !r.1.success
        &&& r.1.message@ == "Contraseña inválida"@
        &&& new == old
    } else {
        let key = creds.api_key->0@;
        &&& r.0 == STATUS_OK
        &&& r.1.api_key@ == key
        &&& r.1.success
        &&& r.1.message@ == "Autenticado correctamente"@
        &&& new == opened(old, key)
    }
}

/// A login needs a configuration that it lacks: the player is on the list
/// but no password is set, or the password matches but no API key is set.
pub open spec fn login_unconfigured(creds: &Credentials, req: &PetitionPost) -> bool {
    user_listed(creds.users@, req.username@) && (creds.password is None || (password_ok(creds, req) && creds.api_key is None))
}

/// Login: a player not on the list, or with the wrong password, is refused
/// with 401; otherwise the server opens a session for its API key at level
/// 1 (an open session keeps its level) and hands the key out.
pub fn petition_post(creds: &Credentials, req: &PetitionPost, sessions: &mut Sessions) -> (r: (u16, ResponsePost))
    requires
        old(sessions).wf(),
        !login_unconfigured(creds, req),
    ensures
        final(sessions).wf(),
        login_post(creds, req, old(sessions)@, final(sessions)@, r),
{
    if !is_listed(creds.users.as_str(), req.username.as_str()) {
        return (STATUS_UNAUTHORIZED, ResponsePost { api_key: String::new(), success: false, message: text("Usuario no registrado") });
    }
    let password = creds.password.as_ref().unwrap();
    if *password != req.password {
        return (STATUS_UNAUTHORIZED, ResponsePost { api_key: String::new(), success: false, message: text("Contraseña inválida") });
    }
    let key = creds.api_key.as_ref().unwrap().clone();
    sessions.open(&key);
    (STATUS_OK, ResponsePost { api_key: key, success: true, message: text("Autenticado correctamente") })
}

/// Login on any configuration: `None`, with the sessions unchanged, when the
/// login needs a password or an API key that is not set; otherwise the
/// answer of [`petition_post`].
pub fn petition_post_checked(creds: &Credentials, req: &PetitionPost, sessions: &mut Sessions) -> (r: Option<(u16, ResponsePost)>)
    requires
        old(sessions).wf(),
    ensures
        final(sessions).wf(),
        r is None <==> login_unconfigured(creds, req),
        r is None ==> final(sessions)@ == old(sessions)@,
        r matches Some(answer) ==> login_post(creds, req, old(sessions)@, final(sessions)@, answer),
{
    if is_listed(creds.users.as_str(), req.username.as_str()) {
        match &creds.password {
            None => return None,
            Some(p) => {
                if *p == req.password && creds.api_key.is_none() {
                    return None;
                }
            },
        }
    }
    Some(petition_post(creds, req, sessions))
}

/// An item for the given level: a request with a wrong API key is refused
/// with 401; otherwise the session of the key moves to the level and the
/// server draws one item from the pool of that level (none for level 0).
pub fn petition_get_item(creds: &Credentials, req: &PetitionGetItem, sessions: &mut Sessions) -> (r: (u16, ResponseGetItem))
    requires
        old(sessions).wf(),
        creds.api_key is Some,
    ensures
        final(sessions).wf(),
        req.api_key@ != creds.api_key->0@ ==> {
            &&& r.0 == STATUS_UNAUTHORIZED
            &&& r.1.item is None
            &&& !r.1.success
            &&& r.1.message@ == "API key inválida"@
            &&& final(sessions)@ == old(sessions)@
        },
        req.api_key@ == creds.api_key->0@ ==> {
            &&& r.0 == STATUS_OK
            &&& r.1.success
            &&& r.1.message@ == "Item generado"@
            &&& final(sessions)@ == old(sessions)@.insert(req.api_key@, req.level)
            &&& match r.1.item {
                Some(it) => pool_spec(req.level).contains(it@),
                None => pool_spec(req.level).len() == 0,
            }
        },
{
    let key = creds.api_key.as_ref().unwrap();
    if req.api_key != *key {
        return (STATUS_UNAUTHORIZED, ResponseGetItem { item: None, success: false, message: text("API key inválida") });
    }
    sessions.set_level(&req.api_key, req.level);
    let item = roll_item(req.level);
    (STATUS_OK, ResponseGetItem { item, success: true, message: text("Item generado") })
}

/// A level report: a request with a wrong API key is refused with 401 and
/// level 0; otherwise the session of the key moves to the reported level,
/// which the answer repeats.
pub fn petition_update_level(creds: &Credentials, req: &PetitionUpdateLevel, sessions: &mut Sessions) -> (r: (u16, ResponseUpdateLevel))
    requires
        old(sessions).wf(),
        creds.api_key is Some,
    ensures
        final(sessions).wf(),
        req.api_key@ != creds.api_key->0@ ==> {
            &&& r.0 == STATUS_UNAUTHORIZED
            &&& !r.1.success
            &&& r.1.message@ == "API key inválida"@
            &&& r.1.current_level == 0
            &&& final(sessions)@ == old(sessions)@
        },
        req.api_key@ == creds.api_key->0@ ==> {
            &&& r.0 == STATUS_OK
            &&& r.1.success
            &&& r.1.message@ == "Nivel actualizado"@
            &&& r.1.current_level == req.level
            &&& final(sessions)@ == old(sessions)@.insert(req.api_key@, req.level)
        },
{
    let key = creds.api_key.as_ref().unwrap();
    if req.api_key != *key {
        return (STATUS_UNAUTHORIZED, ResponseUpdateLevel { success: false, message: text("API key inválida"), current_level: 0 });
    }
    sessions.set_level(&req.api_key, req.level);
    let current_level = match sessions.level(&req.api_key) {
        Some(l) => l,
        None => req.level,
    };
    (STATUS_OK, ResponseUpdateLevel { success: true, message: text("Nivel actualizado"), current_level })
}

} // verus!
