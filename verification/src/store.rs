//! Identities and the credential store: the persistent record of a registered
//! user, keyed uniquely by id, username and email. `CredentialStore` is the
//! in-memory realization of the store interface the service is written
//! against; a database-backed implementation lives outside the verified
//! library and must meet the same contracts.
use vstd::prelude::*;

verus! {

/// A registered identity. The password is held only as its salted hash.
pub struct User {
    pub id: String,
    pub username: String,
    pub email: String,
    pub password_hash: String,
}

/// The persistence-layer shape of an identity; field for field the same data.
pub struct UserModel {
    pub id: String,
    pub username: String,
    pub email: String,
    pub password_hash: String,
}

impl From<User> for UserModel {
    fn from(user: User) -> (r: Self) {
        UserModel { id: user.id, username: user.username, email: user.email, password_hash: user.password_hash }
    }
}

impl vstd::std_specs::convert::FromSpecImpl<User> for UserModel {
    open spec fn obeys_from_spec() -> bool {
        true
    }

    open spec fn from_spec(user: User) -> Self {
        UserModel {
            id: user.id,
            username: user.username,
            email: user.email,
            password_hash: user.password_hash,
        }
    }
}

impl From<UserModel> for User {
    fn from(model: UserModel) -> (r: Self) {
        User { id: model.id, username: model.username, email: model.email, password_hash: model.password_hash }
    }
}

impl vstd::std_specs::convert::FromSpecImpl<UserModel> for User {
    open spec fn obeys_from_spec() -> bool {
        true
    }

    open spec fn from_spec(model: UserModel) -> Self {
        User {
            id: model.id,
            username: model.username,
            email: model.email,
            password_hash: model.password_hash,
        }
    }
}

/// The canonical identifier format this library generates: 36 characters,
/// hyphens at positions 8, 13, 18 and 23, lowercase hex everywhere else.
pub open spec fn is_uuid_string(s: Seq<char>) -> bool {
    s.len() == 36 && forall|i: int|
        0 <= i < 36 ==> (if i == 8 || i == 13 || i == 18 || i == 23 {
            #[trigger] s[i] == '-'
        } else {
            ('0' <= s[i] <= '9') || ('a' <= s[i] <= 'f')
        })
}

/// Whether the uuid crate accepts a string as an identifier; it admits more
/// shapes than the canonical one this library emits.
pub uninterp spec fn uuid_parsable(s: Seq<char>) -> bool;

/// Relies on `uuid::Uuid::new_v4` and its `Display`: a fresh random
/// identifier, rendered as 36 lowercase hyphenated hex characters.
#[verifier::external_body]
pub(crate) fn uuid_new_string() -> (r: String)
    ensures
        is_uuid_string(r@),
{
    uuid::Uuid::new_v4().to_string()
}

/// Relies on `uuid::Uuid::parse_str`: whether the string parses as an
/// identifier. Canonical hyphenated identifiers always parse.
#[verifier::external_body]
pub(crate) fn uuid_parse_ok(s: &str) -> (r: bool)
    ensures
        r == uuid_parsable(s@),
        is_uuid_string(s@) ==> r,
{
    uuid::Uuid::parse_str(s).is_ok()
}

/// The closed error taxonomy of the credential store. A uniqueness conflict
/// is kept distinct from any other storage fault so that callers can map it
/// to an "already exists" answer rather than an internal failure.
#[derive(Debug)]
pub enum AuthRepositoryError {
    UserAlreadyExists,
    UserNotFound,
    DatabaseError,
}

impl AuthRepositoryError {
    pub fn is_user_already_exists(&self) -> (r: bool)
        ensures
            r == (*self is UserAlreadyExists),
    {
        matches!(self, AuthRepositoryError::UserAlreadyExists)
    }
}

/// An in-memory credential store: a list of identity records with globally
/// unique id, username and email.
pub struct CredentialStore {
    users: Vec<UserModel>,
}

impl CredentialStore {
    /// The records currently persisted.
    pub closed spec fn records(&self) -> Seq<UserModel> {
        self.users@
    }

    /// Uniqueness of id, username and email across all records, and every
    /// id in the canonical identifier format.
    pub open spec fn wf(&self) -> bool {
        (forall|i: int, j: int|
            0 <= i < j < self.records().len() ==> #[trigger] self.records()[i].username@
                != #[trigger] self.records()[j].username@ && self.records()[i].email@
                != self.records()[j].email@ && self.records()[i].id@ != self.records()[j].id@)
            && (forall|i: int|
            0 <= i < self.records().len() ==> is_uuid_string(#[trigger] self.records()[i].id@))
    }

    /// The position of the record with the given username, where one exists.
    pub open spec fn username_index(&self, name: Seq<char>) -> int {
        choose|i: int| 0 <= i < self.records().len() && #[trigger] self.records()[i].username@
            == name
    }

    /// The position of the record with the given id, where one exists.
    pub open spec fn id_index(&self, id: Seq<char>) -> int {
        choose|i: int| 0 <= i < self.records().len() && #[trigger] self.records()[i].id@ == id
    }

    pub open spec fn has_username(&self, name: Seq<char>) -> bool {
        exists|i: int| 0 <= i < self.records().len() && #[trigger] self.records()[i].username@ == name
    }

    pub open spec fn has_email(&self, email: Seq<char>) -> bool {
        exists|i: int| 0 <= i < self.records().len() && #[trigger] self.records()[i].email@ == email
    }

    pub open spec fn has_id(&self, id: Seq<char>) -> bool {
        exists|i: int| 0 <= i < self.records().len() && #[trigger] self.records()[i].id@ == id
    }

    pub fn new() -> (r: Self)
        ensures
            r.wf(),
            r.records().len() == 0,
    {
        CredentialStore { users: Vec::new() }
    }

    /// Persist a new record. A username or email already present is a
    /// uniqueness conflict and leaves the store unchanged; the record is
    /// appended otherwise. (An id collision, which the store's own key
    /// forbids, surfaces as a storage fault, as a database would report it.)
    #[verifier::loop_isolation(false)]
    pub fn create(&mut self, model: UserModel) -> (r: Result<(), AuthRepositoryError>)
        requires
            old(self).wf(),
            is_uuid_string(model.id@),
        ensures
            final(self).wf(),
            (old(self).has_username(model.username@) || old(self).has_email(model.email@))
                ==> (r == Err::<(), AuthRepositoryError>(AuthRepositoryError::UserAlreadyExists)
                && final(self).records() == old(self).records()),
            (!old(self).has_username(model.username@) && !old(self).has_email(model.email@)
                && old(self).has_id(model.id@)) ==> (r == Err::<(), AuthRepositoryError>(
                AuthRepositoryError::DatabaseError,
            ) && final(self).records() == old(self).records()),
            (!old(self).has_username(model.username@) && !old(self).has_email(model.email@)
                && !old(self).has_id(model.id@)) ==> (r == Ok::<(), AuthRepositoryError>(())
                && final(self).records() == old(self).records().push(model)),
    {
        let n = self.users.len();
        let mut i: usize = 0;
        while i < n
            invariant
                i <= n,
                n == self.users@.len(),
                forall|j: int| 0 <= j < i ==> #[trigger] old(self).records()[j].username@
                    != model.username@,
                forall|j: int| 0 <= j < i ==> #[trigger] old(self).records()[j].email@
                    != model.email@,
            decreases n - i,
        {
            if self.users[i].username == model.username || self.users[i].email == model.email {
                proof {
                    assert(old(self).records()[i as int].username@ == model.username@
                        || old(self).records()[i as int].email@ == model.email@);
                }
                return Err(AuthRepositoryError::UserAlreadyExists);
            }
            proof {
                assert(old(self).records()[i as int].username@ != model.username@
                    && old(self).records()[i as int].email@ != model.email@);
            }
            i = i + 1;
        }
        let mut k: usize = 0;
        while k < n
            invariant
                k <= n,
                n == self.users@.len(),
                forall|j: int| 0 <= j < k ==> #[trigger] old(self).records()[j].id@ != model.id@,
            decreases n - k,
        {
            if self.users[k].id == model.id {
                proof {
                    assert(old(self).records()[k as int].id@ == model.id@);
                }
                return Err(AuthRepositoryError::DatabaseError);
            }
            proof {
                assert(old(self).records()[k as int].id@ != model.id@);
            }
            k = k + 1;
        }
        let ghost m = model;
        self.users.push(model);
        proof {
            let rs = self.records();
            let old_rs = old(self).records();
            assert(rs =~= old_rs.push(m));
            assert forall|a: int, b: int| 0 <= a < b < rs.len() implies #[trigger] rs[a].username@
                != #[trigger] rs[b].username@ && rs[a].email@ != rs[b].email@ && rs[a].id@
                != rs[b].id@ by {
                if b == rs.len() - 1 {
                    assert(rs[a] == old_rs[a]);
                    assert(rs[b] == m);
                    assert(old_rs[a].username@ != m.username@ && old_rs[a].email@ != m.email@
                        && old_rs[a].id@ != m.id@);
                } else {
                    assert(rs[a] == old_rs[a] && rs[b] == old_rs[b]);
                }
            }
        }
        Ok(())
    }

    /// Look up the record with the given username, if any.
    #[verifier::loop_isolation(false)]
    pub fn find_by_username(&self, username: &str) -> (r: Result<UserModel, AuthRepositoryError>)
        requires
            self.wf(),
        ensures
            match r {
                Ok(u) => self.has_username(username@) && exists|i: int|
                    0 <= i < self.records().len() && views_eq(#[trigger] self.records()[i], u)
                        && u.username@ == username@,
                Err(e) => e == AuthRepositoryError::UserNotFound && !self.has_username(username@),
            },
    {
        let uname: String = username.to_owned();
        let n = self.users.len();
        let mut i: usize = 0;
        while i < n
            invariant
                i <= n,
                n == self.users@.len(),
                uname@ == username@,
                forall|j: int| 0 <= j < i ==> #[trigger] self.users@[j].username@ != username@,
            decreases n - i,
        {
            if self.users[i].username == uname {
                let m = copy_model(&self.users[i]);
                proof {
                    assert(self.records()[i as int].username@ == username@);
                    assert(views_eq(self.records()[i as int], m));
                }
                return Ok(m);
            }
            i = i + 1;
        }
        Err(AuthRepositoryError::UserNotFound)
    }

    /// Look up the record with the given id, if any.
    #[verifier::loop_isolation(false)]
    pub fn find_by_id(&self, id: &str) -> (r: Result<UserModel, AuthRepositoryError>)
        requires
            self.wf(),
        ensures
            match r {
                Ok(u) => self.has_id(id@) && exists|i: int|
                    0 <= i < self.records().len() && views_eq(#[trigger] self.records()[i], u)
                        && u.id@ == id@,
                Err(e) => e == AuthRepositoryError::UserNotFound && !self.has_id(id@),
            },
    {
        let ident: String = id.to_owned();
        let n = self.users.len();
        let mut i: usize = 0;
        while i < n
            invariant
                i <= n,
                n == self.users@.len(),
                ident@ == id@,
                forall|j: int| 0 <= j < i ==> #[trigger] self.users@[j].id@ != id@,
            decreases n - i,
        {
            if self.users[i].id == ident {
                let m = copy_model(&self.users[i]);
                proof {
                    assert(self.records()[i as int].id@ == id@);
                    assert(views_eq(self.records()[i as int], m));
                }
                return Ok(m);
            }
            i = i + 1;
        }
        Err(AuthRepositoryError::UserNotFound)
    }
}

/// Field-for-field equality of two records, by content.
pub open spec fn views_eq(a: UserModel, b: UserModel) -> bool {
    a.id@ == b.id@ && a.username@ == b.username@ && a.email@ == b.email@ && a.password_hash@
        == b.password_hash@
}

/// A canonical identifier is a well-formed token subject: printable ASCII
/// without quote or backslash.
pub proof fn lemma_uuid_sub_wf(s: Seq<char>)
    requires
        is_uuid_string(s),
    ensures
        crate::claims::sub_chars_wf(s),
{
    assert forall|i: int| 0 <= i < s.len() implies (' ' <= #[trigger] s[i] && s[i] <= '~' && s[i]
        != '"' && s[i] != '\\') by {
        if i == 8 || i == 13 || i == 18 || i == 23 {
            assert(s[i] == '-');
        } else {
            assert(('0' <= s[i] <= '9') || ('a' <= s[i] <= 'f'));
        }
    }
}

/// A content-equal copy of a record.
fn copy_model(m: &UserModel) -> (r: UserModel)
    ensures
        views_eq(*m, r),
{
    UserModel {
        id: m.id.clone(),
        username: m.username.clone(),
        email: m.email.clone(),
        password_hash: m.password_hash.clone(),
    }
}

} // verus!
