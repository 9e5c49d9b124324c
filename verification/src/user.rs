//! Members, their passwords, and what is decided when they log in,
//! register or change a password.
//!
//! Passwords are stored as PBKDF2 hashes in the PHC string format. The
//! store looks records up and writes them; what follows from a record that
//! was found, or was not, is decided here.

use pbkdf2::password_hash::{PasswordHash, PasswordHasher, PasswordVerifier, SaltString};
use pbkdf2::Pbkdf2;
use rand::distributions::Alphanumeric;
use rand::{thread_rng, Rng};
use rand_core::OsRng;
use vstd::prelude::*;
use vstd::string::StringExecFns;

verus! {

/// A member's record as stored, with the password hash.
#[derive(Debug, Clone)]
pub struct UserDB {
    pub id: i32,
    pub username: String,
    pub password: String,
    pub is_admin: bool,
    pub is_approved: bool,
}

/// A member.
#[derive(Debug, Clone)]
pub struct User {
    pub id: i32,
    pub username: String,
    pub is_admin: bool,
    pub is_approved: bool,
}

/// A member who is an administrator.
#[derive(Debug)]
pub struct AdminUser<'a> {
    pub user: &'a User,
}

/// A name and a password, as entered to log in or to register; in a record
/// that is to be stored, the password's hash.
#[derive(Debug, Clone)]
pub struct NewUser {
    pub username: String,
    pub password: String,
}

/// A password and the one that is to replace it.
#[derive(Debug, Clone)]
pub struct NewPassword {
    pub old_password: String,
    pub new_password: String,
}

/// Why a request about a member was refused.
#[derive(Debug, Clone, Copy, PartialEq, Eq)]
pub enum UserError {
    /// No approved member has the name.
    NotApproved,
    /// The store holds no such member.
    NotInDb,
    /// The stored hash is no PHC string.
    UnreadableHash,
    /// The password does not match the stored hash.
    WrongPassword,
    /// The password could not be hashed.
    HashingFailed,
    /// The name is taken.
    AlreadyExists,
    /// The store did not take the write.
    WriteFailed,
}

/// How a password compares to a stored hash.
#[derive(Debug, Clone, Copy, PartialEq, Eq)]
pub enum PasswordCheck {
    Match,
    Mismatch,
    Unreadable,
}

/// The length of a generated password.
pub const PASSWORD_LEN: usize = 16;

/// A letter of the ASCII alphabet or a digit.
pub open spec fn is_alphanumeric(c: char) -> bool {
    ('0' <= c && c <= '9') || ('a' <= c && c <= 'z') || ('A' <= c && c <= 'Z')
}

/// How PBKDF2 judges a password against a PHC string.
pub uninterp spec fn password_check(password: Seq<char>, hash: Seq<char>) -> PasswordCheck;

/// The PHC string of a password's PBKDF2 hash with the given salt and the
/// default parameters; nothing where the salt is not accepted.
pub uninterp spec fn pbkdf2_hash(password: Seq<char>, salt: Seq<char>) -> Option<Seq<char>>;

/// Parses the hash with `PasswordHash::new` and checks the password against
/// it with `Pbkdf2.verify_password`. Claimed of them: the same password and
/// hash are judged the same way.
#[verifier::external_body]
fn check_password(password: &str, hash: &str) -> (r: PasswordCheck)
    ensures
        r == password_check(password@, hash@),
{
    match PasswordHash::new(hash) {
        Err(_) => PasswordCheck::Unreadable,
        Ok(parsed) => match Pbkdf2.verify_password(password.as_bytes(), &parsed) {
            Ok(()) => PasswordCheck::Match,
            Err(_) => PasswordCheck::Mismatch,
        },
    }
}

/// Draws a salt with `SaltString::generate` from the system's random
/// numbers. Nothing is claimed of the salt.
#[verifier::external_body]
fn fresh_salt() -> (r: String) {
    SaltString::generate(&mut OsRng).as_str().to_string()
}

/// Hashes the password with `Pbkdf2.hash_password_simple` and writes the
/// hash as a PHC string. Claimed of it: the same password and salt give the
/// same string.
#[verifier::external_body]
fn hash_with_salt(password: &str, salt: &str) -> (r: Option<String>)
    ensures
        match r {
            Some(hash) => pbkdf2_hash(password@, salt@) == Some(hash@),
            None => pbkdf2_hash(password@, salt@) is None,
        },
{
    Pbkdf2.hash_password_simple(password.as_bytes(), salt).ok().map(|hash| hash.to_string())
}

/// Draws `len` characters with rand's `Alphanumeric` from the thread's
/// generator. Claimed of it: there are `len` of them, each an ASCII letter
/// or a digit.
#[verifier::external_body]
fn random_alphanumeric(len: usize) -> (r: String)
    ensures
        r@.len() == len,
        forall|i: int| 0 <= i < r@.len() ==> is_alphanumeric(#[trigger] r@[i]),
{
    thread_rng().sample_iter(&Alphanumeric).take(len).map(char::from).collect()
}

impl UserError {
    /// The text that tells a person what went wrong.
    pub open spec fn text(self) -> Seq<char> {
        match self {
            UserError::NotApproved => "User not found or not approved."@,
            UserError::NotInDb => "User not found in db."@,
            UserError::UnreadableHash => "Failed reading password."@,
            UserError::WrongPassword => "Wrong password."@,
            UserError::HashingFailed => "Failed hashing password."@,
            UserError::AlreadyExists => "User already exists."@,
            UserError::WriteFailed => "Failed to write into db."@,
        }
    }

    /// The text that tells a person what went wrong.
    pub fn message(&self) -> (r: String)
        ensures
            r@ == self.text(),
    {
        match self {
            UserError::NotApproved => String::from_str("User not found or not approved."),
            UserError::NotInDb => String::from_str("User not found in db."),
            UserError::UnreadableHash => String::from_str("Failed reading password."),
            UserError::WrongPassword => String::from_str("Wrong password."),
            UserError::HashingFailed => String::from_str("Failed hashing password."),
            UserError::AlreadyExists => String::from_str("User already exists."),
            UserError::WriteFailed => String::from_str("Failed to write into db."),
        }
    }
}

/// Checks a password against a stored hash.
pub fn verify(password: &String, hash: &String) -> (r: Result<(), UserError>)
    ensures
        r == match password_check(password@, hash@) {
            PasswordCheck::Match => Ok::<(), UserError>(()),
            PasswordCheck::Mismatch => Err::<(), UserError>(UserError::WrongPassword),
            PasswordCheck::Unreadable => Err::<(), UserError>(UserError::UnreadableHash),
        },
{
    match check_password(password.as_str(), hash.as_str()) {
        PasswordCheck::Match => Ok(()),
        PasswordCheck::Mismatch => Err(UserError::WrongPassword),
        PasswordCheck::Unreadable => Err(UserError::UnreadableHash),
    }
}

/// The hash of a password with the given salt.
pub fn hash_password(password: &String, salt: &String) -> (r: Result<String, UserError>)
    ensures
        match r {
            Ok(hash) => pbkdf2_hash(password@, salt@) == Some(hash@),
            Err(e) => e == UserError::HashingFailed && pbkdf2_hash(password@, salt@) is None,
        },
{
    match hash_with_salt(password.as_str(), salt.as_str()) {
        Some(hash) => Ok(hash),
        None => Err(UserError::HashingFailed),
    }
}

/// The hash of a password with a salt drawn for it. Two calls give
/// different hashes of one password; each is the hash with some salt.
pub fn generate_new_hash(password: &String) -> (r: Result<String, UserError>)
    ensures
        match r {
            Ok(hash) => exists|salt: Seq<char>| pbkdf2_hash(password@, salt) == Some(hash@),
            Err(e) => e == UserError::HashingFailed,
        },
{
    let salt = fresh_salt();
    hash_password(password, &salt)
}

/// A password of sixteen letters and digits, drawn at random.
pub fn generate_random_password() -> (r: String)
    ensures
        r@.len() == PASSWORD_LEN,
        forall|i: int| 0 <= i < r@.len() ==> is_alphanumeric(#[trigger] r@[i]),
{
    random_alphanumeric(PASSWORD_LEN)
}

impl From<UserDB> for User {
    fn from(u: UserDB) -> (r: Self) {
        User { id: u.id, username: u.username, is_admin: u.is_admin, is_approved: u.is_approved }
    }
}

impl vstd::std_specs::convert::FromSpecImpl<UserDB> for User {
    open spec fn obeys_from_spec() -> bool {
        true
    }

    open spec fn from_spec(u: UserDB) -> Self {
        User { id: u.id, username: u.username, is_admin: u.is_admin, is_approved: u.is_approved }
    }
}

/// What a login comes to, given the record that the store holds under the
/// entered name and how the entered password compares to its hash.
pub open spec fn login_result(record: UserDB, check: PasswordCheck) -> Result<User, UserError> {
    if !record.is_approved {
        Err(UserError::NotApproved)
    } else {
        match check {
            PasswordCheck::Match => Ok(
                User {
                    id: record.id,
                    username: record.username,
                    is_admin: record.is_admin,
                    is_approved: record.is_approved,
                },
            ),
            PasswordCheck::Mismatch => Err(UserError::WrongPassword),
            PasswordCheck::Unreadable => Err(UserError::UnreadableHash),
        }
    }
}

impl NewUser {
    /// Logs in with what was entered, given the record that the store holds
    /// under the entered name, if it holds one. Only an approved member
    /// whose password matches is let in.
    pub fn login(self, found: Option<UserDB>) -> (r: Result<User, UserError>)
        ensures
            r == match found {
                None => Err::<User, UserError>(UserError::NotApproved),
                Some(record) => login_result(
                    record,
                    password_check(self.password@, record.password@),
                ),
            },
    {
        match found {
            None => Err(UserError::NotApproved),
            Some(record) => {
                if !record.is_approved {
                    return Err(UserError::NotApproved);
                }
                match verify(&self.password, &record.password) {
                    Ok(()) => Ok(User::from(record)),
                    Err(e) => Err(e),
                }
            },
        }
    }

    /// Registers what was entered, given whether the store holds a record
    /// under the entered name. The record to store carries the password's
    /// hash in place of the password.
    pub fn register(self, taken: bool) -> (r: Result<NewUser, UserError>)
        ensures
            match r {
                Ok(record) => !taken && record.username == self.username && exists|salt: Seq<char>|
                    pbkdf2_hash(self.password@, salt) == Some(record.password@),
                Err(e) => if taken {
                    e == UserError::AlreadyExists
                } else {
                    e == UserError::HashingFailed
                },
            },
    {
        if taken {
            return Err(UserError::AlreadyExists);
        }
        match generate_new_hash(&self.password) {
            Ok(hash) => Ok(NewUser { username: self.username, password: hash }),
            Err(e) => Err(e),
        }
    }
}

impl User {
    /// The hash to store when a member changes the password, given the
    /// member's record, if the store holds it. The old password has to
    /// match the record.
    pub fn change_password(found: Option<UserDB>, new_password: &NewPassword) -> (r: Result<
        String,
        UserError,
    >)
        ensures
            match (found, r) {
                (None, Err(e)) => e == UserError::NotInDb,
                (Some(record), Ok(hash)) => password_check(
                    new_password.old_password@,
                    record.password@,
                ) == PasswordCheck::Match && exists|salt: Seq<char>|
                    pbkdf2_hash(new_password.new_password@, salt) == Some(hash@),
                (Some(record), Err(e)) => match password_check(
                    new_password.old_password@,
                    record.password@,
                ) {
                    PasswordCheck::Match => e == UserError::HashingFailed,
                    PasswordCheck::Mismatch => e == UserError::WrongPassword,
                    PasswordCheck::Unreadable => e == UserError::UnreadableHash,
                },
                _ => false,
            },
    {
        match found {
            None => Err(UserError::NotInDb),
            Some(record) => {
                match verify(&new_password.old_password, &record.password) {
                    Ok(()) => generate_new_hash(&new_password.new_password),
                    Err(e) => Err(e),
                }
            },
        }
    }

    /// What setting a random password comes to, given the password and the
    /// number of records that the store changed.
    pub fn set_random_password(password: String, rows: usize) -> (r: Result<String, UserError>)
        ensures
            r == if rows > 0 {
                Ok::<String, UserError>(password)
            } else {
                Err::<String, UserError>(UserError::NotInDb)
            },
    {
        if rows > 0 {
            Ok(password)
        } else {
            Err(UserError::NotInDb)
        }
    }
}

impl<'a> AdminUser<'a> {
    /// The member as an administrator, if the member is one.
    pub fn new(user: &'a User) -> (r: Option<AdminUser<'a>>)
        ensures
            match r {
                Some(admin) => user.is_admin && admin.user == user,
                None => !user.is_admin,
            },
    {
        if user.is_admin {
            Some(AdminUser { user })
        } else {
            None
        }
    }
}

} // verus!
