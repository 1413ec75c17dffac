use vstd::prelude::*;

use vstd::string::StrSliceExecFns;

use crate::auth::{
    bcrypt_matches, generate_token, hash_password, token_claims, valid_bcrypt_hash,
    verify_password, verify_token, Claims, ClaimsV,
};
use crate::clock::current_datetime_text;
use crate::database::{
    card_key_taken_by_other, cards_public, executor_pred, has_card_for_year, has_card_id,
    has_card_key, has_user_id, has_username, is_max_card_number, lemma_filter_one_more, opt_int,
    opt_str_text, opt_text, username_taken_by_other, CardRowV, CardV, ControlCard, Database,
    StoreV,
};
use crate::errors::{AppError, ErrorKind};
use crate::models::{copy_user, valid_role, User, UserRole, UserV};
use crate::text::str_eq;

verus! {

/// Account administration is reserved to the admin role.
pub open spec fn is_admin(c: ClaimsV) -> bool {
    c.role == "admin"@
}

/// Card operations are open to the admin and controller roles alike.
pub open spec fn may_manage_cards(c: ClaimsV) -> bool {
    c.role == "admin"@ || c.role == "controller"@
}

/// The filter used when listing accounts of one role.
pub open spec fn role_pred(role_text: Seq<char>) -> spec_fn(UserV) -> bool {
    |u: UserV| u.role == role_text
}

fn claims_is_admin(c: &Claims) -> (r: bool)
    ensures
        r == is_admin(c@),
{
    str_eq(c.role.as_str(), "admin")
}

fn claims_may_manage_cards(c: &Claims) -> (r: bool)
    ensures
        r == may_manage_cards(c@),
{
    str_eq(c.role.as_str(), "admin") || str_eq(c.role.as_str(), "controller")
}

/// Connects the store; the previous connection, if any, is torn down.
pub fn connect_database(db: &mut Database, db_path: &str) -> (r: Result<(), AppError>)
    ensures
        r is Ok,
        final(db)@.wf(),
        final(db)@.connected,
        final(db)@.path == Some(db_path@),
        final(db)@.users.len() == 0,
        final(db)@.cards.len() == 0,
{
    db.connect(db_path)
}

/// Disconnects the store; a no-op when already disconnected.
pub fn disconnect_database(db: &mut Database) -> (r: Result<(), AppError>)
    ensures
        r is Ok,
        final(db)@.wf(),
        !final(db)@.connected,
        final(db)@.users.len() == 0,
        final(db)@.cards.len() == 0,
{
    db.disconnect();
    Ok(())
}

pub fn get_database_path(db: &Database) -> (r: Result<Option<String>, AppError>)
    ensures
        r matches Ok(p) && opt_text(p) == db@.path,
{
    match db.get_path() {
        Some(p) => Ok(Some(p.clone())),
        None => Ok(None),
    }
}

pub fn is_database_connected(db: &Database) -> (r: Result<bool, AppError>)
    ensures
        r matches Ok(b) && b == db@.connected,
{
    Ok(db.is_connected())
}

/// Whether any account exists; a disconnected store reports false
/// rather than an error, so a fresh installation can probe safely.
pub fn has_any_users(db: &Database) -> (r: Result<bool, AppError>)
    requires
        db@.wf(),
    ensures
        r matches Ok(b) && b == (db@.connected && db@.users.len() > 0),
{
    if !db.is_connected() {
        return Ok(false);
    }
    db.has_any_users()
}

/// Bootstraps the very first admin account. It succeeds at most once:
/// any already-existing account makes it fail with a conflict, before
/// the arguments are even examined.
pub fn init_admin(db: &mut Database, username: &str, password: &str) -> (r: Result<i64, AppError>)
    requires
        old(db)@.wf(),
    ensures
        final(db)@.wf(),
        r is Err ==> final(db)@ == old(db)@,
        !old(db)@.connected ==> (r matches Err(e) && e.kind == ErrorKind::StoreUnavailable),
        old(db)@.connected && old(db)@.users.len() > 0 ==> (r matches Err(e) && e.kind
            == ErrorKind::Conflict),
        old(db)@.connected && old(db)@.users.len() == 0 && password@.len() < 6 ==> (r matches Err(e)
            && e.kind == ErrorKind::Validation),
        old(db)@.connected && old(db)@.users.len() == 0 && password@.len() >= 6 ==> match r {
            Ok(id) => {
                &&& id as int == old(db)@.next_user_id
                &&& exists|h: Seq<char>|
                    #[trigger] bcrypt_matches(password@, h) && (exists|ts: Seq<char>|
                        final(db)@.users == old(db)@.users.push(
                            UserV {
                                id: old(db)@.next_user_id,
                                username: username@,
                                password_hash: h,
                                role: "admin"@,
                                created_at: ts,
                            },
                        ))
                &&& final(db)@.next_user_id == old(db)@.next_user_id + 1
                &&& final(db)@.cards == old(db)@.cards
                &&& final(db)@.connected
                &&& final(db)@.path == old(db)@.path
            },
            Err(e) => e.kind == ErrorKind::Internal,
        },
{
    let any = match db.has_any_users() {
        Err(e) => return Err(e),
        Ok(b) => b,
    };
    if any {
        return Err(AppError {
            kind: ErrorKind::Conflict,
            message: "An account already exists".to_string(),
        });
    }
    let password_hash = match hash_password(password) {
        Err(e) => return Err(e),
        Ok(h) => h,
    };
    let ts = current_datetime_text();
    db.create_user(username, password_hash.as_str(), "admin", ts.as_str())
}

/// Signs a caller in. An unknown username and a wrong password yield
/// one and the same authentication error, so a caller cannot probe
/// which usernames exist; a matching password is never answered with
/// that error.
pub fn login(db: &Database, username: &str, password: &str) -> (r: Result<String, AppError>)
    requires
        db@.wf(),
    ensures
        !db@.connected ==> (r matches Err(e) && e.kind == ErrorKind::StoreUnavailable),
        db@.connected && !has_username(db@.users, username@) ==> (r matches Err(e) && e.kind
            == ErrorKind::Authentication && e.message@ == "Invalid username or password"@),
        db@.connected && (exists|i: int|
            0 <= i < db@.users.len() && (#[trigger] db@.users[i]).username == username@
                && bcrypt_matches(password@, db@.users[i].password_hash)) ==> !(r matches Err(e)
            && e.kind == ErrorKind::Authentication),
        db@.connected && (exists|i: int|
            0 <= i < db@.users.len() && (#[trigger] db@.users[i]).username == username@
                && valid_bcrypt_hash(db@.users[i].password_hash) && !bcrypt_matches(
                password@,
                db@.users[i].password_hash,
            )) ==> (r matches Err(e) && e.kind == ErrorKind::Authentication && e.message@
            == "Invalid username or password"@),
        db@.connected ==> match r {
            Ok(t) => exists|i: int|
                0 <= i < db@.users.len() && (#[trigger] db@.users[i]).username == username@
                    && bcrypt_matches(password@, db@.users[i].password_hash) && (exists|exp: int|
                    0 <= exp && token_claims(t@) == (ClaimsV {
                        sub: db@.users[i].id,
                        role: db@.users[i].role,
                        exp,
                    })),
            Err(e) => (e.kind == ErrorKind::Authentication && e.message@
                == "Invalid username or password"@) || e.kind == ErrorKind::Internal,
        },
{
    let found = match db.get_user_by_username(username) {
        Err(e) => return Err(e),
        Ok(o) => o,
    };
    let user = match found {
        Some(u) => u,
        None => {
            return Err(AppError {
                kind: ErrorKind::Authentication,
                message: "Invalid username or password".to_string(),
            });
        },
    };
    proof {
        let j = choose|j: int| 0 <= j < db@.users.len() && db@.users[j] == user@;
        assert(db@.users[j].username == username@);
    }
    let ok = match verify_password(password, user.password_hash.as_str()) {
        Err(e) => return Err(e),
        Ok(b) => b,
    };
    if !ok {
        return Err(AppError {
            kind: ErrorKind::Authentication,
            message: "Invalid username or password".to_string(),
        });
    }
    match generate_token(user.id, user.role.as_str()) {
        Ok(t) => {
            proof {
                let j = choose|j: int| 0 <= j < db@.users.len() && db@.users[j] == user@;
                assert(db@.users[j].username == username@);
                assert(bcrypt_matches(password@, db@.users[j].password_hash));
            }
            Ok(t)
        },
        Err(e) => Err(e),
    }
}

/// What registering an account comes to, for a given caller: only an
/// admin may do it, the role must be one of the three enumerated
/// values, the password at least 6 characters, the username unique.
pub open spec fn register_user_outcome(
    pre: StoreV,
    post: StoreV,
    caller: ClaimsV,
    username: Seq<char>,
    password: Seq<char>,
    role: Seq<char>,
    r: Result<i64, AppError>,
) -> bool {
    &&& r is Err ==> post == pre
    &&& !is_admin(caller) ==> (r matches Err(e) && e.kind == ErrorKind::Authorization)
    &&& is_admin(caller) && !valid_role(role) ==> (r matches Err(e) && e.kind
        == ErrorKind::Validation)
    &&& is_admin(caller) && valid_role(role) && password.len() < 6 ==> (r matches Err(e) && e.kind
        == ErrorKind::Validation)
    &&& is_admin(caller) && valid_role(role) && password.len() >= 6 ==> {
        &&& !pre.connected ==> (r matches Err(e) && e.kind == ErrorKind::StoreUnavailable)
        &&& pre.connected && has_username(pre.users, username) ==> (r matches Err(e) && e.kind
            == ErrorKind::Conflict)
        &&& pre.connected && !has_username(pre.users, username) ==> match r {
            Ok(id) => {
                &&& id as int == pre.next_user_id
                &&& exists|h: Seq<char>|
                    #[trigger] bcrypt_matches(password, h) && (exists|ts: Seq<char>|
                        post.users == pre.users.push(
                            UserV {
                                id: pre.next_user_id,
                                username,
                                password_hash: h,
                                role,
                                created_at: ts,
                            },
                        ))
                &&& post.next_user_id == pre.next_user_id + 1
                &&& post.cards == pre.cards
                &&& post.connected == pre.connected
                &&& post.path == pre.path
                &&& post.next_card_id == pre.next_card_id
            },
            // only the hashing work or id-space exhaustion is left
            Err(e) => e.kind == ErrorKind::Internal,
        }
    }
}

/// Registers an account on behalf of the caller the claims describe.
pub fn register_user_as(
    db: &mut Database,
    claims: &Claims,
    username: &str,
    password: &str,
    role: &str,
) -> (r: Result<i64, AppError>)
    requires
        old(db)@.wf(),
    ensures
        final(db)@.wf(),
        register_user_outcome(old(db)@, final(db)@, claims@, username@, password@, role@, r),
{
    if !claims_is_admin(claims) {
        return Err(AppError {
            kind: ErrorKind::Authorization,
            message: "Only admin can register users".to_string(),
        });
    }
    if UserRole::from_str(role).is_none() {
        return Err(AppError { kind: ErrorKind::Validation, message: "Invalid role".to_string() });
    }
    if password.unicode_len() < 6 {
        return Err(AppError {
            kind: ErrorKind::Validation,
            message: "Password must be at least 6 characters long".to_string(),
        });
    }
    // The uniqueness probe comes before the hashing work, so a taken
    // username is always reported as the conflict it is, never masked
    // by a hashing failure.
    let taken = match db.get_user_by_username(username) {
        Err(e) => return Err(e),
        Ok(o) => o,
    };
    if let Some(u) = taken {
        proof {
            let j = choose|j: int| 0 <= j < db@.users.len() && db@.users[j] == u@;
            assert(db@.users[j].username == username@);
            assert(has_username(db@.users, username@));
        }
        return Err(AppError {
            kind: ErrorKind::Conflict,
            message: "Username already exists".to_string(),
        });
    }
    let password_hash = match hash_password(password) {
        Err(e) => return Err(e),
        Ok(h) => h,
    };
    let ts = current_datetime_text();
    db.create_user(username, password_hash.as_str(), role, ts.as_str())
}

/// Registers an account; the caller is whoever the bearer token names.
pub fn register_user(
    db: &mut Database,
    username: &str,
    password: &str,
    role: &str,
    token: &str,
) -> (r: Result<i64, AppError>)
    requires
        old(db)@.wf(),
    ensures
        final(db)@.wf(),
        ((r matches Err(e) && e.kind == ErrorKind::Authentication) && final(db)@ == old(db)@)
            || register_user_outcome(
            old(db)@,
            final(db)@,
            token_claims(token@),
            username@,
            password@,
            role@,
            r,
        ),
{
    let claims = match verify_token(token) {
        Ok(c) => c,
        Err(e) => return Err(e),
    };
    register_user_as(db, &claims, username, password, role)
}

/// What fetching the caller's own account comes to: any valid token
/// may, and the caller's account must still exist.
pub open spec fn current_user_outcome(store: StoreV, caller: ClaimsV, r: Result<
    User,
    AppError,
>) -> bool {
    &&& !store.connected ==> (r matches Err(e) && e.kind == ErrorKind::StoreUnavailable)
    &&& store.connected ==> match r {
        Ok(u) => store.users.contains(u@) && u@.id == caller.sub,
        Err(e) => e.kind == ErrorKind::NotFound && !has_user_id(store.users, caller.sub),
    }
}

/// The caller's own account, looked up from the claims.
pub fn get_current_user_as(db: &Database, claims: &Claims) -> (r: Result<User, AppError>)
    requires
        db@.wf(),
    ensures
        current_user_outcome(db@, claims@, r),
{
    match db.get_user_by_id(claims.sub) {
        Err(e) => Err(e),
        Ok(None) => Err(AppError {
            kind: ErrorKind::NotFound,
            message: "User not found".to_string(),
        }),
        Ok(Some(u)) => Ok(u),
    }
}

/// The caller's own account, password hash included; serializing it
/// outward without the hash is the shell's concern.
pub fn get_current_user(db: &Database, token: &str) -> (r: Result<User, AppError>)
    requires
        db@.wf(),
    ensures
        (r matches Err(e) && e.kind == ErrorKind::Authentication) || current_user_outcome(
            db@,
            token_claims(token@),
            r,
        ),
{
    let claims = match verify_token(token) {
        Ok(c) => c,
        Err(e) => return Err(e),
    };
    get_current_user_as(db, &claims)
}

/// What listing all accounts comes to: admins only, newest first.
pub open spec fn list_users_outcome(store: StoreV, caller: ClaimsV, r: Result<
    Vec<User>,
    AppError,
>) -> bool {
    &&& !is_admin(caller) ==> (r matches Err(e) && e.kind == ErrorKind::Authorization)
    &&& is_admin(caller) && !store.connected ==> (r matches Err(e) && e.kind
        == ErrorKind::StoreUnavailable)
    &&& is_admin(caller) && store.connected ==> (r matches Ok(v) && v.deep_view()
        == store.users.reverse())
}

pub fn get_all_users_as(db: &Database, claims: &Claims) -> (r: Result<Vec<User>, AppError>)
    requires
        db@.wf(),
    ensures
        list_users_outcome(db@, claims@, r),
{
    if !claims_is_admin(claims) {
        return Err(AppError {
            kind: ErrorKind::Authorization,
            message: "Only admin can view all users".to_string(),
        });
    }
    db.get_all_users()
}

/// All accounts, newest-created-first; admins only.
pub fn get_all_users(db: &Database, token: &str) -> (r: Result<Vec<User>, AppError>)
    requires
        db@.wf(),
    ensures
        (r matches Err(e) && e.kind == ErrorKind::Authentication) || list_users_outcome(
            db@,
            token_claims(token@),
            r,
        ),
{
    let claims = match verify_token(token) {
        Ok(c) => c,
        Err(e) => return Err(e),
    };
    get_all_users_as(db, &claims)
}

/// What listing the accounts of one role comes to: admins and
/// controllers may, and the result is the newest-first account list
/// narrowed to that role.
pub open spec fn role_selection_outcome(
    store: StoreV,
    caller: ClaimsV,
    role_text: Seq<char>,
    r: Result<Vec<User>, AppError>,
) -> bool {
    &&& !may_manage_cards(caller) ==> (r matches Err(e) && e.kind == ErrorKind::Authorization)
    &&& may_manage_cards(caller) && !store.connected ==> (r matches Err(e) && e.kind
        == ErrorKind::StoreUnavailable)
    &&& may_manage_cards(caller) && store.connected ==> (r matches Ok(v) && v.deep_view()
        == store.users.reverse().filter(role_pred(role_text)))
}

/// Keeps only the accounts of one role, preserving order.
#[verifier::loop_isolation(false)]
fn filter_users_by_role(users: &Vec<User>, role: &str) -> (r: Vec<User>)
    ensures
        r.deep_view() == users.deep_view().filter(role_pred(role@)),
{
    let ghost pred = role_pred(role@);
    let n = users.len();
    let mut out: Vec<User> = Vec::new();
    let mut i: usize = 0;
    while i < n
        invariant
            n == users.len(),
            i <= n,
            out.deep_view() == users.deep_view().subrange(0, i as int).filter(role_pred(role@)),
        decreases n - i,
    {
        let ghost prefix = users.deep_view().subrange(0, i as int);
        let ghost prev = out.deep_view();
        if str_eq(users[i].role.as_str(), role) {
            out.push(copy_user(&users[i]));
            proof {
                assert(out.deep_view() =~= prev.push(users.deep_view()[i as int]));
            }
        }
        proof {
            assert(users.deep_view().subrange(0, i + 1) =~= prefix + seq![
                users.deep_view()[i as int],
            ]);
            lemma_filter_one_more(prefix, users.deep_view()[i as int], pred);
        }
        i += 1;
    }
    proof {
        assert(users.deep_view().subrange(0, n as int) =~= users.deep_view());
    }
    out
}

pub fn get_users_for_executor_selection_as(db: &Database, claims: &Claims) -> (r: Result<
    Vec<User>,
    AppError,
>)
    requires
        db@.wf(),
    ensures
        role_selection_outcome(db@, claims@, "user"@, r),
{
    if !claims_may_manage_cards(claims) {
        return Err(AppError {
            kind: ErrorKind::Authorization,
            message: "Only admin or controller can select executors".to_string(),
        });
    }
    let all = match db.get_all_users() {
        Err(e) => return Err(e),
        Ok(v) => v,
    };
    Ok(filter_users_by_role(&all, "user"))
}

/// The accounts a card's executor may be picked from: role "user".
pub fn get_users_for_executor_selection(db: &Database, token: &str) -> (r: Result<
    Vec<User>,
    AppError,
>)
    requires
        db@.wf(),
    ensures
        (r matches Err(e) && e.kind == ErrorKind::Authentication) || role_selection_outcome(
            db@,
            token_claims(token@),
            "user"@,
            r,
        ),
{
    let claims = match verify_token(token) {
        Ok(c) => c,
        Err(e) => return Err(e),
    };
    get_users_for_executor_selection_as(db, &claims)
}

pub fn get_users_for_controller_selection_as(db: &Database, claims: &Claims) -> (r: Result<
    Vec<User>,
    AppError,
>)
    requires
        db@.wf(),
    ensures
        role_selection_outcome(db@, claims@, "controller"@, r),
{
    if !claims_may_manage_cards(claims) {
        return Err(AppError {
            kind: ErrorKind::Authorization,
            message: "Only admin or controller can select controllers".to_string(),
        });
    }
    let all = match db.get_all_users() {
        Err(e) => return Err(e),
        Ok(v) => v,
    };
    Ok(filter_users_by_role(&all, "controller"))
}

/// The accounts a card's controller may be picked from: role
/// "controller".
pub fn get_users_for_controller_selection(db: &Database, token: &str) -> (r: Result<
    Vec<User>,
    AppError,
>)
    requires
        db@.wf(),
    ensures
        (r matches Err(e) && e.kind == ErrorKind::Authentication) || role_selection_outcome(
            db@,
            token_claims(token@),
            "controller"@,
            r,
        ),
{
    let claims = match verify_token(token) {
        Ok(c) => c,
        Err(e) => return Err(e),
    };
    get_users_for_controller_selection_as(db, &claims)
}

/// What rewriting an account comes to: admins only; the role must be
/// valid, the account present, and the new username free.
pub open spec fn update_user_outcome(
    pre: StoreV,
    post: StoreV,
    caller: ClaimsV,
    id: int,
    username: Seq<char>,
    role: Seq<char>,
    r: Result<usize, AppError>,
) -> bool {
    &&& r is Err ==> post == pre
    &&& !is_admin(caller) ==> (r matches Err(e) && e.kind == ErrorKind::Authorization)
    &&& is_admin(caller) && !valid_role(role) ==> (r matches Err(e) && e.kind
        == ErrorKind::Validation)
    &&& is_admin(caller) && valid_role(role) && !pre.connected ==> (r matches Err(e) && e.kind
        == ErrorKind::StoreUnavailable)
    &&& is_admin(caller) && valid_role(role) && pre.connected && !has_user_id(pre.users, id) ==> (
    r matches Err(e) && e.kind == ErrorKind::NotFound)
    &&& is_admin(caller) && valid_role(role) && pre.connected && has_user_id(pre.users, id)
        && username_taken_by_other(pre.users, username, id) ==> (r matches Err(e) && e.kind
        == ErrorKind::Conflict)
    &&& is_admin(caller) && valid_role(role) && pre.connected && has_user_id(pre.users, id)
        && !username_taken_by_other(pre.users, username, id) ==> {
        &&& r matches Ok(n) && n == 1
        &&& exists|i: int|
            0 <= i < pre.users.len() && (#[trigger] pre.users[i]).id == id && post.users
                == pre.users.update(
                i,
                UserV {
                    id,
                    username,
                    password_hash: pre.users[i].password_hash,
                    role,
                    created_at: pre.users[i].created_at,
                },
            )
        &&& post.cards == pre.cards
        &&& post.connected == pre.connected
        &&& post.path == pre.path
        &&& post.next_user_id == pre.next_user_id
        &&& post.next_card_id == pre.next_card_id
    }
}

/// Rewrites an account's username and role for the caller the claims
/// describe.
pub fn update_user_as(
    db: &mut Database,
    claims: &Claims,
    id: i64,
    username: &str,
    role: &str,
) -> (r: Result<usize, AppError>)
    requires
        old(db)@.wf(),
    ensures
        final(db)@.wf(),
        update_user_outcome(old(db)@, final(db)@, claims@, id as int, username@, role@, r),
{
    if !claims_is_admin(claims) {
        return Err(AppError {
            kind: ErrorKind::Authorization,
            message: "Only admin can update users".to_string(),
        });
    }
    if UserRole::from_str(role).is_none() {
        return Err(AppError { kind: ErrorKind::Validation, message: "Invalid role".to_string() });
    }
    let existing = match db.get_user_by_id(id) {
        Err(e) => return Err(e),
        Ok(o) => o,
    };
    if existing.is_none() {
        return Err(AppError { kind: ErrorKind::NotFound, message: "User not found".to_string() });
    }
    proof {
        let u = existing->Some_0;
        let j = choose|j: int| 0 <= j < db@.users.len() && db@.users[j] == u@;
        assert(db@.users[j].id == id as int);
        assert(has_user_id(db@.users, id as int));
    }
    let by_name = match db.get_user_by_username(username) {
        Err(e) => return Err(e),
        Ok(o) => o,
    };
    if let Some(u) = by_name {
        if u.id != id {
            proof {
                let j = choose|j: int| 0 <= j < db@.users.len() && db@.users[j] == u@;
                assert(db@.users[j].username == username@ && db@.users[j].id != id as int);
                assert(username_taken_by_other(db@.users, username@, id as int));
            }
            return Err(AppError {
                kind: ErrorKind::Conflict,
                message: "Username already exists".to_string(),
            });
        }
    }
    db.update_user(id, username, role)
}

/// Rewrites an account's username and role; admins only.
pub fn update_user(
    db: &mut Database,
    id: i64,
    username: &str,
    role: &str,
    token: &str,
) -> (r: Result<usize, AppError>)
    requires
        old(db)@.wf(),
    ensures
        final(db)@.wf(),
        ((r matches Err(e) && e.kind == ErrorKind::Authentication) && final(db)@ == old(db)@)
            || update_user_outcome(
            old(db)@,
            final(db)@,
            token_claims(token@),
            id as int,
            username@,
            role@,
            r,
        ),
{
    let claims = match verify_token(token) {
        Ok(c) => c,
        Err(e) => return Err(e),
    };
    update_user_as(db, &claims, id, username, role)
}

/// What deleting an account comes to: admins only, the account must
/// exist, and deletion does not cascade — cards that referenced the
/// account keep their now-dangling reference.
pub open spec fn delete_user_outcome(
    pre: StoreV,
    post: StoreV,
    caller: ClaimsV,
    id: int,
    r: Result<usize, AppError>,
) -> bool {
    &&& r is Err ==> post == pre
    &&& post.cards == pre.cards
    &&& !is_admin(caller) ==> (r matches Err(e) && e.kind == ErrorKind::Authorization)
    &&& is_admin(caller) && !pre.connected ==> (r matches Err(e) && e.kind
        == ErrorKind::StoreUnavailable)
    &&& is_admin(caller) && pre.connected && !has_user_id(pre.users, id) ==> (r matches Err(e)
        && e.kind == ErrorKind::NotFound)
    &&& is_admin(caller) && pre.connected && has_user_id(pre.users, id) ==> {
        &&& r matches Ok(n) && n == 1
        &&& exists|i: int|
            0 <= i < pre.users.len() && (#[trigger] pre.users[i]).id == id && post.users
                == pre.users.remove(i)
        &&& !has_user_id(post.users, id)
        &&& post.connected == pre.connected
        &&& post.path == pre.path
        &&& post.next_user_id == pre.next_user_id
        &&& post.next_card_id == pre.next_card_id
    }
}

/// Deletes an account for the caller the claims describe.
pub fn delete_user_as(db: &mut Database, claims: &Claims, id: i64) -> (r: Result<usize, AppError>)
    requires
        old(db)@.wf(),
    ensures
        final(db)@.wf(),
        delete_user_outcome(old(db)@, final(db)@, claims@, id as int, r),
{
    if !claims_is_admin(claims) {
        return Err(AppError {
            kind: ErrorKind::Authorization,
            message: "Only admin can delete users".to_string(),
        });
    }
    let existing = match db.get_user_by_id(id) {
        Err(e) => return Err(e),
        Ok(o) => o,
    };
    if existing.is_none() {
        return Err(AppError { kind: ErrorKind::NotFound, message: "User not found".to_string() });
    }
    proof {
        let u = existing->Some_0;
        let j = choose|j: int| 0 <= j < db@.users.len() && db@.users[j] == u@;
        assert(db@.users[j].id == id as int);
        assert(has_user_id(db@.users, id as int));
    }
    db.delete_user(id)
}

/// Deletes an account; admins only. No cascade: cards keep their
/// references.
pub fn delete_user(db: &mut Database, id: i64, token: &str) -> (r: Result<usize, AppError>)
    requires
        old(db)@.wf(),
    ensures
        final(db)@.wf(),
        ((r matches Err(e) && e.kind == ErrorKind::Authentication) && final(db)@ == old(db)@)
            || delete_user_outcome(old(db)@, final(db)@, token_claims(token@), id as int, r),
{
    let claims = match verify_token(token) {
        Ok(c) => c,
        Err(e) => return Err(e),
    };
    delete_user_as(db, &claims, id)
}

/// What changing an account's password comes to: admins only, at
/// least 6 characters, and the account must exist.
pub open spec fn change_password_outcome(
    pre: StoreV,
    post: StoreV,
    caller: ClaimsV,
    id: int,
    password: Seq<char>,
    r: Result<usize, AppError>,
) -> bool {
    &&& r is Err ==> post == pre
    &&& !is_admin(caller) ==> (r matches Err(e) && e.kind == ErrorKind::Authorization)
    &&& is_admin(caller) && password.len() < 6 ==> (r matches Err(e) && e.kind
        == ErrorKind::Validation)
    &&& is_admin(caller) && password.len() >= 6 ==> {
        &&& !pre.connected ==> (r matches Err(e) && e.kind == ErrorKind::StoreUnavailable)
        &&& pre.connected && !has_user_id(pre.users, id) ==> (r matches Err(e) && e.kind
            == ErrorKind::NotFound)
        &&& pre.connected && has_user_id(pre.users, id) ==> (r is Ok || (r matches Err(e)
            && e.kind == ErrorKind::Internal))
        &&& r matches Ok(n) ==> {
            &&& n == 1
            &&& pre.connected
            &&& exists|h: Seq<char>|
                #[trigger] bcrypt_matches(password, h) && (exists|i: int|
                    0 <= i < pre.users.len() && (#[trigger] pre.users[i]).id == id && post.users
                        == pre.users.update(
                        i,
                        UserV {
                            id,
                            username: pre.users[i].username,
                            password_hash: h,
                            role: pre.users[i].role,
                            created_at: pre.users[i].created_at,
                        },
                    ))
            &&& post.cards == pre.cards
            &&& post.connected == pre.connected
            &&& post.path == pre.path
            &&& post.next_user_id == pre.next_user_id
            &&& post.next_card_id == pre.next_card_id
        }
    }
}

/// Replaces an account's password for the caller the claims describe.
pub fn change_user_password_as(
    db: &mut Database,
    claims: &Claims,
    id: i64,
    new_password: &str,
) -> (r: Result<usize, AppError>)
    requires
        old(db)@.wf(),
    ensures
        final(db)@.wf(),
        change_password_outcome(old(db)@, final(db)@, claims@, id as int, new_password@, r),
{
    if !claims_is_admin(claims) {
        return Err(AppError {
            kind: ErrorKind::Authorization,
            message: "Only admin can change user passwords".to_string(),
        });
    }
    if new_password.unicode_len() < 6 {
        return Err(AppError {
            kind: ErrorKind::Validation,
            message: "Password must be at least 6 characters long".to_string(),
        });
    }
    // The account lookup comes before the hashing work, so a missing
    // account is always reported as not found, never masked by a
    // hashing failure.
    let existing = match db.get_user_by_id(id) {
        Err(e) => return Err(e),
        Ok(o) => o,
    };
    if existing.is_none() {
        return Err(AppError { kind: ErrorKind::NotFound, message: "User not found".to_string() });
    }
    proof {
        let u = existing->Some_0;
        let j = choose|j: int| 0 <= j < db@.users.len() && db@.users[j] == u@;
        assert(db@.users[j].id == id as int);
        assert(has_user_id(db@.users, id as int));
    }
    let password_hash = match hash_password(new_password) {
        Err(e) => return Err(e),
        Ok(h) => h,
    };
    db.update_user_password(id, password_hash.as_str())
}

/// Replaces an account's password; admins only.
pub fn change_user_password(db: &mut Database, id: i64, new_password: &str, token: &str) -> (r:
    Result<usize, AppError>)
    requires
        old(db)@.wf(),
    ensures
        final(db)@.wf(),
        ((r matches Err(e) && e.kind == ErrorKind::Authentication) && final(db)@ == old(db)@)
            || change_password_outcome(
            old(db)@,
            final(db)@,
            token_claims(token@),
            id as int,
            new_password@,
            r,
        ),
{
    let claims = match verify_token(token) {
        Ok(c) => c,
        Err(e) => return Err(e),
    };
    change_user_password_as(db, &claims, id, new_password)
}

/// The account the executor reference names exists and has role
/// "user", as card writes demand.
pub open spec fn executor_is_user(users: Seq<UserV>, ex: int) -> bool {
    exists|i: int|
        0 <= i < users.len() && (#[trigger] users[i]).id == ex && users[i].role == "user"@
}

/// The account the executor reference names exists but has some other
/// role: the write is rejected as invalid.
pub open spec fn executor_role_wrong(users: Seq<UserV>, ex: int) -> bool {
    exists|i: int|
        0 <= i < users.len() && (#[trigger] users[i]).id == ex && users[i].role != "user"@
}

/// A supplied controller reference resolves to an account of some
/// role other than "controller". A reference that resolves to no
/// account at all is deliberately tolerated: probing an optional
/// reference swallows the row-not-found case.
pub open spec fn controller_ref_bad(users: Seq<UserV>, c: Option<int>) -> bool {
    match c {
        Some(cid) => exists|i: int|
            0 <= i < users.len() && (#[trigger] users[i]).id == cid && users[i].role
                != "controller"@,
        None => false,
    }
}

/// The next suggested card number for a year; no token is required.
pub fn get_next_card_number(db: &Database, year: i32) -> (r: Result<i32, AppError>)
    requires
        db@.wf(),
    ensures
        !db@.connected ==> (r matches Err(e) && e.kind == ErrorKind::StoreUnavailable),
        db@.connected ==> match r {
            Ok(n) => {
                &&& !has_card_for_year(db@.cards, year as int) ==> n == 1
                &&& has_card_for_year(db@.cards, year as int) ==> is_max_card_number(
                    db@.cards,
                    year as int,
                    n - 1,
                )
            },
            Err(e) => e.kind == ErrorKind::Internal,
        },
{
    db.get_next_card_number(year)
}

/// What creating a card comes to, for a given caller: admins and
/// controllers only; the executor reference must resolve to a "user"
/// account, whose username is copied onto the card as its display
/// name; a supplied controller reference must not resolve to a
/// non-"controller" account; the (year, card_number) pair must be
/// free.
pub open spec fn create_card_outcome(
    pre: StoreV,
    post: StoreV,
    caller: ClaimsV,
    card_number: int,
    year: int,
    executor_user_id: int,
    reporter: Seq<char>,
    summary: Seq<char>,
    document_reference: Seq<char>,
    return_to: Option<Seq<char>>,
    execution_deadline: Option<Seq<char>>,
    execution_period_type: Option<Seq<char>>,
    extended_deadline: Option<Seq<char>>,
    resolution: Option<Seq<char>>,
    department: Option<Seq<char>>,
    controller: Option<Seq<char>>,
    controller_user_id: Option<int>,
    r: Result<i64, AppError>,
) -> bool {
    &&& r is Err ==> post == pre
    &&& !may_manage_cards(caller) ==> (r matches Err(e) && e.kind == ErrorKind::Authorization)
    &&& may_manage_cards(caller) && !pre.connected ==> (r matches Err(e) && e.kind
        == ErrorKind::StoreUnavailable)
    &&& may_manage_cards(caller) && pre.connected && !has_user_id(pre.users, executor_user_id)
        ==> (r matches Err(e) && e.kind == ErrorKind::NotFound)
    &&& may_manage_cards(caller) && pre.connected && executor_role_wrong(
        pre.users,
        executor_user_id,
    ) ==> (r matches Err(e) && e.kind == ErrorKind::Validation)
    &&& may_manage_cards(caller) && pre.connected && executor_is_user(pre.users, executor_user_id)
        && controller_ref_bad(pre.users, controller_user_id) ==> (r matches Err(e) && e.kind
        == ErrorKind::Validation)
    &&& may_manage_cards(caller) && pre.connected && executor_is_user(pre.users, executor_user_id)
        && !controller_ref_bad(pre.users, controller_user_id) && has_card_key(
        pre.cards,
        year,
        card_number,
    ) ==> (r matches Err(e) && e.kind == ErrorKind::Conflict)
    &&& may_manage_cards(caller) && pre.connected && executor_is_user(pre.users, executor_user_id)
        && !controller_ref_bad(pre.users, controller_user_id) && !has_card_key(
        pre.cards,
        year,
        card_number,
    ) && pre.next_card_id == i64::MAX ==> (r matches Err(e) && e.kind == ErrorKind::Internal)
    &&& may_manage_cards(caller) && pre.connected && executor_is_user(pre.users, executor_user_id)
        && !controller_ref_bad(pre.users, controller_user_id) && !has_card_key(
        pre.cards,
        year,
        card_number,
    ) && pre.next_card_id < i64::MAX ==> {
        &&& r matches Ok(id) && id as int == pre.next_card_id
        &&& post.next_card_id == pre.next_card_id + 1
        &&& post.users == pre.users
        &&& post.connected == pre.connected
        &&& post.path == pre.path
        &&& post.next_user_id == pre.next_user_id
        &&& exists|e: int|
            0 <= e < pre.users.len() && (#[trigger] pre.users[e]).id == executor_user_id
                && pre.users[e].role == "user"@ && (exists|ts: Seq<char>, k: int|
                0 <= k <= pre.cards.len() && post.cards == #[trigger] pre.cards.insert(
                    k,
                    (CardRowV {
                        creator_user_id: Some(caller.sub),
                        card: (CardV {
                            id: pre.next_card_id,
                            card_number,
                            year,
                            executor: pre.users[e].username,
                            reporter,
                            summary,
                            document_reference,
                            executor_user_id: Some(executor_user_id),
                            created_at: ts,
                            return_to,
                            execution_deadline,
                            execution_period_type,
                            extended_deadline,
                            resolution,
                            department,
                            controller,
                            controller_user_id,
                        }),
                    }),
                ))
    }
}

/// Creates a card on behalf of the caller the claims describe; the
/// caller's account id is recorded as the creating-account reference.
pub fn create_control_card_as(
    db: &mut Database,
    claims: &Claims,
    card_number: i32,
    year: i32,
    executor_user_id: i64,
    reporter: &str,
    summary: &str,
    document_reference: &str,
    return_to: Option<&str>,
    execution_deadline: Option<&str>,
    execution_period_type: Option<&str>,
    extended_deadline: Option<&str>,
    resolution: Option<&str>,
    department: Option<&str>,
    controller: Option<&str>,
    controller_user_id: Option<i64>,
) -> (r: Result<i64, AppError>)
    requires
        old(db)@.wf(),
    ensures
        final(db)@.wf(),
        create_card_outcome(
            old(db)@,
            final(db)@,
            claims@,
            card_number as int,
            year as int,
            executor_user_id as int,
            reporter@,
            summary@,
            document_reference@,
            opt_str_text(return_to),
            opt_str_text(execution_deadline),
            opt_str_text(execution_period_type),
            opt_str_text(extended_deadline),
            opt_str_text(resolution),
            opt_str_text(department),
            opt_str_text(controller),
            opt_int(controller_user_id),
            r,
        ),
{
    if !claims_may_manage_cards(claims) {
        return Err(AppError {
            kind: ErrorKind::Authorization,
            message: "Only admin or controller can create control cards".to_string(),
        });
    }
    let executor_user = match db.get_user_by_id(executor_user_id) {
        Err(e) => return Err(e),
        Ok(o) => o,
    };
    let executor_user = match executor_user {
        Some(u) => u,
        None => {
            return Err(AppError {
                kind: ErrorKind::NotFound,
                message: "Executor user not found".to_string(),
            });
        },
    };
    let ghost ei = choose|j: int|
        0 <= j < db@.users.len() && db@.users[j] == executor_user@;
    proof {
        assert(db@.users[ei].id == executor_user_id as int);
    }
    if !str_eq(executor_user.role.as_str(), "user") {
        proof {
            assert(db@.users[ei].role != "user"@);
        }
        return Err(AppError {
            kind: ErrorKind::Validation,
            message: "Executor must be a user with role 'user'".to_string(),
        });
    }
    proof {
        assert(db@.users[ei].role == "user"@);
        assert(executor_is_user(db@.users, executor_user_id as int));
        assert forall|j: int|
            0 <= j < db@.users.len() && (#[trigger] db@.users[j]).id == executor_user_id as int
                implies db@.users[j] == db@.users[ei] by {
            if j != ei {
                assert(db@.users[j].id != db@.users[ei].id);
            }
        }
    }
    if let Some(cid) = controller_user_id {
        let controller_user = match db.get_user_by_id(cid) {
            Err(e) => return Err(e),
            Ok(o) => o,
        };
        if let Some(cu) = controller_user {
            let ghost ci = choose|j: int| 0 <= j < db@.users.len() && db@.users[j] == cu@;
            proof {
                assert(db@.users[ci].id == cid as int);
            }
            if !str_eq(cu.role.as_str(), "controller") {
                proof {
                    assert(db@.users[ci].role != "controller"@);
                }
                return Err(AppError {
                    kind: ErrorKind::Validation,
                    message: "Controller must be a user with role 'controller'".to_string(),
                });
            }
            proof {
                assert forall|j: int|
                    0 <= j < db@.users.len() && (#[trigger] db@.users[j]).id == cid as int implies
                    db@.users[j].role == "controller"@ by {
                    if j != ci {
                        assert(db@.users[j].id != db@.users[ci].id);
                    }
                }
            }
        }
    }
    proof {
        assert(!controller_ref_bad(db@.users, opt_int(controller_user_id)));
    }
    let ts = current_datetime_text();
    let result = db.create_control_card(
        card_number,
        year,
        executor_user.username.as_str(),
        reporter,
        summary,
        document_reference,
        Some(claims.sub),
        Some(executor_user_id),
        return_to,
        execution_deadline,
        execution_period_type,
        extended_deadline,
        resolution,
        department,
        controller,
        controller_user_id,
        ts.as_str(),
    );
    proof {
        if result is Ok {
            let k = choose|k: int|
                0 <= k <= old(db)@.cards.len() && db@.cards == #[trigger] old(db)@.cards.insert(
                    k,
                    (CardRowV {
                        creator_user_id: opt_int(Some(claims.sub)),
                        card: (CardV {
                            id: old(db)@.next_card_id,
                            card_number: card_number as int,
                            year: year as int,
                            executor: executor_user.username@,
                            reporter: reporter@,
                            summary: summary@,
                            document_reference: document_reference@,
                            executor_user_id: opt_int(Some(executor_user_id)),
                            created_at: ts@,
                            return_to: opt_str_text(return_to),
                            execution_deadline: opt_str_text(execution_deadline),
                            execution_period_type: opt_str_text(execution_period_type),
                            extended_deadline: opt_str_text(extended_deadline),
                            resolution: opt_str_text(resolution),
                            department: opt_str_text(department),
                            controller: opt_str_text(controller),
                            controller_user_id: opt_int(controller_user_id),
                        }),
                    }),
                );
            assert(db@.cards == old(db)@.cards.insert(
                k,
                (CardRowV {
                    creator_user_id: Some(claims@.sub),
                    card: (CardV {
                        id: old(db)@.next_card_id,
                        card_number: card_number as int,
                        year: year as int,
                        executor: old(db)@.users[ei].username,
                        reporter: reporter@,
                        summary: summary@,
                        document_reference: document_reference@,
                        executor_user_id: Some(executor_user_id as int),
                        created_at: ts@,
                        return_to: opt_str_text(return_to),
                        execution_deadline: opt_str_text(execution_deadline),
                        execution_period_type: opt_str_text(execution_period_type),
                        extended_deadline: opt_str_text(extended_deadline),
                        resolution: opt_str_text(resolution),
                        department: opt_str_text(department),
                        controller: opt_str_text(controller),
                        controller_user_id: opt_int(controller_user_id),
                    }),
                }),
            ));
        }
    }
    result
}

/// Creates a card; the caller is whoever the bearer token names.
pub fn create_control_card(
    db: &mut Database,
    card_number: i32,
    year: i32,
    executor_user_id: i64,
    reporter: &str,
    summary: &str,
    document_reference: &str,
    return_to: Option<&str>,
    execution_deadline: Option<&str>,
    execution_period_type: Option<&str>,
    extended_deadline: Option<&str>,
    resolution: Option<&str>,
    department: Option<&str>,
    controller: Option<&str>,
    controller_user_id: Option<i64>,
    token: &str,
) -> (r: Result<i64, AppError>)
    requires
        old(db)@.wf(),
    ensures
        final(db)@.wf(),
        ((r matches Err(e) && e.kind == ErrorKind::Authentication) && final(db)@ == old(db)@)
            || create_card_outcome(
            old(db)@,
            final(db)@,
            token_claims(token@),
            card_number as int,
            year as int,
            executor_user_id as int,
            reporter@,
            summary@,
            document_reference@,
            opt_str_text(return_to),
            opt_str_text(execution_deadline),
            opt_str_text(execution_period_type),
            opt_str_text(extended_deadline),
            opt_str_text(resolution),
            opt_str_text(department),
            opt_str_text(controller),
            opt_int(controller_user_id),
            r,
        ),
{
    let claims = match verify_token(token) {
        Ok(c) => c,
        Err(e) => return Err(e),
    };
    create_control_card_as(
        db,
        &claims,
        card_number,
        year,
        executor_user_id,
        reporter,
        summary,
        document_reference,
        return_to,
        execution_deadline,
        execution_period_type,
        extended_deadline,
        resolution,
        department,
        controller,
        controller_user_id,
    )
}

/// What reading one card comes to: admins and controllers see any
/// card; a "user" caller sees a card only as its executor, is denied
/// a card with another executor, and cannot reach a card with no
/// executor at all.
pub open spec fn get_card_outcome(store: StoreV, caller: ClaimsV, id: int, r: Result<
    ControlCard,
    AppError,
>) -> bool {
    &&& !store.connected ==> (r matches Err(e) && e.kind == ErrorKind::StoreUnavailable)
    &&& store.connected && !has_card_id(store.cards, id) ==> (r matches Err(e) && e.kind
        == ErrorKind::NotFound)
    &&& store.connected && may_manage_cards(caller) ==> match r {
        Ok(c) => exists|i: int|
            0 <= i < store.cards.len() && (#[trigger] store.cards[i]).card == c@ && c@.id == id,
        Err(e) => e.kind == ErrorKind::NotFound && !has_card_id(store.cards, id),
    }
    &&& store.connected && !may_manage_cards(caller) ==> {
        &&& r matches Ok(c) ==> exists|i: int|
            0 <= i < store.cards.len() && (#[trigger] store.cards[i]).card == c@ && c@.id == id
                && c@.executor_user_id == Some(caller.sub)
        &&& forall|i: int|
            0 <= i < store.cards.len() && (#[trigger] store.cards[i]).card.id == id
                ==> match store.cards[i].card.executor_user_id {
                Some(ex) => if ex == caller.sub {
                    r is Ok
                } else {
                    r matches Err(e) && e.kind == ErrorKind::Authorization
                },
                None => r matches Err(e) && e.kind == ErrorKind::NotFound,
            }
    }
}

/// Reads one card for the caller the claims describe.
pub fn get_control_card_as(db: &Database, claims: &Claims, id: i64) -> (r: Result<
    ControlCard,
    AppError,
>)
    requires
        db@.wf(),
    ensures
        get_card_outcome(db@, claims@, id as int, r),
{
    let card = match db.get_control_card(id) {
        Err(e) => return Err(e),
        Ok(c) => c,
    };
    let ghost ci = choose|i: int|
        0 <= i < db@.cards.len() && db@.cards[i].card == card@ && card@.id == id as int;
    proof {
        assert(has_card_id(db@.cards, id as int));
        assert forall|i: int|
            0 <= i < db@.cards.len() && (#[trigger] db@.cards[i]).card.id == id as int implies
            db@.cards[i] == db@.cards[ci] by {
            if i != ci {
                assert(db@.cards[i].card.id != db@.cards[ci].card.id);
            }
        }
    }
    if claims_may_manage_cards(claims) {
        return Ok(card);
    }
    match card.executor_user_id {
        Some(ex) => {
            if ex == claims.sub {
                Ok(card)
            } else {
                Err(AppError {
                    kind: ErrorKind::Authorization,
                    message: "Access denied: you can only view cards where you are the executor".to_string(),
                })
            }
        },
        None => Err(AppError {
            kind: ErrorKind::NotFound,
            message: "Card not found or has no executor assigned".to_string(),
        }),
    }
}

/// Reads one card; role-scoped as the policy table says.
pub fn get_control_card(db: &Database, id: i64, token: &str) -> (r: Result<ControlCard, AppError>)
    requires
        db@.wf(),
    ensures
        (r matches Err(e) && e.kind == ErrorKind::Authentication) || get_card_outcome(
            db@,
            token_claims(token@),
            id as int,
            r,
        ),
{
    let claims = match verify_token(token) {
        Ok(c) => c,
        Err(e) => return Err(e),
    };
    get_control_card_as(db, &claims, id)
}

/// What listing cards comes to: admins and controllers get every
/// card; a "user" caller gets exactly the cards whose executor
/// reference is their own account, all newest first.
pub open spec fn list_cards_outcome(store: StoreV, caller: ClaimsV, r: Result<
    Vec<ControlCard>,
    AppError,
>) -> bool {
    &&& !store.connected ==> (r matches Err(e) && e.kind == ErrorKind::StoreUnavailable)
    &&& store.connected ==> (r matches Ok(v) && v.deep_view() == (if may_manage_cards(caller) {
        cards_public(store.cards)
    } else {
        cards_public(store.cards).filter(executor_pred(caller.sub))
    }))
}

/// Lists cards for the caller the claims describe.
pub fn get_all_control_cards_as(db: &Database, claims: &Claims) -> (r: Result<
    Vec<ControlCard>,
    AppError,
>)
    requires
        db@.wf(),
    ensures
        list_cards_outcome(db@, claims@, r),
{
    if claims_may_manage_cards(claims) {
        db.get_all_control_cards()
    } else {
        db.get_control_cards_by_executor_id(claims.sub)
    }
}

/// Lists cards, role-scoped, newest first.
pub fn get_all_control_cards(db: &Database, token: &str) -> (r: Result<Vec<ControlCard>, AppError>)
    requires
        db@.wf(),
    ensures
        (r matches Err(e) && e.kind == ErrorKind::Authentication) || list_cards_outcome(
            db@,
            token_claims(token@),
            r,
        ),
{
    let claims = match verify_token(token) {
        Ok(c) => c,
        Err(e) => return Err(e),
    };
    get_all_control_cards_as(db, &claims)
}

/// What rewriting a card comes to: the same gates as creating one,
/// plus the card itself must exist; its id and creation time are
/// kept, every other field is overwritten in place.
pub open spec fn update_card_outcome(
    pre: StoreV,
    post: StoreV,
    caller: ClaimsV,
    id: int,
    card_number: int,
    year: int,
    executor_user_id: int,
    reporter: Seq<char>,
    summary: Seq<char>,
    document_reference: Seq<char>,
    return_to: Option<Seq<char>>,
    execution_deadline: Option<Seq<char>>,
    execution_period_type: Option<Seq<char>>,
    extended_deadline: Option<Seq<char>>,
    resolution: Option<Seq<char>>,
    department: Option<Seq<char>>,
    controller: Option<Seq<char>>,
    controller_user_id: Option<int>,
    r: Result<usize, AppError>,
) -> bool {
    &&& r is Err ==> post == pre
    &&& !may_manage_cards(caller) ==> (r matches Err(e) && e.kind == ErrorKind::Authorization)
    &&& may_manage_cards(caller) && !pre.connected ==> (r matches Err(e) && e.kind
        == ErrorKind::StoreUnavailable)
    &&& may_manage_cards(caller) && pre.connected && !has_user_id(pre.users, executor_user_id)
        ==> (r matches Err(e) && e.kind == ErrorKind::NotFound)
    &&& may_manage_cards(caller) && pre.connected && executor_role_wrong(
        pre.users,
        executor_user_id,
    ) ==> (r matches Err(e) && e.kind == ErrorKind::Validation)
    &&& may_manage_cards(caller) && pre.connected && executor_is_user(pre.users, executor_user_id)
        && controller_ref_bad(pre.users, controller_user_id) ==> (r matches Err(e) && e.kind
        == ErrorKind::Validation)
    &&& may_manage_cards(caller) && pre.connected && executor_is_user(pre.users, executor_user_id)
        && !controller_ref_bad(pre.users, controller_user_id) && !has_card_id(pre.cards, id) ==> (
    r matches Err(e) && e.kind == ErrorKind::NotFound)
    &&& may_manage_cards(caller) && pre.connected && executor_is_user(pre.users, executor_user_id)
        && !controller_ref_bad(pre.users, controller_user_id) && has_card_id(pre.cards, id)
        && card_key_taken_by_other(pre.cards, year, card_number, id) ==> (r matches Err(e)
        && e.kind == ErrorKind::Conflict)
    &&& may_manage_cards(caller) && pre.connected && executor_is_user(pre.users, executor_user_id)
        && !controller_ref_bad(pre.users, controller_user_id) && has_card_id(pre.cards, id)
        && !card_key_taken_by_other(pre.cards, year, card_number, id) ==> {
        &&& r matches Ok(n) && n == 1
        &&& post.users == pre.users
        &&& post.connected == pre.connected
        &&& post.path == pre.path
        &&& post.next_user_id == pre.next_user_id
        &&& post.next_card_id == pre.next_card_id
        &&& exists|e: int|
            0 <= e < pre.users.len() && (#[trigger] pre.users[e]).id == executor_user_id
                && pre.users[e].role == "user"@ && (exists|i: int|
                0 <= i < pre.cards.len() && (#[trigger] pre.cards[i]).card.id == id && (exists|
                    k: int,
                |
                    0 <= k <= pre.cards.len() - 1 && post.cards == #[trigger] pre.cards.remove(
                        i,
                    ).insert(
                        k,
                        (CardRowV {
                            creator_user_id: Some(caller.sub),
                            card: (CardV {
                                id,
                                card_number,
                                year,
                                executor: pre.users[e].username,
                                reporter,
                                summary,
                                document_reference,
                                executor_user_id: Some(executor_user_id),
                                created_at: pre.cards[i].card.created_at,
                                return_to,
                                execution_deadline,
                                execution_period_type,
                                extended_deadline,
                                resolution,
                                department,
                                controller,
                                controller_user_id,
                            }),
                        }),
                    )))
    }
}

/// Rewrites a card on behalf of the caller the claims describe.
pub fn update_control_card_as(
    db: &mut Database,
    claims: &Claims,
    id: i64,
    card_number: i32,
    year: i32,
    executor_user_id: i64,
    reporter: &str,
    summary: &str,
    document_reference: &str,
    return_to: Option<&str>,
    execution_deadline: Option<&str>,
    execution_period_type: Option<&str>,
    extended_deadline: Option<&str>,
    resolution: Option<&str>,
    department: Option<&str>,
    controller: Option<&str>,
    controller_user_id: Option<i64>,
) -> (r: Result<usize, AppError>)
    requires
        old(db)@.wf(),
    ensures
        final(db)@.wf(),
        update_card_outcome(
            old(db)@,
            final(db)@,
            claims@,
            id as int,
            card_number as int,
            year as int,
            executor_user_id as int,
            reporter@,
            summary@,
            document_reference@,
            opt_str_text(return_to),
            opt_str_text(execution_deadline),
            opt_str_text(execution_period_type),
            opt_str_text(extended_deadline),
            opt_str_text(resolution),
            opt_str_text(department),
            opt_str_text(controller),
            opt_int(controller_user_id),
            r,
        ),
{
    if !claims_may_manage_cards(claims) {
        return Err(AppError {
            kind: ErrorKind::Authorization,
            message: "Only admin or controller can update control cards".to_string(),
        });
    }
    let executor_user = match db.get_user_by_id(executor_user_id) {
        Err(e) => return Err(e),
        Ok(o) => o,
    };
    let executor_user = match executor_user {
        Some(u) => u,
        None => {
            return Err(AppError {
                kind: ErrorKind::NotFound,
                message: "Executor user not found".to_string(),
            });
        },
    };
    let ghost ei = choose|j: int|
        0 <= j < db@.users.len() && db@.users[j] == executor_user@;
    proof {
        assert(db@.users[ei].id == executor_user_id as int);
    }
    if !str_eq(executor_user.role.as_str(), "user") {
        proof {
            assert(db@.users[ei].role != "user"@);
        }
        return Err(AppError {
            kind: ErrorKind::Validation,
            message: "Executor must be a user with role 'user'".to_string(),
        });
    }
    proof {
        assert(db@.users[ei].role == "user"@);
        assert(executor_is_user(db@.users, executor_user_id as int));
        assert forall|j: int|
            0 <= j < db@.users.len() && (#[trigger] db@.users[j]).id == executor_user_id as int
                implies db@.users[j] == db@.users[ei] by {
            if j != ei {
                assert(db@.users[j].id != db@.users[ei].id);
            }
        }
    }
    if let Some(cid) = controller_user_id {
        let controller_user = match db.get_user_by_id(cid) {
            Err(e) => return Err(e),
            Ok(o) => o,
        };
        if let Some(cu) = controller_user {
            let ghost ci = choose|j: int| 0 <= j < db@.users.len() && db@.users[j] == cu@;
            proof {
                assert(db@.users[ci].id == cid as int);
            }
            if !str_eq(cu.role.as_str(), "controller") {
                proof {
                    assert(db@.users[ci].role != "controller"@);
                }
                return Err(AppError {
                    kind: ErrorKind::Validation,
                    message: "Controller must be a user with role 'controller'".to_string(),
                });
            }
            proof {
                assert forall|j: int|
                    0 <= j < db@.users.len() && (#[trigger] db@.users[j]).id == cid as int implies
                    db@.users[j].role == "controller"@ by {
                    if j != ci {
                        assert(db@.users[j].id != db@.users[ci].id);
                    }
                }
            }
        }
    }
    proof {
        assert(!controller_ref_bad(db@.users, opt_int(controller_user_id)));
    }
    let result = db.update_control_card(
        id,
        card_number,
        year,
        executor_user.username.as_str(),
        reporter,
        summary,
        document_reference,
        Some(claims.sub),
        Some(executor_user_id),
        return_to,
        execution_deadline,
        execution_period_type,
        extended_deadline,
        resolution,
        department,
        controller,
        controller_user_id,
    );
    proof {
        if result is Ok && has_card_id(old(db)@.cards, id as int) && !card_key_taken_by_other(
            old(db)@.cards,
            year as int,
            card_number as int,
            id as int,
        ) {
            let i = choose|i: int|
                0 <= i < old(db)@.cards.len() && (#[trigger] old(db)@.cards[i]).card.id
                    == id as int && (exists|k: int|
                    0 <= k <= old(db)@.cards.len() - 1 && db@.cards
                        == #[trigger] old(db)@.cards.remove(i).insert(
                        k,
                        (CardRowV {
                            creator_user_id: opt_int(Some(claims.sub)),
                            card: (CardV {
                                id: id as int,
                                card_number: card_number as int,
                                year: year as int,
                                executor: executor_user.username@,
                                reporter: reporter@,
                                summary: summary@,
                                document_reference: document_reference@,
                                executor_user_id: opt_int(Some(executor_user_id)),
                                created_at: old(db)@.cards[i].card.created_at,
                                return_to: opt_str_text(return_to),
                                execution_deadline: opt_str_text(execution_deadline),
                                execution_period_type: opt_str_text(execution_period_type),
                                extended_deadline: opt_str_text(extended_deadline),
                                resolution: opt_str_text(resolution),
                                department: opt_str_text(department),
                                controller: opt_str_text(controller),
                                controller_user_id: opt_int(controller_user_id),
                            }),
                        }),
                    ));
            let k = choose|k: int|
                0 <= k <= old(db)@.cards.len() - 1 && db@.cards
                    == #[trigger] old(db)@.cards.remove(i).insert(
                    k,
                    (CardRowV {
                        creator_user_id: opt_int(Some(claims.sub)),
                        card: (CardV {
                            id: id as int,
                            card_number: card_number as int,
                            year: year as int,
                            executor: executor_user.username@,
                            reporter: reporter@,
                            summary: summary@,
                            document_reference: document_reference@,
                            executor_user_id: opt_int(Some(executor_user_id)),
                            created_at: old(db)@.cards[i].card.created_at,
                            return_to: opt_str_text(return_to),
                            execution_deadline: opt_str_text(execution_deadline),
                            execution_period_type: opt_str_text(execution_period_type),
                            extended_deadline: opt_str_text(extended_deadline),
                            resolution: opt_str_text(resolution),
                            department: opt_str_text(department),
                            controller: opt_str_text(controller),
                            controller_user_id: opt_int(controller_user_id),
                        }),
                    }),
                );
            assert(db@.cards == old(db)@.cards.remove(i).insert(
                k,
                (CardRowV {
                    creator_user_id: Some(claims@.sub),
                    card: (CardV {
                        id: id as int,
                        card_number: card_number as int,
                        year: year as int,
                        executor: old(db)@.users[ei].username,
                        reporter: reporter@,
                        summary: summary@,
                        document_reference: document_reference@,
                        executor_user_id: Some(executor_user_id as int),
                        created_at: old(db)@.cards[i].card.created_at,
                        return_to: opt_str_text(return_to),
                        execution_deadline: opt_str_text(execution_deadline),
                        execution_period_type: opt_str_text(execution_period_type),
                        extended_deadline: opt_str_text(extended_deadline),
                        resolution: opt_str_text(resolution),
                        department: opt_str_text(department),
                        controller: opt_str_text(controller),
                        controller_user_id: opt_int(controller_user_id),
                    }),
                }),
            ));
        }
    }
    result
}

/// Rewrites a card; the caller is whoever the bearer token names.
pub fn update_control_card(
    db: &mut Database,
    id: i64,
    card_number: i32,
    year: i32,
    executor_user_id: i64,
    reporter: &str,
    summary: &str,
    document_reference: &str,
    return_to: Option<&str>,
    execution_deadline: Option<&str>,
    execution_period_type: Option<&str>,
    extended_deadline: Option<&str>,
    resolution: Option<&str>,
    department: Option<&str>,
    controller: Option<&str>,
    controller_user_id: Option<i64>,
    token: &str,
) -> (r: Result<usize, AppError>)
    requires
        old(db)@.wf(),
    ensures
        final(db)@.wf(),
        ((r matches Err(e) && e.kind == ErrorKind::Authentication) && final(db)@ == old(db)@)
            || update_card_outcome(
            old(db)@,
            final(db)@,
            token_claims(token@),
            id as int,
            card_number as int,
            year as int,
            executor_user_id as int,
            reporter@,
            summary@,
            document_reference@,
            opt_str_text(return_to),
            opt_str_text(execution_deadline),
            opt_str_text(execution_period_type),
            opt_str_text(extended_deadline),
            opt_str_text(resolution),
            opt_str_text(department),
            opt_str_text(controller),
            opt_int(controller_user_id),
            r,
        ),
{
    let claims = match verify_token(token) {
        Ok(c) => c,
        Err(e) => return Err(e),
    };
    update_control_card_as(
        db,
        &claims,
        id,
        card_number,
        year,
        executor_user_id,
        reporter,
        summary,
        document_reference,
        return_to,
        execution_deadline,
        execution_period_type,
        extended_deadline,
        resolution,
        department,
        controller,
        controller_user_id,
    )
}

/// What deleting a card comes to: admins and controllers only; the
/// result counts the rows affected, 0 for a missing id.
pub open spec fn delete_card_outcome(
    pre: StoreV,
    post: StoreV,
    caller: ClaimsV,
    id: int,
    r: Result<usize, AppError>,
) -> bool {
    &&& r is Err ==> post == pre
    &&& !may_manage_cards(caller) ==> (r matches Err(e) && e.kind == ErrorKind::Authorization)
    &&& may_manage_cards(caller) && !pre.connected ==> (r matches Err(e) && e.kind
        == ErrorKind::StoreUnavailable)
    &&& may_manage_cards(caller) && pre.connected && !has_card_id(pre.cards, id) ==> (r matches Ok(
        n,
    ) && n == 0) && post == pre
    &&& may_manage_cards(caller) && pre.connected && has_card_id(pre.cards, id) ==> {
        &&& r matches Ok(n) && n == 1
        &&& exists|i: int|
            0 <= i < pre.cards.len() && (#[trigger] pre.cards[i]).card.id == id && post.cards
                == pre.cards.remove(i)
        &&& !has_card_id(post.cards, id)
        &&& post.users == pre.users
        &&& post.connected == pre.connected
        &&& post.path == pre.path
        &&& post.next_user_id == pre.next_user_id
        &&& post.next_card_id == pre.next_card_id
    }
}

/// Deletes a card for the caller the claims describe.
pub fn delete_control_card_as(db: &mut Database, claims: &Claims, id: i64) -> (r: Result<
    usize,
    AppError,
>)
    requires
        old(db)@.wf(),
    ensures
        final(db)@.wf(),
        delete_card_outcome(old(db)@, final(db)@, claims@, id as int, r),
{
    if !claims_may_manage_cards(claims) {
        return Err(AppError {
            kind: ErrorKind::Authorization,
            message: "Only admin or controller can delete control cards".to_string(),
        });
    }
    db.delete_control_card(id)
}

/// Deletes a card; admins and controllers only.
pub fn delete_control_card(db: &mut Database, id: i64, token: &str) -> (r: Result<usize, AppError>)
    requires
        old(db)@.wf(),
    ensures
        final(db)@.wf(),
        ((r matches Err(e) && e.kind == ErrorKind::Authentication) && final(db)@ == old(db)@)
            || delete_card_outcome(old(db)@, final(db)@, token_claims(token@), id as int, r),
{
    let claims = match verify_token(token) {
        Ok(c) => c,
        Err(e) => return Err(e),
    };
    delete_control_card_as(db, &claims, id)
}

} // verus!
