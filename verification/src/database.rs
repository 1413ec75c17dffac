use vstd::prelude::*;

use crate::errors::{AppError, ErrorKind};
use crate::models::{copy_user, valid_role, User, UserRole, UserV};
use crate::text::str_eq;

verus! {

/// A control card: the primary tracked record. `executor` is a
/// denormalized display copy of the executor account's username, taken
/// at write time; it is not re-synced if that account is later renamed.
#[derive(Debug)]
pub struct ControlCard {
    pub id: i64,
    pub card_number: i32,
    pub year: i32,
    pub executor: String,
    pub reporter: String,
    pub summary: String,
    pub document_reference: String,
    pub executor_user_id: Option<i64>,
    pub created_at: String,
    pub return_to: Option<String>,
    pub execution_deadline: Option<String>,
    pub execution_period_type: Option<String>,
    pub extended_deadline: Option<String>,
    pub resolution: Option<String>,
    pub department: Option<String>,
    pub controller: Option<String>,
    pub controller_user_id: Option<i64>,
}

/// The mathematical content of a control card.
pub ghost struct CardV {
    pub id: int,
    pub card_number: int,
    pub year: int,
    pub executor: Seq<char>,
    pub reporter: Seq<char>,
    pub summary: Seq<char>,
    pub document_reference: Seq<char>,
    pub executor_user_id: Option<int>,
    pub created_at: Seq<char>,
    pub return_to: Option<Seq<char>>,
    pub execution_deadline: Option<Seq<char>>,
    pub execution_period_type: Option<Seq<char>>,
    pub extended_deadline: Option<Seq<char>>,
    pub resolution: Option<Seq<char>>,
    pub department: Option<Seq<char>>,
    pub controller: Option<Seq<char>>,
    pub controller_user_id: Option<int>,
}

/// The view of an optional stored string.
pub open spec fn opt_text(o: Option<String>) -> Option<Seq<char>> {
    match o {
        Some(s) => Some(s@),
        None => None,
    }
}

/// The view of an optional stored integer.
pub open spec fn opt_int(o: Option<i64>) -> Option<int> {
    match o {
        Some(v) => Some(v as int),
        None => None,
    }
}

impl View for ControlCard {
    type V = CardV;

    open spec fn view(&self) -> CardV {
        CardV {
            id: self.id as int,
            card_number: self.card_number as int,
            year: self.year as int,
            executor: self.executor@,
            reporter: self.reporter@,
            summary: self.summary@,
            document_reference: self.document_reference@,
            executor_user_id: opt_int(self.executor_user_id),
            created_at: self.created_at@,
            return_to: opt_text(self.return_to),
            execution_deadline: opt_text(self.execution_deadline),
            execution_period_type: opt_text(self.execution_period_type),
            extended_deadline: opt_text(self.extended_deadline),
            resolution: opt_text(self.resolution),
            department: opt_text(self.department),
            controller: opt_text(self.controller),
            controller_user_id: opt_int(self.controller_user_id),
        }
    }
}

impl DeepView for ControlCard {
    type V = CardV;

    open spec fn deep_view(&self) -> CardV {
        self.view()
    }
}

/// A stored row: the card together with the reference to the account
/// that created it. The creating-account reference is persisted but
/// never read back out through the query surface.
pub struct CardRow {
    pub creator_user_id: Option<i64>,
    pub card: ControlCard,
}

/// The mathematical content of a stored card row.
pub ghost struct CardRowV {
    pub creator_user_id: Option<int>,
    pub card: CardV,
}

impl View for CardRow {
    type V = CardRowV;

    open spec fn view(&self) -> CardRowV {
        CardRowV { creator_user_id: opt_int(self.creator_user_id), card: self.card@ }
    }
}

impl DeepView for CardRow {
    type V = CardRowV;

    open spec fn deep_view(&self) -> CardRowV {
        self.view()
    }
}

/// `a` sorts strictly before `b` in the newest-first card order:
/// descending by year, then descending by card number.
pub open spec fn card_above(a: CardV, b: CardV) -> bool {
    a.year > b.year || (a.year == b.year && a.card_number > b.card_number)
}

/// The stored cards stand in strictly descending (year, card_number)
/// order: newest first, and no two cards share the pair.
pub open spec fn sorted_cards(cards: Seq<CardRowV>) -> bool {
    forall|i: int, j: int| #![trigger cards[i], cards[j]]
        0 <= i < j < cards.len() ==> card_above(cards[i].card, cards[j].card)
}

/// No two stored cards share a store-assigned id.
pub open spec fn unique_card_ids(cards: Seq<CardRowV>) -> bool {
    forall|i: int, j: int| #![trigger cards[i], cards[j]]
        0 <= i < cards.len() && 0 <= j < cards.len() && i != j ==> cards[i].card.id
            != cards[j].card.id
}

/// The abstract state of the persistent store.
pub ghost struct StoreV {
    pub connected: bool,
    pub path: Option<Seq<char>>,
    pub users: Seq<UserV>,
    pub cards: Seq<CardRowV>,
    pub next_user_id: int,
    pub next_card_id: int,
}

impl StoreV {
    /// The store's invariant. Accounts are kept in creation order with
    /// strictly increasing store-assigned ids, unique usernames and
    /// valid roles; cards are kept in newest-first order, which makes
    /// the (year, card_number) pair unique; a disconnected store holds
    /// nothing.
    pub open spec fn wf(self) -> bool {
        &&& 1 <= self.next_user_id <= i64::MAX
        &&& 1 <= self.next_card_id <= i64::MAX
        &&& forall|i: int, j: int| #![trigger self.users[i], self.users[j]]
            0 <= i < j < self.users.len() ==> self.users[i].id < self.users[j].id
        &&& forall|i: int| #![trigger self.users[i]]
            0 <= i < self.users.len() ==> 1 <= self.users[i].id < self.next_user_id
        &&& forall|i: int, j: int| #![trigger self.users[i], self.users[j]]
            0 <= i < self.users.len() && 0 <= j < self.users.len() && i != j
                ==> self.users[i].username != self.users[j].username
        &&& forall|i: int| #![trigger self.users[i]]
            0 <= i < self.users.len() ==> valid_role(self.users[i].role)
        &&& sorted_cards(self.cards)
        &&& unique_card_ids(self.cards)
        &&& forall|i: int| #![trigger self.cards[i]]
            0 <= i < self.cards.len() ==> 1 <= self.cards[i].card.id < self.next_card_id
        &&& !self.connected ==> self.users.len() == 0 && self.cards.len() == 0 && self.path is None
        &&& self.connected ==> self.path is Some
    }
}

/// Whether some account carries the given id.
pub open spec fn has_user_id(users: Seq<UserV>, id: int) -> bool {
    exists|i: int| 0 <= i < users.len() && (#[trigger] users[i]).id == id
}

/// Whether some account carries the given username.
pub open spec fn has_username(users: Seq<UserV>, name: Seq<char>) -> bool {
    exists|i: int| 0 <= i < users.len() && (#[trigger] users[i]).username == name
}

/// Whether an account other than the one with the given id carries the
/// given username.
pub open spec fn username_taken_by_other(users: Seq<UserV>, name: Seq<char>, id: int) -> bool {
    exists|i: int|
        0 <= i < users.len() && (#[trigger] users[i]).username == name && users[i].id != id
}

/// Whether some card carries the given (year, card_number) pair.
pub open spec fn has_card_key(cards: Seq<CardRowV>, year: int, number: int) -> bool {
    exists|i: int|
        0 <= i < cards.len() && (#[trigger] cards[i]).card.year == year
            && cards[i].card.card_number == number
}

/// Whether some card carries the given id.
pub open spec fn has_card_id(cards: Seq<CardRowV>, id: int) -> bool {
    exists|i: int| 0 <= i < cards.len() && (#[trigger] cards[i]).card.id == id
}

/// Whether some card belongs to the given year.
pub open spec fn has_card_for_year(cards: Seq<CardRowV>, year: int) -> bool {
    exists|i: int| 0 <= i < cards.len() && (#[trigger] cards[i]).card.year == year
}

/// Whether a card other than the one with the given id carries the
/// given (year, card_number) pair.
pub open spec fn card_key_taken_by_other(
    cards: Seq<CardRowV>,
    year: int,
    number: int,
    id: int,
) -> bool {
    exists|i: int|
        0 <= i < cards.len() && (#[trigger] cards[i]).card.year == year
            && cards[i].card.card_number == number && cards[i].card.id != id
}

/// The cards as the query surface reports them, without the
/// creating-account reference.
pub open spec fn cards_public(cards: Seq<CardRowV>) -> Seq<CardV> {
    cards.map_values(|row: CardRowV| row.card)
}

/// The filter a "user" role sees: only cards whose executor-account
/// reference equals the caller's own account id.
pub open spec fn executor_pred(uid: int) -> spec_fn(CardV) -> bool {
    |c: CardV| c.executor_user_id == Some(uid)
}

/// The view of an optional borrowed string.
pub open spec fn opt_str_text(o: Option<&str>) -> Option<Seq<char>> {
    match o {
        Some(s) => Some(s@),
        None => None,
    }
}

/// Whether some card of the year carries the given card number.
pub open spec fn year_has_number(cards: Seq<CardRowV>, year: int, k: int) -> bool {
    exists|i: int|
        0 <= i < cards.len() && (#[trigger] cards[i]).card.year == year
            && cards[i].card.card_number == k
}

/// `m` is the largest card number among the year's cards.
pub open spec fn is_max_card_number(cards: Seq<CardRowV>, year: int, m: int) -> bool {
    &&& exists|i: int|
        0 <= i < cards.len() && (#[trigger] cards[i]).card.year == year
            && cards[i].card.card_number == m
    &&& forall|i: int|
        0 <= i < cards.len() && (#[trigger] cards[i]).card.year == year
            ==> cards[i].card.card_number <= m
}

/// The single-writer embedded store, modelled over plain values. It
/// owns all rows; the shell performs the file-level work (creating the
/// backing file, executing statements) and replays persisted rows back
/// through the same checked operations on reconnection.
pub struct Database {
    connected: bool,
    path: Option<String>,
    users: Vec<User>,
    cards: Vec<CardRow>,
    next_user_id: i64,
    next_card_id: i64,
}

impl View for Database {
    type V = StoreV;

    closed spec fn view(&self) -> StoreV {
        StoreV {
            connected: self.connected,
            path: opt_text(self.path),
            users: self.users.deep_view(),
            cards: self.cards.deep_view(),
            next_user_id: self.next_user_id as int,
            next_card_id: self.next_card_id as int,
        }
    }
}

/// The error every operation reports when the store is disconnected.
fn not_connected_error() -> (r: AppError)
    ensures
        r.kind == ErrorKind::StoreUnavailable,
{
    AppError { kind: ErrorKind::StoreUnavailable, message: "Database not connected".to_string() }
}

/// An explicit copy of an optional string; its contract ties the copy
/// to the original.
fn clone_opt_string(o: &Option<String>) -> (r: Option<String>)
    ensures
        r == *o,
{
    match o {
        Some(s) => Some(s.clone()),
        None => None,
    }
}

/// Owns an optional borrowed string, keeping its content.
fn opt_owned(o: Option<&str>) -> (r: Option<String>)
    ensures
        opt_text(r) == opt_str_text(o),
{
    match o {
        Some(s) => Some(s.to_owned()),
        None => None,
    }
}

/// An explicit field-by-field copy of a card; its contract ties the
/// copy to the original, which a derived clone would not.
pub fn copy_card(c: &ControlCard) -> (r: ControlCard)
    ensures
        r == *c,
{
    ControlCard {
        id: c.id,
        card_number: c.card_number,
        year: c.year,
        executor: c.executor.clone(),
        reporter: c.reporter.clone(),
        summary: c.summary.clone(),
        document_reference: c.document_reference.clone(),
        executor_user_id: c.executor_user_id,
        created_at: c.created_at.clone(),
        return_to: clone_opt_string(&c.return_to),
        execution_deadline: clone_opt_string(&c.execution_deadline),
        execution_period_type: clone_opt_string(&c.execution_period_type),
        extended_deadline: clone_opt_string(&c.extended_deadline),
        resolution: clone_opt_string(&c.resolution),
        department: clone_opt_string(&c.department),
        controller: clone_opt_string(&c.controller),
        controller_user_id: c.controller_user_id,
    }
}

/// Filtering one more element appends it exactly when it satisfies the
/// predicate.
pub(crate) proof fn lemma_filter_one_more<A>(s: Seq<A>, x: A, pred: spec_fn(A) -> bool)
    ensures
        (s + seq![x]).filter(pred) == if pred(x) {
            s.filter(pred).push(x)
        } else {
            s.filter(pred)
        },
{
    reveal(Seq::filter);
    assert((s + seq![x]).drop_last() =~= s);
    assert((s + seq![x]).last() == x);
}

/// Inserts a row at the position that keeps the newest-first order,
/// assuming no stored card shares its (year, card_number) pair.
#[verifier::loop_isolation(false)]
fn insert_sorted(cards: &mut Vec<CardRow>, row: CardRow)
    requires
        sorted_cards(old(cards).deep_view()),
        !has_card_key(old(cards).deep_view(), row@.card.year, row@.card.card_number),
    ensures
        final(cards).deep_view().len() == old(cards).deep_view().len() + 1,
        sorted_cards(final(cards).deep_view()),
        exists|k: int|
            0 <= k <= old(cards).deep_view().len() && final(cards).deep_view()
                == #[trigger] old(cards).deep_view().insert(k, row@),
{
    let n = cards.len();
    let year = row.card.year;
    let number = row.card.card_number;
    let ghost rowv = row@;
    let mut k: usize = 0;
    while k < n && (cards[k].card.year > year || (cards[k].card.year == year
        && cards[k].card.card_number > number))
        invariant
            n == cards.len(),
            k <= n,
            *cards == *old(cards),
            forall|j: int|
                0 <= j < k ==> card_above((#[trigger] cards.deep_view()[j]).card, rowv.card),
        decreases n - k,
    {
        k += 1;
    }
    proof {
        if (k as int) < old(cards).deep_view().len() {
            assert(card_above(rowv.card, old(cards).deep_view()[k as int].card));
        }
    }
    cards.insert(k, row);
    proof {
        let oldc = old(cards).deep_view();
        let newc = cards.deep_view();
        let ki = k as int;
        assert(newc =~= oldc.insert(ki, rowv));
        assert forall|a: int, b: int| 0 <= a < b < newc.len() implies card_above(
            newc[a].card,
            newc[b].card,
        ) by {
            if b < ki {
                assert(newc[a] == oldc[a]);
                assert(newc[b] == oldc[b]);
            } else if a < ki && b == ki {
                assert(newc[a] == oldc[a]);
            } else if a < ki && b > ki {
                assert(newc[a] == oldc[a]);
                assert(newc[b] == oldc[b - 1]);
            } else if a == ki && b > ki {
                assert(newc[b] == oldc[b - 1]);
                if b - 1 > ki {
                    assert(card_above(oldc[ki].card, oldc[b - 1].card));
                }
            } else {
                assert(newc[a] == oldc[a - 1]);
                assert(newc[b] == oldc[b - 1]);
            }
        }
        assert(0 <= ki <= oldc.len() && newc == oldc.insert(ki, rowv));
    }
}

impl Default for Database {
    fn default() -> (db: Database)
        ensures
            db@.wf(),
            !db@.connected,
            db@.users.len() == 0,
            db@.cards.len() == 0,
            db@.path is None,
    {
        Database::new()
    }
}

impl Database {
    /// A fresh store: disconnected, holding nothing.
    pub fn new() -> (db: Database)
        ensures
            db@.wf(),
            !db@.connected,
            db@.users.len() == 0,
            db@.cards.len() == 0,
            db@.path is None,
    {
        let db = Database {
            connected: false,
            path: None,
            users: Vec::new(),
            cards: Vec::new(),
            next_user_id: 1,
            next_card_id: 1,
        };
        proof {
            assert(db@.users =~= Seq::<UserV>::empty());
            assert(db@.cards =~= Seq::<CardRowV>::empty());
        }
        db
    }

    /// Connects the store to a path. Any previous connection is torn
    /// down first, so the process never holds two live stores; the
    /// in-memory state restarts from the schema of a fresh file, with
    /// both tables present and empty.
    pub fn connect(&mut self, db_path: &str) -> (r: Result<(), AppError>)
        ensures
            r is Ok,
            final(self)@.wf(),
            final(self)@.connected,
            final(self)@.path == Some(db_path@),
            final(self)@.users.len() == 0,
            final(self)@.cards.len() == 0,
            final(self)@.next_user_id == 1,
            final(self)@.next_card_id == 1,
    {
        self.connected = true;
        self.path = Some(db_path.to_owned());
        self.users = Vec::new();
        self.cards = Vec::new();
        self.next_user_id = 1;
        self.next_card_id = 1;
        proof {
            assert(self@.users =~= Seq::<UserV>::empty());
            assert(self@.cards =~= Seq::<CardRowV>::empty());
        }
        Ok(())
    }

    /// Closes the connection and clears all connection and runtime
    /// state unconditionally; a disconnected store stays disconnected.
    pub fn disconnect(&mut self)
        ensures
            final(self)@.wf(),
            !final(self)@.connected,
            final(self)@.users.len() == 0,
            final(self)@.cards.len() == 0,
            final(self)@.path is None,
    {
        self.connected = false;
        self.path = None;
        self.users = Vec::new();
        self.cards = Vec::new();
        proof {
            assert(self@.users =~= Seq::<UserV>::empty());
            assert(self@.cards =~= Seq::<CardRowV>::empty());
        }
        if self.next_user_id < 1 {
            self.next_user_id = 1;
        }
        if self.next_card_id < 1 {
            self.next_card_id = 1;
        }
    }

    pub fn is_connected(&self) -> (r: bool)
        ensures
            r == self@.connected,
    {
        self.connected
    }

    pub fn get_path(&self) -> (r: Option<&String>)
        ensures
            match r {
                Some(p) => self@.path == Some(p@),
                None => self@.path is None,
            },
    {
        self.path.as_ref()
    }

    /// Inserts an account. The store assigns the id, enforces username
    /// uniqueness and rejects any role outside the three enumerated
    /// values, as the accounts table's constraints do.
    #[verifier::loop_isolation(false)]
    pub fn create_user(
        &mut self,
        username: &str,
        password_hash: &str,
        role: &str,
        created_at: &str,
    ) -> (r: Result<i64, AppError>)
        requires
            old(self)@.wf(),
        ensures
            final(self)@.wf(),
            final(self)@.connected == old(self)@.connected,
            final(self)@.path == old(self)@.path,
            final(self)@.cards == old(self)@.cards,
            final(self)@.next_card_id == old(self)@.next_card_id,
            r is Err ==> final(self)@ == old(self)@,
            !old(self)@.connected ==> (r matches Err(e) && e.kind == ErrorKind::StoreUnavailable),
            old(self)@.connected && !valid_role(role@) ==> (r matches Err(e) && e.kind
                == ErrorKind::Validation),
            old(self)@.connected && valid_role(role@) && has_username(old(self)@.users, username@)
                ==> (r matches Err(e) && e.kind == ErrorKind::Conflict),
            old(self)@.connected && valid_role(role@) && !has_username(
                old(self)@.users,
                username@,
            ) && old(self)@.next_user_id == i64::MAX ==> (r matches Err(e) && e.kind
                == ErrorKind::Internal),
            old(self)@.connected && valid_role(role@) && !has_username(
                old(self)@.users,
                username@,
            ) && old(self)@.next_user_id < i64::MAX ==> {
                &&& r matches Ok(id) && id as int == old(self)@.next_user_id
                &&& final(self)@.users == old(self)@.users.push(
                    UserV {
                        id: old(self)@.next_user_id,
                        username: username@,
                        password_hash: password_hash@,
                        role: role@,
                        created_at: created_at@,
                    },
                )
                &&& final(self)@.next_user_id == old(self)@.next_user_id + 1
            },
    {
        if !self.connected {
            return Err(not_connected_error());
        }
        if UserRole::from_str(role).is_none() {
            return Err(AppError { kind: ErrorKind::Validation, message: "Invalid role".to_string() });
        }
        let n = self.users.len();
        let mut i: usize = 0;
        while i < n
            invariant
                n == self.users.len(),
                i <= n,
                forall|j: int| 0 <= j < i ==> (#[trigger] self@.users[j]).username != username@,
            decreases n - i,
        {
            if str_eq(self.users[i].username.as_str(), username) {
                proof {
                    assert(self@.users[i as int].username == username@);
                    assert(has_username(old(self)@.users, username@));
                }
                return Err(AppError {
                    kind: ErrorKind::Conflict,
                    message: "Username already exists".to_string(),
                });
            }
            i += 1;
        }
        if self.next_user_id == i64::MAX {
            return Err(AppError {
                kind: ErrorKind::Internal,
                message: "Account id space exhausted".to_string(),
            });
        }
        let id = self.next_user_id;
        let user = User {
            id,
            username: username.to_owned(),
            password_hash: password_hash.to_owned(),
            role: role.to_owned(),
            created_at: created_at.to_owned(),
        };
        self.users.push(user);
        self.next_user_id = id + 1;
        proof {
            assert(self@.users =~= old(self)@.users.push(
                UserV {
                    id: id as int,
                    username: username@,
                    password_hash: password_hash@,
                    role: role@,
                    created_at: created_at@,
                },
            ));
        }
        Ok(id)
    }

    /// Looks an account up by its unique username.
    #[verifier::loop_isolation(false)]
    pub fn get_user_by_username(&self, username: &str) -> (r: Result<Option<User>, AppError>)
        requires
            self@.wf(),
        ensures
            !self@.connected ==> (r matches Err(e) && e.kind == ErrorKind::StoreUnavailable),
            self@.connected ==> match r {
                Ok(opt) => match opt {
                    Some(u) => self@.users.contains(u@) && u@.username == username@,
                    None => !has_username(self@.users, username@),
                },
                Err(_) => false,
            },
    {
        if !self.connected {
            return Err(not_connected_error());
        }
        let n = self.users.len();
        let mut i: usize = 0;
        while i < n
            invariant
                n == self.users.len(),
                i <= n,
                forall|j: int| 0 <= j < i ==> (#[trigger] self@.users[j]).username != username@,
            decreases n - i,
        {
            if str_eq(self.users[i].username.as_str(), username) {
                proof {
                    assert(self@.users.contains(self@.users[i as int]));
                }
                return Ok(Some(copy_user(&self.users[i])));
            }
            i += 1;
        }
        Ok(None)
    }

    /// Looks an account up by its store-assigned id.
    #[verifier::loop_isolation(false)]
    pub fn get_user_by_id(&self, id: i64) -> (r: Result<Option<User>, AppError>)
        requires
            self@.wf(),
        ensures
            !self@.connected ==> (r matches Err(e) && e.kind == ErrorKind::StoreUnavailable),
            self@.connected ==> match r {
                Ok(opt) => match opt {
                    Some(u) => self@.users.contains(u@) && u@.id == id as int,
                    None => !has_user_id(self@.users, id as int),
                },
                Err(_) => false,
            },
    {
        if !self.connected {
            return Err(not_connected_error());
        }
        let n = self.users.len();
        let mut i: usize = 0;
        while i < n
            invariant
                n == self.users.len(),
                i <= n,
                forall|j: int| 0 <= j < i ==> (#[trigger] self@.users[j]).id != id as int,
            decreases n - i,
        {
            if self.users[i].id == id {
                proof {
                    assert(self@.users.contains(self@.users[i as int]));
                }
                return Ok(Some(copy_user(&self.users[i])));
            }
            i += 1;
        }
        Ok(None)
    }

    /// Whether any account exists at all.
    pub fn has_any_users(&self) -> (r: Result<bool, AppError>)
        requires
            self@.wf(),
        ensures
            !self@.connected ==> (r matches Err(e) && e.kind == ErrorKind::StoreUnavailable),
            self@.connected ==> (r matches Ok(b) && b == (self@.users.len() > 0)),
    {
        if !self.connected {
            return Err(not_connected_error());
        }
        Ok(self.users.len() > 0)
    }

    /// All accounts, newest-created-first.
    #[verifier::loop_isolation(false)]
    pub fn get_all_users(&self) -> (r: Result<Vec<User>, AppError>)
        requires
            self@.wf(),
        ensures
            !self@.connected ==> (r matches Err(e) && e.kind == ErrorKind::StoreUnavailable),
            self@.connected ==> (r matches Ok(v) && v.deep_view() == self@.users.reverse()),
    {
        if !self.connected {
            return Err(not_connected_error());
        }
        let n = self.users.len();
        let mut out: Vec<User> = Vec::new();
        let mut k: usize = 0;
        while k < n
            invariant
                n == self.users.len(),
                k <= n,
                out.deep_view().len() == k,
                forall|j: int|
                    0 <= j < k ==> #[trigger] out.deep_view()[j] == self@.users[n - 1 - j],
            decreases n - k,
        {
            let ghost prev = out.deep_view();
            out.push(copy_user(&self.users[n - 1 - k]));
            proof {
                assert(out.deep_view() =~= prev.push(self@.users[n - 1 - k]));
            }
            k += 1;
        }
        proof {
            assert(out.deep_view() =~= self@.users.reverse());
        }
        Ok(out)
    }

    /// Rewrites an account's username and role in place. A missing id
    /// affects no row; the result counts the rows affected.
    #[verifier::loop_isolation(false)]
    pub fn update_user(&mut self, id: i64, username: &str, role: &str) -> (r: Result<
        usize,
        AppError,
    >)
        requires
            old(self)@.wf(),
        ensures
            final(self)@.wf(),
            final(self)@.connected == old(self)@.connected,
            final(self)@.path == old(self)@.path,
            final(self)@.cards == old(self)@.cards,
            final(self)@.next_user_id == old(self)@.next_user_id,
            final(self)@.next_card_id == old(self)@.next_card_id,
            r is Err ==> final(self)@ == old(self)@,
            !old(self)@.connected ==> (r matches Err(e) && e.kind == ErrorKind::StoreUnavailable),
            old(self)@.connected && !has_user_id(old(self)@.users, id as int) ==> (r matches Ok(n)
                && n == 0) && final(self)@ == old(self)@,
            old(self)@.connected && has_user_id(old(self)@.users, id as int) && !valid_role(role@)
                ==> (r matches Err(e) && e.kind == ErrorKind::Validation),
            old(self)@.connected && has_user_id(old(self)@.users, id as int) && valid_role(role@)
                && username_taken_by_other(old(self)@.users, username@, id as int)
                ==> (r matches Err(e) && e.kind == ErrorKind::Conflict),
            old(self)@.connected && has_user_id(old(self)@.users, id as int) && valid_role(role@)
                && !username_taken_by_other(old(self)@.users, username@, id as int) ==> {
                &&& r matches Ok(n) && n == 1
                &&& exists|i: int|
                    0 <= i < old(self)@.users.len() && (#[trigger] old(self)@.users[i]).id
                        == id as int && final(self)@.users == old(self)@.users.update(
                        i,
                        UserV {
                            id: id as int,
                            username: username@,
                            password_hash: old(self)@.users[i].password_hash,
                            role: role@,
                            created_at: old(self)@.users[i].created_at,
                        },
                    )
            },
    {
        if !self.connected {
            return Err(not_connected_error());
        }
        let n = self.users.len();
        let mut i: usize = 0;
        let mut found: Option<usize> = None;
        while i < n
            invariant
                n == self.users.len(),
                i <= n,
                match found {
                    Some(f) => f < n && self@.users[f as int].id == id as int,
                    None => forall|j: int|
                        0 <= j < i ==> (#[trigger] self@.users[j]).id != id as int,
                },
            decreases n - i,
        {
            if found.is_none() && self.users[i].id == id {
                found = Some(i);
            }
            i += 1;
        }
        let idx = match found {
            Some(f) => f,
            None => {
                return Ok(0);
            },
        };
        proof {
            assert(has_user_id(old(self)@.users, id as int));
        }
        if UserRole::from_str(role).is_none() {
            return Err(AppError { kind: ErrorKind::Validation, message: "Invalid role".to_string() });
        }
        let mut j: usize = 0;
        while j < n
            invariant
                n == self.users.len(),
                j <= n,
                forall|k: int|
                    0 <= k < j ==> !((#[trigger] self@.users[k]).username == username@
                        && self@.users[k].id != id as int),
            decreases n - j,
        {
            if str_eq(self.users[j].username.as_str(), username) && self.users[j].id != id {
                proof {
                    assert(self@.users[j as int].username == username@);
                    assert(username_taken_by_other(old(self)@.users, username@, id as int));
                }
                return Err(AppError {
                    kind: ErrorKind::Conflict,
                    message: "Username already exists".to_string(),
                });
            }
            j += 1;
        }
        let old_user = self.users.remove(idx);
        let updated = User {
            id: old_user.id,
            username: username.to_owned(),
            password_hash: old_user.password_hash,
            role: role.to_owned(),
            created_at: old_user.created_at,
        };
        self.users.insert(idx, updated);
        proof {
            assert(old(self)@.users[idx as int].id == id as int);
            assert(self@.users =~= old(self)@.users.update(
                idx as int,
                UserV {
                    id: id as int,
                    username: username@,
                    password_hash: old(self)@.users[idx as int].password_hash,
                    role: role@,
                    created_at: old(self)@.users[idx as int].created_at,
                },
            ));
        }
        Ok(1)
    }

    /// Replaces an account's stored password hash. A missing id affects
    /// no row; the result counts the rows affected.
    #[verifier::loop_isolation(false)]
    pub fn update_user_password(&mut self, id: i64, password_hash: &str) -> (r: Result<
        usize,
        AppError,
    >)
        requires
            old(self)@.wf(),
        ensures
            final(self)@.wf(),
            final(self)@.connected == old(self)@.connected,
            final(self)@.path == old(self)@.path,
            final(self)@.cards == old(self)@.cards,
            final(self)@.next_user_id == old(self)@.next_user_id,
            final(self)@.next_card_id == old(self)@.next_card_id,
            r is Err ==> final(self)@ == old(self)@,
            !old(self)@.connected ==> (r matches Err(e) && e.kind == ErrorKind::StoreUnavailable),
            old(self)@.connected && !has_user_id(old(self)@.users, id as int) ==> (r matches Ok(n)
                && n == 0) && final(self)@ == old(self)@,
            old(self)@.connected && has_user_id(old(self)@.users, id as int) ==> {
                &&& r matches Ok(n) && n == 1
                &&& exists|i: int|
                    0 <= i < old(self)@.users.len() && (#[trigger] old(self)@.users[i]).id
                        == id as int && final(self)@.users == old(self)@.users.update(
                        i,
                        UserV {
                            id: id as int,
                            username: old(self)@.users[i].username,
                            password_hash: password_hash@,
                            role: old(self)@.users[i].role,
                            created_at: old(self)@.users[i].created_at,
                        },
                    )
            },
    {
        if !self.connected {
            return Err(not_connected_error());
        }
        let n = self.users.len();
        let mut i: usize = 0;
        while i < n
            invariant
                n == self.users.len(),
                i <= n,
                *self == *old(self),
                forall|j: int| 0 <= j < i ==> (#[trigger] self@.users[j]).id != id as int,
            decreases n - i,
        {
            if self.users[i].id == id {
                proof {
                    assert(old(self)@.users[i as int].id == id as int);
                    assert(has_user_id(old(self)@.users, id as int));
                }
                let old_user = self.users.remove(i);
                let updated = User {
                    id: old_user.id,
                    username: old_user.username,
                    password_hash: password_hash.to_owned(),
                    role: old_user.role,
                    created_at: old_user.created_at,
                };
                self.users.insert(i, updated);
                proof {
                    assert(self@.users =~= old(self)@.users.update(
                        i as int,
                        UserV {
                            id: id as int,
                            username: old(self)@.users[i as int].username,
                            password_hash: password_hash@,
                            role: old(self)@.users[i as int].role,
                            created_at: old(self)@.users[i as int].created_at,
                        },
                    ));
                }
                return Ok(1);
            }
            i += 1;
        }
        Ok(0)
    }

    /// Deletes an account. Deletion is immediate and does not cascade:
    /// cards that reference the account keep their now-dangling
    /// reference.
    #[verifier::loop_isolation(false)]
    pub fn delete_user(&mut self, id: i64) -> (r: Result<usize, AppError>)
        requires
            old(self)@.wf(),
        ensures
            final(self)@.wf(),
            final(self)@.connected == old(self)@.connected,
            final(self)@.path == old(self)@.path,
            final(self)@.cards == old(self)@.cards,
            final(self)@.next_user_id == old(self)@.next_user_id,
            final(self)@.next_card_id == old(self)@.next_card_id,
            r is Err ==> final(self)@ == old(self)@,
            !old(self)@.connected ==> (r matches Err(e) && e.kind == ErrorKind::StoreUnavailable),
            old(self)@.connected && !has_user_id(old(self)@.users, id as int) ==> (r matches Ok(n)
                && n == 0) && final(self)@ == old(self)@,
            old(self)@.connected && has_user_id(old(self)@.users, id as int) ==> {
                &&& r matches Ok(n) && n == 1
                &&& exists|i: int|
                    0 <= i < old(self)@.users.len() && (#[trigger] old(self)@.users[i]).id
                        == id as int && final(self)@.users == old(self)@.users.remove(i)
            },
            !has_user_id(final(self)@.users, id as int),
    {
        if !self.connected {
            return Err(not_connected_error());
        }
        let n = self.users.len();
        let mut i: usize = 0;
        while i < n
            invariant
                n == self.users.len(),
                i <= n,
                *self == *old(self),
                forall|j: int| 0 <= j < i ==> (#[trigger] self@.users[j]).id != id as int,
            decreases n - i,
        {
            if self.users[i].id == id {
                proof {
                    assert(old(self)@.users[i as int].id == id as int);
                    assert(has_user_id(old(self)@.users, id as int));
                }
                self.users.remove(i);
                proof {
                    assert(self@.users =~= old(self)@.users.remove(i as int));
                    assert forall|j: int| 0 <= j < self@.users.len() implies (
                    #[trigger] self@.users[j]).id != id as int by {
                        if i <= j {
                            assert(self@.users[j] == old(self)@.users[j + 1]);
                        }
                    }
                }
                return Ok(1);
            }
            i += 1;
        }
        Ok(0)
    }

    /// The next suggested card number for a year: 1 when the year has
    /// no cards, else one more than the year's largest card number.
    /// The suggestion is only a hint: the (year, card_number)
    /// uniqueness check at insertion is what rejects a collision.
    #[verifier::loop_isolation(false)]
    pub fn get_next_card_number(&self, year: i32) -> (r: Result<i32, AppError>)
        requires
            self@.wf(),
        ensures
            !self@.connected ==> (r matches Err(e) && e.kind == ErrorKind::StoreUnavailable),
            self@.connected ==> match r {
                Ok(n) => {
                    &&& !has_card_for_year(self@.cards, year as int) ==> n == 1
                    &&& has_card_for_year(self@.cards, year as int) ==> is_max_card_number(
                        self@.cards,
                        year as int,
                        n - 1,
                    )
                },
                Err(e) => e.kind == ErrorKind::Internal && is_max_card_number(
                    self@.cards,
                    year as int,
                    i32::MAX as int,
                ),
            },
    {
        if !self.connected {
            return Err(not_connected_error());
        }
        let n = self.cards.len();
        let mut best: Option<i32> = None;
        let mut i: usize = 0;
        while i < n
            invariant
                n == self.cards.len(),
                i <= n,
                match best {
                    Some(m) => {
                        &&& exists|j: int|
                            0 <= j < i && (#[trigger] self@.cards[j]).card.year == year as int
                                && self@.cards[j].card.card_number == m as int
                        &&& forall|j: int|
                            0 <= j < i && (#[trigger] self@.cards[j]).card.year == year as int
                                ==> self@.cards[j].card.card_number <= m as int
                    },
                    None => forall|j: int|
                        0 <= j < i ==> (#[trigger] self@.cards[j]).card.year != year as int,
                },
            decreases n - i,
        {
            let c_year = self.cards[i].card.year;
            let num = self.cards[i].card.card_number;
            proof {
                assert(self@.cards[i as int].card.year == c_year as int);
                assert(self@.cards[i as int].card.card_number == num as int);
            }
            if c_year == year {
                best = match best {
                    Some(m) => if num > m {
                        Some(num)
                    } else {
                        Some(m)
                    },
                    None => Some(num),
                };
            }
            i += 1;
        }
        match best {
            None => Ok(1),
            Some(m) => {
                if m == i32::MAX {
                    Err(AppError {
                        kind: ErrorKind::Internal,
                        message: "Card number space exhausted for the year".to_string(),
                    })
                } else {
                    Ok(m + 1)
                }
            },
        }
    }

    /// Inserts a card. The store assigns the id and enforces the
    /// (year, card_number) uniqueness constraint; the row is placed so
    /// that the newest-first order is kept.
    #[verifier::loop_isolation(false)]
    pub fn create_control_card(
        &mut self,
        card_number: i32,
        year: i32,
        executor: &str,
        reporter: &str,
        summary: &str,
        document_reference: &str,
        user_id: Option<i64>,
        executor_user_id: Option<i64>,
        return_to: Option<&str>,
        execution_deadline: Option<&str>,
        execution_period_type: Option<&str>,
        extended_deadline: Option<&str>,
        resolution: Option<&str>,
        department: Option<&str>,
        controller: Option<&str>,
        controller_user_id: Option<i64>,
        created_at: &str,
    ) -> (r: Result<i64, AppError>)
        requires
            old(self)@.wf(),
        ensures
            final(self)@.wf(),
            final(self)@.connected == old(self)@.connected,
            final(self)@.path == old(self)@.path,
            final(self)@.users == old(self)@.users,
            final(self)@.next_user_id == old(self)@.next_user_id,
            r is Err ==> final(self)@ == old(self)@,
            !old(self)@.connected ==> (r matches Err(e) && e.kind == ErrorKind::StoreUnavailable),
            old(self)@.connected && has_card_key(old(self)@.cards, year as int, card_number as int)
                ==> (r matches Err(e) && e.kind == ErrorKind::Conflict),
            old(self)@.connected && !has_card_key(
                old(self)@.cards,
                year as int,
                card_number as int,
            ) && old(self)@.next_card_id == i64::MAX ==> (r matches Err(e) && e.kind
                == ErrorKind::Internal),
            old(self)@.connected && !has_card_key(
                old(self)@.cards,
                year as int,
                card_number as int,
            ) && old(self)@.next_card_id < i64::MAX ==> {
                &&& r matches Ok(id) && id as int == old(self)@.next_card_id
                &&& final(self)@.next_card_id == old(self)@.next_card_id + 1
                &&& exists|k: int|
                    0 <= k <= old(self)@.cards.len() && final(self)@.cards == #[trigger] old(
                        self,
                    )@.cards.insert(
                        k,
                        (CardRowV {
                            creator_user_id: opt_int(user_id),
                            card: (CardV {
                                id: old(self)@.next_card_id,
                                card_number: card_number as int,
                                year: year as int,
                                executor: executor@,
                                reporter: reporter@,
                                summary: summary@,
                                document_reference: document_reference@,
                                executor_user_id: opt_int(executor_user_id),
                                created_at: created_at@,
                                return_to: opt_str_text(return_to),
                                execution_deadline: opt_str_text(execution_deadline),
                                execution_period_type: opt_str_text(execution_period_type),
                                extended_deadline: opt_str_text(extended_deadline),
                                resolution: opt_str_text(resolution),
                                department: opt_str_text(department),
                                controller: opt_str_text(controller),
                                controller_user_id: opt_int(controller_user_id),
                            }),
                        }),
                    )
            },
    {
        if !self.connected {
            return Err(not_connected_error());
        }
        let n = self.cards.len();
        let mut i: usize = 0;
        while i < n
            invariant
                n == self.cards.len(),
                i <= n,
                forall|j: int|
                    0 <= j < i ==> !((#[trigger] self@.cards[j]).card.year == year as int
                        && self@.cards[j].card.card_number == card_number as int),
            decreases n - i,
        {
            if self.cards[i].card.year == year && self.cards[i].card.card_number == card_number {
                proof {
                    assert(self@.cards[i as int].card.year == year as int);
                    assert(self@.cards[i as int].card.card_number == card_number as int);
                    assert(has_card_key(old(self)@.cards, year as int, card_number as int));
                }
                return Err(AppError {
                    kind: ErrorKind::Conflict,
                    message: "A card with this number already exists for the year".to_string(),
                });
            }
            i += 1;
        }
        if self.next_card_id == i64::MAX {
            return Err(AppError {
                kind: ErrorKind::Internal,
                message: "Card id space exhausted".to_string(),
            });
        }
        let id = self.next_card_id;
        let row = CardRow {
            creator_user_id: user_id,
            card: ControlCard {
                id,
                card_number,
                year,
                executor: executor.to_owned(),
                reporter: reporter.to_owned(),
                summary: summary.to_owned(),
                document_reference: document_reference.to_owned(),
                executor_user_id,
                created_at: created_at.to_owned(),
                return_to: opt_owned(return_to),
                execution_deadline: opt_owned(execution_deadline),
                execution_period_type: opt_owned(execution_period_type),
                extended_deadline: opt_owned(extended_deadline),
                resolution: opt_owned(resolution),
                department: opt_owned(department),
                controller: opt_owned(controller),
                controller_user_id,
            },
        };
        let ghost rowv = row@;
        insert_sorted(&mut self.cards, row);
        self.next_card_id = id + 1;
        proof {
            let oldc = old(self)@.cards;
            let newc = self@.cards;
            let k = choose|k: int| 0 <= k <= oldc.len() && newc == #[trigger] oldc.insert(k, rowv);
            assert(self@.users == old(self)@.users);
            assert(newc[k] == rowv);
            assert(rowv.card.id == id as int);
            assert forall|a: int| 0 <= a < newc.len() implies 1 <= (#[trigger] newc[a]).card.id
                < self@.next_card_id by {
                if a != k {
                    let a0: int = if a < k {
                        a
                    } else {
                        a - 1
                    };
                    assert(newc[a] == oldc[a0]);
                }
            }
            assert forall|a: int, b: int|
                0 <= a < newc.len() && 0 <= b < newc.len() && a != b implies (
            #[trigger] newc[a]).card.id != (#[trigger] newc[b]).card.id by {
                let a0: int = if a < k {
                    a
                } else {
                    a - 1
                };
                let b0: int = if b < k {
                    b
                } else {
                    b - 1
                };
                if a != k && b != k {
                    assert(newc[a] == oldc[a0]);
                    assert(newc[b] == oldc[b0]);
                    assert(oldc[a0].card.id != oldc[b0].card.id);
                } else if a == k {
                    assert(newc[b] == oldc[b0]);
                    assert(oldc[b0].card.id < id as int);
                } else {
                    assert(newc[a] == oldc[a0]);
                    assert(oldc[a0].card.id < id as int);
                }
            }
        }
        Ok(id)
    }

    /// Reads a single card by id; a missing id is a "not found"
    /// failure, distinct from the disconnected failure.
    #[verifier::loop_isolation(false)]
    pub fn get_control_card(&self, id: i64) -> (r: Result<ControlCard, AppError>)
        requires
            self@.wf(),
        ensures
            !self@.connected ==> (r matches Err(e) && e.kind == ErrorKind::StoreUnavailable),
            self@.connected ==> match r {
                Ok(c) => exists|i: int|
                    0 <= i < self@.cards.len() && (#[trigger] self@.cards[i]).card == c@ && c@.id
                        == id as int,
                Err(e) => e.kind == ErrorKind::NotFound && !has_card_id(self@.cards, id as int),
            },
    {
        if !self.connected {
            return Err(not_connected_error());
        }
        let n = self.cards.len();
        let mut i: usize = 0;
        while i < n
            invariant
                n == self.cards.len(),
                i <= n,
                forall|j: int| 0 <= j < i ==> (#[trigger] self@.cards[j]).card.id != id as int,
            decreases n - i,
        {
            if self.cards[i].card.id == id {
                proof {
                    assert(self@.cards[i as int].card.id == id as int);
                }
                return Ok(copy_card(&self.cards[i].card));
            }
            i += 1;
        }
        Err(AppError { kind: ErrorKind::NotFound, message: "Control card not found".to_string() })
    }

    /// All cards, newest first: descending by year, then by number.
    #[verifier::loop_isolation(false)]
    pub fn get_all_control_cards(&self) -> (r: Result<Vec<ControlCard>, AppError>)
        requires
            self@.wf(),
        ensures
            !self@.connected ==> (r matches Err(e) && e.kind == ErrorKind::StoreUnavailable),
            self@.connected ==> (r matches Ok(v) && v.deep_view() == cards_public(self@.cards)),
    {
        if !self.connected {
            return Err(not_connected_error());
        }
        let n = self.cards.len();
        let mut out: Vec<ControlCard> = Vec::new();
        let mut i: usize = 0;
        while i < n
            invariant
                n == self.cards.len(),
                i <= n,
                out.deep_view().len() == i,
                forall|j: int|
                    0 <= j < i ==> #[trigger] out.deep_view()[j] == self@.cards[j].card,
            decreases n - i,
        {
            let ghost prev = out.deep_view();
            out.push(copy_card(&self.cards[i].card));
            proof {
                assert(out.deep_view() =~= prev.push(self@.cards[i as int].card));
            }
            i += 1;
        }
        proof {
            assert(out.deep_view() =~= cards_public(self@.cards));
        }
        Ok(out)
    }

    /// The cards whose executor-account reference equals the given
    /// account id, newest first.
    #[verifier::loop_isolation(false)]
    pub fn get_control_cards_by_executor_id(&self, executor_user_id: i64) -> (r: Result<
        Vec<ControlCard>,
        AppError,
    >)
        requires
            self@.wf(),
        ensures
            !self@.connected ==> (r matches Err(e) && e.kind == ErrorKind::StoreUnavailable),
            self@.connected ==> (r matches Ok(v) && v.deep_view() == cards_public(
                self@.cards,
            ).filter(executor_pred(executor_user_id as int))),
    {
        if !self.connected {
            return Err(not_connected_error());
        }
        let n = self.cards.len();
        let mut out: Vec<ControlCard> = Vec::new();
        let mut i: usize = 0;
        while i < n
            invariant
                n == self.cards.len(),
                i <= n,
                out.deep_view() == cards_public(self@.cards.subrange(0, i as int)).filter(
                    executor_pred(executor_user_id as int),
                ),
            decreases n - i,
        {
            let ghost pred = executor_pred(executor_user_id as int);
            let ghost prefix = cards_public(self@.cards.subrange(0, i as int));
            let ghost prev = out.deep_view();
            let matches_executor = match self.cards[i].card.executor_user_id {
                Some(e) => e == executor_user_id,
                None => false,
            };
            if matches_executor {
                out.push(copy_card(&self.cards[i].card));
                proof {
                    assert(out.deep_view() =~= prev.push(self@.cards[i as int].card));
                }
            }
            proof {
                assert(cards_public(self@.cards.subrange(0, i + 1)) =~= prefix + seq![
                    self@.cards[i as int].card,
                ]);
                lemma_filter_one_more(prefix, self@.cards[i as int].card, pred);
            }
            i += 1;
        }
        proof {
            assert(self@.cards.subrange(0, n as int) =~= self@.cards);
        }
        Ok(out)
    }

    /// Rewrites a card in place, keeping its id and creation time. A
    /// missing id is a "not found" failure; a (year, card_number) pair
    /// that another card already carries is a conflict.
    #[verifier::loop_isolation(false)]
    pub fn update_control_card(
        &mut self,
        id: i64,
        card_number: i32,
        year: i32,
        executor: &str,
        reporter: &str,
        summary: &str,
        document_reference: &str,
        user_id: Option<i64>,
        executor_user_id: Option<i64>,
        return_to: Option<&str>,
        execution_deadline: Option<&str>,
        execution_period_type: Option<&str>,
        extended_deadline: Option<&str>,
        resolution: Option<&str>,
        department: Option<&str>,
        controller: Option<&str>,
        controller_user_id: Option<i64>,
    ) -> (r: Result<usize, AppError>)
        requires
            old(self)@.wf(),
        ensures
            final(self)@.wf(),
            final(self)@.connected == old(self)@.connected,
            final(self)@.path == old(self)@.path,
            final(self)@.users == old(self)@.users,
            final(self)@.next_user_id == old(self)@.next_user_id,
            final(self)@.next_card_id == old(self)@.next_card_id,
            r is Err ==> final(self)@ == old(self)@,
            !old(self)@.connected ==> (r matches Err(e) && e.kind == ErrorKind::StoreUnavailable),
            old(self)@.connected && !has_card_id(old(self)@.cards, id as int) ==> (r matches Err(e)
                && e.kind == ErrorKind::NotFound),
            old(self)@.connected && has_card_id(old(self)@.cards, id as int)
                && card_key_taken_by_other(
                old(self)@.cards,
                year as int,
                card_number as int,
                id as int,
            ) ==> (r matches Err(e) && e.kind == ErrorKind::Conflict),
            old(self)@.connected && has_card_id(old(self)@.cards, id as int)
                && !card_key_taken_by_other(
                old(self)@.cards,
                year as int,
                card_number as int,
                id as int,
            ) ==> {
                &&& r matches Ok(cnt) && cnt == 1
                &&& exists|i: int|
                    0 <= i < old(self)@.cards.len() && (#[trigger] old(self)@.cards[i]).card.id
                        == id as int && exists|k: int|
                        0 <= k <= old(self)@.cards.len() - 1 && final(self)@.cards
                            == #[trigger] old(self)@.cards.remove(i).insert(
                            k,
                            (CardRowV {
                                creator_user_id: opt_int(user_id),
                                card: (CardV {
                                    id: id as int,
                                    card_number: card_number as int,
                                    year: year as int,
                                    executor: executor@,
                                    reporter: reporter@,
                                    summary: summary@,
                                    document_reference: document_reference@,
                                    executor_user_id: opt_int(executor_user_id),
                                    created_at: old(self)@.cards[i].card.created_at,
                                    return_to: opt_str_text(return_to),
                                    execution_deadline: opt_str_text(execution_deadline),
                                    execution_period_type: opt_str_text(execution_period_type),
                                    extended_deadline: opt_str_text(extended_deadline),
                                    resolution: opt_str_text(resolution),
                                    department: opt_str_text(department),
                                    controller: opt_str_text(controller),
                                    controller_user_id: opt_int(controller_user_id),
                                }),
                            }),
                        )
            },
    {
        if !self.connected {
            return Err(not_connected_error());
        }
        let n = self.cards.len();
        let mut i: usize = 0;
        let mut found: Option<usize> = None;
        while i < n
            invariant
                n == self.cards.len(),
                i <= n,
                match found {
                    Some(f) => f < n && self@.cards[f as int].card.id == id as int,
                    None => forall|j: int|
                        0 <= j < i ==> (#[trigger] self@.cards[j]).card.id != id as int,
                },
            decreases n - i,
        {
            if found.is_none() && self.cards[i].card.id == id {
                found = Some(i);
            }
            i += 1;
        }
        let idx = match found {
            Some(f) => f,
            None => {
                return Err(AppError {
                    kind: ErrorKind::NotFound,
                    message: "Control card not found".to_string(),
                });
            },
        };
        proof {
            assert(has_card_id(old(self)@.cards, id as int));
        }
        let mut j: usize = 0;
        while j < n
            invariant
                n == self.cards.len(),
                j <= n,
                forall|l: int|
                    0 <= l < j ==> !((#[trigger] self@.cards[l]).card.year == year as int
                        && self@.cards[l].card.card_number == card_number as int
                        && self@.cards[l].card.id != id as int),
            decreases n - j,
        {
            if self.cards[j].card.id != id && self.cards[j].card.year == year
                && self.cards[j].card.card_number == card_number {
                proof {
                    assert(self@.cards[j as int].card.year == year as int);
                    assert(self@.cards[j as int].card.card_number == card_number as int);
                    assert(self@.cards[j as int].card.id != id as int);
                    assert(card_key_taken_by_other(
                        old(self)@.cards,
                        year as int,
                        card_number as int,
                        id as int,
                    ));
                }
                return Err(AppError {
                    kind: ErrorKind::Conflict,
                    message: "A card with this number already exists for the year".to_string(),
                });
            }
            j += 1;
        }
        let old_row = self.cards.remove(idx);
        let ghost mid = self.cards.deep_view();
        proof {
            let oldc = old(self)@.cards;
            let ii = idx as int;
            assert(old_row@ == oldc[ii]);
            assert(oldc[ii].card.id == id as int);
            assert(mid =~= oldc.remove(ii));
            assert forall|a: int, b: int| 0 <= a < b < mid.len() implies card_above(
                (#[trigger] mid[a]).card,
                (#[trigger] mid[b]).card,
            ) by {
                let a0: int = if a < ii { a } else { a + 1 };
                let b0: int = if b < ii { b } else { b + 1 };
                assert(mid[a] == oldc[a0]);
                assert(mid[b] == oldc[b0]);
                assert(card_above(oldc[a0].card, oldc[b0].card));
            }
            assert forall|a: int| 0 <= a < mid.len() implies (#[trigger] mid[a]).card.id
                != id as int && 1 <= mid[a].card.id < old(self)@.next_card_id by {
                let a0: int = if a < ii { a } else { a + 1 };
                assert(mid[a] == oldc[a0]);
                assert(oldc[a0].card.id != oldc[ii].card.id);
            }
            assert forall|a: int, b: int|
                0 <= a < mid.len() && 0 <= b < mid.len() && a != b implies (
            #[trigger] mid[a]).card.id != (#[trigger] mid[b]).card.id by {
                let a0: int = if a < ii { a } else { a + 1 };
                let b0: int = if b < ii { b } else { b + 1 };
                assert(mid[a] == oldc[a0]);
                assert(mid[b] == oldc[b0]);
                assert(oldc[a0].card.id != oldc[b0].card.id);
            }
            assert forall|a: int| 0 <= a < mid.len() implies !((#[trigger] mid[a]).card.year
                == year as int && mid[a].card.card_number == card_number as int) by {
                let a0: int = if a < ii { a } else { a + 1 };
                assert(mid[a] == oldc[a0]);
                assert(oldc[a0].card.id != id as int);
            }
        }
        let row = CardRow {
            creator_user_id: user_id,
            card: ControlCard {
                id,
                card_number,
                year,
                executor: executor.to_owned(),
                reporter: reporter.to_owned(),
                summary: summary.to_owned(),
                document_reference: document_reference.to_owned(),
                executor_user_id,
                created_at: old_row.card.created_at,
                return_to: opt_owned(return_to),
                execution_deadline: opt_owned(execution_deadline),
                execution_period_type: opt_owned(execution_period_type),
                extended_deadline: opt_owned(extended_deadline),
                resolution: opt_owned(resolution),
                department: opt_owned(department),
                controller: opt_owned(controller),
                controller_user_id,
            },
        };
        let ghost rowv = row@;
        insert_sorted(&mut self.cards, row);
        proof {
            let oldc = old(self)@.cards;
            let ii = idx as int;
            let newc = self@.cards;
            let k = choose|k: int| 0 <= k <= mid.len() && newc == #[trigger] mid.insert(k, rowv);
            assert(self@.users == old(self)@.users);
            assert(newc[k] == rowv);
            assert(rowv.card.id == id as int);
            assert(1 <= rowv.card.id < self@.next_card_id);
            assert forall|a: int| 0 <= a < newc.len() implies 1 <= (#[trigger] newc[a]).card.id
                < self@.next_card_id by {
                if a != k {
                    let a0: int = if a < k {
                        a
                    } else {
                        a - 1
                    };
                    assert(newc[a] == mid[a0]);
                }
            }
            assert forall|a: int, b: int|
                0 <= a < newc.len() && 0 <= b < newc.len() && a != b implies (
            #[trigger] newc[a]).card.id != (#[trigger] newc[b]).card.id by {
                let a0: int = if a < k {
                    a
                } else {
                    a - 1
                };
                let b0: int = if b < k {
                    b
                } else {
                    b - 1
                };
                if a != k && b != k {
                    assert(newc[a] == mid[a0]);
                    assert(newc[b] == mid[b0]);
                    assert(mid[a0].card.id != mid[b0].card.id);
                } else if a == k {
                    assert(newc[b] == mid[b0]);
                    assert(mid[b0].card.id != id as int);
                } else {
                    assert(newc[a] == mid[a0]);
                    assert(mid[a0].card.id != id as int);
                }
            }
            assert(mid == oldc.remove(ii));
            assert(newc == oldc.remove(ii).insert(k, rowv));
        }
        Ok(1)
    }

    /// Deletes a card. The result counts the rows affected: 1 when the
    /// id existed, 0 when it did not.
    #[verifier::loop_isolation(false)]
    pub fn delete_control_card(&mut self, id: i64) -> (r: Result<usize, AppError>)
        requires
            old(self)@.wf(),
        ensures
            final(self)@.wf(),
            final(self)@.connected == old(self)@.connected,
            final(self)@.path == old(self)@.path,
            final(self)@.users == old(self)@.users,
            final(self)@.next_user_id == old(self)@.next_user_id,
            final(self)@.next_card_id == old(self)@.next_card_id,
            r is Err ==> final(self)@ == old(self)@,
            !old(self)@.connected ==> (r matches Err(e) && e.kind == ErrorKind::StoreUnavailable),
            old(self)@.connected && !has_card_id(old(self)@.cards, id as int) ==> (r matches Ok(n)
                && n == 0) && final(self)@ == old(self)@,
            old(self)@.connected && has_card_id(old(self)@.cards, id as int) ==> {
                &&& r matches Ok(n) && n == 1
                &&& exists|i: int|
                    0 <= i < old(self)@.cards.len() && (#[trigger] old(self)@.cards[i]).card.id
                        == id as int && final(self)@.cards == old(self)@.cards.remove(i)
            },
            !has_card_id(final(self)@.cards, id as int),
    {
        if !self.connected {
            return Err(not_connected_error());
        }
        let n = self.cards.len();
        let mut i: usize = 0;
        while i < n
            invariant
                n == self.cards.len(),
                i <= n,
                *self == *old(self),
                forall|j: int| 0 <= j < i ==> (#[trigger] self@.cards[j]).card.id != id as int,
            decreases n - i,
        {
            if self.cards[i].card.id == id {
                proof {
                    assert(old(self)@.cards[i as int].card.id == id as int);
                    assert(has_card_id(old(self)@.cards, id as int));
                }
                self.cards.remove(i);
                proof {
                    let oldc = old(self)@.cards;
                    let ii = i as int;
                    let newc = self@.cards;
                    assert(newc =~= oldc.remove(ii));
                    assert(self@.users == old(self)@.users);
                    assert forall|a: int, b: int| 0 <= a < b < newc.len() implies card_above(
                        (#[trigger] newc[a]).card,
                        (#[trigger] newc[b]).card,
                    ) by {
                        let a0: int = if a < ii {
                            a
                        } else {
                            a + 1
                        };
                        let b0: int = if b < ii {
                            b
                        } else {
                            b + 1
                        };
                        assert(newc[a] == oldc[a0]);
                        assert(newc[b] == oldc[b0]);
                        assert(card_above(oldc[a0].card, oldc[b0].card));
                    }
                    assert forall|a: int| 0 <= a < newc.len() implies (
                    #[trigger] newc[a]).card.id != id as int && 1 <= newc[a].card.id < old(
                        self,
                    )@.next_card_id by {
                        let a0: int = if a < ii {
                            a
                        } else {
                            a + 1
                        };
                        assert(newc[a] == oldc[a0]);
                        if a0 != ii {
                            assert(oldc[a0].card.id != oldc[ii].card.id);
                        }
                    }
                    assert forall|a: int, b: int|
                        0 <= a < newc.len() && 0 <= b < newc.len() && a != b implies (
                    #[trigger] newc[a]).card.id != (#[trigger] newc[b]).card.id by {
                        let a0: int = if a < ii {
                            a
                        } else {
                            a + 1
                        };
                        let b0: int = if b < ii {
                            b
                        } else {
                            b + 1
                        };
                        assert(newc[a] == oldc[a0]);
                        assert(newc[b] == oldc[b0]);
                        assert(oldc[a0].card.id != oldc[b0].card.id);
                    }
                }
                return Ok(1);
            }
            i += 1;
        }
        Ok(0)
    }

    /// Re-inserts an account under its persisted store-assigned id,
    /// as reloading an existing backing file does. Ids only grow and
    /// a deleted id is never reused, so rows must arrive in ascending
    /// id order, gaps included; the counter advances past the id.
    #[verifier::loop_isolation(false)]
    pub fn restore_user(
        &mut self,
        id: i64,
        username: &str,
        password_hash: &str,
        role: &str,
        created_at: &str,
    ) -> (r: Result<(), AppError>)
        requires
            old(self)@.wf(),
        ensures
            final(self)@.wf(),
            final(self)@.connected == old(self)@.connected,
            final(self)@.path == old(self)@.path,
            final(self)@.cards == old(self)@.cards,
            final(self)@.next_card_id == old(self)@.next_card_id,
            r is Err ==> final(self)@ == old(self)@,
            !old(self)@.connected ==> (r matches Err(e) && e.kind == ErrorKind::StoreUnavailable),
            old(self)@.connected && !valid_role(role@) ==> (r matches Err(e) && e.kind
                == ErrorKind::Validation),
            old(self)@.connected && valid_role(role@) && (id as int) < old(self)@.next_user_id
                ==> (r matches Err(e) && e.kind == ErrorKind::Conflict),
            old(self)@.connected && valid_role(role@) && (id as int) >= old(self)@.next_user_id
                && id == i64::MAX ==> (r matches Err(e) && e.kind == ErrorKind::Internal),
            old(self)@.connected && valid_role(role@) && (id as int) >= old(self)@.next_user_id
                && id < i64::MAX && has_username(old(self)@.users, username@) ==> (r matches Err(e)
                && e.kind == ErrorKind::Conflict),
            old(self)@.connected && valid_role(role@) && (id as int) >= old(self)@.next_user_id
                && id < i64::MAX && !has_username(old(self)@.users, username@) ==> {
                &&& r is Ok
                &&& final(self)@.users == old(self)@.users.push(
                    UserV {
                        id: id as int,
                        username: username@,
                        password_hash: password_hash@,
                        role: role@,
                        created_at: created_at@,
                    },
                )
                &&& final(self)@.next_user_id == id as int + 1
            },
    {
        if !self.connected {
            return Err(not_connected_error());
        }
        if UserRole::from_str(role).is_none() {
            return Err(AppError { kind: ErrorKind::Validation, message: "Invalid role".to_string() });
        }
        if id < self.next_user_id {
            return Err(AppError {
                kind: ErrorKind::Conflict,
                message: "Account id is already used or out of order".to_string(),
            });
        }
        if id == i64::MAX {
            return Err(AppError {
                kind: ErrorKind::Internal,
                message: "Account id space exhausted".to_string(),
            });
        }
        let n = self.users.len();
        let mut i: usize = 0;
        while i < n
            invariant
                n == self.users.len(),
                i <= n,
                forall|j: int| 0 <= j < i ==> (#[trigger] self@.users[j]).username != username@,
            decreases n - i,
        {
            if str_eq(self.users[i].username.as_str(), username) {
                proof {
                    assert(self@.users[i as int].username == username@);
                    assert(has_username(old(self)@.users, username@));
                }
                return Err(AppError {
                    kind: ErrorKind::Conflict,
                    message: "Username already exists".to_string(),
                });
            }
            i += 1;
        }
        let user = User {
            id,
            username: username.to_owned(),
            password_hash: password_hash.to_owned(),
            role: role.to_owned(),
            created_at: created_at.to_owned(),
        };
        self.users.push(user);
        self.next_user_id = id + 1;
        proof {
            assert(self@.users =~= old(self)@.users.push(
                UserV {
                    id: id as int,
                    username: username@,
                    password_hash: password_hash@,
                    role: role@,
                    created_at: created_at@,
                },
            ));
        }
        Ok(())
    }

    /// Re-inserts a card under its persisted store-assigned id, as
    /// reloading an existing backing file does; rows must arrive in
    /// ascending id order, gaps included, and the counter advances
    /// past the id.
    #[verifier::loop_isolation(false)]
    pub fn restore_control_card(
        &mut self,
        id: i64,
        card_number: i32,
        year: i32,
        executor: &str,
        reporter: &str,
        summary: &str,
        document_reference: &str,
        user_id: Option<i64>,
        executor_user_id: Option<i64>,
        return_to: Option<&str>,
        execution_deadline: Option<&str>,
        execution_period_type: Option<&str>,
        extended_deadline: Option<&str>,
        resolution: Option<&str>,
        department: Option<&str>,
        controller: Option<&str>,
        controller_user_id: Option<i64>,
        created_at: &str,
    ) -> (r: Result<(), AppError>)
        requires
            old(self)@.wf(),
        ensures
            final(self)@.wf(),
            final(self)@.connected == old(self)@.connected,
            final(self)@.path == old(self)@.path,
            final(self)@.users == old(self)@.users,
            final(self)@.next_user_id == old(self)@.next_user_id,
            r is Err ==> final(self)@ == old(self)@,
            !old(self)@.connected ==> (r matches Err(e) && e.kind == ErrorKind::StoreUnavailable),
            old(self)@.connected && (id as int) < old(self)@.next_card_id ==> (r matches Err(e)
                && e.kind == ErrorKind::Conflict),
            old(self)@.connected && (id as int) >= old(self)@.next_card_id && id == i64::MAX ==> (
            r matches Err(e) && e.kind == ErrorKind::Internal),
            old(self)@.connected && (id as int) >= old(self)@.next_card_id && id < i64::MAX
                && has_card_key(old(self)@.cards, year as int, card_number as int) ==> (r matches
            Err(e) && e.kind == ErrorKind::Conflict),
            old(self)@.connected && (id as int) >= old(self)@.next_card_id && id < i64::MAX
                && !has_card_key(old(self)@.cards, year as int, card_number as int) ==> {
                &&& r is Ok
                &&& final(self)@.next_card_id == id as int + 1
                &&& exists|k: int|
                    0 <= k <= old(self)@.cards.len() && final(self)@.cards == #[trigger] old(
                        self,
                    )@.cards.insert(
                        k,
                        (CardRowV {
                            creator_user_id: opt_int(user_id),
                            card: (CardV {
                                id: id as int,
                                card_number: card_number as int,
                                year: year as int,
                                executor: executor@,
                                reporter: reporter@,
                                summary: summary@,
                                document_reference: document_reference@,
                                executor_user_id: opt_int(executor_user_id),
                                created_at: created_at@,
                                return_to: opt_str_text(return_to),
                                execution_deadline: opt_str_text(execution_deadline),
                                execution_period_type: opt_str_text(execution_period_type),
                                extended_deadline: opt_str_text(extended_deadline),
                                resolution: opt_str_text(resolution),
                                department: opt_str_text(department),
                                controller: opt_str_text(controller),
                                controller_user_id: opt_int(controller_user_id),
                            }),
                        }),
                    )
            },
    {
        if !self.connected {
            return Err(not_connected_error());
        }
        if id < self.next_card_id {
            return Err(AppError {
                kind: ErrorKind::Conflict,
                message: "Card id is already used or out of order".to_string(),
            });
        }
        if id == i64::MAX {
            return Err(AppError {
                kind: ErrorKind::Internal,
                message: "Card id space exhausted".to_string(),
            });
        }
        let n = self.cards.len();
        let mut i: usize = 0;
        while i < n
            invariant
                n == self.cards.len(),
                i <= n,
                forall|j: int|
                    0 <= j < i ==> !((#[trigger] self@.cards[j]).card.year == year as int
                        && self@.cards[j].card.card_number == card_number as int),
            decreases n - i,
        {
            if self.cards[i].card.year == year && self.cards[i].card.card_number == card_number {
                proof {
                    assert(self@.cards[i as int].card.year == year as int);
                    assert(self@.cards[i as int].card.card_number == card_number as int);
                    assert(has_card_key(old(self)@.cards, year as int, card_number as int));
                }
                return Err(AppError {
                    kind: ErrorKind::Conflict,
                    message: "A card with this number already exists for the year".to_string(),
                });
            }
            i += 1;
        }
        let row = CardRow {
            creator_user_id: user_id,
            card: ControlCard {
                id,
                card_number,
                year,
                executor: executor.to_owned(),
                reporter: reporter.to_owned(),
                summary: summary.to_owned(),
                document_reference: document_reference.to_owned(),
                executor_user_id,
                created_at: created_at.to_owned(),
                return_to: opt_owned(return_to),
                execution_deadline: opt_owned(execution_deadline),
                execution_period_type: opt_owned(execution_period_type),
                extended_deadline: opt_owned(extended_deadline),
                resolution: opt_owned(resolution),
                department: opt_owned(department),
                controller: opt_owned(controller),
                controller_user_id,
            },
        };
        let ghost rowv = row@;
        insert_sorted(&mut self.cards, row);
        self.next_card_id = id + 1;
        proof {
            let oldc = old(self)@.cards;
            let newc = self@.cards;
            let k = choose|k: int| 0 <= k <= oldc.len() && newc == #[trigger] oldc.insert(k, rowv);
            assert(self@.users == old(self)@.users);
            assert(newc[k] == rowv);
            assert(rowv.card.id == id as int);
            assert forall|a: int| 0 <= a < newc.len() implies 1 <= (#[trigger] newc[a]).card.id
                < self@.next_card_id by {
                if a != k {
                    let a0: int = if a < k {
                        a
                    } else {
                        a - 1
                    };
                    assert(newc[a] == oldc[a0]);
                }
            }
            assert forall|a: int, b: int|
                0 <= a < newc.len() && 0 <= b < newc.len() && a != b implies (
            #[trigger] newc[a]).card.id != (#[trigger] newc[b]).card.id by {
                let a0: int = if a < k {
                    a
                } else {
                    a - 1
                };
                let b0: int = if b < k {
                    b
                } else {
                    b - 1
                };
                if a != k && b != k {
                    assert(newc[a] == oldc[a0]);
                    assert(newc[b] == oldc[b0]);
                    assert(oldc[a0].card.id != oldc[b0].card.id);
                } else if a == k {
                    assert(newc[b] == oldc[b0]);
                    assert(oldc[b0].card.id < id as int);
                } else {
                    assert(newc[a] == oldc[a0]);
                    assert(oldc[a0].card.id < id as int);
                }
            }
        }
        Ok(())
    }
}

/// When a year's cards carry exactly the numbers 1 up to n —
/// sequential numbering with no gaps introduced manually — the
/// largest number is n, so the next suggested card number after n
/// successful creations is n + 1.
pub proof fn lemma_sequential_numbers_suggest_next(cards: Seq<CardRowV>, year: int, n: int)
    requires
        1 <= n,
        forall|k: int| 1 <= k <= n ==> #[trigger] year_has_number(cards, year, k),
        forall|i: int|
            0 <= i < cards.len() && (#[trigger] cards[i]).card.year == year ==> 1
                <= cards[i].card.card_number <= n,
    ensures
        has_card_for_year(cards, year),
        is_max_card_number(cards, year, n),
{
    assert(year_has_number(cards, year, n));
}

/// A sequence of reported cards in strictly descending
/// (year, card_number) order.
pub open spec fn views_newest_first(s: Seq<CardV>) -> bool {
    forall|a: int, b: int| #![trigger s[a], s[b]]
        0 <= a < b < s.len() ==> card_above(s[a], s[b])
}

proof fn lemma_filter_keeps_order(s: Seq<CardV>, pred: spec_fn(CardV) -> bool)
    requires
        views_newest_first(s),
    ensures
        views_newest_first(s.filter(pred)),
        forall|j: int|
            0 <= j < s.filter(pred).len() ==> exists|i: int|
                0 <= i < s.len() && s[i] == #[trigger] s.filter(pred)[j],
    decreases s.len(),
{
    reveal(Seq::filter);
    if s.len() > 0 {
        let d = s.drop_last();
        assert(views_newest_first(d));
        lemma_filter_keeps_order(d, pred);
        let df = d.filter(pred);
        let sf = s.filter(pred);
        assert forall|j: int| 0 <= j < sf.len() implies exists|i: int|
            0 <= i < s.len() && s[i] == #[trigger] sf[j] by {
            if j < df.len() {
                assert(sf[j] == df[j]);
                let i = choose|i: int| 0 <= i < d.len() && d[i] == df[j];
                assert(s[i] == sf[j]);
            } else {
                assert(s[s.len() - 1] == sf[j]);
            }
        }
        assert forall|a: int, b: int| 0 <= a < b < sf.len() implies card_above(
            (#[trigger] sf[a]),
            (#[trigger] sf[b]),
        ) by {
            if b < df.len() {
                assert(sf[a] == df[a]);
                assert(sf[b] == df[b]);
            } else {
                assert(pred(s.last()) && b == df.len() && sf[b] == s.last());
                assert(sf[a] == df[a]);
                let i = choose|i: int| 0 <= i < d.len() && d[i] == df[a];
                assert(card_above(s[i], s[s.len() - 1]));
            }
        }
    }
}

/// Every role-scoped listing keeps the newest-first order: the full
/// card listing is strictly descending by (year, card_number), and so
/// is any filtered selection of it, such as the subset a "user" role
/// caller receives.
pub proof fn lemma_listing_newest_first(cards: Seq<CardRowV>, pred: spec_fn(CardV) -> bool)
    requires
        sorted_cards(cards),
    ensures
        views_newest_first(cards_public(cards)),
        views_newest_first(cards_public(cards).filter(pred)),
{
    assert forall|a: int, b: int| 0 <= a < b < cards_public(cards).len() implies card_above(
        (#[trigger] cards_public(cards)[a]),
        (#[trigger] cards_public(cards)[b]),
    ) by {
        assert(cards_public(cards)[a] == cards[a].card);
        assert(cards_public(cards)[b] == cards[b].card);
    }
    lemma_filter_keeps_order(cards_public(cards), pred);
}

/// One step of the additive migration of the control-cards table: a
/// column name and its SQL type.
pub struct ColumnDef {
    pub name: String,
    pub column_type: String,
}

impl DeepView for ColumnDef {
    type V = (Seq<char>, Seq<char>);

    open spec fn deep_view(&self) -> (Seq<char>, Seq<char>) {
        (self.name@, self.column_type@)
    }
}

/// The declared additive migration steps, in the order they are
/// applied: the workflow columns added to the control-cards table
/// after its first shape. Migration only ever adds columns.
pub open spec fn declared_migrations() -> Seq<(Seq<char>, Seq<char>)> {
    seq![
        ("user_id"@, "INTEGER"@),
        ("executor_user_id"@, "INTEGER"@),
        ("return_to"@, "TEXT"@),
        ("execution_deadline"@, "TEXT"@),
        ("execution_period_type"@, "TEXT"@),
        ("extended_deadline"@, "TEXT"@),
        ("resolution"@, "TEXT"@),
        ("department"@, "TEXT"@),
        ("controller"@, "TEXT"@),
        ("controller_user_id"@, "INTEGER"@),
    ]
}

/// Whether a column name occurs among the existing column names.
pub open spec fn column_present(existing: Seq<Seq<char>>, name: Seq<char>) -> bool {
    exists|i: int| 0 <= i < existing.len() && existing[i] == name
}

/// A declared column is pending when the existing table lacks it.
pub open spec fn pending_pred(existing: Seq<Seq<char>>) -> spec_fn((Seq<char>, Seq<char>)) -> bool {
    |p: (Seq<char>, Seq<char>)| !column_present(existing, p.0)
}

#[verifier::loop_isolation(false)]
fn column_listed(existing: &Vec<String>, name: &str) -> (r: bool)
    ensures
        r == column_present(existing.deep_view(), name@),
{
    let n = existing.len();
    let mut i: usize = 0;
    while i < n
        invariant
            n == existing.len(),
            i <= n,
            forall|j: int| 0 <= j < i ==> (#[trigger] existing.deep_view()[j]) != name@,
        decreases n - i,
    {
        if str_eq(existing[i].as_str(), name) {
            proof {
                assert(existing.deep_view()[i as int] == name@);
            }
            return true;
        }
        i += 1;
    }
    false
}

/// The migration steps still to apply against a control-cards table
/// whose existing columns are given: every declared column the table
/// lacks, in declared order. A table created fresh in the same call
/// already has every current column, so nothing is pending for it.
#[verifier::loop_isolation(false)]
pub fn pending_migrations(table_existed: bool, existing: &Vec<String>) -> (r: Vec<ColumnDef>)
    ensures
        !table_existed ==> r.deep_view().len() == 0,
        table_existed ==> r.deep_view() == declared_migrations().filter(
            pending_pred(existing.deep_view()),
        ),
{
    let mut out: Vec<ColumnDef> = Vec::new();
    if !table_existed {
        return out;
    }
    let mut decl: Vec<ColumnDef> = Vec::new();
    decl.push(ColumnDef { name: "user_id".to_string(), column_type: "INTEGER".to_string() });
    decl.push(
        ColumnDef { name: "executor_user_id".to_string(), column_type: "INTEGER".to_string() },
    );
    decl.push(ColumnDef { name: "return_to".to_string(), column_type: "TEXT".to_string() });
    decl.push(
        ColumnDef { name: "execution_deadline".to_string(), column_type: "TEXT".to_string() },
    );
    decl.push(
        ColumnDef { name: "execution_period_type".to_string(), column_type: "TEXT".to_string() },
    );
    decl.push(ColumnDef { name: "extended_deadline".to_string(), column_type: "TEXT".to_string() });
    decl.push(ColumnDef { name: "resolution".to_string(), column_type: "TEXT".to_string() });
    decl.push(ColumnDef { name: "department".to_string(), column_type: "TEXT".to_string() });
    decl.push(ColumnDef { name: "controller".to_string(), column_type: "TEXT".to_string() });
    decl.push(
        ColumnDef { name: "controller_user_id".to_string(), column_type: "INTEGER".to_string() },
    );
    proof {
        assert(decl.deep_view() =~= declared_migrations());
    }
    let ghost pred = pending_pred(existing.deep_view());
    let m = decl.len();
    let mut i: usize = 0;
    while i < m
        invariant
            m == decl.len(),
            i <= m,
            decl.deep_view() == declared_migrations(),
            out.deep_view() == declared_migrations().subrange(0, i as int).filter(
                pending_pred(existing.deep_view()),
            ),
        decreases m - i,
    {
        let ghost prefix = declared_migrations().subrange(0, i as int);
        let ghost prev = out.deep_view();
        let cd = &decl[i];
        if !column_listed(existing, cd.name.as_str()) {
            out.push(ColumnDef { name: cd.name.clone(), column_type: cd.column_type.clone() });
            proof {
                assert(out.deep_view() =~= prev.push(decl.deep_view()[i as int]));
            }
        }
        proof {
            assert(declared_migrations().subrange(0, i + 1) =~= prefix + seq![
                declared_migrations()[i as int],
            ]);
            lemma_filter_one_more(prefix, declared_migrations()[i as int], pred);
        }
        i += 1;
    }
    proof {
        assert(declared_migrations().subrange(0, m as int) =~= declared_migrations());
    }
    out
}

} // verus!
