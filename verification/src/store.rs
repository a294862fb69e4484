//! The user table as the library sees it: the statement that reads it, the
//! rows that come back, and the user records made of them.

use vstd::prelude::*;
use crate::dn::{extract_uid, uid_of};

verus! {

/// Why the store gave no rows.
#[derive(Clone, Debug, PartialEq, Eq)]
pub enum StoreError {
    /// The store could not be opened; the cause in words.
    Unavailable(String),
    /// The query could not be run; the cause in words.
    QueryFailed(String),
}

/// One row of the user table, column by column.
#[derive(Clone, Debug, PartialEq, Eq)]
pub struct StoredRow {
    pub dn: String,
    pub passhash: String,
    pub maysearch: i64,
    pub given_name: String,
    pub surname: String,
    pub email: String,
}

/// One user: a row together with the identifier that its name gives.
#[derive(Clone, Debug, PartialEq, Eq)]
pub struct UserDef {
    pub uid: String,
    pub dn: String,
    pub passhash: String,
    pub maysearch: i64,
    pub email: String,
    pub given_name: String,
    pub surname: String,
}

/// What to ask of the store: the key, and whether the name column must equal
/// it (`exact`) or match it as a pattern.
#[derive(Clone, Debug, PartialEq, Eq)]
pub struct StoreQuery {
    pub key: String,
    pub exact: bool,
}

/// The location of the user table.
#[derive(Clone, Debug)]
pub struct Database {
    pub path: String,
}

/// A row as plain values.
pub struct RowView {
    pub dn: Seq<char>,
    pub passhash: Seq<char>,
    pub maysearch: int,
    pub given_name: Seq<char>,
    pub surname: Seq<char>,
    pub email: Seq<char>,
}

/// A user as plain values.
pub struct UserView {
    pub uid: Seq<char>,
    pub dn: Seq<char>,
    pub passhash: Seq<char>,
    pub maysearch: int,
    pub email: Seq<char>,
    pub given_name: Seq<char>,
    pub surname: Seq<char>,
}

/// A query as plain values.
pub struct QueryView {
    pub key: Seq<char>,
    pub exact: bool,
}

impl View for StoredRow {
    type V = RowView;

    open spec fn view(&self) -> RowView {
        RowView {
            dn: self.dn@,
            passhash: self.passhash@,
            maysearch: self.maysearch as int,
            given_name: self.given_name@,
            surname: self.surname@,
            email: self.email@,
        }
    }
}

impl View for UserDef {
    type V = UserView;

    open spec fn view(&self) -> UserView {
        UserView {
            uid: self.uid@,
            dn: self.dn@,
            passhash: self.passhash@,
            maysearch: self.maysearch as int,
            email: self.email@,
            given_name: self.given_name@,
            surname: self.surname@,
        }
    }
}

impl View for StoreQuery {
    type V = QueryView;

    open spec fn view(&self) -> QueryView {
        QueryView { key: self.key@, exact: self.exact }
    }
}

/// The rows of a vector as plain values.
pub open spec fn rows_view(rows: Seq<StoredRow>) -> Seq<RowView> {
    rows.map_values(|r: StoredRow| r@)
}

/// The users of a vector as plain values.
pub open spec fn users_view(users: Seq<UserDef>) -> Seq<UserView> {
    users.map_values(|u: UserDef| u@)
}

/// What was fetched, as plain values.
pub open spec fn fetched_view(fetched: Result<Vec<UserDef>, String>) -> Result<
    Seq<UserView>,
    Seq<char>,
> {
    match fetched {
        Ok(users) => Ok(users_view(users@)),
        Err(msg) => Err(msg@),
    }
}

/// The user that a row stands for whose name has a user identifier.
pub open spec fn user_of(row: RowView) -> UserView {
    UserView {
        uid: uid_of(row.dn)->0,
        dn: row.dn,
        passhash: row.passhash,
        maysearch: row.maysearch,
        email: row.email,
        given_name: row.given_name,
        surname: row.surname,
    }
}

/// The users of the rows whose name has a user identifier (it is well-formed
/// and has exactly one `uid` component, anywhere in it), in the order of the
/// rows; the other rows are left out.
pub open spec fn users_of(rows: Seq<RowView>) -> Seq<UserView>
    decreases rows.len(),
{
    if rows.len() == 0 {
        Seq::empty()
    } else if uid_of(rows.last().dn) is Some {
        users_of(rows.drop_last()).push(user_of(rows.last()))
    } else {
        users_of(rows.drop_last())
    }
}

/// The statement that reads the user table, by the way the key is held
/// against the name column.
pub open spec fn statement_text(exact: bool) -> Seq<char> {
    if exact {
        "select * from users where userbase=?"@
    } else {
        "select * from users where userbase like ?"@
    }
}

/// The words for a store failure.
pub open spec fn error_text(e: StoreError) -> Seq<char> {
    match e {
        StoreError::Unavailable(cause) => "Unable to open filepath: "@ + cause@,
        StoreError::QueryFailed(cause) => "Unable to query the user table: "@ + cause@,
    }
}

impl StoreError {
    /// The failure in words.
    pub fn message(&self) -> (r: String)
        ensures
            r@ == error_text(*self),
    {
        match self {
            StoreError::Unavailable(cause) => {
                let mut msg = String::from_str("Unable to open filepath: ");
                msg.append(cause.as_str());
                msg
            },
            StoreError::QueryFailed(cause) => {
                let mut msg = String::from_str("Unable to query the user table: ");
                msg.append(cause.as_str());
                msg
            },
        }
    }
}

impl Database {
    /// A database at the given path. Nothing is opened.
    pub fn new(dbpath: &str) -> (db: Database)
        ensures
            db.path@ == dbpath@,
    {
        Database { path: String::from_str(dbpath) }
    }

    /// The statement to prepare for a query; the key is bound to its one
    /// parameter.
    pub fn statement(exact: bool) -> (r: String)
        ensures
            r@ == statement_text(exact),
    {
        if exact {
            String::from_str("select * from users where userbase=?")
        } else {
            String::from_str("select * from users where userbase like ?")
        }
    }

    /// Turns what the store gave for a query into users. A failure becomes
    /// its message. Of the rows, those whose name has exactly one `uid`
    /// component become users, in order; a row whose name is malformed, has
    /// no such component or has several is dropped.
    pub fn search_user(&self, fetched: Result<Vec<StoredRow>, StoreError>) -> (r: Result<
        Vec<UserDef>,
        String,
    >)
        ensures
            match fetched {
                Ok(rows) => r is Ok && users_view(r->Ok_0@) == users_of(rows_view(rows@)),
                Err(e) => r is Err && r->Err_0@ == error_text(e),
            },
    {
        let rows = match fetched {
            Ok(rows) => rows,
            Err(e) => {
                return Err(e.message());
            },
        };
        let mut res: Vec<UserDef> = Vec::new();
        let mut i: usize = 0;
        proof {
            assert(rows_view(rows@).take(0) =~= Seq::<RowView>::empty());
            assert(users_view(res@) =~= Seq::<UserView>::empty());
        }
        while i < rows.len()
            invariant
                i <= rows.len(),
                users_view(res@) == users_of(rows_view(rows@).take(i as int)),
            decreases rows.len() - i,
        {
            let row = &rows[i];
            proof {
                let all = rows_view(rows@);
                assert(all.take(i + 1).drop_last() =~= all.take(i as int));
                assert(all.take(i + 1).last() == row@);
            }
            match extract_uid(row.dn.as_str()) {
                Ok(uid) => {
                    let user = UserDef {
                        uid,
                        dn: row.dn.clone(),
                        passhash: row.passhash.clone(),
                        maysearch: row.maysearch,
                        email: row.email.clone(),
                        given_name: row.given_name.clone(),
                        surname: row.surname.clone(),
                    };
                    proof {
                        assert(user@ == user_of(row@));
                        assert(users_view(res@.push(user)) =~= users_view(res@).push(user@));
                    }
                    res.push(user);
                },
                Err(_) => {},
            }
            i += 1;
        }
        proof {
            assert(rows_view(rows@).take(i as int) =~= rows_view(rows@));
        }
        Ok(res)
    }
}

} // verus!
