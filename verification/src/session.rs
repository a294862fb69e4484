//! The session of one connection and the three operations it answers.

use vstd::prelude::*;
use crate::digest::{hash_password, sha512_hex};
use crate::dn::{
    direct_child, has_leading_uid, is_direct_child, is_well_formed, names_user, uid_prefix,
    well_formed,
};
use crate::filter::{filter_uid, is_sentinel, recurse_filters, sentinel, SearchFilter};
use crate::store::{fetched_view, users_view, QueryView, StoreQuery, UserDef, UserView};

verus! {

/// The result codes that the gateway answers with.
#[derive(Clone, Copy, PartialEq, Eq, Debug, Structural)]
pub enum ResultCode {
    Success,
    InvalidAttributeSyntax,
    InvalidCredentials,
    OperationsError,
    Other,
}

/// How far a search reaches below its base.
#[derive(Clone, Copy, PartialEq, Eq, Debug, Structural)]
pub enum SearchScope {
    /// The named entry only.
    Base,
    /// The entries directly below; treated as `Subtree`.
    OneLevel,
    /// The named entry and everything below it.
    Subtree,
}

/// The answer to a bind.
#[derive(Clone, Debug, PartialEq, Eq)]
pub struct BindResult {
    pub code: ResultCode,
    pub message: String,
}

/// One attribute of an entry, with its values.
#[derive(Clone, Debug, PartialEq, Eq)]
pub struct Attribute {
    pub atype: String,
    pub vals: Vec<String>,
}

/// One entry of a search result.
#[derive(Clone, Debug, PartialEq, Eq)]
pub struct SearchEntry {
    pub dn: String,
    pub attributes: Vec<Attribute>,
}

/// One message of the answer to a search.
#[derive(Clone, Debug, PartialEq, Eq)]
pub enum Reply {
    /// An entry that the session may see.
    Entry(SearchEntry),
    /// The end of the answer, with its code and message.
    Done(ResultCode, String),
}

/// The state of one connection: the name it is bound as, and whether it may
/// see entries other than its own.
#[derive(Clone, Debug, PartialEq, Eq)]
pub struct LdapSession {
    pub dn: String,
    pub maysearch: bool,
}

/// An attribute as plain values.
pub struct AttributeView {
    pub atype: Seq<char>,
    pub vals: Seq<Seq<char>>,
}

/// An entry as plain values.
pub struct EntryView {
    pub dn: Seq<char>,
    pub attributes: Seq<AttributeView>,
}

/// A reply as plain values.
pub enum ReplyView {
    Entry(EntryView),
    Done(ResultCode, Seq<char>),
}

/// A session as plain values.
pub struct SessionView {
    pub dn: Seq<char>,
    pub maysearch: bool,
}

impl View for Attribute {
    type V = AttributeView;

    open spec fn view(&self) -> AttributeView {
        AttributeView { atype: self.atype@, vals: self.vals@.map_values(|s: String| s@) }
    }
}

impl View for SearchEntry {
    type V = EntryView;

    open spec fn view(&self) -> EntryView {
        EntryView { dn: self.dn@, attributes: self.attributes@.map_values(|a: Attribute| a@) }
    }
}

impl View for Reply {
    type V = ReplyView;

    open spec fn view(&self) -> ReplyView {
        match self {
            Reply::Entry(e) => ReplyView::Entry(e@),
            Reply::Done(code, msg) => ReplyView::Done(*code, msg@),
        }
    }
}

impl View for LdapSession {
    type V = SessionView;

    open spec fn view(&self) -> SessionView {
        SessionView { dn: self.dn@, maysearch: self.maysearch }
    }
}

/// The replies of a vector as plain values.
pub open spec fn replies_view(replies: Seq<Reply>) -> Seq<ReplyView> {
    replies.map_values(|r: Reply| r@)
}

/// An attribute with a single value.
pub open spec fn one_value(atype: Seq<char>, value: Seq<char>) -> AttributeView {
    AttributeView { atype, vals: seq![value] }
}

/// The entry shown for a user: always the same six attributes.
pub open spec fn entry_of(u: UserView) -> EntryView {
    EntryView {
        dn: u.dn,
        attributes: seq![
            one_value("objectClass"@, "users"@),
            one_value("cn"@, u.given_name + " "@ + u.surname),
            one_value("uid"@, u.uid),
            one_value("givenName"@, u.given_name),
            one_value("surname"@, u.surname),
            one_value("email"@, u.email),
        ],
    }
}

/// The key that addresses the user `uid` directly below `base`.
pub open spec fn uid_key(uid: Seq<char>, base: Seq<char>) -> Seq<char> {
    uid_prefix() + uid + seq![','] + base
}

/// The search names no user: neither its base nor its filter gives one.
pub open spec fn wildcard_search(base: Seq<char>, filter: SearchFilter) -> bool {
    !has_leading_uid(base) && filter_uid(filter) == sentinel()
}

/// The query that a search makes. A base that names a user is looked up as it
/// is. Otherwise the identifier from the filter is put in front of the base;
/// where the filter gives none, the wildcard `%` stands in its place, and
/// only a search of `Base` scope still asks for equality.
pub open spec fn planned_query(base: Seq<char>, scope: SearchScope, filter: SearchFilter)
    -> QueryView {
    if has_leading_uid(base) {
        QueryView { key: base, exact: true }
    } else {
        QueryView {
            key: uid_key(filter_uid(filter), base),
            exact: filter_uid(filter) != sentinel() || scope == SearchScope::Base,
        }
    }
}

/// Whether a fetched user is shown to the session. The user must answer the
/// query: equal its key where the query is exact, and stand directly below
/// the base where the search names no user. A session that may not search
/// sees its own entry only.
pub open spec fn visible(
    u: UserView,
    s: SessionView,
    base: Seq<char>,
    scope: SearchScope,
    filter: SearchFilter,
) -> bool {
    let q = planned_query(base, scope, filter);
    &&& q.exact ==> u.dn == q.key
    &&& wildcard_search(base, filter) ==> direct_child(u.dn, base)
    &&& s.maysearch || u.dn == s.dn
}

/// The entries of the visible users, in the order fetched.
pub open spec fn visible_entries(
    users: Seq<UserView>,
    s: SessionView,
    base: Seq<char>,
    scope: SearchScope,
    filter: SearchFilter,
) -> Seq<ReplyView>
    decreases users.len(),
{
    if users.len() == 0 {
        Seq::empty()
    } else if visible(users.last(), s, base, scope, filter) {
        visible_entries(users.drop_last(), s, base, scope, filter).push(
            ReplyView::Entry(entry_of(users.last())),
        )
    } else {
        visible_entries(users.drop_last(), s, base, scope, filter)
    }
}

/// The whole answer to a search: one refusal for a malformed base or a store
/// failure; otherwise the visible entries and a closing success.
pub open spec fn search_replies(
    s: SessionView,
    base: Seq<char>,
    scope: SearchScope,
    filter: SearchFilter,
    fetched: Result<Seq<UserView>, Seq<char>>,
) -> Seq<ReplyView> {
    if !well_formed(base) {
        seq![ReplyView::Done(ResultCode::InvalidAttributeSyntax, "Search string non-conformant"@)]
    } else {
        match fetched {
            Err(_) => seq![ReplyView::Done(ResultCode::OperationsError, "Internal Server Error"@)],
            Ok(users) => visible_entries(users, s, base, scope, filter).push(
                ReplyView::Done(ResultCode::Success, Seq::empty()),
            ),
        }
    }
}

/// The row carries the requested name and the digest of the credential.
pub open spec fn credentials_match(u: UserView, dn: Seq<char>, hash: Seq<char>) -> bool {
    u.dn == dn && u.passhash == hash
}

/// Some fetched row matches.
pub open spec fn bind_granted(users: Seq<UserView>, dn: Seq<char>, hash: Seq<char>) -> bool {
    exists|i: int| 0 <= i < users.len() && credentials_match(#[trigger] users[i], dn, hash)
}

/// Row `i` is the first that matches.
pub open spec fn first_match(users: Seq<UserView>, dn: Seq<char>, hash: Seq<char>, i: int)
    -> bool {
    &&& 0 <= i < users.len()
    &&& credentials_match(users[i], dn, hash)
    &&& forall|j: int| 0 <= j < i ==> !credentials_match(#[trigger] users[j], dn, hash)
}

/// What a bind against fetched rows comes to, given the digest of the
/// credential. It succeeds exactly when some row matches; the session is then
/// bound as the requested name, with the flag of the first matching row
/// (any value but zero allows searching). Otherwise the credentials are
/// refused and the session stays as it was.
pub open spec fn bind_decided(
    before: SessionView,
    after: SessionView,
    code: ResultCode,
    message: Seq<char>,
    dn: Seq<char>,
    users: Seq<UserView>,
    hash: Seq<char>,
) -> bool {
    &&& message == Seq::<char>::empty()
    &&& (code == ResultCode::Success) == bind_granted(users, dn, hash)
    &&& bind_granted(users, dn, hash) ==> after.dn == dn && exists|i: int|
        #[trigger] first_match(users, dn, hash, i) && after.maysearch == (users[i].maysearch != 0)
    &&& !bind_granted(users, dn, hash) ==> code == ResultCode::InvalidCredentials && after
        == before
}

/// The whole outcome of a bind: a malformed name is refused before anything
/// else, a store failure is reported with its message, and otherwise the rows
/// decide.
pub open spec fn bind_outcome(
    before: SessionView,
    after: SessionView,
    code: ResultCode,
    message: Seq<char>,
    dn: Seq<char>,
    fetched: Result<Seq<UserView>, Seq<char>>,
    hash: Seq<char>,
) -> bool {
    if !well_formed(dn) {
        &&& code == ResultCode::InvalidAttributeSyntax
        &&& message == "Bind string non-conformant"@
        &&& after == before
    } else {
        match fetched {
            Err(cause) => {
                &&& code == ResultCode::OperationsError
                &&& message == cause
                &&& after == before
            },
            Ok(users) => bind_decided(before, after, code, message, dn, users, hash),
        }
    }
}

/// An attribute with one value.
fn attribute(atype: &str, value: String) -> (a: Attribute)
    ensures
        a@ == one_value(atype@, value@),
{
    let mut vals: Vec<String> = Vec::new();
    vals.push(value);
    proof {
        assert(vals@.map_values(|s: String| s@) =~= seq![value@]);
    }
    Attribute { atype: String::from_str(atype), vals }
}

/// The entry shown for a user.
pub fn entry_for(user: &UserDef) -> (e: SearchEntry)
    ensures
        e@ == entry_of(user@),
{
    let mut cn = user.given_name.clone();
    cn.append(" ");
    cn.append(user.surname.as_str());
    let mut attributes: Vec<Attribute> = Vec::new();
    attributes.push(attribute("objectClass", String::from_str("users")));
    attributes.push(attribute("cn", cn));
    attributes.push(attribute("uid", user.uid.clone()));
    attributes.push(attribute("givenName", user.given_name.clone()));
    attributes.push(attribute("surname", user.surname.clone()));
    attributes.push(attribute("email", user.email.clone()));
    proof {
        assert(attributes@.map_values(|a: Attribute| a@) =~= entry_of(user@).attributes);
    }
    SearchEntry { dn: user.dn.clone(), attributes }
}

/// The query of a search and whether the search names no user.
fn plan_search(base: &str, scope: SearchScope, filter: &SearchFilter) -> (r: (StoreQuery, bool))
    ensures
        r.0@ == planned_query(base@, scope, *filter),
        r.1 == wildcard_search(base@, *filter),
{
    if names_user(base) {
        return (StoreQuery { key: String::from_str(base), exact: true }, false);
    }
    let tuname = recurse_filters(filter);
    let wildcard = is_sentinel(&tuname);
    let mut key = String::from_str("uid=");
    proof {
        reveal_strlit("uid=");
        reveal_strlit(",");
        assert("uid="@ =~= uid_prefix());
        assert(","@ =~= seq![',']);
    }
    key.append(tuname.as_str());
    key.append(",");
    key.append(base);
    let exact = !wildcard || scope == SearchScope::Base;
    (StoreQuery { key, exact }, wildcard)
}

impl LdapSession {
    /// The session of a fresh connection: bound as `Anonymous`, and not
    /// allowed to search.
    pub fn new() -> (s: LdapSession)
        ensures
            s@.dn == "Anonymous"@,
            !s@.maysearch,
    {
        LdapSession { dn: String::from_str("Anonymous"), maysearch: false }
    }

    /// The query that a bind as `dn` makes: an exact lookup of that name.
    /// A malformed name makes none.
    pub fn bind_query(dn: &str) -> (r: Option<StoreQuery>)
        ensures
            r is Some <==> well_formed(dn@),
            r is Some ==> r->0@ == (QueryView { key: dn@, exact: true }),
    {
        if is_well_formed(dn) {
            Some(StoreQuery { key: String::from_str(dn), exact: true })
        } else {
            None
        }
    }

    /// Decides a bind as `dn` from the fetched rows and the digest of the
    /// supplied credential, and binds the session where a row matches.
    pub fn bind_with_hash(&mut self, dn: &str, users: &Vec<UserDef>, passhex: &String) -> (r:
        BindResult)
        ensures
            bind_decided(
                old(self)@,
                final(self)@,
                r.code,
                r.message@,
                dn@,
                users_view(users@),
                passhex@,
            ),
    {
        let wanted = String::from_str(dn);
        let mut i: usize = 0;
        while i < users.len()
            invariant
                i <= users.len(),
                wanted@ == dn@,
                *self == *old(self),
                forall|j: int|
                    0 <= j < i ==> !credentials_match(
                        #[trigger] users_view(users@)[j],
                        dn@,
                        passhex@,
                    ),
            decreases users.len() - i,
        {
            let user = &users[i];
            assert(users_view(users@)[i as int] == user@);
            if user.dn == wanted && user.passhash == *passhex {
                self.dn = user.dn.clone();
                self.maysearch = user.maysearch != 0;
                proof {
                    assert(first_match(users_view(users@), dn@, passhex@, i as int));
                }
                return BindResult { code: ResultCode::Success, message: String::new() };
            }
            i += 1;
        }
        BindResult { code: ResultCode::InvalidCredentials, message: String::new() }
    }

    /// Answers a bind as `dn` with the credential `password`, given what the
    /// store returned for the query of `bind_query`.
    pub fn do_bind(&mut self, dn: &str, password: &str, fetched: Result<Vec<UserDef>, String>)
        -> (r: BindResult)
        ensures
            bind_outcome(
                old(self)@,
                final(self)@,
                r.code,
                r.message@,
                dn@,
                fetched_view(fetched),
                sha512_hex(password@),
            ),
    {
        if !is_well_formed(dn) {
            return BindResult {
                code: ResultCode::InvalidAttributeSyntax,
                message: String::from_str("Bind string non-conformant"),
            };
        }
        let users = match fetched {
            Ok(u) => u,
            Err(e) => {
                return BindResult { code: ResultCode::OperationsError, message: e };
            },
        };
        let passhex = hash_password(password);
        self.bind_with_hash(dn, &users, &passhex)
    }

    /// The query that a search makes. A malformed base makes none.
    pub fn search_query(base: &str, scope: SearchScope, filter: &SearchFilter) -> (r: Option<
        StoreQuery,
    >)
        ensures
            r is Some <==> well_formed(base@),
            r is Some ==> r->0@ == planned_query(base@, scope, *filter),
    {
        if !is_well_formed(base) {
            return None;
        }
        let plan = plan_search(base, scope, filter);
        Some(plan.0)
    }

    /// Answers a search, given what the store returned for the query of
    /// `search_query`. The session is left as it is.
    pub fn do_search(
        &mut self,
        base: &str,
        scope: SearchScope,
        filter: &SearchFilter,
        fetched: Result<Vec<UserDef>, String>,
    ) -> (r: Vec<Reply>)
        ensures
            replies_view(r@) == search_replies(
                old(self)@,
                base@,
                scope,
                *filter,
                fetched_view(fetched),
            ),
            *final(self) == *old(self),
    {
        let mut res: Vec<Reply> = Vec::new();
        if !is_well_formed(base) {
            res.push(
                Reply::Done(
                    ResultCode::InvalidAttributeSyntax,
                    String::from_str("Search string non-conformant"),
                ),
            );
            proof {
                assert(replies_view(res@) =~= search_replies(
                    old(self)@,
                    base@,
                    scope,
                    *filter,
                    fetched_view(fetched),
                ));
            }
            return res;
        }
        let plan = plan_search(base, scope, filter);
        let query = plan.0;
        let perform_tuname_check = plan.1;
        let users = match fetched {
            Ok(u) => u,
            Err(_) => {
                res.push(
                    Reply::Done(
                        ResultCode::OperationsError,
                        String::from_str("Internal Server Error"),
                    ),
                );
                proof {
                    assert(replies_view(res@) =~= search_replies(
                        old(self)@,
                        base@,
                        scope,
                        *filter,
                        fetched_view(fetched),
                    ));
                }
                return res;
            },
        };
        let ghost all = users_view(users@);
        let ghost sv = self@;
        let mut i: usize = 0;
        proof {
            assert(all.take(0) =~= Seq::<UserView>::empty());
            assert(replies_view(res@) =~= Seq::<ReplyView>::empty());
        }
        while i < users.len()
            invariant
                i <= users.len(),
                *self == *old(self),
                sv == self@,
                all == users_view(users@),
                query@ == planned_query(base@, scope, *filter),
                perform_tuname_check == wildcard_search(base@, *filter),
                replies_view(res@) == visible_entries(all.take(i as int), sv, base@, scope, *filter),
            decreases users.len() - i,
        {
            let user = &users[i];
            proof {
                assert(all.take(i + 1).drop_last() =~= all.take(i as int));
                assert(all.take(i + 1).last() == user@);
            }
            let answers = !query.exact || user.dn == query.key;
            let below = !perform_tuname_check || is_direct_child(user.dn.as_str(), base);
            let allowed = self.maysearch || self.dn == user.dn;
            if answers && below && allowed {
                let entry = Reply::Entry(entry_for(user));
                proof {
                    assert(replies_view(res@.push(entry)) =~= replies_view(res@).push(entry@));
                }
                res.push(entry);
            }
            i += 1;
        }
        let done = Reply::Done(ResultCode::Success, String::new());
        proof {
            assert(all.take(i as int) =~= all);
            assert(replies_view(res@.push(done)) =~= replies_view(res@).push(done@));
        }
        res.push(done);
        res
    }

    /// The name the session is bound as, in the form `dn: <name>`.
    pub fn do_whoami(&mut self) -> (r: String)
        ensures
            r@ == "dn: "@ + old(self)@.dn,
            *final(self) == *old(self),
    {
        let mut out = String::from_str("dn: ");
        out.append(self.dn.as_str());
        out
    }
}

} // verus!
