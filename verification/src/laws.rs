//! What holds of every bind and of every search, whatever the rows and the
//! filter.

use vstd::prelude::*;
use crate::dn::{has_leading_uid, uid_of, well_formed};
use crate::filter::{filter_uid, sentinel, SearchFilter};
use crate::session::{
    bind_granted, bind_outcome, credentials_match, entry_of, planned_query, search_replies, uid_key, visible, visible_entries,
    wildcard_search, LdapSession, ReplyView, ResultCode, SearchScope, SessionView,
};
use crate::store::{fetched_view, user_of, users_of, QueryView, RowView, UserDef, UserView};

verus! {

/// Some stored row carries the name and the digest, and its name has a user
/// identifier.
pub open spec fn stored_match(rows: Seq<RowView>, dn: Seq<char>, hash: Seq<char>) -> bool {
    exists|j: int|
        0 <= j < rows.len() && (#[trigger] rows[j]).dn == dn && rows[j].passhash == hash && uid_of(
            rows[j].dn,
        ) is Some
}

/// Among the users made of stored rows one matches exactly when one of the
/// rows does and has a user identifier.
pub proof fn lemma_granted_by_rows(rows: Seq<RowView>, dn: Seq<char>, hash: Seq<char>)
    ensures
        bind_granted(users_of(rows), dn, hash) == stored_match(rows, dn, hash),
    decreases rows.len(),
{
    if rows.len() > 0 {
        let front = rows.drop_last();
        let last = rows.last();
        lemma_granted_by_rows(front, dn, hash);
        let users = users_of(rows);
        let fu = users_of(front);
        if bind_granted(users, dn, hash) {
            let k = choose|k: int|
                0 <= k < users.len() && credentials_match(#[trigger] users[k], dn, hash);
            if k < fu.len() {
                assert(users[k] == fu[k]);
                assert(bind_granted(fu, dn, hash));
                let j = choose|j: int|
                    0 <= j < front.len() && (#[trigger] front[j]).dn == dn && front[j].passhash
                        == hash && uid_of(front[j].dn) is Some;
                assert(rows[j] == front[j]);
            } else {
                assert(users[k] == user_of(last));
                assert(rows[rows.len() - 1] == last);
            }
            assert(stored_match(rows, dn, hash));
        }
        if stored_match(rows, dn, hash) {
            let j = choose|j: int|
                0 <= j < rows.len() && (#[trigger] rows[j]).dn == dn && rows[j].passhash == hash
                    && uid_of(rows[j].dn) is Some;
            if j < front.len() {
                assert(front[j] == rows[j]);
                assert(stored_match(front, dn, hash));
                let k = choose|k: int|
                    0 <= k < fu.len() && credentials_match(#[trigger] fu[k], dn, hash);
                assert(users[k] == fu[k]);
            } else {
                assert(users == fu.push(user_of(last)));
                assert(credentials_match(users[fu.len() as int], dn, hash));
            }
            assert(bind_granted(users, dn, hash));
        }
    }
}

/// A bind under a well-formed name, answered by the store with the rows it
/// holds under that name, succeeds exactly when one of those rows carries
/// the requested name and the digest of the credential, and its name has a
/// user identifier. Where the requested name has one, that last condition
/// falls away: the bind succeeds exactly when a stored row carries the name
/// and the digest. Every other such bind is refused as invalid credentials,
/// with no message and the session untouched, whether the name was missing
/// or the credential wrong.
pub proof fn law_bind_succeeds_iff_row_matches(
    before: SessionView,
    after: SessionView,
    code: ResultCode,
    message: Seq<char>,
    dn: Seq<char>,
    rows: Seq<RowView>,
    hash: Seq<char>,
)
    requires
        well_formed(dn),
        bind_outcome(before, after, code, message, dn, Ok(users_of(rows)), hash),
    ensures
        (code == ResultCode::Success) == stored_match(rows, dn, hash),
        uid_of(dn) is Some ==> (code == ResultCode::Success) == (exists|j: int|
            0 <= j < rows.len() && (#[trigger] rows[j]).dn == dn && rows[j].passhash == hash),
        code == ResultCode::Success ==> after.dn == dn,
        code != ResultCode::Success ==> code == ResultCode::InvalidCredentials && message
            == Seq::<char>::empty() && after == before,
{
    lemma_granted_by_rows(rows, dn, hash);
}

/// Every reply before the closing one is an entry of a fetched user that the
/// session may see.
pub proof fn lemma_entries_are_visible(
    users: Seq<UserView>,
    s: SessionView,
    base: Seq<char>,
    scope: SearchScope,
    filter: SearchFilter,
)
    ensures
        visible_entries(users, s, base, scope, filter).len() <= users.len(),
        forall|k: int|
            0 <= k < visible_entries(users, s, base, scope, filter).len() ==> exists|i: int|
                0 <= i < users.len() && visible(#[trigger] users[i], s, base, scope, filter)
                    && (#[trigger] visible_entries(users, s, base, scope, filter)[k])
                    == ReplyView::Entry(entry_of(users[i])),
    decreases users.len(),
{
    if users.len() > 0 {
        let front = users.drop_last();
        lemma_entries_are_visible(front, s, base, scope, filter);
        let shown = visible_entries(users, s, base, scope, filter);
        let before = visible_entries(front, s, base, scope, filter);
        assert forall|k: int| 0 <= k < shown.len() implies exists|i: int|
            0 <= i < users.len() && visible(#[trigger] users[i], s, base, scope, filter)
                && (#[trigger] shown[k]) == ReplyView::Entry(entry_of(users[i])) by {
            if k < before.len() {
                let i = choose|i: int|
                    0 <= i < front.len() && visible(#[trigger] front[i], s, base, scope, filter)
                        && before[k] == ReplyView::Entry(entry_of(front[i]));
                assert(front[i] == users[i]);
                assert(shown[k] == before[k]);
            } else {
                let i = users.len() - 1;
                assert(visible(users[i], s, base, scope, filter));
                assert(shown[k] == ReplyView::Entry(entry_of(users[i])));
            }
        }
    }
}

/// Where no fetched user is visible, a search answers with nothing.
pub proof fn lemma_none_visible(
    users: Seq<UserView>,
    s: SessionView,
    base: Seq<char>,
    scope: SearchScope,
    filter: SearchFilter,
)
    requires
        forall|i: int| 0 <= i < users.len() ==> !visible(#[trigger] users[i], s, base, scope, filter),
    ensures
        visible_entries(users, s, base, scope, filter) == Seq::<ReplyView>::empty(),
    decreases users.len(),
{
    if users.len() > 0 {
        let front = users.drop_last();
        assert forall|i: int| 0 <= i < front.len() implies !visible(
            #[trigger] front[i],
            s,
            base,
            scope,
            filter,
        ) by {
            assert(front[i] == users[i]);
        }
        lemma_none_visible(front, s, base, scope, filter);
        assert(!visible(users[users.len() - 1], s, base, scope, filter));
    }
}

/// A session that may not search is never shown an entry under a name other
/// than the one it is bound as, whatever the base, the scope, the filter and
/// the rows.
pub proof fn law_unprivileged_sees_only_self(
    s: SessionView,
    base: Seq<char>,
    scope: SearchScope,
    filter: SearchFilter,
    fetched: Result<Seq<UserView>, Seq<char>>,
)
    requires
        !s.maysearch,
    ensures
        forall|k: int|
            0 <= k < search_replies(s, base, scope, filter, fetched).len() ==> match (
            #[trigger] search_replies(s, base, scope, filter, fetched)[k]) {
                ReplyView::Entry(e) => e.dn == s.dn,
                ReplyView::Done(_, _) => true,
            },
{
    let replies = search_replies(s, base, scope, filter, fetched);
    if well_formed(base) && fetched is Ok {
        let users = fetched->Ok_0;
        let shown = visible_entries(users, s, base, scope, filter);
        lemma_entries_are_visible(users, s, base, scope, filter);
        assert forall|k: int| 0 <= k < replies.len() implies match (#[trigger] replies[k]) {
            ReplyView::Entry(e) => e.dn == s.dn,
            ReplyView::Done(_, _) => true,
        } by {
            if k < shown.len() {
                assert(replies[k] == shown[k]);
                let i = choose|i: int|
                    0 <= i < users.len() && visible(#[trigger] users[i], s, base, scope, filter)
                        && shown[k] == ReplyView::Entry(entry_of(users[i]));
                assert(entry_of(users[i]).dn == users[i].dn);
            }
        }
    }
}

/// A session that may search, with a base that names no user and a filter
/// that asks for `uid`, looks that user up directly below the base: the
/// query is exact, a fetched user is shown exactly when it carries that name,
/// and every entry in the answer carries it.
pub proof fn law_privileged_search_by_uid(
    s: SessionView,
    base: Seq<char>,
    scope: SearchScope,
    filter: SearchFilter,
    users: Seq<UserView>,
)
    requires
        s.maysearch,
        well_formed(base),
        !has_leading_uid(base),
        filter_uid(filter) != sentinel(),
    ensures
        planned_query(base, scope, filter) == (QueryView {
            key: uid_key(filter_uid(filter), base),
            exact: true,
        }),
        forall|u: UserView|
            #[trigger] visible(u, s, base, scope, filter) == (u.dn == uid_key(
                filter_uid(filter),
                base,
            )),
        forall|k: int|
            0 <= k < visible_entries(users, s, base, scope, filter).len() ==> match (
            #[trigger] visible_entries(users, s, base, scope, filter)[k]) {
                ReplyView::Entry(e) => e.dn == uid_key(filter_uid(filter), base),
                ReplyView::Done(_, _) => false,
            },
        search_replies(s, base, scope, filter, Ok(users)) == visible_entries(
            users,
            s,
            base,
            scope,
            filter,
        ).push(ReplyView::Done(ResultCode::Success, Seq::empty())),
{
    let shown = visible_entries(users, s, base, scope, filter);
    lemma_entries_are_visible(users, s, base, scope, filter);
    assert forall|k: int| 0 <= k < shown.len() implies match (#[trigger] shown[k]) {
        ReplyView::Entry(e) => e.dn == uid_key(filter_uid(filter), base),
        ReplyView::Done(_, _) => false,
    } by {
        let i = choose|i: int|
            0 <= i < users.len() && visible(#[trigger] users[i], s, base, scope, filter)
                && shown[k] == ReplyView::Entry(entry_of(users[i]));
        assert(entry_of(users[i]).dn == users[i].dn);
    }
}

/// With such a search, where no fetched user carries the name asked for, the
/// answer is the closing success alone.
pub proof fn law_privileged_search_absent(
    s: SessionView,
    base: Seq<char>,
    scope: SearchScope,
    filter: SearchFilter,
    users: Seq<UserView>,
)
    requires
        s.maysearch,
        well_formed(base),
        !has_leading_uid(base),
        filter_uid(filter) != sentinel(),
        forall|i: int|
            0 <= i < users.len() ==> (#[trigger] users[i]).dn != uid_key(filter_uid(filter), base),
    ensures
        search_replies(s, base, scope, filter, Ok(users)) == seq![
            ReplyView::Done(ResultCode::Success, Seq::empty()),
        ],
{
    lemma_none_visible(users, s, base, scope, filter);
    assert(Seq::<ReplyView>::empty().push(ReplyView::Done(ResultCode::Success, Seq::empty()))
        =~= seq![ReplyView::Done(ResultCode::Success, Seq::empty())]);
}

/// With such a search, where the one fetched user carries the name asked
/// for, the answer is that user's entry and the closing success.
pub proof fn law_privileged_search_present(
    s: SessionView,
    base: Seq<char>,
    scope: SearchScope,
    filter: SearchFilter,
    user: UserView,
)
    requires
        s.maysearch,
        well_formed(base),
        !has_leading_uid(base),
        filter_uid(filter) != sentinel(),
        user.dn == uid_key(filter_uid(filter), base),
    ensures
        search_replies(s, base, scope, filter, Ok(seq![user])) == seq![
            ReplyView::Entry(entry_of(user)),
            ReplyView::Done(ResultCode::Success, Seq::empty()),
        ],
{
    let users = seq![user];
    assert(users.drop_last() =~= Seq::<UserView>::empty());
    assert(users.last() == user);
    assert(visible_entries(users.drop_last(), s, base, scope, filter) =~= Seq::<
        ReplyView,
    >::empty());
    assert(visible_entries(users, s, base, scope, filter) =~= seq![
        ReplyView::Entry(entry_of(user)),
    ]);
    assert(seq![ReplyView::Entry(entry_of(user))].push(
        ReplyView::Done(ResultCode::Success, Seq::empty()),
    ) =~= seq![
        ReplyView::Entry(entry_of(user)),
        ReplyView::Done(ResultCode::Success, Seq::empty()),
    ]);
}

/// The user is that of one of the rows, and the name of that row has a user
/// identifier.
pub open spec fn made_of_a_row(rows: Seq<RowView>, u: UserView) -> bool {
    exists|j: int|
        0 <= j < rows.len() && uid_of((#[trigger] rows[j]).dn) is Some && u == user_of(rows[j])
}

/// Every user made of stored rows is the user of one of those rows.
pub proof fn lemma_users_come_from_rows(rows: Seq<RowView>)
    ensures
        users_of(rows).len() <= rows.len(),
        forall|k: int|
            0 <= k < users_of(rows).len() ==> made_of_a_row(rows, #[trigger] users_of(rows)[k]),
    decreases rows.len(),
{
    if rows.len() > 0 {
        let front = rows.drop_last();
        lemma_users_come_from_rows(front);
        let users = users_of(rows);
        let before = users_of(front);
        assert forall|k: int| 0 <= k < users.len() implies made_of_a_row(
            rows,
            #[trigger] users[k],
        ) by {
            if k < before.len() {
                assert(users[k] == before[k]);
                assert(made_of_a_row(front, before[k]));
                let j = choose|j: int|
                    0 <= j < front.len() && uid_of((#[trigger] front[j]).dn) is Some && before[k]
                        == user_of(front[j]);
                assert(front[j] == rows[j]);
            } else {
                let j = rows.len() - 1;
                assert(uid_of(rows[j].dn) is Some);
                assert(users[k] == user_of(rows[j]));
            }
        }
    }
}

/// A search by a session that may search, for a `uid` below a base that
/// names no user, over a store whose rows do not hold the name asked for,
/// answers with the closing success alone.
pub proof fn law_privileged_search_absent_from_store(
    s: SessionView,
    base: Seq<char>,
    scope: SearchScope,
    filter: SearchFilter,
    rows: Seq<RowView>,
)
    requires
        s.maysearch,
        well_formed(base),
        !has_leading_uid(base),
        filter_uid(filter) != sentinel(),
        forall|j: int|
            0 <= j < rows.len() ==> (#[trigger] rows[j]).dn != uid_key(filter_uid(filter), base),
    ensures
        search_replies(s, base, scope, filter, Ok(users_of(rows))) == seq![
            ReplyView::Done(ResultCode::Success, Seq::empty()),
        ],
{
    lemma_users_come_from_rows(rows);
    let users = users_of(rows);
    assert forall|i: int| 0 <= i < users.len() implies (#[trigger] users[i]).dn != uid_key(
        filter_uid(filter),
        base,
    ) by {
        assert(made_of_a_row(rows, users[i]));
        let j = choose|j: int|
            0 <= j < rows.len() && uid_of((#[trigger] rows[j]).dn) is Some && users[i] == user_of(
                rows[j],
            );
        assert(user_of(rows[j]).dn == rows[j].dn);
    }
    law_privileged_search_absent(s, base, scope, filter, users);
}

/// Such a search over a store that holds one row under the name asked for,
/// a name with a user identifier, answers with that row's entry and the
/// closing success.
pub proof fn law_privileged_search_present_in_store(
    s: SessionView,
    base: Seq<char>,
    scope: SearchScope,
    filter: SearchFilter,
    row: RowView,
)
    requires
        s.maysearch,
        well_formed(base),
        !has_leading_uid(base),
        filter_uid(filter) != sentinel(),
        row.dn == uid_key(filter_uid(filter), base),
        uid_of(row.dn) is Some,
    ensures
        search_replies(s, base, scope, filter, Ok(users_of(seq![row]))) == seq![
            ReplyView::Entry(entry_of(user_of(row))),
            ReplyView::Done(ResultCode::Success, Seq::empty()),
        ],
{
    let rows = seq![row];
    assert(rows.drop_last() =~= Seq::<RowView>::empty());
    assert(rows.last() == row);
    assert(users_of(rows.drop_last()) =~= Seq::<UserView>::empty());
    assert(users_of(rows) =~= seq![user_of(row)]);
    law_privileged_search_present(s, base, scope, filter, user_of(row));
}

/// The entries shown do not depend on the filter where the base names a user.
proof fn lemma_filter_ignored(
    users: Seq<UserView>,
    s: SessionView,
    base: Seq<char>,
    scope: SearchScope,
    f1: SearchFilter,
    f2: SearchFilter,
)
    requires
        has_leading_uid(base),
    ensures
        visible_entries(users, s, base, scope, f1) == visible_entries(users, s, base, scope, f2),
    decreases users.len(),
{
    if users.len() > 0 {
        lemma_filter_ignored(users.drop_last(), s, base, scope, f1, f2);
    }
}

/// A search whose base names a user looks that name up exactly and does not
/// read the filter: any two filters give the same query and the same answer.
pub proof fn law_base_with_uid_ignores_filter(
    s: SessionView,
    base: Seq<char>,
    scope: SearchScope,
    f1: SearchFilter,
    f2: SearchFilter,
    fetched: Result<Seq<UserView>, Seq<char>>,
)
    requires
        has_leading_uid(base),
    ensures
        planned_query(base, scope, f1) == (QueryView { key: base, exact: true }),
        planned_query(base, scope, f1) == planned_query(base, scope, f2),
        !wildcard_search(base, f1),
        search_replies(s, base, scope, f1, fetched) == search_replies(s, base, scope, f2, fetched),
{
    if fetched is Ok {
        lemma_filter_ignored(fetched->Ok_0, s, base, scope, f1, f2);
    }
}

/// The answer to a search is decided by what the session, the request and
/// the fetched rows hold: two sessions with the same contents, asked the same
/// thing over the same rows, answer alike.
pub proof fn law_search_repeatable(
    first: LdapSession,
    second: LdapSession,
    base: Seq<char>,
    scope: SearchScope,
    filter: SearchFilter,
    fetched_first: Result<Vec<UserDef>, String>,
    fetched_second: Result<Vec<UserDef>, String>,
)
    requires
        first@ == second@,
        fetched_view(fetched_first) == fetched_view(fetched_second),
    ensures
        search_replies(first@, base, scope, filter, fetched_view(fetched_first)) == search_replies(
            second@,
            base,
            scope,
            filter,
            fetched_view(fetched_second),
        ),
{
}

} // verus!
