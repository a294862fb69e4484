use ldap_gateway::filter::SearchFilter;
use ldap_gateway::session::{
    entry_for, Attribute, BindResult, LdapSession, Reply, ResultCode, SearchEntry, SearchScope,
};
use ldap_gateway::store::{Database, StoreQuery, StoredRow, UserDef};

const ABC_HEX: &str = "ddaf35a193617abacc417349ae20413112e6fa4e89a97ea20a9eeee64b55d39a2192992a274fc1a836ba3c23a3feebbd454d4423643ce80e2a9ac94fa54ca49f";
const EMPTY_HEX: &str = "cf83e1357eefb8bdf1542850d66d8007d620e4050b5715dc83f4a921d36ce9ce47d0d13c5d85f2b0ff8318d2877eec2f63b931bd47417a81a538327af927da3e";

fn user(uid: &str, base: &str, hash: &str, may: i64) -> UserDef {
    UserDef {
        uid: uid.to_string(),
        dn: format!("uid={},{}", uid, base),
        passhash: hash.to_string(),
        maysearch: may,
        email: format!("{}@example.org", uid),
        given_name: format!("G{}", uid),
        surname: format!("S{}", uid),
    }
}

fn eq(attr: &str, value: &str) -> SearchFilter {
    SearchFilter::Equality(attr.to_string(), value.to_string())
}

fn session(dn: &str, maysearch: bool) -> LdapSession {
    LdapSession { dn: dn.to_string(), maysearch }
}

fn done() -> Reply {
    Reply::Done(ResultCode::Success, String::new())
}

fn attr(name: &str, value: &str) -> Attribute {
    Attribute { atype: name.to_string(), vals: vec![value.to_string()] }
}

#[test]
fn fresh_session_is_anonymous() {
    let s = LdapSession::new();
    assert_eq!(s.dn, "Anonymous");
    assert!(!s.maysearch);
}

#[test]
fn whoami_reports_the_bound_name() {
    let mut s = LdapSession::new();
    assert_eq!(s.do_whoami(), "dn: Anonymous");
    let mut t = session("uid=alice,ou=people", true);
    assert_eq!(t.do_whoami(), "dn: uid=alice,ou=people");
    assert_eq!(t, session("uid=alice,ou=people", true));
}

#[test]
fn bind_query_is_an_exact_lookup() {
    assert_eq!(
        LdapSession::bind_query("uid=alice,ou=people"),
        Some(StoreQuery { key: "uid=alice,ou=people".to_string(), exact: true })
    );
    assert_eq!(LdapSession::bind_query("uid=alice, ou=people"), None);
    assert_eq!(LdapSession::bind_query(""), None);
}

#[test]
fn bind_succeeds_on_matching_digest() {
    let mut s = LdapSession::new();
    let users = vec![user("alice", "ou=people", ABC_HEX, 1)];
    let r = s.do_bind("uid=alice,ou=people", "abc", Ok(users));
    assert_eq!(r, BindResult { code: ResultCode::Success, message: String::new() });
    assert_eq!(s.dn, "uid=alice,ou=people");
    assert!(s.maysearch);
}

#[test]
fn bind_with_empty_credential_uses_its_digest() {
    let mut s = LdapSession::new();
    let users = vec![user("bob", "ou=people", EMPTY_HEX, 0)];
    let r = s.do_bind("uid=bob,ou=people", "", Ok(users));
    assert_eq!(r.code, ResultCode::Success);
    assert_eq!(s.dn, "uid=bob,ou=people");
    assert!(!s.maysearch);
}

#[test]
fn bind_fails_on_wrong_credential() {
    let mut s = LdapSession::new();
    let users = vec![user("alice", "ou=people", ABC_HEX, 1)];
    let r = s.do_bind("uid=alice,ou=people", "abd", Ok(users));
    assert_eq!(r, BindResult { code: ResultCode::InvalidCredentials, message: String::new() });
    assert_eq!(s, LdapSession::new());
}

#[test]
fn bind_does_not_take_the_plain_credential_for_the_digest() {
    let mut s = LdapSession::new();
    let users = vec![user("alice", "ou=people", "abc", 1)];
    let r = s.do_bind("uid=alice,ou=people", "abc", Ok(users));
    assert_eq!(r.code, ResultCode::InvalidCredentials);
}

#[test]
fn bind_fails_alike_on_missing_name() {
    let mut s = LdapSession::new();
    let missing = s.do_bind("uid=nobody,ou=people", "abc", Ok(vec![]));
    let wrong = s.do_bind(
        "uid=alice,ou=people",
        "wrong",
        Ok(vec![user("alice", "ou=people", ABC_HEX, 1)]),
    );
    assert_eq!(missing, wrong);
    assert_eq!(missing.code, ResultCode::InvalidCredentials);
    assert_eq!(s, LdapSession::new());
}

#[test]
fn bind_ignores_rows_under_another_name() {
    let mut s = LdapSession::new();
    let users = vec![user("mallory", "ou=people", ABC_HEX, 1)];
    let r = s.do_bind("uid=alice,ou=people", "abc", Ok(users));
    assert_eq!(r.code, ResultCode::InvalidCredentials);
    assert_eq!(s, LdapSession::new());
}

#[test]
fn bind_takes_the_first_matching_row() {
    let mut s = LdapSession::new();
    let users = vec![
        user("alice", "ou=people", "other", 1),
        user("alice", "ou=people", ABC_HEX, 0),
        user("alice", "ou=people", ABC_HEX, 1),
    ];
    let r = s.do_bind("uid=alice,ou=people", "abc", Ok(users));
    assert_eq!(r.code, ResultCode::Success);
    assert!(!s.maysearch);
}

#[test]
fn bind_overwrites_identity_and_flag() {
    let mut s = session("uid=root,ou=people", true);
    let r = s.do_bind("uid=bob,ou=people", "abc", Ok(vec![user("bob", "ou=people", ABC_HEX, 0)]));
    assert_eq!(r.code, ResultCode::Success);
    assert_eq!(s, session("uid=bob,ou=people", false));
    let r = s.do_bind("uid=eve,ou=people", "abc", Ok(vec![user("eve", "ou=people", ABC_HEX, -3)]));
    assert_eq!(r.code, ResultCode::Success);
    assert_eq!(s, session("uid=eve,ou=people", true));
}

#[test]
fn bind_rejects_malformed_name() {
    let mut s = LdapSession::new();
    let r = s.do_bind("uid=al ice", "abc", Ok(vec![user("al ice", "x", ABC_HEX, 1)]));
    assert_eq!(
        r,
        BindResult {
            code: ResultCode::InvalidAttributeSyntax,
            message: "Bind string non-conformant".to_string(),
        }
    );
    assert_eq!(s, LdapSession::new());
}

#[test]
fn bind_reports_store_failure() {
    let mut s = LdapSession::new();
    let r = s.do_bind("uid=alice,ou=people", "abc", Err("Unable to open filepath: gone".to_string()));
    assert_eq!(
        r,
        BindResult {
            code: ResultCode::OperationsError,
            message: "Unable to open filepath: gone".to_string(),
        }
    );
    assert_eq!(s, LdapSession::new());
}

#[test]
fn bind_with_hash_compares_the_given_digest() {
    let mut s = LdapSession::new();
    let users = vec![user("alice", "ou=people", "feed", 2)];
    let r = s.bind_with_hash("uid=alice,ou=people", &users, &"feed".to_string());
    assert_eq!(r.code, ResultCode::Success);
    assert_eq!(s, session("uid=alice,ou=people", true));
    let mut t = LdapSession::new();
    let r = t.bind_with_hash("uid=alice,ou=people", &users, &"beef".to_string());
    assert_eq!(r.code, ResultCode::InvalidCredentials);
    assert_eq!(t, LdapSession::new());
}

#[test]
fn entry_has_the_six_attributes() {
    let u = UserDef {
        uid: "alice".to_string(),
        dn: "uid=alice,ou=people".to_string(),
        passhash: "h".to_string(),
        maysearch: 1,
        email: "alice@example.org".to_string(),
        given_name: "Alice".to_string(),
        surname: "Liddell".to_string(),
    };
    assert_eq!(
        entry_for(&u),
        SearchEntry {
            dn: "uid=alice,ou=people".to_string(),
            attributes: vec![
                attr("objectClass", "users"),
                attr("cn", "Alice Liddell"),
                attr("uid", "alice"),
                attr("givenName", "Alice"),
                attr("surname", "Liddell"),
                attr("email", "alice@example.org"),
            ],
        }
    );
}

#[test]
fn search_query_for_base_that_names_a_user() {
    let q = LdapSession::search_query(
        "uid=carol,ou=people",
        SearchScope::Subtree,
        &eq("uid", "bob"),
    );
    assert_eq!(q, Some(StoreQuery { key: "uid=carol,ou=people".to_string(), exact: true }));
    let q = LdapSession::search_query(
        "uid=carol,ou=people",
        SearchScope::Base,
        &SearchFilter::Unsupported,
    );
    assert_eq!(q, Some(StoreQuery { key: "uid=carol,ou=people".to_string(), exact: true }));
}

#[test]
fn search_query_with_uid_from_filter() {
    let q = LdapSession::search_query("ou=people", SearchScope::Subtree, &eq("uid", "bob"));
    assert_eq!(q, Some(StoreQuery { key: "uid=bob,ou=people".to_string(), exact: true }));
}

#[test]
fn search_query_without_uid_depends_on_scope() {
    let f = SearchFilter::Unsupported;
    assert_eq!(
        LdapSession::search_query("ou=people", SearchScope::Subtree, &f),
        Some(StoreQuery { key: "uid=%,ou=people".to_string(), exact: false })
    );
    assert_eq!(
        LdapSession::search_query("ou=people", SearchScope::OneLevel, &f),
        Some(StoreQuery { key: "uid=%,ou=people".to_string(), exact: false })
    );
    assert_eq!(
        LdapSession::search_query("ou=people", SearchScope::Base, &f),
        Some(StoreQuery { key: "uid=%,ou=people".to_string(), exact: true })
    );
}

#[test]
fn search_query_rejects_malformed_base() {
    assert_eq!(
        LdapSession::search_query("ou=peo ple", SearchScope::Subtree, &eq("uid", "bob")),
        None
    );
}

#[test]
fn search_rejects_malformed_base() {
    let mut s = session("uid=root,ou=people", true);
    let r = s.do_search(
        ",ou=people",
        SearchScope::Subtree,
        &eq("uid", "bob"),
        Ok(vec![user("bob", "ou=people", "h", 0)]),
    );
    assert_eq!(
        r,
        vec![Reply::Done(
            ResultCode::InvalidAttributeSyntax,
            "Search string non-conformant".to_string()
        )]
    );
}

#[test]
fn search_reports_store_failure() {
    let mut s = session("uid=root,ou=people", true);
    let r = s.do_search(
        "ou=people",
        SearchScope::Subtree,
        &eq("uid", "bob"),
        Err("Unable to open filepath: gone".to_string()),
    );
    assert_eq!(
        r,
        vec![Reply::Done(ResultCode::OperationsError, "Internal Server Error".to_string())]
    );
}

#[test]
fn unprivileged_session_sees_only_itself() {
    let mut s = session("uid=alice,ou=people", false);
    let users = vec![
        user("alice", "ou=people", "h", 0),
        user("bob", "ou=people", "h", 0),
        user("carol", "ou=people", "h", 1),
    ];
    let r = s.do_search("ou=people", SearchScope::Subtree, &SearchFilter::Unsupported, Ok(users));
    assert_eq!(r, vec![Reply::Entry(entry_for(&user("alice", "ou=people", "h", 0))), done()]);
    let r = s.do_search(
        "ou=people",
        SearchScope::Subtree,
        &eq("uid", "bob"),
        Ok(vec![user("bob", "ou=people", "h", 0)]),
    );
    assert_eq!(r, vec![done()]);
    assert_eq!(s, session("uid=alice,ou=people", false));
}

#[test]
fn anonymous_session_sees_nothing() {
    let mut s = LdapSession::new();
    let users = vec![user("alice", "ou=people", "h", 0), user("bob", "ou=people", "h", 0)];
    let r = s.do_search("ou=people", SearchScope::Subtree, &SearchFilter::Unsupported, Ok(users));
    assert_eq!(r, vec![done()]);
}

#[test]
fn privileged_search_by_uid_when_present() {
    let mut s = session("uid=root,ou=people", true);
    let bob = user("bob", "ou=people", "h", 0);
    let r = s.do_search("ou=people", SearchScope::Subtree, &eq("uid", "bob"), Ok(vec![bob.clone()]));
    assert_eq!(r, vec![Reply::Entry(entry_for(&bob)), done()]);
}

#[test]
fn privileged_search_by_uid_when_absent() {
    let mut s = session("uid=root,ou=people", true);
    let r = s.do_search("ou=people", SearchScope::Subtree, &eq("uid", "bob"), Ok(vec![]));
    assert_eq!(r, vec![done()]);
}

#[test]
fn privileged_search_by_uid_holds_rows_to_the_key() {
    let mut s = session("uid=root,ou=people", true);
    let bob = user("bob", "ou=people", "h", 0);
    let users = vec![user("alice", "ou=people", "h", 0), bob.clone(), user("bob", "ou=staff", "h", 0)];
    let r = s.do_search("ou=people", SearchScope::Subtree, &eq("uid", "bob"), Ok(users));
    assert_eq!(r, vec![Reply::Entry(entry_for(&bob)), done()]);
}

#[test]
fn base_with_uid_ignores_the_filter() {
    let mut s = session("uid=root,ou=people", true);
    let carol = user("carol", "ou=people", "h", 0);
    let with_other = s.do_search(
        "uid=carol,ou=people",
        SearchScope::Subtree,
        &eq("uid", "bob"),
        Ok(vec![carol.clone()]),
    );
    let with_none = s.do_search(
        "uid=carol,ou=people",
        SearchScope::Subtree,
        &SearchFilter::Unsupported,
        Ok(vec![carol.clone()]),
    );
    assert_eq!(with_other, vec![Reply::Entry(entry_for(&carol)), done()]);
    assert_eq!(with_other, with_none);
}

#[test]
fn wildcard_search_keeps_direct_children_only() {
    let mut s = session("uid=root,ou=people", true);
    let alice = user("alice", "ou=people", "h", 0);
    let bob = user("bob", "ou=people", "h", 1);
    let users = vec![
        alice.clone(),
        user("deep", "ou=staff,ou=people", "h", 0),
        bob.clone(),
        user("other", "ou=groups", "h", 0),
    ];
    let r = s.do_search("ou=people", SearchScope::Subtree, &SearchFilter::Unsupported, Ok(users));
    assert_eq!(r, vec![Reply::Entry(entry_for(&alice)), Reply::Entry(entry_for(&bob)), done()]);
}

#[test]
fn wildcard_search_of_base_scope_finds_no_user() {
    let mut s = session("uid=root,ou=people", true);
    let users = vec![user("alice", "ou=people", "h", 0)];
    let r = s.do_search("ou=people", SearchScope::Base, &SearchFilter::Unsupported, Ok(users));
    assert_eq!(r, vec![done()]);
}

#[test]
fn search_ends_with_success_even_when_empty() {
    let mut s = session("uid=root,ou=people", true);
    let r = s.do_search("ou=people", SearchScope::Subtree, &SearchFilter::Unsupported, Ok(vec![]));
    assert_eq!(r, vec![done()]);
}

#[test]
fn repeated_search_gives_the_same_answer() {
    let mut s = session("uid=alice,ou=people", true);
    let users = vec![user("alice", "ou=people", "h", 0), user("bob", "ou=people", "h", 0)];
    let filter = SearchFilter::Or(vec![eq("cn", "x")]);
    let first = s.do_search("ou=people", SearchScope::Subtree, &filter, Ok(users.clone()));
    let second = s.do_search("ou=people", SearchScope::Subtree, &filter, Ok(users.clone()));
    assert_eq!(first, second);
    assert_eq!(first.len(), 3);
    assert_eq!(s, session("uid=alice,ou=people", true));
}

fn stored(dn: &str, hash: &str) -> StoredRow {
    StoredRow {
        dn: dn.to_string(),
        passhash: hash.to_string(),
        maysearch: 1,
        given_name: "G".to_string(),
        surname: "S".to_string(),
        email: "e".to_string(),
    }
}

#[test]
fn bind_succeeds_for_a_stored_name_with_the_uid_at_its_end() {
    let db = Database::new("x");
    let fetched = db.search_user(Ok(vec![stored("ou=x,uid=alice", ABC_HEX)]));
    let mut s = LdapSession::new();
    let r = s.do_bind("ou=x,uid=alice", "abc", fetched);
    assert_eq!(r, BindResult { code: ResultCode::Success, message: String::new() });
    assert_eq!(s, session("ou=x,uid=alice", true));
}

#[test]
fn bind_succeeds_for_a_stored_name_of_one_component() {
    let db = Database::new("x");
    let fetched = db.search_user(Ok(vec![stored("uid=alice", ABC_HEX)]));
    let mut s = LdapSession::new();
    let r = s.do_bind("uid=alice", "abc", fetched);
    assert_eq!(r.code, ResultCode::Success);
    assert_eq!(s.dn, "uid=alice");
}

#[test]
fn bind_is_refused_for_a_stored_name_without_one_uid() {
    let db = Database::new("x");
    let mut s = LdapSession::new();
    let fetched = db.search_user(Ok(vec![stored("ou=people", ABC_HEX)]));
    assert_eq!(s.do_bind("ou=people", "abc", fetched).code, ResultCode::InvalidCredentials);
    let fetched = db.search_user(Ok(vec![stored("uid=a,uid=b", ABC_HEX)]));
    assert_eq!(s.do_bind("uid=a,uid=b", "abc", fetched).code, ResultCode::InvalidCredentials);
    assert_eq!(s, LdapSession::new());
}
