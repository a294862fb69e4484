use ldap_gateway::dispatch::{next_step, respond, Request, Response, Step};
use ldap_gateway::filter::SearchFilter;
use ldap_gateway::session::{BindResult, LdapSession, Reply, ResultCode, SearchScope};
use ldap_gateway::store::{StoreQuery, UserDef};

fn bob() -> UserDef {
    UserDef {
        uid: "bob".to_string(),
        dn: "uid=bob,ou=people".to_string(),
        passhash: "cf83e1357eefb8bdf1542850d66d8007d620e4050b5715dc83f4a921d36ce9ce47d0d13c5d85f2b0ff8318d2877eec2f63b931bd47417a81a538327af927da3e".to_string(),
        maysearch: 1,
        email: "bob@example.org".to_string(),
        given_name: "Bob".to_string(),
        surname: "Stone".to_string(),
    }
}

#[test]
fn bind_request_looks_the_name_up() {
    let req = Request::SimpleBind { dn: "uid=bob,ou=people".to_string(), pw: "x".to_string() };
    assert_eq!(
        next_step(&req),
        Step::Lookup(StoreQuery { key: "uid=bob,ou=people".to_string(), exact: true })
    );
}

#[test]
fn malformed_requests_are_answered_without_the_store() {
    let bind = Request::SimpleBind { dn: "uid=bob ou=people".to_string(), pw: "x".to_string() };
    assert_eq!(next_step(&bind), Step::Respond);
    let search = Request::Search {
        base: "".to_string(),
        scope: SearchScope::Subtree,
        filter: SearchFilter::Unsupported,
    };
    assert_eq!(next_step(&search), Step::Respond);
    let mut s = LdapSession::new();
    assert_eq!(
        respond(&mut s, &bind, Ok(vec![])),
        Some(Response::Bind(BindResult {
            code: ResultCode::InvalidAttributeSyntax,
            message: "Bind string non-conformant".to_string(),
        }))
    );
    assert_eq!(
        respond(&mut s, &search, Ok(vec![])),
        Some(Response::Search(vec![Reply::Done(
            ResultCode::InvalidAttributeSyntax,
            "Search string non-conformant".to_string()
        )]))
    );
}

#[test]
fn search_request_looks_its_key_up() {
    let req = Request::Search {
        base: "ou=people".to_string(),
        scope: SearchScope::Subtree,
        filter: SearchFilter::Equality("uid".to_string(), "bob".to_string()),
    };
    assert_eq!(
        next_step(&req),
        Step::Lookup(StoreQuery { key: "uid=bob,ou=people".to_string(), exact: true })
    );
}

#[test]
fn whoami_is_answered_at_once() {
    assert_eq!(next_step(&Request::Whoami), Step::Respond);
    let mut s = LdapSession::new();
    assert_eq!(
        respond(&mut s, &Request::Whoami, Ok(vec![])),
        Some(Response::Whoami("dn: Anonymous".to_string()))
    );
}

#[test]
fn unbind_closes_quietly() {
    assert_eq!(next_step(&Request::Unbind), Step::Close);
    let mut s = LdapSession::new();
    assert_eq!(respond(&mut s, &Request::Unbind, Ok(vec![])), None);
    assert_eq!(s, LdapSession::new());
}

#[test]
fn undecodable_request_disconnects_with_a_notice() {
    assert_eq!(
        next_step(&Request::Undecodable),
        Step::Disconnect(ResultCode::Other, "Internal Server Error".to_string())
    );
    let mut s = LdapSession::new();
    assert_eq!(respond(&mut s, &Request::Undecodable, Ok(vec![])), None);
}

#[test]
fn a_connection_binds_then_searches_then_asks_who_it_is() {
    let mut s = LdapSession::new();
    let bind = Request::SimpleBind { dn: "uid=bob,ou=people".to_string(), pw: "".to_string() };
    let r = respond(&mut s, &bind, Ok(vec![bob()]));
    assert_eq!(
        r,
        Some(Response::Bind(BindResult { code: ResultCode::Success, message: String::new() }))
    );
    let search = Request::Search {
        base: "uid=bob,ou=people".to_string(),
        scope: SearchScope::Base,
        filter: SearchFilter::Unsupported,
    };
    match respond(&mut s, &search, Ok(vec![bob()])) {
        Some(Response::Search(replies)) => {
            assert_eq!(replies.len(), 2);
            assert_eq!(replies[1], Reply::Done(ResultCode::Success, String::new()));
        }
        other => panic!("unexpected answer {:?}", other),
    }
    assert_eq!(
        respond(&mut s, &Request::Whoami, Ok(vec![])),
        Some(Response::Whoami("dn: uid=bob,ou=people".to_string()))
    );
}
