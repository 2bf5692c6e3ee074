use argon2::password_hash::{PasswordHash, PasswordHasher, PasswordVerifier, SaltString};
use argon2::Argon2;
use sonium::control::users::{
    token_hash, verify_ws_ticket_claims, WsTicketClaims, AuthError, Claims, RevocationList, Role, TicketTable, User, UserTable, WsTicketIssueError,
    WS_TICKET_TTL_MS,
};

const NOW_SECS: usize = 1_700_000_000;
const NOW_MS: i64 = 1_700_000_000_000;

fn table_with_admin() -> UserTable {
    let mut t = UserTable::new();
    t.create_user_internal("admin", "admin-password", Role::Admin, true).unwrap().unwrap();
    t
}

#[test]
fn test_raw_argon2_logic() {
    let password = "testpassword123";
    let salt = SaltString::generate(&mut rand::rngs::OsRng);
    let argon2 = Argon2::default();
    let hash = argon2.hash_password(password.as_bytes(), &salt).unwrap().to_string();

    let parsed_hash = PasswordHash::new(&hash).unwrap();
    assert!(argon2.verify_password(password.as_bytes(), &parsed_hash).is_ok());
}

#[test]
fn initial_admin_password_authenticates() {
    let t = table_with_admin();
    assert_eq!(t.all_users().len(), 1);
    let admin = &t.all_users()[0];
    assert_eq!(admin.username, "admin");
    assert!(admin.must_change_password);
    assert!(t.authenticate("admin", "admin-password").is_some());
    assert!(t.authenticate("admin", "wrong").is_none());
    assert!(t.authenticate("nobody", "admin-password").is_none());
    assert!(!t.is_setup_needed());
    assert!(UserTable::new().is_setup_needed());
}

#[test]
fn duplicate_username_is_refused() {
    let mut t = table_with_admin();
    let alice = t.create_user("alice", "pw", Role::Viewer).unwrap().unwrap();
    assert_eq!(alice.id.len(), 36);
    assert!(t.create_user("alice", "other", Role::Admin).unwrap().is_none());
    assert_eq!(t.all_users().len(), 2);
}

#[test]
fn password_change_invalidates_existing_tokens() {
    let mut t = table_with_admin();
    let user = t.create_user("alice", "initial-password", Role::Viewer).unwrap().unwrap();
    let claims = UserTable::claims_for(&t.authenticate("alice", "initial-password").unwrap(), 1, NOW_SECS);
    assert!(t.claims_current(&claims));
    assert!(t.update_user(&user.id, None, Some("new-password")).unwrap());
    assert!(!t.claims_current(&claims));
    assert!(t.authenticate("alice", "new-password").is_some());
    assert!(t.authenticate("alice", "initial-password").is_none());
}

#[test]
fn role_change_invalidates_existing_tokens() {
    let mut t = table_with_admin();
    let user = t.create_user("alice", "alice-password", Role::Viewer).unwrap().unwrap();
    let claims = UserTable::claims_for(&t.authenticate("alice", "alice-password").unwrap(), 1, NOW_SECS);
    assert!(t.update_user(&user.id, Some(Role::Viewer), None).unwrap());
    assert!(t.claims_current(&claims), "an unchanged role keeps sessions");
    assert!(t.update_user(&user.id, Some(Role::Operator), None).unwrap());
    assert!(!t.claims_current(&claims));
    assert_eq!(t.get_user(&user.id).unwrap().role, Role::Operator);
}

#[test]
fn deleted_user_tokens_are_invalidated() {
    let mut t = table_with_admin();
    let user = t.create_user("alice", "alice-password", Role::Viewer).unwrap().unwrap();
    let claims = UserTable::claims_for(&t.authenticate("alice", "alice-password").unwrap(), 1, NOW_SECS);
    assert!(t.delete_user(&user.id));
    assert!(!t.claims_current(&claims));
    assert!(!t.delete_user(&user.id));
}

#[test]
fn last_admin_cannot_be_deleted() {
    let mut t = table_with_admin();
    let admin_id = t.all_users()[0].id.clone();
    assert!(!t.delete_user(&admin_id));
    let second = t.create_user("root2", "pw", Role::Admin).unwrap().unwrap();
    assert!(t.delete_user(&admin_id));
    assert!(!t.delete_user(&second.id));
}

#[test]
fn session_version_exhaustion_rejects_the_update_without_invalidating_tokens() {
    let mut t = table_with_admin();
    let user = t.create_user("alice", "pw", Role::Viewer).unwrap().unwrap();
    let mut records = t.records();
    for r in records.iter_mut() {
        if r.id == user.id {
            r.session_version = u64::MAX;
        }
    }
    let mut t = UserTable::from_records(records, &Some("secret".into())).unwrap();
    let claims = UserTable::claims_for(&t.authenticate("alice", "pw").unwrap(), 1, NOW_SECS);
    assert!(matches!(
        t.update_user(&user.id, Some(Role::Operator), None),
        Err(AuthError::SessionVersionExhausted)
    ));
    assert!(t.claims_current(&claims));
    assert_eq!(t.get_user(&user.id).unwrap().role, Role::Viewer);
}

fn file_error(records: Vec<User>, secret: Option<String>) -> String {
    match UserTable::from_records(records, &secret) {
        Err(AuthError::InvalidFile(m)) => m,
        Err(other) => panic!("unexpected {other:?}"),
        Ok(_) => panic!("accepted"),
    }
}

#[test]
fn accounts_file_checks() {
    let mut t = table_with_admin();
    t.create_user("alice", "pw", Role::Viewer).unwrap().unwrap();
    let good = t.records();
    assert!(UserTable::from_records(t.records(), &None).is_ok());
    assert_eq!(file_error(t.records(), Some(String::new())), "users file contains an empty JWT secret");
    assert_eq!(file_error(vec![], None), "users file contains no accounts");

    let mut dup_name = t.records();
    dup_name[1].username = "admin".into();
    assert_eq!(file_error(dup_name, None), "users file contains duplicate usernames");

    let mut bad_hash = t.records();
    bad_hash[1].password_hash = "not a hash".into();
    assert_eq!(file_error(bad_hash, None), "users file contains an invalid password hash");

    let mut wrong_alg = t.records();
    wrong_alg[1].password_hash = wrong_alg[1].password_hash.replacen("$argon2id$", "$argon2i$", 1);
    assert_eq!(file_error(wrong_alg, None), "users file contains an unsupported password hash algorithm");

    let mut dup_id = t.records();
    dup_id[1].id = dup_id[0].id.clone();
    assert_eq!(file_error(dup_id, None), "users file contains duplicate user IDs");

    let only_viewer: Vec<User> = good.into_iter().filter(|u| u.role != Role::Admin).collect();
    assert_eq!(file_error(only_viewer, None), "users file contains no admin account");
}

#[test]
fn revoked_tokens_are_recognised() {
    let mut r = RevocationList::new();
    assert!(!r.is_revoked("token-a"));
    r.revoke("token-a");
    assert!(r.is_revoked("token-a"));
    assert!(!r.is_revoked("token-b"));
}

#[test]
fn websocket_ticket_expires_and_is_consumed_once() {
    let mut users = table_with_admin();
    let alice = users.create_user("alice", "pw", Role::Viewer).unwrap().unwrap();
    let _ = alice;
    let revoked = RevocationList::new();
    let mut tickets = TicketTable::new();
    let claims = UserTable::claims_for(&users.authenticate("alice", "pw").unwrap(), 1, NOW_SECS);

    let ticket = tickets.issue(Some(claims), "digest".into(), NOW_MS, WS_TICKET_TTL_MS).unwrap();
    assert_eq!(ticket.len(), 48);
    assert!(ticket.chars().all(|c| c.is_ascii_alphanumeric()));
    assert!(tickets.consume(&ticket, NOW_MS + 1, NOW_SECS, &users, &revoked).is_some());
    assert!(tickets.consume(&ticket, NOW_MS + 2, NOW_SECS, &users, &revoked).is_none());

    let claims = UserTable::claims_for(&users.authenticate("alice", "pw").unwrap(), 1, NOW_SECS);
    let ticket = tickets.issue(Some(claims), "digest".into(), NOW_MS, WS_TICKET_TTL_MS).unwrap();
    assert!(tickets.consume(&ticket, NOW_MS + WS_TICKET_TTL_MS, NOW_SECS, &users, &revoked).is_none());

    assert_eq!(
        tickets.issue(None, "digest".into(), NOW_MS, WS_TICKET_TTL_MS),
        Err(WsTicketIssueError::InvalidToken)
    );
}

#[test]
fn websocket_ticket_is_invalidated_when_its_session_changes() {
    let mut users = table_with_admin();
    let alice = users.create_user("alice", "pw", Role::Viewer).unwrap().unwrap();
    let revoked = RevocationList::new();
    let mut tickets = TicketTable::new();
    let claims = UserTable::claims_for(&users.authenticate("alice", "pw").unwrap(), 1, NOW_SECS);
    let ticket = tickets.issue(Some(claims), "digest".into(), NOW_MS, WS_TICKET_TTL_MS).unwrap();
    assert!(users.update_user(&alice.id, Some(Role::Operator), None).unwrap());
    assert!(tickets.consume(&ticket, NOW_MS + 1, NOW_SECS, &users, &revoked).is_none());
}

#[test]
fn ticket_claims_reject_expiry_and_revocation() {
    let mut users = table_with_admin();
    users.create_user("alice", "pw", Role::Viewer).unwrap().unwrap();
    let mut revoked = RevocationList::new();
    let mut tickets = TicketTable::new();
    let claims = UserTable::claims_for(&users.authenticate("alice", "pw").unwrap(), 1, NOW_SECS);
    revoked.revoke("the-token");
    let ticket = tickets.issue(Some(claims), "digest".into(), NOW_MS, WS_TICKET_TTL_MS).unwrap();
    let admitted = tickets.consume(&ticket, NOW_MS + 1, NOW_SECS, &users, &revoked).unwrap();
    assert!(verify_ws_ticket_claims(&users, &revoked, &admitted, NOW_SECS + 3_599));
    assert!(!verify_ws_ticket_claims(&users, &revoked, &admitted, NOW_SECS + 3_600));
}

#[test]
fn ticket_capacity_is_bounded() {
    let claims = || Claims {
        sub: "id".into(),
        username: "alice".into(),
        role: "viewer".into(),
        must_change_password: false,
        session_version: 0,
        exp: NOW_SECS + 3_600,
    };
    let mut tickets = TicketTable::new();
    for _ in 0..1024 {
        tickets.issue(Some(claims()), "d".into(), NOW_MS, WS_TICKET_TTL_MS).unwrap();
    }
    assert_eq!(
        tickets.issue(Some(claims()), "d".into(), NOW_MS, WS_TICKET_TTL_MS),
        Err(WsTicketIssueError::CapacityExceeded)
    );
    // Once they expire there is room again.
    assert!(tickets.issue(Some(claims()), "d".into(), NOW_MS + WS_TICKET_TTL_MS, WS_TICKET_TTL_MS).is_ok());
}

#[test]
fn token_digest_is_sha256_hex() {
    assert_eq!(
        sonium::control::users::token_hash("abc"),
        "ba7816bf8f01cfea414140de5dae2223b00361a396177a9cb410ff61f20015ad"
    );
    let secret = sonium::control::users::generate_secret();
    assert_eq!(secret.len(), 64);
}

#[test]
fn consumed_ticket_returns_the_stored_session() {
    let mut users = table_with_admin();
    users.create_user("alice", "pw", Role::Viewer).unwrap().unwrap();
    let revoked = RevocationList::new();
    let mut tickets = TicketTable::new();
    let claims = UserTable::claims_for(&users.authenticate("alice", "pw").unwrap(), 1, NOW_SECS);
    let sub = claims.sub.clone();
    let digest = token_hash("alice-token");
    let ticket = tickets.issue(Some(claims), digest.clone(), NOW_MS, WS_TICKET_TTL_MS).unwrap();
    let admitted = tickets.consume(&ticket, NOW_MS + 1, NOW_SECS, &users, &revoked).unwrap();
    assert_eq!(admitted.claims.sub, sub);
    assert_eq!(admitted.claims.username, "alice");
    assert_eq!(admitted.token_hash, digest);
    assert_eq!(admitted.expires_at_ms, NOW_MS + WS_TICKET_TTL_MS);
}

#[test]
fn ticket_of_a_revoked_token_admits_nothing() {
    let mut users = table_with_admin();
    users.create_user("alice", "pw", Role::Viewer).unwrap().unwrap();
    let mut revoked = RevocationList::new();
    let mut tickets = TicketTable::new();
    let claims = UserTable::claims_for(&users.authenticate("alice", "pw").unwrap(), 1, NOW_SECS);
    let ticket = tickets.issue(Some(claims), token_hash("alice-token"), NOW_MS, WS_TICKET_TTL_MS).unwrap();
    revoked.revoke("alice-token");
    assert!(tickets.consume(&ticket, NOW_MS + 1, NOW_SECS, &users, &revoked).is_none());
}

#[test]
fn ticket_is_inserted_only_when_fresh() {
    let users = table_with_admin();
    let claims = || UserTable::claims_for(&users.authenticate("admin", "admin-password").unwrap(), 1, NOW_SECS);
    let mut tickets = TicketTable::new();
    let entry = || WsTicketClaims { claims: claims(), token_hash: "d".into(), expires_at_ms: NOW_MS + 10 };
    assert!(tickets.insert_if_fresh("fixed-ticket".into(), entry()));
    assert!(!tickets.insert_if_fresh("fixed-ticket".into(), entry()));
    let revoked = RevocationList::new();
    assert!(tickets.consume("fixed-ticket", NOW_MS, NOW_SECS, &users, &revoked).is_some());
    assert!(tickets.consume("fixed-ticket", NOW_MS, NOW_SECS, &users, &revoked).is_none());
}

#[test]
fn new_and_changed_passwords_authenticate() {
    let mut users = table_with_admin();
    let bob = users.create_user("bob", "first-pass", Role::Operator).unwrap().unwrap();
    assert!(users.authenticate("bob", "first-pass").is_some());
    assert!(users.authenticate("bob", "other").is_none());
    assert!(users.update_user(&bob.id, None, Some("second-pass")).unwrap());
    assert!(users.authenticate("bob", "second-pass").is_some());
    assert!(users.authenticate("bob", "first-pass").is_none());
}
