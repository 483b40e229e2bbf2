use accounts::account::{Account, House, Permission, UserAttributes, UserVerifyVariant};
use accounts::email::Email;
use accounts::error::Error;
use accounts::manager::{AccountManager, ManagerError};
use accounts::verify::{Context, Tokens};
use std::collections::hash_map::DefaultHasher;
use std::hash::{Hash, Hasher};
use std::str::FromStr;

const START: i64 = 1_700_000_000;

fn email(text: &str) -> Email {
    Email::parse(text).expect("a valid address")
}

fn attributes(address: &str, password: &str, days: u16) -> UserAttributes {
    UserAttributes {
        email: email(address),
        name: "Yang".to_string(),
        school_id: 2522000,
        phone: 13800000000,
        house: Some(House::GeWu),
        organization: Some("Robotics".to_string()),
        permissions: vec![Permission::View, Permission::Post],
        registration_time: START,
        password_sha: sha256::digest(password),
        token_expiration_time: days,
    }
}

fn code_of(manager: &AccountManager, id: u64) -> u32 {
    match manager.lookup(id).expect("registered") {
        Account::Unverified(cxt) => cxt.code,
        Account::Verified { verify: UserVerifyVariant::ForgetPassword(cxt), .. } => cxt.code,
        _ => panic!("no code pending"),
    }
}

fn registered(manager: &mut AccountManager, address: &str) -> u64 {
    manager.register(email(address), START).expect("registered").0
}

fn activated(manager: &mut AccountManager, address: &str, password: &str, days: u16) -> u64 {
    let id = registered(manager, address);
    let code = code_of(manager, id);
    manager.activate(id, code, attributes(address, password, days), START).expect("activated");
    id
}

fn lettre_hash(address: &str) -> u64 {
    let parsed = lettre::Address::from_str(address).unwrap();
    let mut hasher = DefaultHasher::new();
    parsed.hash(&mut hasher);
    hasher.finish()
}

#[test]
fn example_register_activate_login_logout() {
    let mut manager = AccountManager::new();
    let id = registered(&mut manager, "a@pkuschool.edu.cn");
    let code = code_of(&manager, id);
    assert!(manager.activate(id, code, attributes("a@pkuschool.edu.cn", "pw", 0), START).is_ok());
    assert!(matches!(manager.lookup(id), Ok(Account::Verified { .. })));
    let token = manager.login(id, "pw", START + 10).expect("logged in");
    assert!(manager.logout(id, &token).is_ok());
    assert!(matches!(
        manager.logout(id, &token),
        Err(ManagerError::Account(x, Error::TokenIncorrect)) if x == id
    ));
}

#[test]
fn register_then_lookup_gives_unverified_account_with_hashed_id() {
    let mut manager = AccountManager::new();
    let (id, code) = manager.register(email("stu@i.pkuschool.edu.cn"), START).unwrap();
    assert_eq!(id, lettre_hash("stu@i.pkuschool.edu.cn"));
    let account = manager.lookup(id).unwrap();
    assert_eq!(account.id(), id);
    match account {
        Account::Unverified(cxt) => {
            assert_eq!(cxt.code, code);
            assert_eq!(cxt.expire_time, START + 900);
            assert_eq!(cxt.email.as_str(), "stu@i.pkuschool.edu.cn");
        }
        _ => panic!("expected an unverified account"),
    }
    manager.activate(id, code, attributes("stu@i.pkuschool.edu.cn", "pw", 0), START).unwrap();
    assert_eq!(manager.lookup(id).unwrap().id(), id);
    assert_eq!(manager.lookup(id).unwrap().id(), lettre_hash("stu@i.pkuschool.edu.cn"));
}

#[test]
fn random_code_has_six_digits() {
    for _ in 0..200 {
        match Account::new(email("a@pkuschool.edu.cn"), START).unwrap() {
            Account::Unverified(cxt) => assert!(cxt.code >= 100000 && cxt.code < 999999),
            _ => panic!("expected an unverified account"),
        }
    }
}

#[test]
fn activate_with_wrong_code_changes_nothing() {
    let mut manager = AccountManager::new();
    let id = registered(&mut manager, "a@pkuschool.edu.cn");
    let code = code_of(&manager, id);
    let wrong = if code == 100000 { 100001 } else { code - 1 };
    let r = manager.activate(id, wrong, attributes("a@pkuschool.edu.cn", "pw", 0), START);
    assert!(matches!(r, Err(ManagerError::Account(x, Error::VerificationCode)) if x == id));
    match manager.lookup(id).unwrap() {
        Account::Unverified(cxt) => {
            assert_eq!(cxt.code, code);
            assert_eq!(cxt.expire_time, START + 900);
        }
        _ => panic!("expected an unverified account"),
    }
    assert!(manager.activate(id, code, attributes("a@pkuschool.edu.cn", "pw", 0), START).is_ok());
}

#[test]
fn activate_twice_fails_user_registered() {
    let mut manager = AccountManager::new();
    let id = registered(&mut manager, "a@pkuschool.edu.cn");
    let code = code_of(&manager, id);
    manager.activate(id, code, attributes("a@pkuschool.edu.cn", "pw", 0), START).unwrap();
    let again = manager.activate(id, code, attributes("a@pkuschool.edu.cn", "pw", 0), START);
    assert!(matches!(again, Err(ManagerError::Account(x, Error::UserRegistered)) if x == id));
}

#[test]
fn activation_starts_without_tokens_or_pending_reset() {
    let mut account = Account::unverified(email("a@pkuschool.edu.cn"), 123456, START).unwrap();
    account.activate(123456, attributes("a@pkuschool.edu.cn", "pw", 3), START).unwrap();
    match &account {
        Account::Verified { id, attributes, verify, .. } => {
            assert_eq!(*id, lettre_hash("a@pkuschool.edu.cn"));
            assert_eq!(attributes.token_expiration_time, 3);
            assert!(matches!(verify, UserVerifyVariant::Idle));
        }
        _ => panic!("expected a verified account"),
    }
    assert!(matches!(account.logout("anything"), Err(Error::TokenIncorrect)));
}

#[test]
fn login_token_is_accepted_by_exactly_one_logout() {
    let mut manager = AccountManager::new();
    let id = activated(&mut manager, "a@pkuschool.edu.cn", "pw", 7);
    let first = manager.login(id, "pw", START).unwrap();
    let second = manager.login(id, "pw", START).unwrap();
    assert_ne!(first, second);
    assert_eq!(first.len(), 32);
    assert!(manager.logout(id, &first).is_ok());
    assert!(matches!(
        manager.logout(id, &first),
        Err(ManagerError::Account(_, Error::TokenIncorrect))
    ));
    assert!(manager.logout(id, &second).is_ok());
}

#[test]
fn login_checks_state_and_password() {
    let mut manager = AccountManager::new();
    let id = registered(&mut manager, "a@pkuschool.edu.cn");
    assert!(matches!(
        manager.login(id, "pw", START),
        Err(ManagerError::Account(_, Error::UserUnverified))
    ));
    assert!(matches!(
        manager.logout(id, "t"),
        Err(ManagerError::Account(_, Error::UserUnverified))
    ));
    let code = code_of(&manager, id);
    manager.activate(id, code, attributes("a@pkuschool.edu.cn", "pw", 0), START).unwrap();
    assert!(matches!(
        manager.login(id, "other", START),
        Err(ManagerError::Account(_, Error::PasswordIncorrect))
    ));
    assert!(matches!(manager.login(id + 1, "pw", START), Err(ManagerError::NotFound(x)) if x == id + 1));
}

#[test]
fn password_is_compared_by_its_sha256_digest() {
    let mut attrs = attributes("a@pkuschool.edu.cn", "abc", 0);
    assert_eq!(
        attrs.password_sha,
        "ba7816bf8f01cfea414140de5dae2223b00361a396177a9cb410ff61f20015ad"
    );
    let mut account = Account::unverified(email("a@pkuschool.edu.cn"), 111111, START).unwrap();
    attrs.password_sha =
        "ba7816bf8f01cfea414140de5dae2223b00361a396177a9cb410ff61f20015ad".to_string();
    account.activate(111111, attrs, START).unwrap();
    assert!(account.login_with("abc", "tok".to_string(), START).is_ok());
    let mut plain = Account::unverified(email("a@pkuschool.edu.cn"), 111111, START).unwrap();
    let mut stored_plain = attributes("a@pkuschool.edu.cn", "abc", 0);
    stored_plain.password_sha = "abc".to_string();
    plain.activate(111111, stored_plain, START).unwrap();
    assert!(matches!(
        plain.login_with("abc", "tok".to_string(), START),
        Err(Error::PasswordIncorrect)
    ));
}

#[test]
fn login_out_of_date_range_fails() {
    let mut account = Account::unverified(email("a@pkuschool.edu.cn"), 111111, START).unwrap();
    account.activate(111111, attributes("a@pkuschool.edu.cn", "pw", 1), START).unwrap();
    assert!(matches!(
        account.login_with("pw", "tok".to_string(), i64::MAX - 86399),
        Err(Error::DateOutOfRange)
    ));
    assert!(account.login_with("pw", "tok".to_string(), i64::MAX - 86400).is_ok());
    assert!(matches!(
        Account::unverified(email("a@pkuschool.edu.cn"), 111111, i64::MAX - 899),
        Err(Error::DateOutOfRange)
    ));
}

#[test]
fn refresh_all_keeps_fresh_registration_and_drops_expired_one() {
    let mut manager = AccountManager::new();
    let id = registered(&mut manager, "a@pkuschool.edu.cn");
    manager.refresh_all(START);
    assert!(manager.lookup(id).is_ok());
    manager.refresh_all(START + 899);
    assert!(manager.lookup(id).is_ok());
    manager.refresh_all(START + 900);
    assert!(matches!(manager.lookup(id), Err(ManagerError::NotFound(x)) if x == id));
    assert_eq!(manager.inner().len(), 0);
}

#[test]
fn refresh_all_drops_several_and_keeps_order() {
    let mut manager = AccountManager::new();
    let a = registered(&mut manager, "a@pkuschool.edu.cn");
    let b = activated(&mut manager, "b@pkuschool.edu.cn", "pw", 1);
    let c = registered(&mut manager, "c@pkuschool.edu.cn");
    let d = manager.register(email("d@pkuschool.edu.cn"), START + 600).unwrap().0;
    let e = registered(&mut manager, "e@pkuschool.edu.cn");
    let token = manager.login(b, "pw", START).unwrap();
    manager.refresh_all(START + 1000);
    assert!(manager.lookup(a).is_err());
    assert!(manager.lookup(c).is_err());
    assert!(manager.lookup(e).is_err());
    assert_eq!(manager.inner().len(), 2);
    assert_eq!(manager.inner()[0].id(), b);
    assert_eq!(manager.inner()[1].id(), d);
    assert_eq!(manager.find(b), Some(0));
    assert_eq!(manager.find(d), Some(1));
    assert_eq!(manager.index().get(&d).map(|p| *p), Some(1));
    assert_eq!(manager.index().len(), 2);
    assert!(manager.logout(b, &token).is_ok());
}

#[test]
fn refresh_drops_expired_tokens_and_expired_reset() {
    let mut manager = AccountManager::new();
    let id = activated(&mut manager, "a@pkuschool.edu.cn", "pw", 1);
    let early = manager.login(id, "pw", START).unwrap();
    let late = manager.login(id, "pw", START + 100).unwrap();
    manager.request_password_reset(id, START).unwrap();
    manager.refresh_all(START + 86400);
    assert!(matches!(
        manager.logout(id, &early),
        Err(ManagerError::Account(_, Error::TokenIncorrect))
    ));
    assert!(matches!(
        manager.lookup(id),
        Ok(Account::Verified { verify: UserVerifyVariant::Idle, .. })
    ));
    assert!(manager.logout(id, &late).is_ok());
}

#[test]
fn refresh_one_account() {
    let mut manager = AccountManager::new();
    let a = registered(&mut manager, "a@pkuschool.edu.cn");
    let b = activated(&mut manager, "b@pkuschool.edu.cn", "pw", 1);
    let token = manager.login(b, "pw", START).unwrap();
    manager.refresh(a, START + 10);
    assert!(manager.lookup(a).is_ok());
    manager.refresh(a, START + 900);
    assert!(manager.lookup(a).is_err());
    assert_eq!(manager.find(b), Some(0));
    manager.refresh(b, START + 86399);
    assert!(matches!(
        manager.login_with(b, "pw", token.clone(), START),
        Ok(())
    ));
    manager.refresh(b, START + 86400);
    assert!(matches!(
        manager.logout(b, &token),
        Err(ManagerError::Account(_, Error::TokenIncorrect))
    ));
    manager.refresh(12345, START);
    assert_eq!(manager.inner().len(), 1);
}

#[test]
fn reset_password_needs_a_request_and_changes_the_password() {
    let mut manager = AccountManager::new();
    let id = activated(&mut manager, "a@pkuschool.edu.cn", "old", 0);
    assert!(matches!(
        manager.reset_password(id, 123456, "new".to_string(), START),
        Err(ManagerError::Account(_, Error::PermissionDenied))
    ));
    let code = manager.request_password_reset(id, START).unwrap();
    assert_eq!(code_of(&manager, id), code);
    let wrong = if code == 100000 { 100001 } else { code - 1 };
    assert!(matches!(
        manager.reset_password(id, wrong, "new".to_string(), START),
        Err(ManagerError::Account(_, Error::VerificationCode))
    ));
    assert!(manager.login(id, "old", START).is_ok());
    assert!(manager.reset_password(id, code, "new".to_string(), START).is_ok());
    assert!(manager.login(id, "new", START).is_ok());
    assert!(matches!(
        manager.login(id, "old", START),
        Err(ManagerError::Account(_, Error::PasswordIncorrect))
    ));
    assert!(matches!(
        manager.reset_password(id, code, "again".to_string(), START),
        Err(ManagerError::Account(_, Error::PermissionDenied))
    ));
}

#[test]
fn reset_password_on_unverified_account_fails() {
    let mut manager = AccountManager::new();
    let id = registered(&mut manager, "a@pkuschool.edu.cn");
    assert!(matches!(
        manager.reset_password(id, 1, "new".to_string(), START),
        Err(ManagerError::Account(_, Error::UserUnverified))
    ));
    assert!(matches!(
        manager.request_password_reset(id, START),
        Err(ManagerError::Account(_, Error::UserUnverified))
    ));
}

#[test]
fn foreign_address_is_never_registered() {
    let mut manager = AccountManager::new();
    let r = manager.register(email("user@gmail.com"), START);
    assert!(matches!(r, Err(Error::EmailDomainNotInSchool)));
    assert_eq!(manager.inner().len(), 0);
    assert_eq!(manager.index().len(), 0);
    assert!(matches!(
        Account::new(email("user@pkuschool.edu.cn.evil.org"), START),
        Err(Error::EmailDomainNotInSchool)
    ));
    assert!(Account::new(email("user@i.pkuschool.edu.cn"), START).is_ok());
}

#[test]
fn email_parsing_follows_lettre() {
    assert!(Email::parse("not an address").is_none());
    assert!(Email::parse("@pkuschool.edu.cn").is_none());
    let e = email("someone@pkuschool.edu.cn");
    assert_eq!(e.domain(), "pkuschool.edu.cn");
    assert_eq!(e.as_str(), "someone@pkuschool.edu.cn");
    assert_eq!(e.id(), lettre_hash("someone@pkuschool.edu.cn"));
    assert_ne!(e.id(), email("other@pkuschool.edu.cn").id());
    assert!(e.is_institutional());
    assert!(!email("someone@example.com").is_institutional());
    let copy = e.copy();
    assert_eq!(copy.id(), e.id());
    assert_eq!(copy.as_str(), e.as_str());
}

#[test]
fn push_refuses_a_taken_identity() {
    let mut manager = AccountManager::new();
    let first = Account::unverified(email("a@pkuschool.edu.cn"), 111111, START).unwrap();
    let second = Account::unverified(email("a@pkuschool.edu.cn"), 222222, START).unwrap();
    assert!(manager.push(first).is_ok());
    assert!(matches!(manager.push(second), Err(Error::Conflict)));
    assert_eq!(manager.inner().len(), 1);
    assert!(matches!(manager.register(email("a@pkuschool.edu.cn"), START), Err(Error::Conflict)));
    let id = manager.inner()[0].id();
    assert_eq!(code_of(&manager, id), 111111);
}

#[test]
fn remove_rebuilds_the_index() {
    let mut manager = AccountManager::new();
    let a = registered(&mut manager, "a@pkuschool.edu.cn");
    let b = registered(&mut manager, "b@pkuschool.edu.cn");
    let c = registered(&mut manager, "c@pkuschool.edu.cn");
    assert_eq!(manager.find(c), Some(2));
    assert!(manager.remove(a));
    assert!(!manager.remove(a));
    assert_eq!(manager.find(a), None);
    assert_eq!(manager.find(b), Some(0));
    assert_eq!(manager.find(c), Some(1));
    assert_eq!(manager.lookup(c).unwrap().id(), c);
    manager.reset();
    assert_eq!(manager.inner().len(), 0);
    assert!(manager.lookup(b).is_err());
}

#[test]
fn from_accounts_builds_the_index() {
    let list = vec![
        Account::unverified(email("a@pkuschool.edu.cn"), 111111, START).unwrap(),
        Account::unverified(email("b@pkuschool.edu.cn"), 222222, START).unwrap(),
    ];
    let mut manager = AccountManager::from_accounts(list);
    let b = lettre_hash("b@pkuschool.edu.cn");
    assert_eq!(manager.find(b), Some(1));
    manager.update_index();
    assert_eq!(manager.find(lettre_hash("a@pkuschool.edu.cn")), Some(0));
    assert_eq!(manager.index().len(), 2);
}

#[test]
fn tokens_issue_remove_and_sweep() {
    let mut tokens = Tokens::new();
    assert!(tokens.issue("never".to_string(), 1, START, 0));
    assert!(tokens.issue("week".to_string(), 1, START, 7));
    assert!(tokens.issue("day".to_string(), 1, START, 1));
    assert!(tokens.contains("week"));
    assert!(!tokens.contains("month"));
    tokens.refresh(START + 86399);
    assert!(tokens.contains("day"));
    tokens.refresh(START + 86400);
    assert!(!tokens.contains("day"));
    assert!(tokens.contains("week"));
    tokens.refresh(START + 7 * 86400);
    assert!(!tokens.contains("week"));
    tokens.refresh(i64::MAX);
    assert!(tokens.contains("never"));
    assert!(tokens.remove("never"));
    assert!(!tokens.remove("never"));
    assert!(!tokens.issue("late".to_string(), 1, i64::MAX, 1));
    assert!(!tokens.contains("late"));
}

#[test]
fn issuing_a_text_again_replaces_the_entry() {
    let mut tokens = Tokens::new();
    assert!(tokens.issue("t".to_string(), 1, START, 1));
    assert!(tokens.issue("t".to_string(), 1, START, 0));
    tokens.refresh(START + 86400);
    assert!(tokens.contains("t"));
    assert!(tokens.remove("t"));
    assert!(!tokens.contains("t"));
}

#[test]
fn new_tokens_differ() {
    let mut tokens = Tokens::new();
    let a = tokens.new_token(9, 0, START).unwrap();
    let b = tokens.new_token(9, 0, START).unwrap();
    assert_ne!(a, b);
    assert!(tokens.contains(&a) && tokens.contains(&b));
    assert!(tokens.new_token(9, 1, i64::MAX).is_none());
}

#[test]
fn context_expires_at_its_expire_time() {
    let cxt = Context::create(email("a@pkuschool.edu.cn"), 654321, START).unwrap();
    assert_eq!(cxt.expire_time, START + 900);
    assert!(!cxt.is_expired(START + 899));
    assert!(cxt.is_expired(START + 900));
    assert!(cxt.is_expired(START + 901));
    assert!(cxt.matches(654321));
    assert!(!cxt.matches(654320));
    assert!(Context::create(email("a@pkuschool.edu.cn"), 1, i64::MAX).is_none());
}

#[test]
fn accessors_of_an_account() {
    let mut account = Account::unverified(email("a@pkuschool.edu.cn"), 111111, START).unwrap();
    assert!(matches!(account.metadata(), Err(Error::UserUnverified)));
    assert!(account.permissions().is_empty());
    assert!(!account.has_permission(Permission::View));
    assert_eq!(account.email().as_str(), "a@pkuschool.edu.cn");
    assert!(account.is_stale(START + 900));
    account.activate(111111, attributes("a@pkuschool.edu.cn", "pw", 0), START).unwrap();
    let m = account.metadata().unwrap();
    assert_eq!(m.email.as_str(), "a@pkuschool.edu.cn");
    assert_eq!(m.name, "Yang");
    assert_eq!(m.school_id, 2522000);
    assert_eq!(m.phone, 13800000000);
    assert_eq!(m.house, Some(House::GeWu));
    assert_eq!(m.organization, Some("Robotics".to_string()));
    assert_eq!(account.permissions(), vec![Permission::View, Permission::Post]);
    assert!(account.has_permission(Permission::Post));
    assert!(!account.has_permission(Permission::Manage));
    assert!(!account.is_stale(i64::MAX));
}

#[test]
fn metadata_through_the_registry() {
    let mut manager = AccountManager::new();
    let a = registered(&mut manager, "a@pkuschool.edu.cn");
    assert!(matches!(
        manager.metadata(a),
        Err(ManagerError::Account(x, Error::UserUnverified)) if x == a
    ));
    assert!(matches!(manager.metadata(a + 1), Err(ManagerError::NotFound(_))));
    let b = activated(&mut manager, "b@pkuschool.edu.cn", "pw", 0);
    assert_eq!(manager.metadata(b).unwrap().name, "Yang");
}

#[test]
fn response_codes_and_messages() {
    assert_eq!(Error::MailSend("refused".to_string()).response_code(), 500);
    assert_eq!(Error::Conflict.response_code(), 409);
    assert_eq!(Error::VerificationCode.response_code(), 403);
    assert_eq!(Error::PermissionDenied.response_code(), 403);
    assert_eq!(Error::DateOutOfRange.response_code(), 403);
    assert_eq!(ManagerError::NotFound(3).response_code(), 404);
    assert_eq!(ManagerError::Account(3, Error::Conflict).response_code(), 409);
    assert_eq!(ManagerError::Account(3, Error::TokenIncorrect).response_code(), 403);
    assert_eq!(Error::TokenIncorrect.message(), "token incorrect");
    assert_eq!(Error::UserRegistered.message(), "user already registered");
}

#[test]
fn activation_keeps_the_registered_identity_and_address() {
    let mut manager = AccountManager::new();
    let a = registered(&mut manager, "a@pkuschool.edu.cn");
    let b = registered(&mut manager, "b@pkuschool.edu.cn");
    let code = code_of(&manager, a);
    manager.activate(a, code, attributes("b@pkuschool.edu.cn", "pw", 0), START).unwrap();
    let account = manager.lookup(a).unwrap();
    assert_eq!(account.id(), a);
    assert_eq!(account.id(), lettre_hash("a@pkuschool.edu.cn"));
    assert_eq!(account.email().as_str(), "a@pkuschool.edu.cn");
    assert_eq!(manager.metadata(a).unwrap().email.as_str(), "a@pkuschool.edu.cn");
    assert_eq!(manager.metadata(a).unwrap().name, "Yang");
    assert_eq!(manager.find(a), Some(0));
    assert_eq!(manager.find(b), Some(1));
    assert!(matches!(manager.lookup(b), Ok(Account::Unverified(_))));
}

#[test]
fn expired_code_does_not_activate() {
    let mut account = Account::unverified(email("a@pkuschool.edu.cn"), 123456, START).unwrap();
    assert!(matches!(
        account.activate(123456, attributes("a@pkuschool.edu.cn", "pw", 0), START + 900),
        Err(Error::VerificationCode)
    ));
    assert!(matches!(&account, Account::Unverified(cxt) if cxt.code == 123456));
    assert!(matches!(
        account.activate(123456, attributes("a@pkuschool.edu.cn", "pw", 0), i64::MAX),
        Err(Error::VerificationCode)
    ));
    assert!(account.activate(123456, attributes("a@pkuschool.edu.cn", "pw", 0), START + 899).is_ok());
    assert!(matches!(account, Account::Verified { .. }));
}

#[test]
fn expired_code_does_not_reset_the_password() {
    let mut manager = AccountManager::new();
    let id = activated(&mut manager, "a@pkuschool.edu.cn", "old", 0);
    let code = manager.request_password_reset(id, START).unwrap();
    assert!(matches!(
        manager.reset_password(id, code, "new".to_string(), START + 900),
        Err(ManagerError::Account(x, Error::VerificationCode)) if x == id
    ));
    assert!(manager.login(id, "old", START).is_ok());
    assert!(matches!(
        manager.login(id, "new", START),
        Err(ManagerError::Account(_, Error::PasswordIncorrect))
    ));
    assert!(manager.reset_password(id, code, "new".to_string(), START + 899).is_ok());
    assert!(manager.login(id, "new", START).is_ok());
}

#[test]
fn expired_code_through_the_registry_leaves_the_account_unverified() {
    let mut manager = AccountManager::new();
    let id = registered(&mut manager, "a@pkuschool.edu.cn");
    let code = code_of(&manager, id);
    assert!(matches!(
        manager.activate(id, code, attributes("a@pkuschool.edu.cn", "pw", 0), START + 900),
        Err(ManagerError::Account(x, Error::VerificationCode)) if x == id
    ));
    assert!(matches!(manager.lookup(id), Ok(Account::Unverified(_))));
}

#[test]
fn index_is_handed_out_as_a_copy() {
    let mut manager = AccountManager::new();
    let a = registered(&mut manager, "a@pkuschool.edu.cn");
    let copy = manager.index();
    assert_eq!(copy.get(&a).map(|p| *p), Some(0));
    copy.clear();
    assert_eq!(manager.find(a), Some(0));
    assert_eq!(manager.index().len(), 1);
}
