use datademo::cache::{CredentialCache, UserCache, store_fetch_result};
use datademo::errors::FetchError;
use datademo::model::Transaction;

fn txn(id: &str, amount: i64) -> Transaction {
    Transaction {
        transaction_id: id.to_string(),
        amount,
        timestamp: 1_700_000_000,
        description: String::new(),
        transaction_category: "food".to_string(),
    }
}

#[test]
fn fill_then_get_round_trips() {
    let mut user = UserCache::new();
    user.insert("A1".to_string(), vec![txn("t1", 1000), txn("t2", -250)]);
    let mut cache = CredentialCache::new();
    cache.fill("u1", user);
    let got = cache.get("u1").expect("entry must exist after fill");
    let ts = got.get("A1").expect("account must exist");
    assert_eq!(ts.len(), 2);
    assert_eq!(ts[0].transaction_id, "t1");
    assert_eq!(ts[0].amount, 1000);
    assert_eq!(ts[1].transaction_id, "t2");
    assert_eq!(ts[1].amount, -250);
}

#[test]
fn get_misses_unknown_identity() {
    let cache = CredentialCache::new();
    assert!(cache.get("u1").is_none());
}

#[test]
fn fill_overwrites_wholesale() {
    let mut first = UserCache::new();
    first.insert("A1".to_string(), vec![txn("t1", 1)]);
    first.insert("A2".to_string(), vec![txn("t2", 2)]);
    let mut second = UserCache::new();
    second.insert("A3".to_string(), vec![txn("t3", 3)]);
    let mut cache = CredentialCache::new();
    cache.fill("u1", first);
    cache.fill("u1", second);
    let got = cache.get("u1").unwrap();
    assert!(got.get("A1").is_none());
    assert!(got.get("A2").is_none());
    assert_eq!(got.get("A3").unwrap()[0].amount, 3);
}

#[test]
fn user_cache_insert_replaces_same_account() {
    let mut user = UserCache::new();
    user.insert("A1".to_string(), vec![txn("t1", 1)]);
    user.insert("A1".to_string(), vec![txn("t9", 9)]);
    let ts = user.get("A1").unwrap();
    assert_eq!(ts.len(), 1);
    assert_eq!(ts[0].transaction_id, "t9");
}

#[test]
fn successful_fetch_is_stored_and_returned() {
    let mut user = UserCache::new();
    user.insert("A1".to_string(), vec![txn("t1", 500)]);
    let mut cache = CredentialCache::new();
    let r = store_fetch_result(&mut cache, "u1", Ok(user));
    let returned = r.expect("stored result is handed back");
    assert_eq!(returned.get("A1").unwrap()[0].amount, 500);
    assert_eq!(cache.get("u1").unwrap().get("A1").unwrap()[0].amount, 500);
}

#[test]
fn failed_fetch_leaves_identity_absent() {
    let mut cache = CredentialCache::new();
    let r = store_fetch_result(
        &mut cache,
        "u1",
        Err(FetchError::Http { status: 500, body: "boom".to_string() }),
    );
    assert!(matches!(r, Err(FetchError::Http { status: 500, .. })));
    assert!(cache.get("u1").is_none());
}

#[test]
fn failed_fetch_keeps_earlier_data() {
    let mut user = UserCache::new();
    user.insert("A1".to_string(), vec![txn("t1", 7)]);
    let mut cache = CredentialCache::new();
    cache.fill("u1", user);
    let r = store_fetch_result(
        &mut cache,
        "u1",
        Err(FetchError::Network { message: "timeout".to_string() }),
    );
    assert!(matches!(r, Err(FetchError::Network { .. })));
    assert_eq!(cache.get("u1").unwrap().get("A1").unwrap()[0].amount, 7);
}
