use datademo::cache::{CredentialCache, store_fetch_result};
use datademo::errors::FetchError;
use datademo::fetch::{
    FetchPlan, MAX_IN_FLIGHT, account_ids, accounts_url, classify_response, transactions_url,
};
use datademo::model::Config;
use datademo::model::{Account, Transaction};

fn account(id: &str) -> Account {
    Account {
        account_id: id.to_string(),
        account_type: "TRANSACTION".to_string(),
        display_name: format!("account {}", id),
        currency: "GBP".to_string(),
    }
}

fn txn(id: &str, amount: i64) -> Transaction {
    Transaction {
        transaction_id: id.to_string(),
        amount,
        timestamp: 1_700_000_000,
        description: String::new(),
        transaction_category: "food".to_string(),
    }
}

#[test]
fn request_urls_are_spelled_from_configuration() {
    let cfg = Config {
        auth_server_uri: "https://auth.example.com".to_string(),
        data_api_uri: "https://api.example.com/data/v1".to_string(),
        client_id: String::new(),
        client_secret: String::new(),
        redirect_uri: String::new(),
        providers: String::new(),
        scope: String::new(),
    };
    assert_eq!(accounts_url(&cfg), "https://api.example.com/data/v1/accounts");
    assert_eq!(
        transactions_url(&cfg, "A1"),
        "https://api.example.com/data/v1/accounts/A1/transactions"
    );
}

#[test]
fn classify_success_hands_body_on() {
    let r = classify_response(200, "{\"results\":[]}".to_string());
    assert_eq!(r.unwrap(), "{\"results\":[]}");
}

#[test]
fn classify_failure_keeps_status_and_body() {
    let r = classify_response(503, "unavailable".to_string());
    match r {
        Err(FetchError::Http { status, body }) => {
            assert_eq!(status, 503);
            assert_eq!(body, "unavailable");
        },
        _ => panic!("expected the HTTP failure"),
    }
}

#[test]
fn account_ids_keeps_order() {
    let accounts = vec![account("A1"), account("A2"), account("A3")];
    let ids = account_ids(&accounts);
    assert_eq!(ids, vec!["A1", "A2", "A3"]);
}

#[test]
fn at_most_ten_fetches_in_flight() {
    let ids: Vec<String> = (0..15).map(|i| format!("A{}", i)).collect();
    let mut plan = FetchPlan::new(ids);
    let mut started = Vec::new();
    while let Some(id) = plan.start_next() {
        started.push(id);
    }
    // The eleventh start is refused until a slot frees.
    assert_eq!(started.len(), MAX_IN_FLIGHT);
    assert_eq!(plan.in_flight, MAX_IN_FLIGHT);
    plan.complete(started.pop().unwrap(), vec![txn("t", 1)]);
    assert!(plan.start_next().is_some());
    assert_eq!(plan.in_flight, MAX_IN_FLIGHT);
}

#[test]
fn all_completions_are_collected_under_their_account() {
    let mut plan = FetchPlan::new(vec!["A1".to_string(), "A2".to_string()]);
    let first = plan.start_next().unwrap();
    let second = plan.start_next().unwrap();
    assert!(plan.start_next().is_none());
    let amount_of = |id: &str| if id == "A1" { 1 } else { 2 };
    // Results arrive in the opposite order they were started.
    let a2 = amount_of(&second);
    plan.complete(second, vec![txn("t2", a2)]);
    let a1 = amount_of(&first);
    plan.complete(first, vec![txn("t1", a1)]);
    let data = plan.finish().expect("no failure happened");
    // Every listed account is present, and nothing else.
    assert_eq!(data.entries.len(), 2);
    assert_eq!(data.get("A1").unwrap()[0].amount, 1);
    assert_eq!(data.get("A2").unwrap()[0].amount, 2);
}

#[test]
fn one_failure_fails_the_whole_fetch() {
    let mut plan = FetchPlan::new(vec!["A1".to_string(), "A2".to_string()]);
    let a = plan.start_next().unwrap();
    let b = plan.start_next().unwrap();
    plan.complete(a, vec![txn("t1", 1)]);
    plan.fail(&b, FetchError::Http { status: 500, body: "boom".to_string() });
    // No account is started after a failure.
    assert!(plan.start_next().is_none());
    let r = plan.finish();
    assert!(matches!(r, Err(FetchError::Http { status: 500, .. })));
}

#[test]
fn failed_fan_out_never_reaches_the_cache() {
    let mut plan = FetchPlan::new(vec!["A1".to_string()]);
    let a = plan.start_next().unwrap();
    plan.fail(&a, FetchError::Network { message: "refused".to_string() });
    let fetched = plan.finish();
    let mut cache = CredentialCache::new();
    let r = store_fetch_result(&mut cache, "u1", fetched);
    assert!(r.is_err());
    assert!(cache.get("u1").is_none());
}

#[test]
fn first_failure_wins() {
    let mut plan = FetchPlan::new(vec!["A1".to_string(), "A2".to_string()]);
    let a = plan.start_next().unwrap();
    let b = plan.start_next().unwrap();
    plan.fail(&a, FetchError::Http { status: 500, body: "first".to_string() });
    plan.fail(&b, FetchError::Http { status: 404, body: "second".to_string() });
    match plan.finish() {
        Err(FetchError::Http { status, body }) => {
            assert_eq!(status, 500);
            assert_eq!(body, "first");
        },
        _ => panic!("expected the first HTTP failure"),
    }
}
