use datademo::cache::UserCache;
use datademo::model::Transaction;
use datademo::summary::{WINDOW_SECONDS, summarize_transactions};

fn txn(id: &str, amount: i64, timestamp: i64, category: &str) -> Transaction {
    Transaction {
        transaction_id: id.to_string(),
        amount,
        timestamp,
        description: format!("txn {}", id),
        transaction_category: category.to_string(),
    }
}

const NOW: i64 = 1_700_000_000;

#[test]
fn two_accounts_same_category_accumulate() {
    // Amounts are minor units: 10.00 and 5.00 under "food" total 15.00.
    let mut cache = UserCache::new();
    cache.insert("A1".to_string(), vec![txn("t1", 1000, NOW, "food")]);
    cache.insert("A2".to_string(), vec![txn("t2", 500, NOW, "food")]);
    let s = summarize_transactions(&cache, NOW);
    assert_eq!(s.get("food"), Some(1500));
    assert_eq!(s.len(), 1);
}

#[test]
fn window_boundary_is_strict() {
    let mut cache = UserCache::new();
    cache.insert(
        "A1".to_string(),
        vec![
            txn("old", 700, NOW - WINDOW_SECONDS, "food"),
            txn("fresh", 300, NOW - WINDOW_SECONDS + 1, "food"),
        ],
    );
    let s = summarize_transactions(&cache, NOW);
    // Exactly seven days old is excluded; a second younger is included.
    assert_eq!(s.get("food"), Some(300));
}

#[test]
fn absent_categories_do_not_appear() {
    let mut cache = UserCache::new();
    cache.insert("A1".to_string(), vec![txn("t1", 1000, NOW - WINDOW_SECONDS, "food")]);
    let s = summarize_transactions(&cache, NOW);
    assert_eq!(s.get("food"), None);
    assert_eq!(s.len(), 0);
}

#[test]
fn empty_cache_gives_empty_summary() {
    let cache = UserCache::new();
    let s = summarize_transactions(&cache, NOW);
    assert_eq!(s.len(), 0);
    assert_eq!(s.get("anything"), None);
}

#[test]
fn account_order_does_not_change_totals() {
    let mut one = UserCache::new();
    one.insert("A1".to_string(), vec![txn("t1", 1000, NOW, "food")]);
    one.insert("A2".to_string(), vec![txn("t2", 500, NOW, "food"), txn("t3", -200, NOW, "travel")]);
    let mut other = UserCache::new();
    other.insert(
        "A2".to_string(),
        vec![txn("t3", -200, NOW, "travel"), txn("t2", 500, NOW, "food")],
    );
    other.insert("A1".to_string(), vec![txn("t1", 1000, NOW, "food")]);
    let s1 = summarize_transactions(&one, NOW);
    let s2 = summarize_transactions(&other, NOW);
    assert_eq!(s1.get("food"), s2.get("food"));
    assert_eq!(s1.get("travel"), s2.get("travel"));
    assert_eq!(s1.get("food"), Some(1500));
    assert_eq!(s1.get("travel"), Some(-200));
}

#[test]
fn summarize_is_repeatable() {
    let mut cache = UserCache::new();
    cache.insert("A1".to_string(), vec![txn("t1", 42, NOW, "misc")]);
    let s1 = summarize_transactions(&cache, NOW);
    let s2 = summarize_transactions(&cache, NOW);
    assert_eq!(s1.get("misc"), s2.get("misc"));
    assert_eq!(s1.len(), s2.len());
}

#[test]
fn future_transactions_are_included() {
    // A timestamp after `now` is still strictly less than seven days old.
    let mut cache = UserCache::new();
    cache.insert("A1".to_string(), vec![txn("t1", 77, NOW + 3600, "food")]);
    let s = summarize_transactions(&cache, NOW);
    assert_eq!(s.get("food"), Some(77));
}
