use alert_service::model::{
    AddAlertRequest, AlertError, AlertTable, DeleteAlertRequest, FetchUserAlertRequest,
    UpdateAlertRequest,
};
use alert_service::price::normalize_price;

fn add(user_id: &str, asset_id: &str, above: bool, price_alert: &str) -> AddAlertRequest {
    AddAlertRequest {
        user_id: user_id.to_string(),
        asset_id: asset_id.to_string(),
        above,
        price_alert: price_alert.to_string(),
    }
}

#[test]
fn distinct_creates_get_fresh_ids() {
    let mut t = AlertTable::new();
    let id1 = t.add_alert_request(&add("u1", "BTC", true, "50000")).unwrap();
    let id2 = t.add_alert_request(&add("u1", "ETH", true, "2000")).unwrap();
    let id3 = t.add_alert_request(&add("u2", "BTC", false, "50000")).unwrap();
    assert_eq!(id1, 1);
    assert_eq!(id2, 2);
    assert_eq!(id3, 3);
    let rows = t.fetch_alert_requests();
    assert_eq!(rows.len(), 3);
    for r in &rows {
        assert!(!r.notified);
    }
    assert_eq!(rows[0].user_id, "u1");
    assert_eq!(rows[0].asset_id, "BTC");
    assert!(rows[0].above);
    assert_eq!(rows[0].price_alert, "50000");
    assert_eq!(rows[2].user_id, "u2");
    assert!(!rows[2].above);
}

#[test]
fn concrete_create_scenario() {
    let mut t = AlertTable::new();
    let first = t.add_alert_request(&add("u1", "BTC", true, "50000"));
    match first {
        Ok(id) => assert!(id > 0),
        Err(_) => panic!("first create must succeed"),
    }
    let second = t.add_alert_request(&add("u1", "BTC", true, "50000"));
    match second {
        Ok(_) => panic!("identical create must be refused"),
        Err(e) => {
            assert_eq!(e, AlertError::AlreadyExists);
            assert_eq!(e.status_code(), 400);
            assert_eq!(e.message(), "Alert request already existed");
        },
    }
    assert_eq!(t.fetch_alert_requests().len(), 1);
}

#[test]
fn rearm_returns_original_id() {
    let mut t = AlertTable::new();
    let id = t.add_alert_request(&add("u1", "BTC", true, "50000")).unwrap();
    // while the row is still armed, the duplicate is refused
    assert_eq!(
        t.add_alert_request(&add("u1", "BTC", true, "50000")),
        Err(AlertError::AlreadyExists)
    );
    // the external notifier fires the alert; re-submitting re-arms it
    t.mark_notified(id).unwrap();
    let again = t.add_alert_request(&add("u1", "BTC", true, "50000")).unwrap();
    assert_eq!(again, id);
    let rows = t.fetch_alert_requests();
    assert_eq!(rows.len(), 1);
    assert!(!rows[0].notified);
}

#[test]
fn rearm_matches_normalized_price() {
    let mut t = AlertTable::new();
    let id = t.add_alert_request(&add("u1", "BTC", true, "10.00")).unwrap();
    t.mark_notified(id).unwrap();
    // "10" and "10.00" are the same price after normalization
    let again = t.add_alert_request(&add("u1", "BTC", true, "10")).unwrap();
    assert_eq!(again, id);
}

#[test]
fn price_is_stored_normalized() {
    let mut t = AlertTable::new();
    t.add_alert_request(&add("u1", "BTC", true, "10.00")).unwrap();
    let rows = t.fetch_alert_requests();
    assert_eq!(rows[0].price_alert, "10");
}

#[test]
fn bad_price_is_rejected_before_any_store_access() {
    let mut t = AlertTable::new();
    let res = t.add_alert_request(&add("u1", "BTC", true, "abc"));
    assert_eq!(res, Err(AlertError::InvalidPriceAlert));
    let e = res.unwrap_err();
    assert_eq!(e.status_code(), 400);
    assert_eq!(e.message(), "price_alert must be a valid number");
    assert_eq!(t.fetch_alert_requests().len(), 0);
}

#[test]
fn missing_fields_are_named() {
    let mut t = AlertTable::new();
    let e = t.add_alert_request(&add("", "BTC", true, "1")).unwrap_err();
    assert_eq!(e, AlertError::MissingUserId);
    assert_eq!(e.message(), "Missing required field: user_id");
    let e = t.add_alert_request(&add("u1", "", true, "1")).unwrap_err();
    assert_eq!(e, AlertError::MissingAssetId);
    assert_eq!(e.message(), "Missing required field: asset_id");
    let e = t.add_alert_request(&add("u1", "BTC", true, "")).unwrap_err();
    assert_eq!(e, AlertError::MissingPriceAlert);
    assert_eq!(e.message(), "Missing required field: price_alert");
    assert_eq!(t.fetch_alert_requests().len(), 0);
}

#[test]
fn delete_missing_id_and_unknown_id() {
    let mut t = AlertTable::new();
    t.add_alert_request(&add("u1", "BTC", true, "1")).unwrap();
    let e = t.delete_alert_request(&DeleteAlertRequest { id: 0 }).unwrap_err();
    assert_eq!(e, AlertError::MissingId);
    assert_eq!(e.status_code(), 400);
    assert_eq!(e.message(), "Missing required field: id");
    let e = t.delete_alert_request(&DeleteAlertRequest { id: 99 }).unwrap_err();
    assert_eq!(e, AlertError::NotFound);
    assert_eq!(e.status_code(), 404);
    assert_eq!(t.fetch_alert_requests().len(), 1);
}

#[test]
fn delete_removes_exactly_one_row() {
    let mut t = AlertTable::new();
    let id1 = t.add_alert_request(&add("u1", "BTC", true, "1")).unwrap();
    let id2 = t.add_alert_request(&add("u1", "ETH", true, "2")).unwrap();
    t.delete_alert_request(&DeleteAlertRequest { id: id1 }).unwrap();
    let rows = t.fetch_alert_requests();
    assert_eq!(rows.len(), 1);
    assert_eq!(rows[0].id, id2);
    // deleting again: the row is gone
    assert_eq!(t.delete_alert_request(&DeleteAlertRequest { id: id1 }), Err(AlertError::NotFound));
}

#[test]
fn update_missing_id_and_unknown_id() {
    let mut t = AlertTable::new();
    t.add_alert_request(&add("u1", "BTC", true, "1")).unwrap();
    let upd = |id: i32| UpdateAlertRequest {
        id,
        user_id: "u1".to_string(),
        asset_id: "BTC".to_string(),
        above: false,
        price_alert: "2".to_string(),
    };
    assert_eq!(t.update_alert_request(&upd(0)), Err(AlertError::MissingId));
    assert_eq!(t.update_alert_request(&upd(99)), Err(AlertError::NotFound));
    let rows = t.fetch_alert_requests();
    assert_eq!(rows.len(), 1);
    assert!(rows[0].above);
    assert_eq!(rows[0].price_alert, "1");
}

#[test]
fn update_overwrites_tuple_but_not_notified() {
    let mut t = AlertTable::new();
    let id = t.add_alert_request(&add("u1", "BTC", true, "1")).unwrap();
    t.mark_notified(id).unwrap();
    t.update_alert_request(&UpdateAlertRequest {
        id,
        user_id: "u2".to_string(),
        asset_id: "ETH".to_string(),
        above: false,
        price_alert: "2.50".to_string(),
    })
    .unwrap();
    let rows = t.fetch_alert_requests();
    assert_eq!(rows.len(), 1);
    assert_eq!(rows[0].id, id);
    assert_eq!(rows[0].user_id, "u2");
    assert_eq!(rows[0].asset_id, "ETH");
    assert!(!rows[0].above);
    assert_eq!(rows[0].price_alert, "2.5");
    assert!(rows[0].notified);
}

#[test]
fn update_validates_fields_like_create() {
    let mut t = AlertTable::new();
    let id = t.add_alert_request(&add("u1", "BTC", true, "1")).unwrap();
    let mut r = UpdateAlertRequest {
        id,
        user_id: "".to_string(),
        asset_id: "BTC".to_string(),
        above: true,
        price_alert: "1".to_string(),
    };
    assert_eq!(t.update_alert_request(&r), Err(AlertError::MissingUserId));
    r.user_id = "u1".to_string();
    r.price_alert = "not a number".to_string();
    assert_eq!(t.update_alert_request(&r), Err(AlertError::InvalidPriceAlert));
}

#[test]
fn fetch_all_empty_table_is_ok_and_empty() {
    let t = AlertTable::new();
    let rows = t.fetch_alert_requests();
    assert_eq!(rows.len(), 0);
}

#[test]
fn fetch_user_with_no_rows_is_not_found() {
    let mut t = AlertTable::new();
    assert!(matches!(
        t.fetch_user_alert_requests(&FetchUserAlertRequest { user_id: "u1".to_string() }),
        Err(AlertError::NotFound)
    ));
    t.add_alert_request(&add("u1", "BTC", true, "1")).unwrap();
    assert!(matches!(
        t.fetch_user_alert_requests(&FetchUserAlertRequest { user_id: "u2".to_string() }),
        Err(AlertError::NotFound)
    ));
}

#[test]
fn fetch_user_filters_rows() {
    let mut t = AlertTable::new();
    t.add_alert_request(&add("u1", "BTC", true, "1")).unwrap();
    t.add_alert_request(&add("u2", "ETH", true, "2")).unwrap();
    t.add_alert_request(&add("u1", "ETH", false, "3")).unwrap();
    let rows = t.fetch_user_alert_requests(&FetchUserAlertRequest { user_id: "u1".to_string() }).unwrap();
    assert_eq!(rows.len(), 2);
    assert_eq!(rows[0].asset_id, "BTC");
    assert_eq!(rows[1].asset_id, "ETH");
    for r in &rows {
        assert_eq!(r.user_id, "u1");
    }
}

#[test]
fn price_normalization_exact_forms() {
    assert_eq!(normalize_price("10.00"), Some("10".to_string()));
    assert_eq!(normalize_price("10"), Some("10".to_string()));
    assert_eq!(normalize_price("007"), Some("7".to_string()));
    assert_eq!(normalize_price("0.500"), Some("0.5".to_string()));
    assert_eq!(normalize_price(".5"), Some("0.5".to_string()));
    assert_eq!(normalize_price("5."), Some("5".to_string()));
    assert_eq!(normalize_price("+3.14"), Some("3.14".to_string()));
    assert_eq!(normalize_price("-2.50"), Some("-2.5".to_string()));
    assert_eq!(normalize_price("0"), Some("0".to_string()));
    assert_eq!(normalize_price("-0.00"), Some("0".to_string()));
    assert_eq!(normalize_price("50000"), Some("50000".to_string()));
}

#[test]
fn normalization_is_idempotent() {
    for s in ["10.00", "-2.50", "0.500", "007", ".5", "5.", "0", "-0.00", "123.456"] {
        let once = normalize_price(s).unwrap();
        let twice = normalize_price(&once).unwrap();
        assert_eq!(once, twice);
    }
}

#[test]
fn price_normalization_rejects_garbage() {
    assert_eq!(normalize_price("abc"), None);
    assert_eq!(normalize_price(""), None);
    assert_eq!(normalize_price("."), None);
    assert_eq!(normalize_price("-"), None);
    assert_eq!(normalize_price("1.2.3"), None);
    assert_eq!(normalize_price("10x"), None);
    assert_eq!(normalize_price(" 10"), None);
}
