use alert_service::asset::{AssetPrice, AssetPriceTable};

fn price(id: i32, asset_id: &str, price: &str) -> AssetPrice {
    AssetPrice { id, asset_id: asset_id.to_string(), price: price.to_string() }
}

#[test]
fn prices_come_back_sorted_by_asset() {
    let mut t = AssetPriceTable::new();
    t.add_price(price(1, "ETH", "2000"));
    t.add_price(price(2, "BTC", "50000"));
    t.add_price(price(3, "ADA", "0.5"));
    let rows = t.fetch_asset_prices();
    assert_eq!(rows.len(), 3);
    assert_eq!(rows[0].asset_id, "ADA");
    assert_eq!(rows[1].asset_id, "BTC");
    assert_eq!(rows[2].asset_id, "ETH");
    assert_eq!(rows[0].price, "0.5");
    assert_eq!(rows[1].price, "50000");
    assert_eq!(rows[2].price, "2000");
}

#[test]
fn sorting_ignores_insertion_order() {
    let mut a = AssetPriceTable::new();
    a.add_price(price(1, "BTC", "1"));
    a.add_price(price(2, "ADA", "2"));
    let mut b = AssetPriceTable::new();
    b.add_price(price(2, "ADA", "2"));
    b.add_price(price(1, "BTC", "1"));
    let ra = a.fetch_asset_prices();
    let rb = b.fetch_asset_prices();
    assert_eq!(ra.len(), rb.len());
    for (x, y) in ra.iter().zip(rb.iter()) {
        assert_eq!(x.id, y.id);
        assert_eq!(x.asset_id, y.asset_id);
        assert_eq!(x.price, y.price);
    }
}

#[test]
fn empty_price_table_lists_nothing() {
    let t = AssetPriceTable::new();
    assert_eq!(t.fetch_asset_prices().len(), 0);
}

#[test]
fn equal_assets_keep_all_rows() {
    let mut t = AssetPriceTable::new();
    t.add_price(price(1, "BTC", "1"));
    t.add_price(price(2, "BTC", "2"));
    let rows = t.fetch_asset_prices();
    assert_eq!(rows.len(), 2);
    let mut ids: Vec<i32> = rows.iter().map(|r| r.id).collect();
    ids.sort();
    assert_eq!(ids, vec![1, 2]);
}
