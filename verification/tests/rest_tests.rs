use btc_futures_sniper::binance_rest::{
    balance_from, join_query, position_from, AccountBalance, BinanceRestClient, Position,
};
use btc_futures_sniper::config::BinanceConfig;

fn client(secret: &str, testnet: bool) -> BinanceRestClient {
    BinanceRestClient::new(&BinanceConfig {
        api_key: "my-key".to_string(),
        api_secret: secret.to_string(),
        testnet,
    }, reqwest::Client::new())
}

fn pairs(v: &[(&str, &str)]) -> Vec<(String, String)> {
    v.iter().map(|(k, x)| (k.to_string(), x.to_string())).collect()
}

#[test]
fn base_address_follows_the_testnet_flag() {
    assert_eq!(client("s", true).base_url(), "https://testnet.binancefuture.com");
    assert_eq!(client("s", false).base_url(), "https://fapi.binance.com");
    assert_eq!(client("s", false).api_key(), "my-key");
}

#[test]
fn signature_is_hex_hmac_sha256() {
    let c = client("key", false);
    assert_eq!(
        c.sign("The quick brown fox jumps over the lazy dog"),
        "f7bc83f430538424b13298e6aa6fb143ef4d59a14946175997479dbc2d1a3cd8"
    );
    let empty = client("", false);
    assert_eq!(empty.sign(""), "b613679a0814d9ec772f95d778c35fc5ff1697c493715653c6c712144292c5ad");
}

#[test]
fn query_string_joins_the_parameters() {
    assert_eq!(join_query(&pairs(&[("a", "1"), ("b", "x y")])), "a=1&b=x y");
    assert_eq!(join_query(&pairs(&[("timestamp", "5")])), "timestamp=5");
    assert_eq!(join_query(&Vec::new()), "");
}

#[test]
fn balance_request_is_signed() {
    let c = client("secret", false);
    let req = c.balance_request(1_700_000_000_000);
    assert_eq!(req.url, "https://fapi.binance.com/fapi/v2/balance");
    assert_eq!(req.params.len(), 2);
    assert_eq!(req.params[0], ("timestamp".to_string(), "1700000000000".to_string()));
    assert_eq!(req.params[1].0, "signature");
    assert_eq!(req.params[1].1, c.sign("timestamp=1700000000000"));
    assert_eq!(req.params[1].1.len(), 64);
}

#[test]
fn leverage_request() {
    let c = client("secret", true);
    let req = c.leverage_request("BTCUSDT", 10, 42);
    assert_eq!(req.url, "https://testnet.binancefuture.com/fapi/v1/leverage");
    assert_eq!(req.params[..3].to_vec(), pairs(&[("symbol", "BTCUSDT"), ("leverage", "10"), ("timestamp", "42")]));
    assert_eq!(req.params[3].1, c.sign("symbol=BTCUSDT&leverage=10&timestamp=42"));
}

#[test]
fn market_order_has_six_decimals() {
    let c = client("secret", false);
    let req = c.open_position_request("BTCUSDT", "BUY", 1_000_000, 7);
    assert_eq!(req.url, "https://fapi.binance.com/fapi/v1/order");
    assert_eq!(
        req.params[..5].to_vec(),
        pairs(&[("symbol", "BTCUSDT"), ("side", "BUY"), ("type", "MARKET"), ("quantity", "0.010000"), ("timestamp", "7")])
    );
    assert_eq!(req.params[5].1, c.sign("symbol=BTCUSDT&side=BUY&type=MARKET&quantity=0.010000&timestamp=7"));
}

#[test]
fn closing_orders_take_the_opposite_side() {
    let c = client("secret", false);
    let sell = c.close_position_request("BTCUSDT", "BUY", 123_456_789, 7);
    assert_eq!(sell.params[1].1, "SELL");
    assert_eq!(sell.params[3].1, "1.234568");
    let buy = c.close_position_request("BTCUSDT", "SELL", 1, 7);
    assert_eq!(buy.params[1].1, "BUY");
    assert_eq!(buy.params[3].1, "0.000000");
}

#[test]
fn stop_orders_close_the_whole_position() {
    let c = client("secret", false);
    let (sl, tp) = c.stop_loss_take_profit_requests("BTCUSDT", "BUY", 4_900_000_000_000, 5_050_000_000_000, 9);
    assert_eq!(
        sl.params[..6].to_vec(),
        pairs(&[
            ("symbol", "BTCUSDT"),
            ("side", "SELL"),
            ("type", "STOP_MARKET"),
            ("stopPrice", "49000.00"),
            ("closePosition", "true"),
            ("timestamp", "9"),
        ])
    );
    assert_eq!(tp.params[2].1, "TAKE_PROFIT_MARKET");
    assert_eq!(tp.params[3].1, "50500.00");
    assert_eq!(
        tp.params[6].1,
        c.sign("symbol=BTCUSDT&side=SELL&type=TAKE_PROFIT_MARKET&stopPrice=50500.00&closePosition=true&timestamp=9")
    );
    let (short_sl, _) = c.stop_loss_take_profit_requests("BTCUSDT", "SELL", 5_100_000_000_000, 0, 9);
    assert_eq!(short_sl.params[1].1, "BUY");
}

#[test]
fn position_request() {
    let req = client("secret", false).position_request(3);
    assert_eq!(req.url, "https://fapi.binance.com/fapi/v2/positionRisk");
    assert_eq!(req.params[0], ("timestamp".to_string(), "3".to_string()));
}

fn balance(asset: &str, amount: &str) -> AccountBalance {
    AccountBalance { asset: asset.to_string(), available_balance: amount.to_string() }
}

#[test]
fn balance_is_the_first_usd_entry() {
    let reply = vec![balance("BNB", "5"), balance("USDC", "123.45"), balance("USDT", "1")];
    assert_eq!(balance_from(&reply), 12_345_000_000);
    assert_eq!(balance_from(&vec![balance("BNB", "5")]), 0);
    assert_eq!(balance_from(&vec![balance("USDT", "n/a"), balance("USDC", "9")]), 0);
}

fn position(symbol: &str, amount: &str) -> Position {
    Position {
        symbol: symbol.to_string(),
        position_amt: amount.to_string(),
        entry_price: "50000".to_string(),
        unrealized_profit: "0".to_string(),
    }
}

#[test]
fn position_is_the_first_open_one_of_the_symbol() {
    let reply = vec![
        position("ETHUSDT", "1"),
        position("BTCUSDT", "0.000"),
        position("BTCUSDT", "-0.010"),
        position("BTCUSDT", "0.5"),
    ];
    let p = position_from(reply, "BTCUSDT").expect("an open position");
    assert_eq!(p.position_amt, "-0.010");
    assert!(position_from(vec![position("BTCUSDT", "0")], "BTCUSDT").is_none());
    assert!(position_from(Vec::new(), "BTCUSDT").is_none());
}

#[test]
fn exponent_amounts_in_replies() {
    assert_eq!(balance_from(&vec![balance("USDT", "1e3")]), 100_000_000_000);
    let p = position_from(vec![position("BTCUSDT", "1e-3")], "BTCUSDT").expect("an open position");
    assert_eq!(p.position_amt, "1e-3");
}
