//! Requests to the Binance futures REST API and the reading of its replies.
//!
//! Every private request carries its parameters and, last, a `signature`
//! parameter: the lower-case hex HMAC-SHA256 of the parameters written as a
//! query string (`k1=v1&k2=v2...`), keyed with the API secret.  The caller
//! sends the request with the API key in the `X-MBX-APIKEY` header.
use vstd::prelude::*;
use hmac::Mac;
use crate::config::BinanceConfig;
use crate::decimal::{
    fixed_text, format_int, format_units, int_text, nat_text, same_text, units_or_zero,
    units_or_zero_of,
};

verus! {

/// HMAC-SHA256 of `message` keyed with `key`.
pub uninterp spec fn hmac_sha256(key: Seq<u8>, message: Seq<u8>) -> Seq<u8>;

/// The HMAC-SHA256 of a message: hmac's `Hmac::<Sha256>::new_from_slice`
/// with the key, `Mac::update` with the message and `Mac::finalize`.  The
/// result is named `hmac_sha256` of the key and message bytes and is 32 bytes
/// long (SHA-256's output size).  `new_from_slice` accepts a key of any
/// length for HMAC (longer keys are hashed), so the `expect` never fires.
#[verifier::external_body]
fn hmac_sha256_of(key: &[u8], message: &[u8]) -> (r: Vec<u8>)
    ensures
        r@ == hmac_sha256(key@, message@),
        r@.len() == 32,
{
    let mut mac = hmac::Hmac::<sha2::Sha256>::new_from_slice(key).expect("HMAC can take key of any size");
    mac.update(message);
    mac.finalize().into_bytes().to_vec()
}

/// A lower-case hex digit.
pub open spec fn hex_digit(d: int) -> char {
    if d < 10 {
        (('0' as int) + d) as char
    } else {
        (('a' as int) + d - 10) as char
    }
}

/// Bytes in lower-case hex, two digits per byte, high half first.
pub open spec fn hex_text(bytes: Seq<u8>) -> Seq<char>
    decreases bytes.len(),
{
    if bytes.len() == 0 {
        Seq::empty()
    } else {
        hex_text(bytes.drop_last()) + seq![
            hex_digit(bytes.last() as int / 16),
            hex_digit(bytes.last() as int % 16),
        ]
    }
}

/// A lower-case hex digit character.
pub open spec fn is_lower_hex(c: char) -> bool {
    ('0' <= c && c <= '9') || ('a' <= c && c <= 'f')
}

/// Hex text has two lower-case hex digits per byte.
pub proof fn lemma_hex_text_shape(bytes: Seq<u8>)
    ensures
        hex_text(bytes).len() == 2 * bytes.len(),
        forall|i: int| 0 <= i < hex_text(bytes).len() ==> is_lower_hex(#[trigger] hex_text(bytes)[i]),
    decreases bytes.len(),
{
    if bytes.len() > 0 {
        lemma_hex_text_shape(bytes.drop_last());
        let hi = bytes.last() as int / 16;
        let lo = bytes.last() as int % 16;
        assert(0 <= hi < 16 && 0 <= lo < 16);
        assert(is_lower_hex(hex_digit(hi)));
        assert(is_lower_hex(hex_digit(lo)));
        let t = hex_text(bytes);
        let p = hex_text(bytes.drop_last());
        assert forall|i: int| 0 <= i < t.len() implies is_lower_hex(#[trigger] t[i]) by {
            if i < p.len() {
                assert(t[i] == p[i]);
            }
        }
    }
}

/// hex's `hex::encode`: each byte as two lower-case hex digits, high half
/// first (its table is `0123456789abcdef`).
#[verifier::external_body]
fn hex_encode(bytes: &[u8]) -> (r: String)
    ensures
        r@ == hex_text(bytes@),
{
    hex::encode(bytes)
}

/// The texts of request parameters.
pub open spec fn param_texts(ps: Seq<(String, String)>) -> Seq<(Seq<char>, Seq<char>)> {
    ps.map_values(|p: (String, String)| (p.0@, p.1@))
}

/// Parameters written as a query string: `k=v` joined by `&`.
pub open spec fn query_text(ps: Seq<(Seq<char>, Seq<char>)>) -> Seq<char>
    decreases ps.len(),
{
    if ps.len() == 0 {
        Seq::empty()
    } else if ps.len() == 1 {
        ps[0].0 + "="@ + ps[0].1
    } else {
        query_text(ps.drop_last()) + "&"@ + ps.last().0 + "="@ + ps.last().1
    }
}

/// The signature of a query string under a secret.
pub open spec fn signature_text(secret: Seq<char>, query: Seq<char>) -> Seq<char> {
    hex_text(hmac_sha256(vstd::utf8::encode_utf8(secret), vstd::utf8::encode_utf8(query)))
}

/// The parameters followed by their signature.
pub open spec fn signed_texts(secret: Seq<char>, ps: Seq<(Seq<char>, Seq<char>)>) -> Seq<(Seq<char>, Seq<char>)> {
    ps.push(("signature"@, signature_text(secret, query_text(ps))))
}

/// The side of the order that closes a position opened with `side`:
/// `"SELL"` for `"BUY"` and `"BUY"` for anything else.
pub open spec fn opposite_side(side: Seq<char>) -> Seq<char> {
    if side == "BUY"@ {
        "SELL"@
    } else {
        "BUY"@
    }
}

/// A signed request: the address and the form or query parameters.
pub struct SignedRequest {
    pub url: String,
    pub params: Vec<(String, String)>,
}

/// One entry of the account balance reply.
pub struct AccountBalance {
    pub asset: String,
    pub available_balance: String,
}

/// The reply to an order.
pub struct OrderResult {
    pub order_id: i64,
    pub symbol: String,
    pub status: String,
}

/// One entry of the position reply.
pub struct Position {
    pub symbol: String,
    pub position_amt: String,
    pub entry_price: String,
    pub unrealized_profit: String,
}

/// The balance the account reply gives: the available balance of the first
/// `USDT` or `USDC` entry (0 where it is no number), 0 without one.
pub open spec fn balance_of(bs: Seq<AccountBalance>) -> int
    decreases bs.len(),
{
    if bs.len() == 0 {
        0
    } else if bs[0].asset@ == "USDT"@ || bs[0].asset@ == "USDC"@ {
        units_or_zero(bs[0].available_balance@)
    } else {
        balance_of(bs.drop_first())
    }
}

/// An entry of the position reply that is an open position of `symbol`.
pub open spec fn is_open_position_of(p: Position, symbol: Seq<char>) -> bool {
    p.symbol@ == symbol && units_or_zero(p.position_amt@) != 0
}

/// Appends a parameter.
fn push_param(params: &mut Vec<(String, String)>, key: &str, value: String)
    ensures
        param_texts(final(params)@) == param_texts(old(params)@).push((key@, value@)),
{
    params.push((key.to_owned(), value));
    proof {
        assert(param_texts(final(params)@) =~= param_texts(old(params)@).push((key@, value@)));
    }
}

/// Writes parameters as a query string.
pub fn join_query(params: &Vec<(String, String)>) -> (r: String)
    ensures
        r@ == query_text(param_texts(params@)),
{
    let n = params.len();
    let mut s = String::new();
    let mut i: usize = 0;
    while i < n
        invariant
            n == params@.len(),
            i <= n,
            s@ == query_text(param_texts(params@.take(i as int))),
        decreases n - i,
    {
        proof {
            assert(param_texts(params@.take(i + 1)).drop_last() =~= param_texts(params@.take(i as int)));
        }
        if i > 0 {
            s.append("&");
        }
        s.append(params[i].0.as_str());
        s.append("=");
        s.append(params[i].1.as_str());
        i = i + 1;
    }
    proof {
        assert(params@.take(n as int) =~= params@);
    }
    s
}

/// The REST client: the HTTP handle, the API key and secret and the base
/// address (the testnet one when the configuration asks for it).
pub struct BinanceRestClient {
    client: reqwest::Client,
    api_key: String,
    api_secret: String,
    base_url: String,
}

impl BinanceRestClient {
    pub closed spec fn key_view(&self) -> Seq<char> {
        self.api_key@
    }

    pub closed spec fn secret_view(&self) -> Seq<char> {
        self.api_secret@
    }

    /// The HTTP handle held.
    pub closed spec fn http_view(&self) -> reqwest::Client {
        self.client
    }

    pub closed spec fn base_url_view(&self) -> Seq<char> {
        self.base_url@
    }

    /// A client for the configured account that sends through `client`.
    pub fn new(config: &BinanceConfig, client: reqwest::Client) -> (r: Self)
        ensures
            r.http_view() == client,
            r.key_view() == config.api_key@,
            r.secret_view() == config.api_secret@,
            r.base_url_view() == (if config.testnet {
                "https://testnet.binancefuture.com"@
            } else {
                "https://fapi.binance.com"@
            }),
    {
        let base_url = if config.testnet {
            "https://testnet.binancefuture.com".to_owned()
        } else {
            "https://fapi.binance.com".to_owned()
        };
        BinanceRestClient {
            client,
            api_key: config.api_key.clone(),
            api_secret: config.api_secret.clone(),
            base_url,
        }
    }

    /// The HTTP handle the requests are sent with: the one the client holds.
    pub fn http(&self) -> (r: &reqwest::Client)
        ensures
            *r == self.http_view(),
    {
        &self.client
    }

    /// The API key, sent in the `X-MBX-APIKEY` header.
    pub fn api_key(&self) -> (r: &str)
        ensures
            r@ == self.key_view(),
    {
        self.api_key.as_str()
    }

    pub fn base_url(&self) -> (r: &str)
        ensures
            r@ == self.base_url_view(),
    {
        self.base_url.as_str()
    }

    /// The signature of a query string: lower-case hex of its HMAC-SHA256
    /// under the API secret, always 64 hex digits.
    pub fn sign(&self, query: &str) -> (r: String)
        ensures
            r@ == signature_text(self.secret_view(), query@),
            r@.len() == 64,
            forall|i: int| 0 <= i < 64 ==> is_lower_hex(#[trigger] r@[i]),
    {
        let mac = hmac_sha256_of(self.api_secret.as_str().as_bytes(), query.as_bytes());
        proof {
            lemma_hex_text_shape(mac@);
        }
        hex_encode(mac.as_slice())
    }

    /// A request to `path` with `params` followed by their signature.
    fn signed_request(&self, path: &str, params: Vec<(String, String)>) -> (r: SignedRequest)
        ensures
            r.url@ == self.base_url_view() + path@,
            param_texts(r.params@) == signed_texts(self.secret_view(), param_texts(params@)),
    {
        let query = join_query(&params);
        let signature = self.sign(query.as_str());
        let mut params = params;
        push_param(&mut params, "signature", signature);
        let mut url = self.base_url.clone();
        url.append(path);
        SignedRequest { url, params }
    }

    /// The balance query: `GET /fapi/v2/balance` with the timestamp.
    pub fn balance_request(&self, timestamp: i64) -> (r: SignedRequest)
        ensures
            r.url@ == self.base_url_view() + "/fapi/v2/balance"@,
            param_texts(r.params@) == signed_texts(
                self.secret_view(),
                seq![("timestamp"@, int_text(timestamp as int))],
            ),
    {
        let mut params: Vec<(String, String)> = Vec::new();
        push_param(&mut params, "timestamp", format_int(timestamp as i128));
        assert(param_texts(params@) =~= seq![("timestamp"@, int_text(timestamp as int))]);
        self.signed_request("/fapi/v2/balance", params)
    }

    /// The leverage setting: `POST /fapi/v1/leverage` with the symbol, the
    /// leverage and the timestamp.
    pub fn leverage_request(&self, symbol: &str, leverage: u32, timestamp: i64) -> (r: SignedRequest)
        ensures
            r.url@ == self.base_url_view() + "/fapi/v1/leverage"@,
            param_texts(r.params@) == signed_texts(
                self.secret_view(),
                seq![
                    ("symbol"@, symbol@),
                    ("leverage"@, nat_text(leverage as nat)),
                    ("timestamp"@, int_text(timestamp as int)),
                ],
            ),
    {
        let mut params: Vec<(String, String)> = Vec::new();
        push_param(&mut params, "symbol", symbol.to_owned());
        push_param(&mut params, "leverage", format_int(leverage as i128));
        push_param(&mut params, "timestamp", format_int(timestamp as i128));
        assert(param_texts(params@) =~= seq![
            ("symbol"@, symbol@),
            ("leverage"@, nat_text(leverage as nat)),
            ("timestamp"@, int_text(timestamp as int)),
        ]);
        self.signed_request("/fapi/v1/leverage", params)
    }

    /// A market order: `POST /fapi/v1/order` with the symbol, the side
    /// (`"BUY"` or `"SELL"`), type `MARKET`, the quantity (units) with six
    /// decimals and the timestamp.
    pub fn open_position_request(&self, symbol: &str, side: &str, quantity: u64, timestamp: i64) -> (r:
        SignedRequest)
        ensures
            r.url@ == self.base_url_view() + "/fapi/v1/order"@,
            param_texts(r.params@) == signed_texts(
                self.secret_view(),
                market_order_texts(symbol@, side@, quantity as int, timestamp as int),
            ),
    {
        let mut params: Vec<(String, String)> = Vec::new();
        push_param(&mut params, "symbol", symbol.to_owned());
        push_param(&mut params, "side", side.to_owned());
        push_param(&mut params, "type", "MARKET".to_owned());
        push_param(&mut params, "quantity", format_units(quantity as i128, 6, false));
        push_param(&mut params, "timestamp", format_int(timestamp as i128));
        assert(param_texts(params@) =~= market_order_texts(symbol@, side@, quantity as int, timestamp as int));
        self.signed_request("/fapi/v1/order", params)
    }

    /// The market order that closes a position opened with `side`: the
    /// same order on the opposite side.
    pub fn close_position_request(&self, symbol: &str, side: &str, quantity: u64, timestamp: i64) -> (r:
        SignedRequest)
        ensures
            r.url@ == self.base_url_view() + "/fapi/v1/order"@,
            param_texts(r.params@) == signed_texts(
                self.secret_view(),
                close_order_texts(symbol@, side@, quantity as int, timestamp as int),
            ),
    {
        let close_side = if same_text(side, "BUY") {
            "SELL"
        } else {
            "BUY"
        };
        self.open_position_request(symbol, close_side, quantity, timestamp)
    }

    /// The stop-loss and the take-profit orders for a position opened with
    /// `side`: `STOP_MARKET` and `TAKE_PROFIT_MARKET` orders on the opposite
    /// side at the given prices (units, two decimals) that close the whole
    /// position.
    pub fn stop_loss_take_profit_requests(
        &self,
        symbol: &str,
        side: &str,
        stop_loss: i128,
        take_profit: i128,
        timestamp: i64,
    ) -> (r: (SignedRequest, SignedRequest))
        ensures
            r.0.url@ == self.base_url_view() + "/fapi/v1/order"@,
            r.1.url@ == self.base_url_view() + "/fapi/v1/order"@,
            param_texts(r.0.params@) == signed_texts(
                self.secret_view(),
                stop_order_texts(symbol@, opposite_side(side@), "STOP_MARKET"@, stop_loss as int, timestamp as int),
            ),
            param_texts(r.1.params@) == signed_texts(
                self.secret_view(),
                stop_order_texts(
                    symbol@,
                    opposite_side(side@),
                    "TAKE_PROFIT_MARKET"@,
                    take_profit as int,
                    timestamp as int,
                ),
            ),
    {
        let stop_side = if same_text(side, "BUY") {
            "SELL"
        } else {
            "BUY"
        };
        let sl = self.stop_order_request(symbol, stop_side, "STOP_MARKET", stop_loss, timestamp);
        let tp = self.stop_order_request(symbol, stop_side, "TAKE_PROFIT_MARKET", take_profit, timestamp);
        (sl, tp)
    }

    fn stop_order_request(&self, symbol: &str, side: &str, order_type: &str, price: i128, timestamp: i64) -> (r:
        SignedRequest)
        ensures
            r.url@ == self.base_url_view() + "/fapi/v1/order"@,
            param_texts(r.params@) == signed_texts(
                self.secret_view(),
                stop_order_texts(symbol@, side@, order_type@, price as int, timestamp as int),
            ),
    {
        let mut params: Vec<(String, String)> = Vec::new();
        push_param(&mut params, "symbol", symbol.to_owned());
        push_param(&mut params, "side", side.to_owned());
        push_param(&mut params, "type", order_type.to_owned());
        push_param(&mut params, "stopPrice", format_units(price, 2, false));
        push_param(&mut params, "closePosition", "true".to_owned());
        push_param(&mut params, "timestamp", format_int(timestamp as i128));
        assert(param_texts(params@) =~= stop_order_texts(symbol@, side@, order_type@, price as int, timestamp as int));
        self.signed_request("/fapi/v1/order", params)
    }

    /// The position query: `GET /fapi/v2/positionRisk` with the timestamp.
    pub fn position_request(&self, timestamp: i64) -> (r: SignedRequest)
        ensures
            r.url@ == self.base_url_view() + "/fapi/v2/positionRisk"@,
            param_texts(r.params@) == signed_texts(
                self.secret_view(),
                seq![("timestamp"@, int_text(timestamp as int))],
            ),
    {
        let mut params: Vec<(String, String)> = Vec::new();
        push_param(&mut params, "timestamp", format_int(timestamp as i128));
        assert(param_texts(params@) =~= seq![("timestamp"@, int_text(timestamp as int))]);
        self.signed_request("/fapi/v2/positionRisk", params)
    }
}

/// The parameters of a market order for `quantity` (units, six decimals).
pub open spec fn market_order_texts(symbol: Seq<char>, side: Seq<char>, quantity: int, timestamp: int) -> Seq<
    (Seq<char>, Seq<char>),
> {
    seq![
        ("symbol"@, symbol),
        ("side"@, side),
        ("type"@, "MARKET"@),
        ("quantity"@, fixed_text(quantity, 6, false)),
        ("timestamp"@, int_text(timestamp)),
    ]
}

/// The parameters of the order that closes a position opened with `side`.
pub open spec fn close_order_texts(symbol: Seq<char>, side: Seq<char>, quantity: int, timestamp: int) -> Seq<
    (Seq<char>, Seq<char>),
> {
    seq![
        ("symbol"@, symbol),
        ("side"@, opposite_side(side)),
        ("type"@, "MARKET"@),
        ("quantity"@, fixed_text(quantity, 6, false)),
        ("timestamp"@, int_text(timestamp)),
    ]
}

/// Closing a position sends the request that opening one on the other side
/// sends: the close order of `side` is the market order of
/// `opposite_side(side)` (`"SELL"` after `"BUY"`, `"BUY"` after any other
/// side), with the same symbol, quantity and timestamp, and so the same
/// signature.
pub proof fn lemma_close_is_reversed_open(secret: Seq<char>, symbol: Seq<char>, side: Seq<char>, quantity: int, timestamp: int)
    ensures
        signed_texts(secret, close_order_texts(symbol, side, quantity, timestamp)) == signed_texts(
            secret,
            market_order_texts(symbol, opposite_side(side), quantity, timestamp),
        ),
        opposite_side(side) == (if side == "BUY"@ { "SELL"@ } else { "BUY"@ }),
{
    assert(close_order_texts(symbol, side, quantity, timestamp) =~= market_order_texts(
        symbol,
        opposite_side(side),
        quantity,
        timestamp,
    ));
}

/// The parameters of a stop order that closes the whole position.
pub open spec fn stop_order_texts(
    symbol: Seq<char>,
    side: Seq<char>,
    order_type: Seq<char>,
    price: int,
    timestamp: int,
) -> Seq<(Seq<char>, Seq<char>)> {
    seq![
        ("symbol"@, symbol),
        ("side"@, side),
        ("type"@, order_type),
        ("stopPrice"@, fixed_text(price, 2, false)),
        ("closePosition"@, "true"@),
        ("timestamp"@, int_text(timestamp)),
    ]
}

/// The available balance (units) in an account reply: `balance_of`.
pub fn balance_from(balances: &Vec<AccountBalance>) -> (r: i64)
    ensures
        r as int == balance_of(balances@),
{
    let n = balances.len();
    let mut i: usize = 0;
    assert(balances@.subrange(0, n as int) =~= balances@);
    while i < n
        invariant
            n == balances@.len(),
            i <= n,
            balance_of(balances@.subrange(i as int, n as int)) == balance_of(balances@),
        decreases n - i,
    {
        let b = &balances[i];
        proof {
            assert(balances@.subrange(i as int, n as int).drop_first() =~= balances@.subrange(i + 1, n as int));
            assert(balances@.subrange(i as int, n as int)[0] == balances@[i as int]);
        }
        if same_text(b.asset.as_str(), "USDT") || same_text(b.asset.as_str(), "USDC") {
            return units_or_zero_of(b.available_balance.as_str());
        }
        i = i + 1;
    }
    0
}

/// The first entry of a position reply that is an open position of
/// `symbol` (its amount reads as a number other than 0), if any.
pub fn position_from(positions: Vec<Position>, symbol: &str) -> (r: Option<Position>)
    ensures
        r is None <==> (forall|i: int| 0 <= i < positions@.len() ==> !is_open_position_of(#[trigger] positions@[i], symbol@)),
        r matches Some(p) ==> exists|i: int|
            0 <= i < positions@.len() && positions@[i] == p && is_open_position_of(p, symbol@)
                && forall|j: int| 0 <= j < i ==> !is_open_position_of(#[trigger] positions@[j], symbol@),
{
    let n = positions.len();
    let mut i: usize = 0;
    while i < n
        invariant
            n == positions@.len(),
            i <= n,
            forall|j: int| 0 <= j < i ==> !is_open_position_of(#[trigger] positions@[j], symbol@),
        decreases n - i,
    {
        let p = &positions[i];
        if same_text(p.symbol.as_str(), symbol) && units_or_zero_of(p.position_amt.as_str()) != 0 {
            let mut positions = positions;
            let found = positions.remove(i);
            return Some(found);
        }
        i = i + 1;
    }
    None
}

/// Closing reverses the side of the order: the close order of a buy is a
/// sell and that of a sell is a buy, so closing twice gives the first side
/// back.
pub proof fn lemma_close_side_reverses(side: Seq<char>)
    requires
        side == "BUY"@ || side == "SELL"@,
    ensures
        opposite_side(side) != side,
        opposite_side(opposite_side(side)) == side,
{
    assert("BUY"@ != "SELL"@) by {
        reveal_strlit("BUY");
        reveal_strlit("SELL");
        assert("BUY"@.len() != "SELL"@.len());
    }
}

} // verus!