//! Price data and the development stand-in for the oracle service.
//!
//! `PriceData` is the shape of every oracle answer: an integer price scaled
//! by ten to the fourteenth, and the second it was observed. The client
//! here serves fixed development prices so that a resolution can be
//! exercised without a live oracle; which prices it serves is part of its
//! contract. The hosting environment supplies the clock, so both queries
//! take the timestamp to stamp the answer with.

use vstd::prelude::*;

verus! {

/// One oracle answer: a price scaled by `10^14`, and its timestamp in
/// seconds.
#[derive(Clone, Copy, PartialEq, Eq, Debug)]
pub struct PriceData {
    pub price: i128,
    pub timestamp: u64,
}

/// The development price served for a symbol, scaled by `10^14`.
pub open spec fn mock_price_of(symbol: Seq<char>) -> i128 {
    if symbol == "EUR"@ || symbol == "EUR/USD"@ {
        1_085_600_000_000_000i128
    } else if symbol == "USD"@ {
        1_000_000_000_000_000i128
    } else if symbol == "BTC"@ {
        43_250_750_000_000_000_000i128
    } else {
        1_000_000_000_000_000i128
    }
}

/// The latest-price answer: the development price, stamped `now`.
pub open spec fn last_price_of(symbol: Seq<char>, now: u64) -> Option<PriceData> {
    Some(PriceData { price: mock_price_of(symbol), timestamp: now })
}

/// The historical answer: ninety-nine and a half percent of the
/// development price, stamped with the requested timestamp.
pub open spec fn price_at_of(symbol: Seq<char>, timestamp: u64) -> Option<PriceData> {
    Some(
        PriceData {
            price: ((mock_price_of(symbol) * 9950) / 10000) as i128,
            timestamp: timestamp,
        },
    )
}

/// Client for the price oracle at a given address. Serves the fixed
/// development prices above.
pub struct ReflectorClient {
    pub address: u64,
}

impl ReflectorClient {
    /// A client bound to the oracle at `address`.
    pub fn new(address: u64) -> (c: Self)
        ensures
            c.address == address,
    {
        ReflectorClient { address }
    }

    /// The latest price for an asset symbol, stamped with the current
    /// time `now` supplied by the hosting environment.
    pub fn get_last_price(&self, asset_symbol: &String, now: u64) -> (r: Option<PriceData>)
        ensures
            r == last_price_of(asset_symbol@, now),
    {
        let eur = "EUR".to_owned();
        let usd = "USD".to_owned();
        let eur_usd = "EUR/USD".to_owned();
        let btc = "BTC".to_owned();
        if *asset_symbol == eur || *asset_symbol == eur_usd {
            Some(PriceData { price: 1_085_600_000_000_000i128, timestamp: now })
        } else if *asset_symbol == usd {
            Some(PriceData { price: 1_000_000_000_000_000i128, timestamp: now })
        } else if *asset_symbol == btc {
            Some(PriceData { price: 43_250_750_000_000_000_000i128, timestamp: now })
        } else {
            Some(PriceData { price: 1_000_000_000_000_000i128, timestamp: now })
        }
    }

    /// The price for an asset symbol at a past `timestamp`: a slight,
    /// fixed variation below the latest development price.
    pub fn get_price(&self, asset_symbol: &String, timestamp: u64) -> (r: Option<PriceData>)
        ensures
            r == price_at_of(asset_symbol@, timestamp),
    {
        let current = self.get_last_price(asset_symbol, timestamp);
        match current {
            Some(data) => {
                let wide: u128 = (data.price as u128) * 9950;
                let historical: i128 = (wide / 10000) as i128;
                Some(PriceData { price: historical, timestamp: timestamp })
            },
            None => None,
        }
    }

    /// The number of decimals of the oracle's fixed scaling.
    pub fn get_decimals(&self) -> (r: u32)
        ensures
            r == 14,
    {
        14
    }
}

} // verus!
