//! The data-provider interface vocabulary: price-history request
//! granularity and span, symbol-search projections, streaming
//! subscriptions, and the replay-mode state.

use vstd::prelude::*;

verus! {

/// The candle granularity of a price-history request.
#[derive(Clone, Copy, Debug, PartialEq, Eq, Structural)]
pub enum Frequency {
    Minute(u32),
    Daily,
    Weekly,
    Monthly,
}

impl Frequency {
    /// The span of one candle of this granularity, in seconds.
    pub fn to_secs(&self) -> (r: i64)
        ensures
            r == match *self {
                Frequency::Minute(m) => (m as int) * 60,
                Frequency::Daily => 86_400int,
                Frequency::Weekly => 604_800int,
                Frequency::Monthly => 2_592_000int,
            },
    {
        match *self {
            Frequency::Minute(m) => (m as i64) * 60,
            Frequency::Daily => 86_400,
            Frequency::Weekly => 7 * 86_400,
            Frequency::Monthly => 30 * 86_400,
        }
    }
}

/// The look-back span of a price-history request.
#[derive(Clone, Copy, Debug, PartialEq, Eq, Structural)]
pub enum Period {
    Day(u32),
    Month(u32),
    Year(u32),
    Ytd,
}

/// How a symbol search matches.
#[derive(Clone, Copy, Debug, PartialEq, Eq, Structural)]
pub enum SearchProjection {
    Search,
    Fundamental,
    SymbolSearch,
    SymbolRegex,
    DescSearch,
    DescRegex,
}

/// A streaming subscription kind.
#[derive(Clone, Copy, Debug, PartialEq, Eq, Structural)]
pub enum Subscription {
    EquityChart,
    EquityLevelOne,
    OptionsLevelOne,
}

impl Subscription {
    /// The streaming service name of the subscription.
    pub fn service(&self) -> (r: &'static str)
        ensures
            r@ == match *self {
                Subscription::EquityChart => "CHART_EQUITY"@,
                Subscription::EquityLevelOne => "LEVELONE_EQUITIES"@,
                Subscription::OptionsLevelOne => "LEVELONE_OPTIONS"@,
            },
    {
        match *self {
            Subscription::EquityChart => "CHART_EQUITY",
            Subscription::EquityLevelOne => "LEVELONE_EQUITIES",
            Subscription::OptionsLevelOne => "LEVELONE_OPTIONS",
        }
    }

    /// The field list requested for the subscription.
    pub fn fields(&self) -> (r: &'static str)
        ensures
            r@ == match *self {
                Subscription::EquityChart => "0,1,2,3,4,5,6,7"@,
                Subscription::EquityLevelOne => "0,1,2,3,4,5,8,9,10,11,12,14,17,18,34,35,49"@,
                Subscription::OptionsLevelOne =>
                    "0,2,3,4,5,6,7,8,9,10,15,16,17,18,19,28,29,30,31,32,38,39"@,
            },
    {
        match *self {
            Subscription::EquityChart => "0,1,2,3,4,5,6,7",
            Subscription::EquityLevelOne => "0,1,2,3,4,5,8,9,10,11,12,14,17,18,34,35,49",
            Subscription::OptionsLevelOne =>
                "0,2,3,4,5,6,7,8,9,10,15,16,17,18,19,28,29,30,31,32,38,39",
        }
    }

    /// The subscription a streaming service name stands for, if any.
    pub fn from_service(service: &str) -> (r: Option<Subscription>)
        ensures
            r == if service@ == "CHART_EQUITY"@ {
                Some(Subscription::EquityChart)
            } else if service@ == "LEVELONE_EQUITIES"@ {
                Some(Subscription::EquityLevelOne)
            } else if service@ == "LEVELONE_OPTIONS"@ {
                Some(Subscription::OptionsLevelOne)
            } else {
                Option::<Subscription>::None
            },
    {
        let owned = service.to_owned();
        if owned.eq(&String::from_str("CHART_EQUITY")) {
            Some(Subscription::EquityChart)
        } else if owned.eq(&String::from_str("LEVELONE_EQUITIES")) {
            Some(Subscription::EquityLevelOne)
        } else if owned.eq(&String::from_str("LEVELONE_OPTIONS")) {
            Some(Subscription::OptionsLevelOne)
        } else {
            None
        }
    }
}

/// The replay-mode state a client can read or update.
pub struct ReplayInfo {
    pub playing: bool,
    pub speed: u64,
    pub symbol: String,
}

} // verus!
