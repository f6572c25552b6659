//! The order of market queries for an order that may change between them.
use crate::order::OrderDir;
use crate::saoe::SaoePluginError;
use vstd::prelude::*;

verus! {

/// Why a market could not be read.
#[derive(Debug)]
pub enum LiveSaoeMarketError {
    VolumeOrderPoisoned,
    Volume(SaoePluginError),
    PriceOrderPoisoned,
    Price(SaoePluginError),
}

/// The volumes and prices of an order.
#[derive(Debug)]
pub struct SaoeMarketSlice<V> {
    pub volume: Vec<V>,
    pub price: Vec<V>,
}

/// What is asked of the market next.
#[derive(Debug)]
pub enum MarketStep<V> {
    QueryVolume { stock_id: String },
    QueryPrice { stock_id: String, direction: OrderDir },
    Finished(SaoeMarketSlice<V>),
    Failed(LiveSaoeMarketError),
}

/// A read of the market under way: the volumes that were read, once they are.
#[derive(Debug)]
pub struct LiveMarketRead<V> {
    volume: Option<Vec<V>>,
}

impl<V> LiveMarketRead<V> {
    /// The volumes that were read.
    pub closed spec fn volume(&self) -> Option<Seq<V>> {
        match self.volume {
            Some(values) => Some(values@),
            None => None,
        }
    }

    /// Begins with the volumes of the order's stock; none stands for an order that cannot be read.
    pub fn begin(stock_id: Option<&String>) -> (result: (Self, MarketStep<V>))
        ensures
            result.0.volume() is None,
            match stock_id {
                Some(stock) => result.1 matches MarketStep::QueryVolume { stock_id: asked } && asked@ == stock@,
                None => result.1 == MarketStep::<V>::Failed(LiveSaoeMarketError::VolumeOrderPoisoned),
            },
    {
        let read = LiveMarketRead { volume: None };
        match stock_id {
            Some(stock) => (read, MarketStep::QueryVolume { stock_id: stock.clone() }),
            None => (read, MarketStep::Failed(LiveSaoeMarketError::VolumeOrderPoisoned)),
        }
    }

    /// Goes on with the prices. The order is read anew, since the query of the volumes may have
    /// changed it.
    pub fn volume_read(&mut self, reply: Result<Vec<V>, SaoePluginError>, order: Option<(&String, OrderDir)>) -> (result: MarketStep<
        V,
    >)
        ensures
            match reply {
                Err(error) => result == MarketStep::<V>::Failed(LiveSaoeMarketError::Volume(error))
                    && final(self).volume() == old(self).volume(),
                Ok(values) => final(self).volume() == Some(values@) && match order {
                    Some(found) => result is QueryPrice && result->QueryPrice_stock_id@ == found.0@
                        && result->direction == found.1,
                    None => result == MarketStep::<V>::Failed(LiveSaoeMarketError::PriceOrderPoisoned),
                },
            },
    {
        match reply {
            Err(error) => MarketStep::Failed(LiveSaoeMarketError::Volume(error)),
            Ok(values) => {
                self.volume = Some(values);
                match order {
                    Some((stock, direction)) => MarketStep::QueryPrice { stock_id: stock.clone(), direction },
                    None => MarketStep::Failed(LiveSaoeMarketError::PriceOrderPoisoned),
                }
            },
        }
    }

    /// Ends with the volumes and the prices.
    pub fn price_read(self, reply: Result<Vec<V>, SaoePluginError>) -> (result: MarketStep<V>)
        requires
            self.volume() is Some,
        ensures
            match reply {
                Err(error) => result == MarketStep::<V>::Failed(LiveSaoeMarketError::Price(error)),
                Ok(values) => result matches MarketStep::Finished(slice) && slice.volume@ == self.volume()->Some_0
                    && slice.price@ == values@,
            },
    {
        match reply {
            Err(error) => MarketStep::Failed(LiveSaoeMarketError::Price(error)),
            Ok(price) => MarketStep::Finished(SaoeMarketSlice { volume: self.volume.unwrap(), price }),
        }
    }
}

} // verus!
