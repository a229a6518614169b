//! Raw feed records and the filter that turns the relevant ones into
//! observed transfers.

use crate::amount::Amount;
use crate::decimal::{quanta, MAX_SCALE};
use vstd::prelude::*;

verus! {

/// One transfer seen on the feed, in canonical form.
#[derive(Debug)]
pub struct ObservedTransfer {
    pub transfer_id: String,
    pub from_address: String,
    pub to_address: String,
    pub amount: Amount,
    pub asset_symbol: String,
}

pub struct TransferView {
    pub transfer_id: Seq<char>,
    pub from_address: Seq<char>,
    pub to_address: Seq<char>,
    pub amount: int,
    pub asset_symbol: Seq<char>,
}

impl View for ObservedTransfer {
    type V = TransferView;

    open spec fn view(&self) -> TransferView {
        TransferView {
            transfer_id: self.transfer_id@,
            from_address: self.from_address@,
            to_address: self.to_address@,
            amount: self.amount@,
            asset_symbol: self.asset_symbol@,
        }
    }
}

/// The asset a feed record speaks of.
#[derive(Debug)]
pub struct AssetInfo {
    pub symbol: String,
    /// Number of decimal places by which the raw amount is scaled.
    pub decimals: u32,
}

pub struct AssetView {
    pub symbol: Seq<char>,
    pub decimals: int,
}

impl View for AssetInfo {
    type V = AssetView;

    open spec fn view(&self) -> AssetView {
        AssetView { symbol: self.symbol@, decimals: self.decimals as int }
    }
}

/// One record of a feed page as it came, with every field but the
/// identifier allowed to be missing.
#[derive(Debug)]
pub struct RawRecord {
    pub transfer_id: String,
    pub asset: Option<AssetInfo>,
    pub from: Option<String>,
    pub to: Option<String>,
    /// The amount as an integer in the asset's smallest unit, in text.
    pub value: Option<String>,
}

pub struct RawView {
    pub transfer_id: Seq<char>,
    pub asset: Option<AssetView>,
    pub from: Option<Seq<char>>,
    pub to: Option<Seq<char>>,
    pub value: Option<Seq<char>>,
}

impl View for RawRecord {
    type V = RawView;

    open spec fn view(&self) -> RawView {
        RawView {
            transfer_id: self.transfer_id@,
            asset: match self.asset {
                Some(a) => Some(a@),
                None => None,
            },
            from: self.from.deep_view(),
            to: self.to.deep_view(),
            value: self.value.deep_view(),
        }
    }
}

impl DeepView for RawRecord {
    type V = RawView;

    open spec fn deep_view(&self) -> RawView {
        self@
    }
}

/// Selects the transfers of one token into one address.
#[derive(Debug)]
pub struct TransferFilter {
    pub watched_address: String,
    pub token_symbol: String,
}

pub struct FilterView {
    pub watched_address: Seq<char>,
    pub token_symbol: Seq<char>,
}

impl View for TransferFilter {
    type V = FilterView;

    open spec fn view(&self) -> FilterView {
        FilterView { watched_address: self.watched_address@, token_symbol: self.token_symbol@ }
    }
}

/// The amount that a raw value stands for: the number read from `text`,
/// divided by `10^decimals`. `None` where the text is no number, or where
/// the quotient has more fractional digits than an amount can carry.
pub open spec fn scaled_amount(text: Seq<char>, decimals: int) -> Option<int> {
    match Amount::read(text) {
        Ok((unscaled, scale)) => if scale + decimals <= MAX_SCALE {
            Some(quanta(unscaled, scale + decimals))
        } else {
            None
        },
        Err(_) => None,
    }
}

/// The observed transfer that a raw record stands for, if it is relevant:
/// sender, recipient, value and asset are present, the recipient is the
/// watched address, the asset is the configured token, and the value is
/// an amount.
pub open spec fn normalized(filter: FilterView, raw: RawView) -> Option<TransferView> {
    if raw.from is Some && raw.to == Some(filter.watched_address) && raw.value is Some
        && raw.asset is Some && raw.asset->0.symbol == filter.token_symbol && scaled_amount(
        raw.value->0,
        raw.asset->0.decimals,
    ) is Some {
        Some(
            TransferView {
                transfer_id: raw.transfer_id,
                from_address: raw.from->0,
                to_address: filter.watched_address,
                amount: scaled_amount(raw.value->0, raw.asset->0.decimals)->0,
                asset_symbol: filter.token_symbol,
            },
        )
    } else {
        None
    }
}

impl TransferFilter {
    /// Turns a raw record into an observed transfer, or discards it.
    pub fn normalize(&self, raw: &RawRecord) -> (r: Option<ObservedTransfer>)
        ensures
            match r {
                Some(t) => normalized(self@, raw@) == Some(t@),
                None => normalized(self@, raw@) is None,
            },
    {
        let from = match &raw.from {
            Some(f) => f,
            None => {
                return None;
            },
        };
        let to = match &raw.to {
            Some(t) => t,
            None => {
                return None;
            },
        };
        if *to != self.watched_address {
            return None;
        }
        let value = match &raw.value {
            Some(v) => v,
            None => {
                return None;
            },
        };
        let asset = match &raw.asset {
            Some(a) => a,
            None => {
                return None;
            },
        };
        if asset.symbol != self.token_symbol {
            return None;
        }
        let read = match Amount::parse(value.as_str()) {
            Ok(a) => a,
            Err(_) => {
                return None;
            },
        };
        let amount = match read.shifted_down(asset.decimals) {
            Some(a) => a,
            None => {
                return None;
            },
        };
        Some(
            ObservedTransfer {
                transfer_id: raw.transfer_id.clone(),
                from_address: from.clone(),
                to_address: to.clone(),
                amount,
                asset_symbol: asset.symbol.clone(),
            },
        )
    }
}

} // verus!
