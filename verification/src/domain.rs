//! Core data types: price points, price windows, errors, and the provider
//! configuration. Monetary amounts are fixed-point integers: a price point
//! carries micro-units of currency per hour, a window's average carries
//! milli-units (three decimal places).

use vstd::prelude::*;

use crate::moment::{wf_moment, ZonedMoment};

verus! {

/// Largest magnitude a price may have, in micro-units of currency.
pub const AMOUNT_MICROS_LIMIT: i64 = 1_000_000_000_000;

/// An amount is storable when its magnitude stays within the fixed limit.
pub open spec fn wf_amount(a: int) -> bool {
    -AMOUNT_MICROS_LIMIT <= a <= AMOUNT_MICROS_LIMIT
}

/// A representation of a price starting at a certain moment in time.
/// `moment` is an hour-aligned UTC instant; `amount_micros` is the price of
/// that hour in micro-units of currency.
#[derive(Clone, Copy, Debug, PartialEq, Eq, Structural)]
pub struct PricePoint {
    pub moment: i64,
    pub amount_micros: i64,
}

impl PricePoint {
    /// A price point is well formed when its moment is hour-aligned and
    /// bounded and its amount stays within the fixed-point limit.
    pub open spec fn wf(&self) -> bool {
        wf_moment(self.moment as int) && wf_amount(self.amount_micros as int)
    }

    /// Executable well-formedness check, for callers outside verified code.
    pub fn is_wf(&self) -> (r: bool)
        ensures
            r == self.wf(),
    {
        0 <= self.moment && self.moment <= crate::moment::MOMENT_MAX
            && self.moment % crate::moment::SECS_PER_HOUR == 0
            && -AMOUNT_MICROS_LIMIT <= self.amount_micros
            && self.amount_micros <= AMOUNT_MICROS_LIMIT
    }
}

/// The cheapest contiguous run of hours found for one requested duration.
/// `starts_at` is the first hour's start, `ends_at` the end of the last
/// included hour, and `average_milli` the mean price rounded to three
/// decimal places (milli-units of currency).
#[derive(Clone, Copy, Debug, PartialEq, Eq, Structural)]
pub struct PriceWindow {
    pub starts_at: ZonedMoment,
    pub ends_at: ZonedMoment,
    pub average_milli: i64,
}

/// A window rendered at a fixed zone offset: the same instants and average,
/// displayed at `offset_secs` east of UTC.
pub open spec fn projected(w: PriceWindow, offset_secs: i32) -> PriceWindow {
    PriceWindow {
        starts_at: ZonedMoment { epoch_secs: w.starts_at.epoch_secs, offset_secs },
        ends_at: ZonedMoment { epoch_secs: w.ends_at.epoch_secs, offset_secs },
        average_milli: w.average_milli,
    }
}

impl PriceWindow {
    /// Render the window at a fixed zone offset. The underlying instants and
    /// the average are untouched: conversion is display-only and reversible.
    pub fn with_timezone(&self, offset_secs: i32) -> (w: PriceWindow)
        ensures
            w == projected(*self, offset_secs),
            w.starts_at.epoch_secs == self.starts_at.epoch_secs,
            w.ends_at.epoch_secs == self.ends_at.epoch_secs,
            w.average_milli == self.average_milli,
    {
        PriceWindow {
            starts_at: self.starts_at.at_offset(offset_secs),
            ends_at: self.ends_at.at_offset(offset_secs),
            average_milli: self.average_milli,
        }
    }
}

/// Projection round trip: rendering a window at any zone offset moves no
/// instant and no average, so reinterpreting the projection in UTC recovers
/// a UTC-anchored window exactly.
pub proof fn lemma_project_round_trip(w: PriceWindow, offset_secs: i32)
    ensures
        projected(w, offset_secs).starts_at.epoch_secs == w.starts_at.epoch_secs,
        projected(w, offset_secs).ends_at.epoch_secs == w.ends_at.epoch_secs,
        projected(w, offset_secs).average_milli == w.average_milli,
        w.starts_at.offset_secs == 0 && w.ends_at.offset_secs == 0 ==> projected(
            projected(w, offset_secs),
            0,
        ) == w,
{
}

/// Failure of the external electricity price provider.
#[derive(Debug, Clone)]
pub enum ElectricityProviderError {
    FetchPrices(String),
}

/// Failure of a bulk insert into the price series store.
#[derive(Clone, Copy, Debug, PartialEq, Eq, Structural)]
pub enum PersistError {
    /// The named provider is not known to the store.
    UnknownProvider,
    /// The batch would store a second price for some `(provider, moment)`.
    DuplicateError,
}

impl PersistError {
    /// A short description of the failure.
    pub fn message(&self) -> (s: String)
        ensures
            *self is UnknownProvider ==> s@ == "unknown provider"@,
            *self is DuplicateError ==> s@ == "duplicate price point"@,
    {
        match self {
            PersistError::UnknownProvider => String::from_str("unknown provider"),
            PersistError::DuplicateError => String::from_str("duplicate price point"),
        }
    }
}

/// No price point lies in the requested range: no window can be reported.
#[derive(Clone, Copy, Debug, PartialEq, Eq, Structural)]
pub struct NotFoundError;

/// Configuration of the Tibber electricity price provider: the key that
/// authorizes fetches against its API.
#[derive(Clone, Debug)]
pub struct Tibber {
    pub api_key: String,
}

impl Tibber {
    pub fn new(api_key: String) -> (t: Tibber)
        ensures
            t.api_key@ == api_key@,
    {
        Tibber { api_key }
    }

    /// The key handed to the provider's API on every fetch.
    pub fn api_key(&self) -> (k: &String)
        ensures
            k@ == self.api_key@,
    {
        &self.api_key
    }

    /// The provider's identity, under which its price points are stored.
    pub fn name(&self) -> (n: String)
        ensures
            n@ == "tibber"@,
    {
        String::from_str("tibber")
    }
}

/// Build the electricity provider named by a connection string's driver,
/// with the user name as its key. Only a Tibber configuration exists; any
/// other driver, or a missing user name, resolves to nothing and the caller
/// decides how to fail.
pub fn resolve_electricity_provider(driver: &String, username: Option<String>) -> (r: Option<
    Tibber,
>)
    ensures
        r is Some <==> (driver@ == "tibber"@ && username is Some),
        r matches Some(t) ==> (username matches Some(u) && t.api_key@ == u@),
{
    if *driver == String::from_str("tibber") {
        match username {
            Some(u) => Some(Tibber::new(u)),
            None => None,
        }
    } else {
        None
    }
}

} // verus!
