//! The records the backend serves: named topics with their source URLs,
//! and the extracted events.

use vstd::prelude::*;
use crate::dates::NaiveDate;

verus! {

/// A named group of source URLs.
#[derive(Debug)]
pub struct Topic {
    pub id: u32,
    pub name: String,
    pub urls: Vec<String>,
}

/// An extracted event: a normalized human-readable description and the
/// calendar date it carries.
#[derive(Debug)]
pub struct Event {
    pub text: String,
    pub date: NaiveDate,
}

/// Ghost counterpart of `Event`.
pub struct EventModel {
    pub text: Seq<char>,
    pub date: NaiveDate,
}

impl View for Event {
    type V = EventModel;

    open spec fn view(&self) -> EventModel {
        EventModel { text: self.text@, date: self.date }
    }
}

pub open spec fn events_model(v: Seq<Event>) -> Seq<EventModel> {
    v.map_values(|e: Event| e@)
}

impl Event {
    /// Builds an event; the description must be long enough to carry
    /// signal, as every event the extractor synthesizes is.
    pub fn new(text: &str, date: NaiveDate) -> (r: Event)
        requires
            text@.len() > 15,
        ensures
            r@ == (EventModel { text: text@, date }),
    {
        Event { text: text.to_owned(), date }
    }
}

} // verus!
