//! The event extractors: strategies that turn a parsed document into a
//! list of events.

use vstd::prelude::*;
use crate::dates::NaiveDate;
use crate::dates::NaiveDateWithOptionalTime;
use crate::dates::spec_opt_time_le;

pub mod largest_element_with_single_date;
pub mod smallest_div_with_date;

verus! {

/// An extraction strategy: given a page's HTML text and a reference
/// date, the events the page announces.
pub trait EventExtractor {
    fn html_to_events(html: &str, from_date: &NaiveDate) -> Vec<crate::models::Event>;
}

/// An extracted event carrying a date that may hold a time of day, and
/// an optional end.
#[derive(Debug)]
pub struct Event {
    pub text: String,
    pub time: NaiveDateWithOptionalTime,
    pub end_time: Option<NaiveDateWithOptionalTime>,
}

/// Ghost counterpart of `Event`.
pub struct EventModel {
    pub text: Seq<char>,
    pub time: NaiveDateWithOptionalTime,
    pub end_time: Option<NaiveDateWithOptionalTime>,
}

impl View for Event {
    type V = EventModel;

    open spec fn view(&self) -> EventModel {
        EventModel { text: self.text@, time: self.time, end_time: self.end_time }
    }
}

pub open spec fn timed_events_model(v: Seq<Event>) -> Seq<EventModel> {
    v.map_values(|e: Event| e@)
}

impl Event {
    /// Builds an event; the description must be long enough to carry
    /// signal, and an end never lies before the start.
    pub fn new(
        text: &str,
        time: NaiveDateWithOptionalTime,
        end_time: Option<NaiveDateWithOptionalTime>,
    ) -> (r: Event)
        requires
            text@.len() > 15,
            end_time is Some ==> spec_opt_time_le(time, end_time->0),
        ensures
            r@ == (EventModel { text: text@, time, end_time }),
    {
        Event { text: text.to_owned(), time, end_time }
    }
}

} // verus!
