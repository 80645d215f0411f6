//! The tree subdivider: a recursive walk that decides, per subtree,
//! whether the subtree splits into independent events below it or
//! stands as one event itself, preferring the largest element whose
//! full text carries exactly one date.

use vstd::prelude::*;
use crate::dates::NaiveDate;
use crate::dates::spec_date_lt;
use crate::dates::spec_date_part;
use crate::dom::DomNode;
use crate::dom::DomChild;
use crate::dom::NodeModel;
use crate::dom::ChildModel;
use crate::dom::node_model;
use crate::dom::child_model;
use crate::dom::children_model;
use crate::dom::node_full_text;
use crate::dom::find_tagged;
use crate::dom::dom_of_tokens;
use crate::dom::lemma_children_model_index;
use crate::date_extraction::spec_extract_datetimes_text;
use crate::date_extraction::extract_datetimes_chars;
use crate::html::dom_tokens_of;
use crate::html::parse_document;
use crate::models::Event;
use crate::models::EventModel;
use crate::models::events_model;
use crate::normalize::spec_normalize;
use crate::normalize::normalize_chars;
use crate::normalize::chars_to_string;
use super::EventExtractor;

verus! {

/// Extracts one event per region, choosing the largest element whose
/// full text still carries exactly one date.
pub struct LargestElementWithSingleDateExtractor {}

/// The container tags the subdivider recurses into.
pub open spec fn spec_traversable(tag: Seq<char>) -> bool {
    tag == "div"@ || tag == "section"@ || tag == "ul"@ || tag == "li"@
}

pub fn is_traversable(tag: &str) -> (r: bool)
    ensures
        r == spec_traversable(tag@),
{
    crate::normalize::str_eq(tag, "div") || crate::normalize::str_eq(tag, "section")
        || crate::normalize::str_eq(tag, "ul") || crate::normalize::str_eq(tag, "li")
}

/// Leaf synthesis: one event from the node's entire normalized text,
/// exactly when that text carries exactly one date under the
/// grammar-priority rule and is longer than 15 characters.
pub open spec fn try_synthesize(n: NodeModel, year: u32) -> Option<EventModel> {
    let text = spec_normalize(node_full_text(n));
    let dates = spec_extract_datetimes_text(text, year);
    if dates.len() == 1 && text.len() > 15 {
        Some(EventModel { text, date: spec_date_part(dates[0].date) })
    } else {
        None
    }
}

/// The subdivision of a node: the events of its traversable children in
/// document order; a node whose children yield none is tried as one
/// event itself, one whose children yield exactly one is re-tried at
/// this broader scope so that the larger text wins, and one whose
/// children yield two or more is a pure aggregator and is never
/// re-synthesized.
pub open spec fn subdivide(n: NodeModel, year: u32) -> Seq<EventModel>
    decreases n, 1int,
{
    let child_events = subdivide_children(n.children, 0, year);
    if child_events.len() == 0 {
        match try_synthesize(n, year) {
            Some(e) => seq![e],
            None => Seq::empty(),
        }
    } else if child_events.len() == 1 {
        match try_synthesize(n, year) {
            Some(e) => seq![e],
            None => child_events,
        }
    } else {
        child_events
    }
}

pub open spec fn subdivide_children(cs: Seq<ChildModel>, i: int, year: u32) -> Seq<EventModel>
    decreases cs, cs.len() - i, 2int,
{
    if i < 0 || i >= cs.len() {
        Seq::empty()
    } else {
        subdivide_child(cs[i], year) + subdivide_children(cs, i + 1, year)
    }
}

pub open spec fn subdivide_child(c: ChildModel, year: u32) -> Seq<EventModel>
    decreases c, 0int, 0int,
{
    match c {
        ChildModel::Elem(n) => if spec_traversable(n.tag) {
            subdivide(n, year)
        } else {
            Seq::empty()
        },
        ChildModel::Text(_) => Seq::empty(),
    }
}

/// The entry element of a document: the first `main` element, else the
/// first `body`, else the first `html`, in document order.
pub open spec fn spec_entry_point(root: NodeModel) -> Option<NodeModel> {
    if find_tagged(root, "main"@) is Some {
        find_tagged(root, "main"@)
    } else if find_tagged(root, "body"@) is Some {
        find_tagged(root, "body"@)
    } else {
        find_tagged(root, "html"@)
    }
}

/// The events dated on or after `from`, in order.
pub open spec fn filter_from(evs: Seq<EventModel>, from: NaiveDate, i: int) -> Seq<EventModel>
    decreases evs.len() - i,
{
    if i < 0 || i >= evs.len() {
        Seq::empty()
    } else {
        let here: Seq<EventModel> = if spec_date_lt(evs[i].date, from) {
            Seq::empty()
        } else {
            seq![evs[i]]
        };
        here + filter_from(evs, from, i + 1)
    }
}

/// What extraction yields on a whole document: subdivide from the entry
/// element and keep the events dated on or after the reference date; a
/// document with no recognizable entry element yields nothing.
pub open spec fn spec_events_from_dom(root: NodeModel, from_date: NaiveDate) -> Seq<EventModel> {
    match spec_entry_point(root) {
        None => Seq::empty(),
        Some(entry) => filter_from(subdivide(entry, from_date.year), from_date, 0),
    }
}

/// Extraction is deterministic: any two results that the extraction
/// contract admits for equal inputs are equal.
pub proof fn lemma_extract_deterministic(
    r1: Seq<EventModel>,
    r2: Seq<EventModel>,
    root: NodeModel,
    from_date: NaiveDate,
)
    requires
        r1 == spec_events_from_dom(root, from_date),
        r2 == spec_events_from_dom(root, from_date),
    ensures
        r1 == r2,
{
}

/// Single-date gating: wherever leaf synthesis succeeds, the node's
/// normalized full text carries exactly one date match under the
/// grammar-priority rule.
pub proof fn lemma_single_date_gating(n: NodeModel, year: u32)
    requires
        try_synthesize(n, year) is Some,
    ensures
        spec_extract_datetimes_text(spec_normalize(node_full_text(n)), year).len() == 1,
{
}

/// Leaf threshold: every event the subdivision yields carries a
/// description longer than 15 characters.
pub proof fn lemma_leaf_threshold(n: NodeModel, year: u32)
    ensures
        forall|k: int|
            0 <= k < subdivide(n, year).len() ==> (#[trigger] subdivide(n, year)[k]).text.len()
                > 15,
    decreases n, 1int,
{
    lemma_leaf_threshold_children(n.children, 0, year);
    let ce = subdivide_children(n.children, 0, year);
    assert forall|k: int|
        0 <= k < subdivide(n, year).len() implies (#[trigger] subdivide(n, year)[k]).text.len()
        > 15 by {
        if subdivide(n, year) == ce {
            assert(subdivide(n, year)[k] == ce[k]);
        } else {
            let e = try_synthesize(n, year)->0;
            assert(subdivide(n, year)[k] == e);
        }
    }
}

proof fn lemma_leaf_threshold_children(cs: Seq<ChildModel>, i: int, year: u32)
    ensures
        forall|k: int|
            0 <= k < subdivide_children(cs, i, year).len() ==> (#[trigger] subdivide_children(
                cs,
                i,
                year,
            )[k]).text.len() > 15,
    decreases cs, cs.len() - i, 2int,
{
    if 0 <= i < cs.len() {
        lemma_leaf_threshold_child(cs[i], year);
        lemma_leaf_threshold_children(cs, i + 1, year);
        let a = subdivide_child(cs[i], year);
        let b = subdivide_children(cs, i + 1, year);
        assert forall|k: int|
            0 <= k < subdivide_children(cs, i, year).len() implies (#[trigger] subdivide_children(
            cs,
            i,
            year,
        )[k]).text.len() > 15 by {
            if k < a.len() {
                assert((a + b)[k] == a[k]);
            } else {
                assert((a + b)[k] == b[k - a.len()]);
            }
        }
    }
}

proof fn lemma_leaf_threshold_child(c: ChildModel, year: u32)
    ensures
        forall|k: int|
            0 <= k < subdivide_child(c, year).len() ==> (#[trigger] subdivide_child(c, year)[k])
                .text.len() > 15,
    decreases c, 0int, 0int,
{
    match c {
        ChildModel::Elem(n) => if spec_traversable(n.tag) {
            lemma_leaf_threshold(n, year);
            assert forall|k: int|
                0 <= k < subdivide_child(c, year).len() implies (#[trigger] subdivide_child(
                c,
                year,
            )[k]).text.len() > 15 by {
                assert(subdivide_child(c, year)[k] == subdivide(n, year)[k]);
            }
        },
        ChildModel::Text(_) => {},
    }
}

/// Aggregator non-collapse: once a node's children split into two or
/// more events, the node itself is never re-synthesized into one; the
/// children's events stand unchanged, whatever the node's own text
/// holds.
pub proof fn lemma_aggregator_non_collapse(n: NodeModel, year: u32)
    requires
        subdivide_children(n.children, 0, year).len() >= 2,
    ensures
        subdivide(n, year) == subdivide_children(n.children, 0, year),
{
}

/// The node's normalized full text: every whitespace run collapsed to
/// one space, leading and trailing whitespace trimmed.
pub fn extract_text(el: &DomNode) -> (r: String)
    ensures
        r@ == spec_normalize(node_full_text(node_model(*el))),
{
    let raw = el.full_text();
    let text = normalize_chars(&raw);
    chars_to_string(&text)
}

/// Attempts leaf synthesis on a node.
pub fn element_to_one_event(el: &DomNode, reference_year: u32) -> (r: Option<Event>)
    ensures
        match r {
            Some(e) => try_synthesize(node_model(*el), reference_year) == Some(e@),
            None => try_synthesize(node_model(*el), reference_year) is None,
        },
{
    let raw = el.full_text();
    let text = normalize_chars(&raw);
    let dates = extract_datetimes_chars(&text, reference_year);
    if dates.len() != 1 {
        return None;
    }
    if text.len() <= 15 {
        return None;
    }
    let s = chars_to_string(&text);
    let date = dates[0].date.date_part();
    proof {
        assert(crate::date_extraction::matches_model(dates@)[0] == dates@[0]@);
    }
    Some(Event::new(s.as_str(), date))
}

/// The subdivision of a node, as `subdivide` describes it.
pub fn element_to_events(el: &DomNode, reference_year: u32) -> (r: Vec<Event>)
    ensures
        events_model(r@) == subdivide(node_model(*el), reference_year),
    decreases *el, 2int,
{
    let ghost cm = children_model(el.children@, 0);
    proof {
        lemma_children_model_index(el.children@, 0);
    }
    let mut acc: Vec<Event> = Vec::new();
    let n: usize = el.children.len();
    let mut i: usize = 0;
    proof {
        assert(events_model(acc@) =~= Seq::<EventModel>::empty());
        assert(events_model(acc@) + subdivide_children(cm, 0, reference_year) =~= subdivide_children(
            cm,
            0,
            reference_year,
        ));
    }
    while i < n
        invariant
            i <= n,
            n == el.children@.len(),
            cm == children_model(el.children@, 0),
            cm == node_model(*el).children,
            cm.len() == n,
            forall|j: int| 0 <= j < n ==> cm[j] == child_model(#[trigger] el.children@[j]),
            events_model(acc@) + subdivide_children(cm, i as int, reference_year)
                == subdivide_children(cm, 0, reference_year),
        decreases n - i, *el, 1int,
    {
        let ghost pre = events_model(acc@);
        let c: &DomChild = &el.children[i];
        proof {
            assert(decreases_to!(*el, 2int => *c, 0int));
        }
        match c {
            DomChild::Elem(child) => {
                if is_traversable(child.tag.as_str()) {
                    let mut evs = element_to_events(child, reference_year);
                    proof {
                        assert(subdivide_child(cm[i as int], reference_year) == events_model(
                            evs@,
                        ));
                        assert(events_model(acc@ + evs@) =~= pre + events_model(evs@));
                        assert((pre + events_model(evs@)) + subdivide_children(
                            cm,
                            i + 1,
                            reference_year,
                        ) =~= pre + (events_model(evs@) + subdivide_children(
                            cm,
                            i + 1,
                            reference_year,
                        )));
                    }
                    acc.append(&mut evs);
                } else {
                    proof {
                        assert(subdivide_child(cm[i as int], reference_year)
                            =~= Seq::<EventModel>::empty());
                        assert(pre + subdivide_children(cm, i + 1, reference_year)
                            =~= pre + (Seq::<EventModel>::empty() + subdivide_children(
                            cm,
                            i + 1,
                            reference_year,
                        )));
                    }
                }
            },
            DomChild::Text(_) => {
                proof {
                    assert(subdivide_child(cm[i as int], reference_year)
                        =~= Seq::<EventModel>::empty());
                    assert(pre + subdivide_children(cm, i + 1, reference_year) =~= pre + (
                    Seq::<EventModel>::empty() + subdivide_children(cm, i + 1, reference_year)));
                }
            },
        }
        i = i + 1;
    }
    proof {
        assert(subdivide_children(cm, n as int, reference_year) =~= Seq::<EventModel>::empty());
        assert(events_model(acc@) + subdivide_children(cm, n as int, reference_year)
            =~= events_model(acc@));
    }
    if acc.len() == 0 {
        match element_to_one_event(el, reference_year) {
            Some(e) => {
                let mut one: Vec<Event> = Vec::new();
                let ghost em = e@;
                one.push(e);
                proof {
                    assert(events_model(one@) =~= seq![em]);
                }
                one
            },
            None => acc,
        }
    } else if acc.len() == 1 {
        match element_to_one_event(el, reference_year) {
            Some(e) => {
                let mut one: Vec<Event> = Vec::new();
                let ghost em = e@;
                one.push(e);
                proof {
                    assert(events_model(one@) =~= seq![em]);
                }
                one
            },
            None => acc,
        }
    } else {
        acc
    }
}

impl LargestElementWithSingleDateExtractor {
    /// Extraction over an assembled document tree: subdivide from the
    /// entry element (`main`, else `body`, else `html`), decoding
    /// year-less dates against `from_date`'s year, and keep the events
    /// dated on or after `from_date`.  The filter direction is a
    /// deliberate choice: the extractor serves forward-looking event
    /// calendars, so events dated before the reference date are
    /// dropped.
    pub fn events_from_dom(root: &DomNode, from_date: &NaiveDate) -> (events: Vec<Event>)
        ensures
            events_model(events@) == spec_events_from_dom(node_model(*root), *from_date),
    {
        let entry = match root.find_tagged("main") {
            Some(e) => Some(e),
            None => match root.find_tagged("body") {
                Some(e) => Some(e),
                None => root.find_tagged("html"),
            },
        };
        match entry {
            None => Vec::new(),
            Some(el) => {
                let evs = element_to_events(el, from_date.year);
                let ghost all = events_model(evs@);
                let mut kept: Vec<Event> = Vec::new();
                let n: usize = evs.len();
                let mut i: usize = 0;
                proof {
                    assert(events_model(kept@) =~= Seq::<EventModel>::empty());
                    assert(events_model(kept@) + filter_from(all, *from_date, 0) =~= filter_from(
                        all,
                        *from_date,
                        0,
                    ));
                }
                while i < n
                    invariant
                        i <= n,
                        n == evs@.len(),
                        all == events_model(evs@),
                        all.len() == n,
                        events_model(kept@) + filter_from(all, *from_date, i as int)
                            == filter_from(all, *from_date, 0),
                    decreases n - i,
                {
                    let ghost pre = events_model(kept@);
                    let keep = !evs[i].date.lt(from_date);
                    if keep {
                        let e = Event { text: evs[i].text.clone(), date: evs[i].date };
                        proof {
                            assert(e@ == all[i as int]);
                        }
                        kept.push(e);
                        proof {
                            assert(events_model(kept@) =~= pre.push(all[i as int]));
                            assert(pre.push(all[i as int]) + filter_from(all, *from_date, i + 1)
                                =~= pre + (seq![all[i as int]] + filter_from(
                                all,
                                *from_date,
                                i + 1,
                            )));
                        }
                    } else {
                        proof {
                            assert(pre + filter_from(all, *from_date, i + 1) =~= pre + (
                            Seq::<EventModel>::empty() + filter_from(all, *from_date, i + 1)));
                        }
                    }
                    i = i + 1;
                }
                proof {
                    assert(filter_from(all, *from_date, n as int) =~= Seq::<EventModel>::empty());
                    assert(events_model(kept@) + filter_from(all, *from_date, n as int)
                        =~= events_model(kept@));
                }
                kept
            },
        }
    }
}

impl EventExtractor for LargestElementWithSingleDateExtractor {
    /// Parses the page and extracts its events, as `events_from_dom`
    /// over the parsed document tree.
    fn html_to_events(html: &str, from_date: &NaiveDate) -> (events: Vec<Event>)
        ensures
            events_model(events@) == spec_events_from_dom(
                dom_of_tokens(dom_tokens_of(html@)),
                *from_date,
            ),
    {
        let root = parse_document(html);
        LargestElementWithSingleDateExtractor::events_from_dom(&root, from_date)
    }
}

} // verus!
