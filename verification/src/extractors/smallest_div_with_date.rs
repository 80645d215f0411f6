//! A second subdivision strategy: it keeps the first clean
//! decomposition it finds, synthesizing a leaf event only where no
//! child produced any, and strips the matched date text out of the
//! event's description.

use vstd::prelude::*;
use crate::dom::DomNode;
use crate::dom::DomChild;
use crate::dom::NodeModel;
use crate::dom::ChildModel;
use crate::dom::node_model;
use crate::dom::child_model;
use crate::dom::children_model;
use crate::dom::node_full_text;
use crate::dom::dom_of_tokens;
use crate::dom::lemma_children_model_index;
use crate::date_extraction::spec_extract_datetimes_text;
use crate::date_extraction::extract_datetimes_chars;
use crate::date_extraction::is_prefix_at;
use crate::date_extraction::prefix_at;
use crate::html::dom_tokens_of;
use crate::html::parse_document;
use crate::normalize::spec_normalize;
use crate::normalize::normalize_chars;
use crate::normalize::chars_to_string;
use crate::normalize::str_to_chars;
use super::Event;
use super::EventModel;
use super::timed_events_model;
use super::largest_element_with_single_date::spec_traversable;
use super::largest_element_with_single_date::is_traversable;
use super::largest_element_with_single_date::spec_entry_point;

verus! {

/// Extracts one event per region, settling on the smallest element
/// whose text carries exactly one date.
pub struct SmallestDivWithDateExtractor {}

/// The text with every occurrence of `pat` removed, scanning left to
/// right without overlap, from position `i` on.
pub open spec fn strip_from(t: Seq<char>, pat: Seq<char>, i: int) -> Seq<char>
    decreases t.len() - i,
{
    if i < 0 || i >= t.len() {
        Seq::empty()
    } else if pat.len() > 0 && is_prefix_at(t, i, pat) {
        strip_from(t, pat, i + pat.len())
    } else {
        seq![t[i]] + strip_from(t, pat, i + 1)
    }
}

/// Removes every occurrence of `pat` from `t`.
pub fn strip_all(t: &Vec<char>, pat: &Vec<char>) -> (r: Vec<char>)
    ensures
        r@ == strip_from(t@, pat@, 0),
{
    let mut out: Vec<char> = Vec::new();
    let n: usize = t.len();
    let pl: usize = pat.len();
    let mut i: usize = 0;
    proof {
        assert(out@ + strip_from(t@, pat@, 0) =~= strip_from(t@, pat@, 0));
    }
    while i < n
        invariant
            i <= n,
            n == t@.len(),
            pl == pat@.len(),
            out@ + strip_from(t@, pat@, i as int) == strip_from(t@, pat@, 0),
        decreases n - i,
    {
        let ghost pre = out@;
        if pl > 0 && prefix_at(t, i, pat) {
            proof {
                assert(i + pat@.len() <= n);
            }
            i = i + pl;
        } else {
            out.push(t[i]);
            proof {
                assert(out@ + strip_from(t@, pat@, i + 1) =~= pre + (seq![t@[i as int]]
                    + strip_from(t@, pat@, i + 1)));
            }
            i = i + 1;
        }
    }
    proof {
        assert(strip_from(t@, pat@, n as int) =~= Seq::<char>::empty());
        assert(out@ + strip_from(t@, pat@, n as int) =~= out@);
    }
    out
}

/// Leaf synthesis: one event from the node's entire text, exactly when
/// that text carries exactly one date; the matched date text is
/// stripped out of the description, which is then re-normalized and
/// must still be longer than 15 characters.
pub open spec fn try_synthesize(n: NodeModel, year: u32) -> Option<EventModel> {
    let text = spec_normalize(node_full_text(n));
    let dates = spec_extract_datetimes_text(text, year);
    if dates.len() == 1 {
        let stripped = spec_normalize(strip_from(text, dates[0].matched, 0));
        if stripped.len() > 15 {
            Some(EventModel { text: stripped, time: dates[0].date, end_time: None })
        } else {
            None
        }
    } else {
        None
    }
}

/// The subdivision of a node: the events of its traversable children
/// in document order, and leaf synthesis exactly where the children
/// produced none.
pub open spec fn subdivide(n: NodeModel, year: u32) -> Seq<EventModel>
    decreases n, 1int,
{
    let child_events = subdivide_children(n.children, 0, year);
    if child_events.len() == 0 {
        match try_synthesize(n, year) {
            Some(e) => seq![e],
            None => Seq::empty(),
        }
    } else {
        child_events
    }
}

pub open spec fn subdivide_children(cs: Seq<ChildModel>, i: int, year: u32) -> Seq<EventModel>
    decreases cs, cs.len() - i, 2int,
{
    if i < 0 || i >= cs.len() {
        Seq::empty()
    } else {
        subdivide_child(cs[i], year) + subdivide_children(cs, i + 1, year)
    }
}

pub open spec fn subdivide_child(c: ChildModel, year: u32) -> Seq<EventModel>
    decreases c, 0int, 0int,
{
    match c {
        ChildModel::Elem(n) => if spec_traversable(n.tag) {
            subdivide(n, year)
        } else {
            Seq::empty()
        },
        ChildModel::Text(_) => Seq::empty(),
    }
}

/// What extraction yields on a whole document: subdivide from the
/// entry element; a document with no recognizable entry element yields
/// nothing.
pub open spec fn spec_events_from_dom(root: NodeModel, year: u32) -> Seq<EventModel> {
    match spec_entry_point(root) {
        None => Seq::empty(),
        Some(entry) => subdivide(entry, year),
    }
}

/// Single-date gating: wherever leaf synthesis succeeds, the node's
/// normalized full text carries exactly one date match under the
/// grammar-priority rule.
pub proof fn lemma_single_date_gating(n: NodeModel, year: u32)
    requires
        try_synthesize(n, year) is Some,
    ensures
        spec_extract_datetimes_text(spec_normalize(node_full_text(n)), year).len() == 1,
{
}

/// Leaf threshold: every event the subdivision yields carries a
/// description longer than 15 characters.
pub proof fn lemma_leaf_threshold(n: NodeModel, year: u32)
    ensures
        forall|k: int|
            0 <= k < subdivide(n, year).len() ==> (#[trigger] subdivide(n, year)[k]).text.len()
                > 15,
    decreases n, 1int,
{
    lemma_leaf_threshold_children(n.children, 0, year);
    let ce = subdivide_children(n.children, 0, year);
    assert forall|k: int|
        0 <= k < subdivide(n, year).len() implies (#[trigger] subdivide(n, year)[k]).text.len()
        > 15 by {
        if subdivide(n, year) == ce {
            assert(subdivide(n, year)[k] == ce[k]);
        } else {
            let e = try_synthesize(n, year)->0;
            assert(subdivide(n, year)[k] == e);
        }
    }
}

proof fn lemma_leaf_threshold_children(cs: Seq<ChildModel>, i: int, year: u32)
    ensures
        forall|k: int|
            0 <= k < subdivide_children(cs, i, year).len() ==> (#[trigger] subdivide_children(
                cs,
                i,
                year,
            )[k]).text.len() > 15,
    decreases cs, cs.len() - i, 2int,
{
    if 0 <= i < cs.len() {
        lemma_leaf_threshold_child(cs[i], year);
        lemma_leaf_threshold_children(cs, i + 1, year);
        let a = subdivide_child(cs[i], year);
        let b = subdivide_children(cs, i + 1, year);
        assert forall|k: int|
            0 <= k < subdivide_children(cs, i, year).len() implies (#[trigger] subdivide_children(
            cs,
            i,
            year,
        )[k]).text.len() > 15 by {
            if k < a.len() {
                assert((a + b)[k] == a[k]);
            } else {
                assert((a + b)[k] == b[k - a.len()]);
            }
        }
    }
}

proof fn lemma_leaf_threshold_child(c: ChildModel, year: u32)
    ensures
        forall|k: int|
            0 <= k < subdivide_child(c, year).len() ==> (#[trigger] subdivide_child(c, year)[k])
                .text.len() > 15,
    decreases c, 0int, 0int,
{
    match c {
        ChildModel::Elem(n) => if spec_traversable(n.tag) {
            lemma_leaf_threshold(n, year);
            assert forall|k: int|
                0 <= k < subdivide_child(c, year).len() implies (#[trigger] subdivide_child(
                c,
                year,
            )[k]).text.len() > 15 by {
                assert(subdivide_child(c, year)[k] == subdivide(n, year)[k]);
            }
        },
        ChildModel::Text(_) => {},
    }
}

/// Aggregator non-collapse: once a node's children produced any events
/// at all, the node itself is never re-synthesized into one; the
/// children's events stand unchanged, whatever the node's own text
/// holds.
pub proof fn lemma_aggregator_non_collapse(n: NodeModel, year: u32)
    requires
        subdivide_children(n.children, 0, year).len() >= 1,
    ensures
        subdivide(n, year) == subdivide_children(n.children, 0, year),
{
}

/// The node's normalized text with the matched date text stripped out.
pub fn extract_text(div: &DomNode, date_text: &str) -> (r: String)
    ensures
        r@ == spec_normalize(
            strip_from(spec_normalize(node_full_text(node_model(*div))), date_text@, 0),
        ),
{
    let raw = div.full_text();
    let text = normalize_chars(&raw);
    let pat = str_to_chars(date_text);
    let stripped = strip_all(&text, &pat);
    let out = normalize_chars(&stripped);
    chars_to_string(&out)
}

/// Attempts leaf synthesis on a node.
pub fn div_to_one_event(el: &DomNode, reference_year: u32) -> (r: Option<Event>)
    ensures
        match r {
            Some(e) => try_synthesize(node_model(*el), reference_year) == Some(e@),
            None => try_synthesize(node_model(*el), reference_year) is None,
        },
{
    let raw = el.full_text();
    let text = normalize_chars(&raw);
    let dates = extract_datetimes_chars(&text, reference_year);
    if dates.len() != 1 {
        return None;
    }
    proof {
        assert(crate::date_extraction::matches_model(dates@)[0] == dates@[0]@);
    }
    let stripped = extract_text(el, dates[0].matched_string.as_str());
    let sl: usize = stripped.as_str().unicode_len();
    if sl <= 15 {
        return None;
    }
    Some(Event::new(stripped.as_str(), dates[0].date, None))
}

/// The subdivision of a node, as `subdivide` describes it.
pub fn element_to_events(el: &DomNode, reference_year: u32) -> (r: Vec<Event>)
    ensures
        timed_events_model(r@) == subdivide(node_model(*el), reference_year),
    decreases *el, 2int,
{
    let ghost cm = children_model(el.children@, 0);
    proof {
        lemma_children_model_index(el.children@, 0);
    }
    let mut acc: Vec<Event> = Vec::new();
    let n: usize = el.children.len();
    let mut i: usize = 0;
    proof {
        assert(timed_events_model(acc@) =~= Seq::<EventModel>::empty());
        assert(timed_events_model(acc@) + subdivide_children(cm, 0, reference_year)
            =~= subdivide_children(cm, 0, reference_year));
    }
    while i < n
        invariant
            i <= n,
            n == el.children@.len(),
            cm == children_model(el.children@, 0),
            cm == node_model(*el).children,
            cm.len() == n,
            forall|j: int| 0 <= j < n ==> cm[j] == child_model(#[trigger] el.children@[j]),
            timed_events_model(acc@) + subdivide_children(cm, i as int, reference_year)
                == subdivide_children(cm, 0, reference_year),
        decreases n - i, *el, 1int,
    {
        let ghost pre = timed_events_model(acc@);
        let c: &DomChild = &el.children[i];
        proof {
            assert(decreases_to!(*el, 2int => *c, 0int));
        }
        match c {
            DomChild::Elem(child) => {
                if is_traversable(child.tag.as_str()) {
                    let mut evs = element_to_events(child, reference_year);
                    proof {
                        assert(subdivide_child(cm[i as int], reference_year) == timed_events_model(
                            evs@,
                        ));
                        assert(timed_events_model(acc@ + evs@) =~= pre + timed_events_model(evs@));
                        assert((pre + timed_events_model(evs@)) + subdivide_children(
                            cm,
                            i + 1,
                            reference_year,
                        ) =~= pre + (timed_events_model(evs@) + subdivide_children(
                            cm,
                            i + 1,
                            reference_year,
                        )));
                    }
                    acc.append(&mut evs);
                } else {
                    proof {
                        assert(subdivide_child(cm[i as int], reference_year)
                            =~= Seq::<EventModel>::empty());
                        assert(pre + subdivide_children(cm, i + 1, reference_year) =~= pre + (
                        Seq::<EventModel>::empty() + subdivide_children(
                            cm,
                            i + 1,
                            reference_year,
                        )));
                    }
                }
            },
            DomChild::Text(_) => {
                proof {
                    assert(subdivide_child(cm[i as int], reference_year)
                        =~= Seq::<EventModel>::empty());
                    assert(pre + subdivide_children(cm, i + 1, reference_year) =~= pre + (
                    Seq::<EventModel>::empty() + subdivide_children(cm, i + 1, reference_year)));
                }
            },
        }
        i = i + 1;
    }
    proof {
        assert(subdivide_children(cm, n as int, reference_year) =~= Seq::<EventModel>::empty());
        assert(timed_events_model(acc@) + subdivide_children(cm, n as int, reference_year)
            =~= timed_events_model(acc@));
    }
    if acc.len() == 0 {
        match div_to_one_event(el, reference_year) {
            Some(e) => {
                let mut one: Vec<Event> = Vec::new();
                let ghost em = e@;
                one.push(e);
                proof {
                    assert(timed_events_model(one@) =~= seq![em]);
                }
                one
            },
            None => acc,
        }
    } else {
        acc
    }
}

impl SmallestDivWithDateExtractor {
    /// Extraction over an assembled document tree: subdivide from the
    /// entry element (`main`, else `body`, else `html`).
    pub fn events_from_dom(root: &DomNode, reference_year: u32) -> (events: Vec<Event>)
        ensures
            timed_events_model(events@) == spec_events_from_dom(node_model(*root), reference_year),
    {
        let entry = match root.find_tagged("main") {
            Some(e) => Some(e),
            None => match root.find_tagged("body") {
                Some(e) => Some(e),
                None => root.find_tagged("html"),
            },
        };
        match entry {
            None => Vec::new(),
            Some(el) => element_to_events(el, reference_year),
        }
    }

    /// Parses the page and extracts its events, as `events_from_dom`
    /// over the parsed document tree, decoding dates against the given
    /// reference year.
    pub fn code_to_events(website_code: &str, reference_year: u32) -> (events: Vec<Event>)
        ensures
            timed_events_model(events@) == spec_events_from_dom(
                dom_of_tokens(dom_tokens_of(website_code@)),
                reference_year,
            ),
    {
        let root = parse_document(website_code);
        SmallestDivWithDateExtractor::events_from_dom(&root, reference_year)
    }
}

} // verus!
