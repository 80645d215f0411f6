//! The date matcher: recognises dates in plain text with an ordered
//! list of grammars, tried in priority order.  The numeric grammar reads
//! `day.month.`; the named-month grammar reads a day, an optional dot
//! and space, and a German month name, full or abbreviated to its first
//! three letters.  The first grammar that decodes at least one valid
//! calendar date supplies all matches; grammars are never mixed.

use vstd::prelude::*;
use crate::dates::NaiveDate;
use crate::dates::NaiveDateWithOptionalTime;
use crate::dates::spec_valid_date;
use crate::normalize::spec_is_ws;
use crate::normalize::spec_normalize;
use crate::normalize::is_ws;
use crate::normalize::chars_to_string;
use crate::normalize::normalize_chars;
use crate::dom::DomNode;
use crate::dom::node_model;
use crate::dom::node_full_text;

verus! {

/// A date found in a text: the date and the exact substring consumed.
#[derive(Debug)]
pub struct DateMatch {
    pub date: NaiveDateWithOptionalTime,
    pub matched_string: String,
}

/// Ghost counterpart of `DateMatch`.
pub struct DateMatchModel {
    pub date: NaiveDateWithOptionalTime,
    pub matched: Seq<char>,
}

impl View for DateMatch {
    type V = DateMatchModel;

    open spec fn view(&self) -> DateMatchModel {
        DateMatchModel { date: self.date, matched: self.matched_string@ }
    }
}

pub open spec fn matches_model(v: Seq<DateMatch>) -> Seq<DateMatchModel> {
    v.map_values(|dm: DateMatch| dm@)
}

pub open spec fn spec_is_digit(c: char) -> bool {
    '0' <= c && c <= '9'
}

pub open spec fn spec_digit_val(c: char) -> int {
    c as u32 - '0' as u32
}

/// A day of month, 1 to 31, read at position `i`: one digit, a
/// zero-padded digit, or two digits; two digits are read exactly when a
/// digit follows the first, so that a longer day is preferred wherever
/// the text allows one.  Yields the day and the position after it.
pub open spec fn day_match_at(t: Seq<char>, i: int) -> Option<(int, int)> {
    if i < 0 || i >= t.len() {
        None
    } else if t[i] == '0' {
        if i + 1 < t.len() && '1' <= t[i + 1] && t[i + 1] <= '9' {
            Some((spec_digit_val(t[i + 1]), i + 2))
        } else {
            None
        }
    } else if '1' <= t[i] && t[i] <= '9' {
        if i + 1 < t.len() && spec_is_digit(t[i + 1]) {
            if t[i] == '1' || t[i] == '2' {
                Some((10 * spec_digit_val(t[i]) + spec_digit_val(t[i + 1]), i + 2))
            } else if t[i] == '3' && (t[i + 1] == '0' || t[i + 1] == '1') {
                Some((30 + spec_digit_val(t[i + 1]), i + 2))
            } else {
                None
            }
        } else {
            Some((spec_digit_val(t[i]), i + 1))
        }
    } else {
        None
    }
}

/// A numeric month, 1 to 12, read at position `i`, shaped like the day.
pub open spec fn num_month_at(t: Seq<char>, i: int) -> Option<(int, int)> {
    if i < 0 || i >= t.len() {
        None
    } else if t[i] == '0' {
        if i + 1 < t.len() && '1' <= t[i + 1] && t[i + 1] <= '9' {
            Some((spec_digit_val(t[i + 1]), i + 2))
        } else {
            None
        }
    } else if '1' <= t[i] && t[i] <= '9' {
        if i + 1 < t.len() && spec_is_digit(t[i + 1]) {
            if t[i] == '1' && ('0' <= t[i + 1] && t[i + 1] <= '2') {
                Some((10 + spec_digit_val(t[i + 1]), i + 2))
            } else {
                None
            }
        } else {
            Some((spec_digit_val(t[i]), i + 1))
        }
    } else {
        None
    }
}

/// The numeric grammar at position `i`: `day.month.` with a trailing
/// dot.  Yields day, month and the position after the whole match.
pub open spec fn numeric_match_at(t: Seq<char>, i: int) -> Option<(int, int, int)> {
    match day_match_at(t, i) {
        None => None,
        Some((d, j)) => if j < t.len() && t[j] == '.' {
            match num_month_at(t, j + 1) {
                None => None,
                Some((m, k)) => if k < t.len() && t[k] == '.' {
                    Some((d, m, k + 1))
                } else {
                    None
                },
            }
        } else {
            None
        },
    }
}

/// The German name of month `m`, capitalised as prose writes it.
pub open spec fn month_name(m: int) -> Seq<char> {
    if m == 1 {
        seq!['J', 'a', 'n', 'u', 'a', 'r']
    } else if m == 2 {
        seq!['F', 'e', 'b', 'r', 'u', 'a', 'r']
    } else if m == 3 {
        seq!['M', 'ä', 'r', 'z']
    } else if m == 4 {
        seq!['A', 'p', 'r', 'i', 'l']
    } else if m == 5 {
        seq!['M', 'a', 'i']
    } else if m == 6 {
        seq!['J', 'u', 'n', 'i']
    } else if m == 7 {
        seq!['J', 'u', 'l', 'i']
    } else if m == 8 {
        seq!['A', 'u', 'g', 'u', 's', 't']
    } else if m == 9 {
        seq!['S', 'e', 'p', 't', 'e', 'm', 'b', 'e', 'r']
    } else if m == 10 {
        seq!['O', 'k', 't', 'o', 'b', 'e', 'r']
    } else if m == 11 {
        seq!['N', 'o', 'v', 'e', 'm', 'b', 'e', 'r']
    } else if m == 12 {
        seq!['D', 'e', 'z', 'e', 'm', 'b', 'e', 'r']
    } else {
        Seq::empty()
    }
}

/// The three-letter abbreviation of month `m`'s name.
pub open spec fn month_abbr(m: int) -> Seq<char> {
    month_name(m).take(3)
}

/// Whether `p` occurs in `t` starting at position `j`.
pub open spec fn is_prefix_at(t: Seq<char>, j: int, p: Seq<char>) -> bool {
    0 <= j && j + p.len() <= t.len() && t.subrange(j, j + p.len()) == p
}

pub open spec fn full_month_at(t: Seq<char>, j: int, m: int) -> Option<(int, int)>
    decreases 13 - m,
{
    if m < 1 || m > 12 {
        None
    } else if is_prefix_at(t, j, month_name(m)) {
        Some((m, j + month_name(m).len()))
    } else {
        full_month_at(t, j, m + 1)
    }
}

pub open spec fn abbr_month_at(t: Seq<char>, j: int, m: int) -> Option<(int, int)>
    decreases 13 - m,
{
    if m < 1 || m > 12 {
        None
    } else if is_prefix_at(t, j, month_abbr(m)) {
        Some((m, j + month_abbr(m).len()))
    } else {
        abbr_month_at(t, j, m + 1)
    }
}

/// A German month name at position `j`, full or abbreviated; a full
/// name is preferred over an abbreviation.
pub open spec fn name_month_at(t: Seq<char>, j: int) -> Option<(int, int)> {
    if full_month_at(t, j, 1) is Some {
        full_month_at(t, j, 1)
    } else {
        abbr_month_at(t, j, 1)
    }
}

/// The named-month grammar at position `i`: a day, an optional dot, an
/// optional single whitespace, and a German month name.
pub open spec fn german_match_at(t: Seq<char>, i: int) -> Option<(int, int, int)> {
    match day_match_at(t, i) {
        None => None,
        Some((d, j)) => {
            let j1 = if j < t.len() && t[j] == '.' {
                j + 1
            } else {
                j
            };
            let j2 = if j1 < t.len() && spec_is_ws(t[j1]) {
                j1 + 1
            } else {
                j1
            };
            match name_month_at(t, j2) {
                None => None,
                Some((m, end)) => Some((d, m, end)),
            }
        },
    }
}

/// The match the numeric grammar yields at `i`, decoded against the
/// reference year; a day/month pair that names no real calendar date
/// yields nothing.
pub open spec fn numeric_decoded_at(t: Seq<char>, year: u32, i: int) -> Option<DateMatchModel> {
    match numeric_match_at(t, i) {
        None => None,
        Some((d, m, end)) => if 1 <= m <= 12 && 1 <= d <= 31 && spec_valid_date(
            year,
            m as u32,
            d as u32,
        ) {
            Some(
                DateMatchModel {
                    date: NaiveDateWithOptionalTime::NaiveDate(
                        NaiveDate { year, month: m as u32, day: d as u32 },
                    ),
                    matched: t.subrange(i, end),
                },
            )
        } else {
            None
        },
    }
}

pub open spec fn german_decoded_at(t: Seq<char>, year: u32, i: int) -> Option<DateMatchModel> {
    match german_match_at(t, i) {
        None => None,
        Some((d, m, end)) => if 1 <= m <= 12 && 1 <= d <= 31 && spec_valid_date(
            year,
            m as u32,
            d as u32,
        ) {
            Some(
                DateMatchModel {
                    date: NaiveDateWithOptionalTime::NaiveDate(
                        NaiveDate { year, month: m as u32, day: d as u32 },
                    ),
                    matched: t.subrange(i, end),
                },
            )
        } else {
            None
        },
    }
}

/// All non-overlapping numeric-grammar matches from position `i` on, in
/// text order; the scan resumes after each pattern match, whether or not
/// it decoded to a valid date.
pub open spec fn scan_numeric(t: Seq<char>, year: u32, i: int) -> Seq<DateMatchModel>
    decreases t.len() - i,
{
    if i < 0 || i >= t.len() {
        Seq::empty()
    } else {
        match numeric_match_at(t, i) {
            None => scan_numeric(t, year, i + 1),
            Some((d, m, end)) => {
                let rest = scan_numeric(t, year, end);
                match numeric_decoded_at(t, year, i) {
                    Some(dm) => seq![dm] + rest,
                    None => rest,
                }
            },
        }
    }
}

proof fn lemma_full_month_bounds(t: Seq<char>, j: int, m: int)
    ensures
        full_month_at(t, j, m) is Some ==> j < (full_month_at(t, j, m)->0).1 <= t.len(),
    decreases 13 - m,
{
    if 1 <= m <= 12 {
        if is_prefix_at(t, j, month_name(m)) {
            assert(month_name(m).len() >= 3);
        } else {
            lemma_full_month_bounds(t, j, m + 1);
        }
    }
}

proof fn lemma_abbr_month_bounds(t: Seq<char>, j: int, m: int)
    ensures
        abbr_month_at(t, j, m) is Some ==> j < (abbr_month_at(t, j, m)->0).1 <= t.len(),
    decreases 13 - m,
{
    if 1 <= m <= 12 {
        if is_prefix_at(t, j, month_abbr(m)) {
            assert(month_name(m).len() >= 3);
            assert(month_abbr(m).len() == 3);
        } else {
            lemma_abbr_month_bounds(t, j, m + 1);
        }
    }
}

/// A grammar match never ends at or before the position it starts at,
/// and never runs past the text.
pub proof fn lemma_german_match_bounds(t: Seq<char>, i: int)
    ensures
        german_match_at(t, i) is Some ==> i < (german_match_at(t, i)->0).2 <= t.len(),
{
    if german_match_at(t, i) is Some {
        let (d, j) = day_match_at(t, i)->0;
        let j1 = if j < t.len() && t[j] == '.' {
            j + 1
        } else {
            j
        };
        let j2 = if j1 < t.len() && spec_is_ws(t[j1]) {
            j1 + 1
        } else {
            j1
        };
        lemma_full_month_bounds(t, j2, 1);
        lemma_abbr_month_bounds(t, j2, 1);
    }
}

/// All non-overlapping named-month-grammar matches from position `i`
/// on, in text order.
pub open spec fn scan_german(t: Seq<char>, year: u32, i: int) -> Seq<DateMatchModel>
    decreases t.len() - i,
    via scan_german_decreases
{
    if i < 0 || i >= t.len() {
        Seq::empty()
    } else {
        match german_match_at(t, i) {
            None => scan_german(t, year, i + 1),
            Some((d, m, end)) => {
                let rest = scan_german(t, year, end);
                match german_decoded_at(t, year, i) {
                    Some(dm) => seq![dm] + rest,
                    None => rest,
                }
            },
        }
    }
}

#[via_fn]
proof fn scan_german_decreases(t: Seq<char>, year: u32, i: int) {
    lemma_german_match_bounds(t, i);
}

/// The dates found in a text: the numeric grammar's matches if it
/// decoded at least one valid date, else the named-month grammar's.
pub open spec fn spec_extract_datetimes_text(t: Seq<char>, year: u32) -> Seq<DateMatchModel> {
    let nums = scan_numeric(t, year, 0);
    if nums.len() > 0 {
        nums
    } else {
        scan_german(t, year, 0)
    }
}

/// Grammars are never mixed: when the numeric grammar decodes at least
/// one valid date in a text, the result is exactly the numeric
/// grammar's matches and the named-month grammar is never consulted;
/// only when the numeric grammar decodes none does the named-month
/// grammar supply the result.
pub proof fn lemma_grammar_non_mixing(t: Seq<char>, year: u32)
    ensures
        scan_numeric(t, year, 0).len() > 0 ==> spec_extract_datetimes_text(t, year) == scan_numeric(
            t,
            year,
            0,
        ),
        scan_numeric(t, year, 0).len() == 0 ==> spec_extract_datetimes_text(t, year) == scan_german(
            t,
            year,
            0,
        ),
{
}

fn day_match(t: &Vec<char>, i: usize) -> (r: Option<(u32, usize)>)
    ensures
        match r {
            Some(p) => day_match_at(t@, i as int) == Some((p.0 as int, p.1 as int)) && i < p.1
                <= t@.len() && 1 <= p.0 <= 31,
            None => day_match_at(t@, i as int) is None,
        },
{
    let n = t.len();
    if i >= n {
        return None;
    }
    let c = t[i];
    if c == '0' {
        if i + 1 < n {
            let c1 = t[i + 1];
            if '1' <= c1 && c1 <= '9' {
                return Some((c1 as u32 - 48, i + 2));
            }
        }
        None
    } else if '1' <= c && c <= '9' {
        if i + 1 < n {
            let c1 = t[i + 1];
            if '0' <= c1 && c1 <= '9' {
                if c == '1' || c == '2' {
                    return Some(((c as u32 - 48) * 10 + (c1 as u32 - 48), i + 2));
                } else if c == '3' && (c1 == '0' || c1 == '1') {
                    return Some((30 + (c1 as u32 - 48), i + 2));
                } else {
                    return None;
                }
            }
        }
        Some((c as u32 - 48, i + 1))
    } else {
        None
    }
}

fn num_month(t: &Vec<char>, i: usize) -> (r: Option<(u32, usize)>)
    ensures
        match r {
            Some(p) => num_month_at(t@, i as int) == Some((p.0 as int, p.1 as int)) && i < p.1
                <= t@.len() && 1 <= p.0 <= 12,
            None => num_month_at(t@, i as int) is None,
        },
{
    let n = t.len();
    if i >= n {
        return None;
    }
    let c = t[i];
    if c == '0' {
        if i + 1 < n {
            let c1 = t[i + 1];
            if '1' <= c1 && c1 <= '9' {
                return Some((c1 as u32 - 48, i + 2));
            }
        }
        None
    } else if '1' <= c && c <= '9' {
        if i + 1 < n {
            let c1 = t[i + 1];
            if '0' <= c1 && c1 <= '9' {
                if c == '1' && c1 <= '2' {
                    return Some((10 + (c1 as u32 - 48), i + 2));
                } else {
                    return None;
                }
            }
        }
        Some((c as u32 - 48, i + 1))
    } else {
        None
    }
}

fn numeric_match(t: &Vec<char>, i: usize) -> (r: Option<(u32, u32, usize)>)
    ensures
        match r {
            Some(p) => numeric_match_at(t@, i as int) == Some((p.0 as int, p.1 as int, p.2 as int))
                && i < p.2 <= t@.len() && 1 <= p.0 <= 31 && 1 <= p.1 <= 12,
            None => numeric_match_at(t@, i as int) is None,
        },
{
    match day_match(t, i) {
        None => None,
        Some((d, j)) => if j < t.len() && t[j] == '.' {
            match num_month(t, j + 1) {
                None => None,
                Some((m, k)) => if k < t.len() && t[k] == '.' {
                    Some((d, m, k + 1))
                } else {
                    None
                },
            }
        } else {
            None
        },
    }
}

fn month_name_chars(m: u32) -> (r: Vec<char>)
    requires
        1 <= m <= 12,
    ensures
        r@ == month_name(m as int),
        r@.len() >= 3,
{
    let r: Vec<char> = if m == 1 {
        vec!['J', 'a', 'n', 'u', 'a', 'r']
    } else if m == 2 {
        vec!['F', 'e', 'b', 'r', 'u', 'a', 'r']
    } else if m == 3 {
        vec!['M', 'ä', 'r', 'z']
    } else if m == 4 {
        vec!['A', 'p', 'r', 'i', 'l']
    } else if m == 5 {
        vec!['M', 'a', 'i']
    } else if m == 6 {
        vec!['J', 'u', 'n', 'i']
    } else if m == 7 {
        vec!['J', 'u', 'l', 'i']
    } else if m == 8 {
        vec!['A', 'u', 'g', 'u', 's', 't']
    } else if m == 9 {
        vec!['S', 'e', 'p', 't', 'e', 'm', 'b', 'e', 'r']
    } else if m == 10 {
        vec!['O', 'k', 't', 'o', 'b', 'e', 'r']
    } else if m == 11 {
        vec!['N', 'o', 'v', 'e', 'm', 'b', 'e', 'r']
    } else {
        vec!['D', 'e', 'z', 'e', 'm', 'b', 'e', 'r']
    };
    proof {
        assert(r@ =~= month_name(m as int));
    }
    r
}

pub(crate) fn prefix_at(t: &Vec<char>, j: usize, p: &Vec<char>) -> (r: bool)
    ensures
        r == is_prefix_at(t@, j as int, p@),
{
    let pl = p.len();
    let tn = t.len();
    if j > tn || pl > tn - j {
        return false;
    }
    let mut k: usize = 0;
    while k < pl
        invariant
            k <= pl,
            pl == p@.len(),
            tn == t@.len(),
            j + pl <= tn,
            forall|x: int| 0 <= x < k ==> t@[j + x] == p@[x],
        decreases pl - k,
    {
        if t[j + k] != p[k] {
            proof {
                assert(t@.subrange(j as int, j + pl)[k as int] == t@[j + k]);
            }
            return false;
        }
        k = k + 1;
    }
    proof {
        assert(t@.subrange(j as int, j + pl) =~= p@);
    }
    true
}

fn full_month(t: &Vec<char>, j: usize) -> (r: Option<(u32, usize)>)
    ensures
        match r {
            Some(p) => full_month_at(t@, j as int, 1) == Some((p.0 as int, p.1 as int)) && j < p.1
                <= t@.len() && 1 <= p.0 <= 12,
            None => full_month_at(t@, j as int, 1) is None,
        },
{
    let mut m: u32 = 1;
    while m <= 12
        invariant
            1 <= m <= 13,
            full_month_at(t@, j as int, 1) == full_month_at(t@, j as int, m as int),
        decreases 13 - m,
    {
        let name = month_name_chars(m);
        if prefix_at(t, j, &name) {
            let tn = t.len();
            proof {
                assert(j + name@.len() <= tn);
            }
            return Some((m, j + name.len()));
        }
        m = m + 1;
    }
    None
}

fn abbr_month(t: &Vec<char>, j: usize) -> (r: Option<(u32, usize)>)
    ensures
        match r {
            Some(p) => abbr_month_at(t@, j as int, 1) == Some((p.0 as int, p.1 as int)) && j < p.1
                <= t@.len() && 1 <= p.0 <= 12,
            None => abbr_month_at(t@, j as int, 1) is None,
        },
{
    let mut m: u32 = 1;
    while m <= 12
        invariant
            1 <= m <= 13,
            abbr_month_at(t@, j as int, 1) == abbr_month_at(t@, j as int, m as int),
        decreases 13 - m,
    {
        let name = month_name_chars(m);
        let abbr = chars_range(&name, 0, 3);
        proof {
            assert(abbr@ =~= month_abbr(m as int));
        }
        if prefix_at(t, j, &abbr) {
            let tn = t.len();
            proof {
                assert(j + abbr@.len() <= tn);
            }
            return Some((m, j + abbr.len()));
        }
        m = m + 1;
    }
    None
}

fn name_month(t: &Vec<char>, j: usize) -> (r: Option<(u32, usize)>)
    ensures
        match r {
            Some(p) => name_month_at(t@, j as int) == Some((p.0 as int, p.1 as int)) && j < p.1
                <= t@.len() && 1 <= p.0 <= 12,
            None => name_month_at(t@, j as int) is None,
        },
{
    match full_month(t, j) {
        Some(p) => Some(p),
        None => abbr_month(t, j),
    }
}

fn german_match(t: &Vec<char>, i: usize) -> (r: Option<(u32, u32, usize)>)
    ensures
        match r {
            Some(p) => german_match_at(t@, i as int) == Some((p.0 as int, p.1 as int, p.2 as int))
                && i < p.2 <= t@.len() && 1 <= p.0 <= 31 && 1 <= p.1 <= 12,
            None => german_match_at(t@, i as int) is None,
        },
{
    match day_match(t, i) {
        None => None,
        Some((d, j)) => {
            let j1: usize = if j < t.len() && t[j] == '.' {
                j + 1
            } else {
                j
            };
            let j2: usize = if j1 < t.len() && is_ws(t[j1]) {
                j1 + 1
            } else {
                j1
            };
            match name_month(t, j2) {
                None => None,
                Some((m, end)) => Some((d, m, end)),
            }
        },
    }
}

/// The characters of `t` from position `a` up to `b`.
fn chars_range(t: &Vec<char>, a: usize, b: usize) -> (r: Vec<char>)
    requires
        a <= b <= t@.len(),
    ensures
        r@ == t@.subrange(a as int, b as int),
{
    let mut r: Vec<char> = Vec::new();
    let mut k: usize = a;
    proof {
        assert(t@.subrange(a as int, a as int) =~= Seq::<char>::empty());
    }
    while k < b
        invariant
            a <= k <= b <= t@.len(),
            r@ == t@.subrange(a as int, k as int),
        decreases b - k,
    {
        r.push(t[k]);
        proof {
            assert(t@.subrange(a as int, k + 1 as int) =~= t@.subrange(a as int, k as int).push(
                t@[k as int],
            ));
        }
        k = k + 1;
    }
    r
}

fn scan_numeric_exec(t: &Vec<char>, year: u32) -> (r: Vec<DateMatch>)
    ensures
        matches_model(r@) == scan_numeric(t@, year, 0),
{
    let mut out: Vec<DateMatch> = Vec::new();
    let n = t.len();
    let mut i: usize = 0;
    proof {
        assert(matches_model(out@) =~= Seq::<DateMatchModel>::empty());
        assert(matches_model(out@) + scan_numeric(t@, year, 0) =~= scan_numeric(t@, year, 0));
    }
    while i < n
        invariant
            i <= n,
            n == t@.len(),
            matches_model(out@) + scan_numeric(t@, year, i as int) == scan_numeric(t@, year, 0),
        decreases n - i,
    {
        let ghost pre = matches_model(out@);
        match numeric_match(t, i) {
            None => {
                i = i + 1;
            },
            Some((d, m, end)) => {
                match NaiveDate::from_ymd_opt(year, m, d) {
                    Some(date) => {
                        let matched = chars_range(t, i, end);
                        let s = chars_to_string(&matched);
                        let dm = DateMatch {
                            date: NaiveDateWithOptionalTime::NaiveDate(date),
                            matched_string: s,
                        };
                        proof {
                            assert(numeric_decoded_at(t@, year, i as int) == Some(dm@));
                        }
                        out.push(dm);
                        proof {
                            assert(matches_model(out@) =~= pre.push(dm@));
                            assert(pre.push(dm@) + scan_numeric(t@, year, end as int) =~= pre + (
                            seq![dm@] + scan_numeric(t@, year, end as int)));
                        }
                    },
                    None => {
                        proof {
                            assert(numeric_decoded_at(t@, year, i as int) is None);
                        }
                    },
                }
                i = end;
            },
        }
    }
    proof {
        assert(matches_model(out@) + scan_numeric(t@, year, n as int) =~= matches_model(out@));
    }
    out
}

fn scan_german_exec(t: &Vec<char>, year: u32) -> (r: Vec<DateMatch>)
    ensures
        matches_model(r@) == scan_german(t@, year, 0),
{
    let mut out: Vec<DateMatch> = Vec::new();
    let n = t.len();
    let mut i: usize = 0;
    proof {
        assert(matches_model(out@) =~= Seq::<DateMatchModel>::empty());
        assert(matches_model(out@) + scan_german(t@, year, 0) =~= scan_german(t@, year, 0));
    }
    while i < n
        invariant
            i <= n,
            n == t@.len(),
            matches_model(out@) + scan_german(t@, year, i as int) == scan_german(t@, year, 0),
        decreases n - i,
    {
        let ghost pre = matches_model(out@);
        match german_match(t, i) {
            None => {
                i = i + 1;
            },
            Some((d, m, end)) => {
                match NaiveDate::from_ymd_opt(year, m, d) {
                    Some(date) => {
                        let matched = chars_range(t, i, end);
                        let s = chars_to_string(&matched);
                        let dm = DateMatch {
                            date: NaiveDateWithOptionalTime::NaiveDate(date),
                            matched_string: s,
                        };
                        proof {
                            assert(german_decoded_at(t@, year, i as int) == Some(dm@));
                        }
                        out.push(dm);
                        proof {
                            assert(matches_model(out@) =~= pre.push(dm@));
                            assert(pre.push(dm@) + scan_german(t@, year, end as int) =~= pre + (
                            seq![dm@] + scan_german(t@, year, end as int)));
                        }
                    },
                    None => {
                        proof {
                            assert(german_decoded_at(t@, year, i as int) is None);
                        }
                    },
                }
                i = end;
            },
        }
    }
    proof {
        assert(matches_model(out@) + scan_german(t@, year, n as int) =~= matches_model(out@));
    }
    out
}

/// The dates found in a character text, with the exact substring each
/// consumed.
pub fn extract_datetimes_chars(t: &Vec<char>, reference_year: u32) -> (r: Vec<DateMatch>)
    ensures
        matches_model(r@) == spec_extract_datetimes_text(t@, reference_year),
{
    let nums = scan_numeric_exec(t, reference_year);
    if nums.len() > 0 {
        nums
    } else {
        scan_german_exec(t, reference_year)
    }
}

/// The ordered date matches in a node's normalized full text, each
/// decoded against the reference year.
pub fn extract_datetimes(el: &DomNode, reference_year: u32) -> (r: Vec<DateMatch>)
    ensures
        matches_model(r@) == spec_extract_datetimes_text(
            spec_normalize(node_full_text(node_model(*el))),
            reference_year,
        ),
{
    let raw = el.full_text();
    let text = normalize_chars(&raw);
    extract_datetimes_chars(&text, reference_year)
}

/// The grammar that reads a day and a German month name.
pub struct DateWithGermanMonthExtractor {}

impl DateWithGermanMonthExtractor {
    /// The month-name table the named-month grammar recognises: every
    /// full German month name, then every three-letter abbreviation,
    /// each with its month number.
    pub fn get_month_to_num() -> (r: Vec<(String, u32)>)
        ensures
            r@.len() == 24,
            forall|k: int|
                0 <= k < 12 ==> (#[trigger] r@[k]).1 == k + 1 && r@[k].0@ == month_name(k + 1),
            forall|k: int|
                12 <= k < 24 ==> (#[trigger] r@[k]).1 == k - 11 && r@[k].0@ == month_abbr(k - 11),
    {
        let mut r: Vec<(String, u32)> = Vec::new();
        let mut m: u32 = 1;
        while m <= 12
            invariant
                1 <= m <= 13,
                r@.len() == m - 1,
                forall|k: int|
                    0 <= k < m - 1 ==> (#[trigger] r@[k]).1 == k + 1 && r@[k].0@ == month_name(
                        k + 1,
                    ),
            decreases 13 - m,
        {
            let name = month_name_chars(m);
            let s = chars_to_string(&name);
            r.push((s, m));
            m = m + 1;
        }
        let mut m2: u32 = 1;
        while m2 <= 12
            invariant
                1 <= m2 <= 13,
                r@.len() == 12 + m2 - 1,
                forall|k: int|
                    0 <= k < 12 ==> (#[trigger] r@[k]).1 == k + 1 && r@[k].0@ == month_name(k + 1),
                forall|k: int|
                    12 <= k < 12 + m2 - 1 ==> (#[trigger] r@[k]).1 == k - 11 && r@[k].0@
                        == month_abbr(k - 11),
            decreases 13 - m2,
        {
            let name = month_name_chars(m2);
            let abbr = chars_range(&name, 0, 3);
            proof {
                assert(abbr@ =~= month_abbr(m2 as int));
            }
            let s = chars_to_string(&abbr);
            r.push((s, m2));
            m2 = m2 + 1;
        }
        r
    }
}

} // verus!
