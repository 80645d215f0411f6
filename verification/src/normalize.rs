//! The text normalizer: collapses every maximal run of whitespace to a
//! single ASCII space and trims leading and trailing whitespace.

use vstd::prelude::*;
use vstd::string::StrSliceExecFns;

verus! {

/// The characters treated as whitespace: ASCII whitespace and the
/// no-break space that HTML text frequently carries.
pub open spec fn spec_is_ws(c: char) -> bool {
    c == ' ' || c == '\t' || c == '\n' || c == '\r' || c == '\u{0b}' || c == '\u{0c}'
        || c == '\u{a0}'
}

pub fn is_ws(c: char) -> (r: bool)
    ensures
        r == spec_is_ws(c),
{
    c == ' ' || c == '\t' || c == '\n' || c == '\r' || c == '\u{0b}' || c == '\u{0c}'
        || c == '\u{a0}'
}

/// Whether the text still holds at least one non-whitespace character.
pub open spec fn spec_has_word(s: Seq<char>) -> bool
    decreases s.len(),
{
    s.len() > 0 && (!spec_is_ws(s[0]) || spec_has_word(s.skip(1)))
}

/// The normalized form of a text: its maximal non-whitespace runs,
/// joined by single ASCII spaces.
pub open spec fn spec_normalize(s: Seq<char>) -> Seq<char>
    decreases s.len(),
{
    if s.len() == 0 {
        Seq::empty()
    } else if spec_is_ws(s[0]) {
        spec_normalize(s.skip(1))
    } else if s.len() == 1 {
        seq![s[0]]
    } else if !spec_is_ws(s[1]) {
        seq![s[0]] + spec_normalize(s.skip(1))
    } else if spec_has_word(s.skip(1)) {
        seq![s[0], ' '] + spec_normalize(s.skip(1))
    } else {
        seq![s[0]]
    }
}

/// What the remainder `t` contributes to the normalized whole when the
/// part already emitted ends in a word character; `pending` records that
/// whitespace was seen since that character.
spec fn rest_norm(t: Seq<char>, pending: bool) -> Seq<char> {
    if !spec_has_word(t) {
        Seq::empty()
    } else if pending || spec_is_ws(t[0]) {
        seq![' '] + spec_normalize(t)
    } else {
        spec_normalize(t)
    }
}

proof fn lemma_skip_skip(s: Seq<char>, i: int)
    requires
        0 <= i < s.len(),
    ensures
        s.skip(i).skip(1) == s.skip(i + 1),
        s.skip(i).len() == s.len() - i,
        s.skip(i)[0] == s[i],
{
    assert(s.skip(i).skip(1) =~= s.skip(i + 1));
}

/// Peeling one leading character off `t` turns `rest_norm` into what the
/// loop emits for that character.
proof fn lemma_rest_norm_step(t: Seq<char>, pending: bool)
    requires
        t.len() > 0,
    ensures
        spec_is_ws(t[0]) ==> rest_norm(t, pending) == rest_norm(t.skip(1), true),
        !spec_is_ws(t[0]) && pending ==> rest_norm(t, pending) == seq![' ', t[0]] + rest_norm(
            t.skip(1),
            false,
        ),
        !spec_is_ws(t[0]) && !pending ==> rest_norm(t, pending) == seq![t[0]] + rest_norm(
            t.skip(1),
            false,
        ),
{
    let u = t.skip(1);
    assert(t.len() == 1 ==> u.len() == 0);
    if spec_is_ws(t[0]) {
        assert(spec_has_word(t) == spec_has_word(u));
        if spec_has_word(t) {
            assert(spec_normalize(t) == spec_normalize(u));
            assert(rest_norm(t, pending) =~= rest_norm(u, true));
        }
    } else {
        assert(spec_has_word(t));
        lemma_norm_head(t);
        if pending {
            assert(seq![' '] + (seq![t[0]] + rest_norm(u, false)) =~= seq![' ', t[0]] + rest_norm(
                u,
                false,
            ));
        }
    }
}

/// A text beginning with a word character normalizes to that character
/// followed by the remainder's contribution.
proof fn lemma_norm_head(t: Seq<char>)
    requires
        t.len() > 0,
        !spec_is_ws(t[0]),
    ensures
        spec_normalize(t) == seq![t[0]] + rest_norm(t.skip(1), false),
{
    let u = t.skip(1);
    if t.len() == 1 {
        assert(spec_normalize(t) =~= seq![t[0]] + rest_norm(u, false));
    } else if !spec_is_ws(t[1]) {
        assert(u[0] == t[1]);
        assert(spec_has_word(u));
        assert(rest_norm(u, false) == spec_normalize(u));
    } else if spec_has_word(u) {
        assert(u[0] == t[1]);
        assert(rest_norm(u, false) == seq![' '] + spec_normalize(u));
        assert(seq![t[0], ' '] + spec_normalize(u) =~= seq![t[0]] + (seq![' '] + spec_normalize(
            u,
        )));
    } else {
        assert(spec_normalize(t) =~= seq![t[0]] + rest_norm(u, false));
    }
}

/// Collapses whitespace runs to single spaces and trims, over plain
/// character vectors.
pub fn normalize_chars(s: &Vec<char>) -> (r: Vec<char>)
    ensures
        r@ == spec_normalize(s@),
{
    let mut out: Vec<char> = Vec::new();
    let mut pending: bool = false;
    let n: usize = s.len();
    let mut i: usize = 0;
    proof {
        assert(s@.skip(0) =~= s@);
    }
    while i < n
        invariant
            i <= n,
            n == s@.len(),
            out@.len() == 0 ==> spec_normalize(s@) == spec_normalize(s@.skip(i as int))
                && !pending,
            out@.len() > 0 ==> spec_normalize(s@) == out@ + rest_norm(s@.skip(i as int), pending),
        decreases n - i,
    {
        let c = s[i];
        proof {
            lemma_skip_skip(s@, i as int);
            if out@.len() > 0 {
                lemma_rest_norm_step(s@.skip(i as int), pending);
            } else {
                lemma_norm_head_or_skip(s@.skip(i as int));
            }
        }
        if is_ws(c) {
            if out.len() > 0 {
                pending = true;
            }
        } else {
            if pending {
                out.push(' ');
            }
            out.push(c);
            pending = false;
        }
        i = i + 1;
    }
    proof {
        assert(s@.skip(n as int) =~= Seq::<char>::empty());
        if out@.len() > 0 {
            assert(rest_norm(s@.skip(n as int), pending) =~= Seq::<char>::empty());
            assert(out@ + Seq::<char>::empty() =~= out@);
        }
    }
    out
}

/// For the loop's start-up: before anything is emitted, a leading
/// whitespace character drops out, and a leading word character starts
/// the output.
proof fn lemma_norm_head_or_skip(t: Seq<char>)
    ensures
        t.len() > 0 && spec_is_ws(t[0]) ==> spec_normalize(t) == spec_normalize(t.skip(1)),
        t.len() > 0 && !spec_is_ws(t[0]) ==> spec_normalize(t) == seq![t[0]] + rest_norm(
            t.skip(1),
            false,
        ),
{
    if t.len() > 0 && !spec_is_ws(t[0]) {
        lemma_norm_head(t);
    }
}

/// The characters of a string slice, in order.
pub fn str_to_chars(s: &str) -> (r: Vec<char>)
    ensures
        r@ == s@,
{
    let n: usize = s.unicode_len();
    let mut r: Vec<char> = Vec::new();
    let mut i: usize = 0;
    while i < n
        invariant
            i <= n,
            n == s@.len(),
            r@ == s@.take(i as int),
        decreases n - i,
    {
        let c = s.get_char(i);
        r.push(c);
        proof {
            assert(s@.take(i + 1 as int) =~= s@.take(i as int).push(s@[i as int]));
        }
        i = i + 1;
    }
    proof {
        assert(s@.take(n as int) =~= s@);
    }
    r
}

/// Whether two string slices hold the same characters.
pub fn str_eq(a: &str, b: &str) -> (r: bool)
    ensures
        r == (a@ == b@),
{
    let na: usize = a.unicode_len();
    let nb: usize = b.unicode_len();
    if na != nb {
        return false;
    }
    let mut i: usize = 0;
    while i < na
        invariant
            i <= na,
            na == a@.len(),
            na == b@.len(),
            forall|j: int| 0 <= j < i ==> a@[j] == b@[j],
        decreases na - i,
    {
        if a.get_char(i) != b.get_char(i) {
            return false;
        }
        i = i + 1;
    }
    proof {
        assert(a@ =~= b@);
    }
    true
}

/// Relies on `String::push` of std: appends the given character to the
/// end of the string.
#[verifier::external_body]
fn push_char(s: &mut String, c: char)
    ensures
        final(s)@ == old(s)@.push(c),
{
    s.push(c);
}

/// A string holding exactly the given characters, in order.
pub fn chars_to_string(v: &Vec<char>) -> (r: String)
    ensures
        r@ == v@,
{
    let mut r = String::new();
    let n: usize = v.len();
    let mut i: usize = 0;
    while i < n
        invariant
            i <= n,
            n == v@.len(),
            r@ == v@.take(i as int),
        decreases n - i,
    {
        push_char(&mut r, v[i]);
        proof {
            assert(v@.take(i + 1 as int) =~= v@.take(i as int).push(v@[i as int]));
        }
        i = i + 1;
    }
    proof {
        assert(v@.take(n as int) =~= v@);
    }
    r
}

/// Collapses every maximal whitespace run to a single ASCII space and
/// trims leading and trailing whitespace.
pub fn normalize(s: &str) -> (r: String)
    ensures
        r@ == spec_normalize(s@),
{
    let cs = str_to_chars(s);
    let out = normalize_chars(&cs);
    chars_to_string(&out)
}

} // verus!
