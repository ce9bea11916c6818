//! The text model of the splitter: whitespace classification, trimming,
//! collapsing of whitespace runs that span a line boundary, and stripping of
//! separator commas. The collapsing itself is done by a regular expression
//! of the `regex` crate; everything around it is verified against the spec
//! functions of this module.

use vstd::prelude::*;
use vstd::string::StrSliceExecFns;

verus! {

/// The Unicode White_Space characters: the set that `str::trim` trims and
/// that the whitespace class `\s` of the cleaning pattern matches.
pub open spec fn spec_is_ws(c: char) -> bool {
    ||| ('\u{0009}' <= c && c <= '\u{000D}')
    ||| c == ' '
    ||| c == '\u{0085}'
    ||| c == '\u{00A0}'
    ||| c == '\u{1680}'
    ||| ('\u{2000}' <= c && c <= '\u{200A}')
    ||| c == '\u{2028}'
    ||| c == '\u{2029}'
    ||| c == '\u{202F}'
    ||| c == '\u{205F}'
    ||| c == '\u{3000}'
}

/// Checks whether a character is whitespace, in the sense of `spec_is_ws`.
pub fn is_ws(c: char) -> (r: bool)
    ensures
        r == spec_is_ws(c),
{
    ('\u{0009}' <= c && c <= '\u{000D}') || c == ' ' || c == '\u{0085}' || c == '\u{00A0}'
        || c == '\u{1680}' || ('\u{2000}' <= c && c <= '\u{200A}') || c == '\u{2028}'
        || c == '\u{2029}' || c == '\u{202F}' || c == '\u{205F}' || c == '\u{3000}'
}

/// Length of the run of whitespace characters at the start of `s`.
pub open spec fn leading_ws_len(s: Seq<char>) -> nat
    decreases s.len(),
{
    if s.len() > 0 && spec_is_ws(s[0]) {
        (leading_ws_len(s.subrange(1, s.len() as int)) + 1) as nat
    } else {
        0
    }
}

/// `s` with its leading run of whitespace removed.
pub open spec fn spec_trim_start(s: Seq<char>) -> Seq<char>
    decreases s.len(),
{
    if s.len() > 0 && spec_is_ws(s[0]) {
        spec_trim_start(s.subrange(1, s.len() as int))
    } else {
        s
    }
}

/// `s` with its trailing run of whitespace removed.
pub open spec fn spec_trim_end(s: Seq<char>) -> Seq<char>
    decreases s.len(),
{
    if s.len() > 0 && spec_is_ws(s.last()) {
        spec_trim_end(s.drop_last())
    } else {
        s
    }
}

/// `s` with both its leading and its trailing whitespace removed: what
/// `str::trim` leaves of a line.
pub open spec fn spec_trim(s: Seq<char>) -> Seq<char> {
    spec_trim_end(spec_trim_start(s))
}

/// Whether `s` holds a newline somewhere.
pub open spec fn has_newline(s: Seq<char>) -> bool {
    exists|i: int| 0 <= i < s.len() && s[i] == '\n'
}

/// The leading whitespace run is never longer than the sequence itself.
pub proof fn lemma_leading_ws_len_le(s: Seq<char>)
    ensures
        leading_ws_len(s) <= s.len(),
    decreases s.len(),
{
    if s.len() > 0 && spec_is_ws(s[0]) {
        lemma_leading_ws_len_le(s.subrange(1, s.len() as int));
    }
}

/// `s` with every maximal run of whitespace that contains a newline removed.
/// A whitespace run without a newline, and everything else, is kept as it is.
pub open spec fn spec_collapse(s: Seq<char>) -> Seq<char>
    decreases s.len(),
    via spec_collapse_decreases
{
    if s.len() == 0 {
        Seq::<char>::empty()
    } else if spec_is_ws(s[0]) {
        let n = leading_ws_len(s) as int;
        let run = s.subrange(0, n);
        let rest = spec_collapse(s.subrange(n, s.len() as int));
        if has_newline(run) {
            rest
        } else {
            run + rest
        }
    } else {
        seq![s[0]] + spec_collapse(s.subrange(1, s.len() as int))
    }
}

#[via_fn]
proof fn spec_collapse_decreases(s: Seq<char>) {
    if s.len() > 0 && spec_is_ws(s[0]) {
        lemma_leading_ws_len_le(s);
    }
}

/// The characters of the leading whitespace run are whitespace, and the run
/// is maximal: the character just after it, if any, is not whitespace.
pub proof fn lemma_leading_ws_props(s: Seq<char>)
    ensures
        leading_ws_len(s) <= s.len(),
        forall|j: int| 0 <= j < leading_ws_len(s) ==> spec_is_ws(#[trigger] s[j]),
        leading_ws_len(s) < s.len() ==> !spec_is_ws(s[leading_ws_len(s) as int]),
    decreases s.len(),
{
    if s.len() > 0 && spec_is_ws(s[0]) {
        let s1 = s.subrange(1, s.len() as int);
        lemma_leading_ws_props(s1);
        assert forall|j: int| 0 <= j < leading_ws_len(s) implies spec_is_ws(#[trigger] s[j]) by {
            if j > 0 {
                assert(s[j] == s1[j - 1]);
            }
        }
    }
}

/// A leading whitespace run that stops inside `s` is unchanged when more
/// text follows `s`.
pub proof fn lemma_leading_ws_stops(s: Seq<char>, t: Seq<char>)
    requires
        leading_ws_len(s) < s.len(),
    ensures
        leading_ws_len(s + t) == leading_ws_len(s),
    decreases s.len(),
{
    if s.len() > 0 && spec_is_ws(s[0]) {
        let s1 = s.subrange(1, s.len() as int);
        assert((s + t).subrange(1, (s + t).len() as int) =~= s1 + t);
        lemma_leading_ws_stops(s1, t);
    } else {
        assert((s + t)[0] == s[0]);
    }
}

/// The leading whitespace run of an all-whitespace `s` followed by `t`
/// spans `s` and continues into `t`.
pub proof fn lemma_leading_ws_spans(s: Seq<char>, t: Seq<char>)
    requires
        leading_ws_len(s) == s.len(),
    ensures
        leading_ws_len(s + t) == s.len() + leading_ws_len(t),
    decreases s.len(),
{
    if s.len() == 0 {
        assert(s + t =~= t);
    } else {
        assert(spec_is_ws(s[0]));
        let s1 = s.subrange(1, s.len() as int);
        assert((s + t).subrange(1, (s + t).len() as int) =~= s1 + t);
        lemma_leading_ws_spans(s1, t);
    }
}

/// Trimming an all-whitespace text from the end leaves nothing.
pub proof fn lemma_trim_end_all_ws(s: Seq<char>)
    requires
        forall|j: int| 0 <= j < s.len() ==> spec_is_ws(#[trigger] s[j]),
    ensures
        spec_trim_end(s) == Seq::<char>::empty(),
    decreases s.len(),
{
    if s.len() > 0 {
        lemma_trim_end_all_ws(s.drop_last());
    } else {
        assert(s =~= Seq::<char>::empty());
    }
}

/// Trimming from the end never reaches past a part that ends with a
/// non-whitespace character.
pub proof fn lemma_trim_end_concat_solid(a: Seq<char>, b: Seq<char>)
    requires
        a.len() > 0,
        !spec_is_ws(a.last()),
    ensures
        spec_trim_end(a + b) == a + spec_trim_end(b),
    decreases b.len(),
{
    if b.len() == 0 {
        assert(a + b =~= a);
        assert(a + spec_trim_end(b) =~= a);
    } else if spec_is_ws(b.last()) {
        assert((a + b).last() == b.last());
        assert((a + b).drop_last() =~= a + b.drop_last());
        lemma_trim_end_concat_solid(a, b.drop_last());
    } else {
        assert((a + b).last() == b.last());
    }
}

/// Trimming from the end never reaches past a second part that holds a
/// non-whitespace character somewhere.
pub proof fn lemma_trim_end_concat_keeps(a: Seq<char>, b: Seq<char>)
    requires
        exists|j: int| 0 <= j < b.len() && !spec_is_ws(#[trigger] b[j]),
    ensures
        spec_trim_end(a + b) == a + spec_trim_end(b),
    decreases b.len(),
{
    let j = choose|j: int| 0 <= j < b.len() && !spec_is_ws(#[trigger] b[j]);
    if spec_is_ws(b.last()) {
        assert(j < b.len() - 1);
        assert(b.drop_last()[j] == b[j]);
        assert((a + b).last() == b.last());
        assert((a + b).drop_last() =~= a + b.drop_last());
        lemma_trim_end_concat_keeps(a, b.drop_last());
    } else {
        assert((a + b).last() == b.last());
    }
}

/// Collapsing keeps the first character of a text that does not start with
/// whitespace.
pub proof fn lemma_collapse_head(s: Seq<char>)
    requires
        s.len() > 0,
        !spec_is_ws(s[0]),
    ensures
        spec_collapse(s).len() > 0,
        spec_collapse(s)[0] == s[0],
{
}

/// Appending one run of whitespace that contains a newline — one or more
/// line breaks with surrounding blanks — renders the buffered text exactly
/// as before, except that whatever whitespace the text ended with is
/// swallowed along with the run: no visible content changes.
pub proof fn lemma_collapse_append_ws_run(s: Seq<char>, w: Seq<char>)
    requires
        w.len() > 0,
        forall|j: int| 0 <= j < w.len() ==> spec_is_ws(#[trigger] w[j]),
        has_newline(w),
    ensures
        spec_collapse(s + w) == spec_trim_end(spec_collapse(s)),
    decreases s.len(),
{
    lemma_leading_ws_props(w);
    assert(leading_ws_len(w) == w.len());
    assert(spec_collapse(Seq::<char>::empty()) == Seq::<char>::empty());
    if s.len() == 0 {
        assert(s + w =~= w);
        assert(w.subrange(0, w.len() as int) =~= w);
        assert(w.subrange(w.len() as int, w.len() as int) =~= Seq::<char>::empty());
        assert(spec_collapse(w) == Seq::<char>::empty());
    } else if !spec_is_ws(s[0]) {
        let c = s[0];
        let s1 = s.subrange(1, s.len() as int);
        assert((s + w)[0] == c);
        assert((s + w).subrange(1, (s + w).len() as int) =~= s1 + w);
        lemma_collapse_append_ws_run(s1, w);
        lemma_trim_end_concat_solid(seq![c], spec_collapse(s1));
        assert(seq![c].last() == c);
    } else {
        lemma_leading_ws_props(s);
        let n = leading_ws_len(s) as int;
        let run = s.subrange(0, n);
        let rest = s.subrange(n, s.len() as int);
        if n == s.len() {
            lemma_leading_ws_spans(s, w);
            assert((s + w).subrange(0, (s + w).len() as int) =~= s + w);
            assert((s + w).subrange((s + w).len() as int, (s + w).len() as int)
                =~= Seq::<char>::empty());
            let k = choose|k: int| 0 <= k < w.len() && w[k] == '\n';
            assert((s + w)[s.len() + k] == '\n');
            assert(has_newline(s + w));
            assert(spec_collapse(s + w) == Seq::<char>::empty());
            assert(run =~= s);
            assert(rest =~= Seq::<char>::empty());
            if has_newline(run) {
                assert(spec_collapse(s) == Seq::<char>::empty());
            } else {
                assert(spec_collapse(s) =~= s);
                lemma_trim_end_all_ws(s);
            }
        } else {
            lemma_leading_ws_stops(s, w);
            assert((s + w).subrange(0, n) =~= run);
            assert((s + w).subrange(n, (s + w).len() as int) =~= rest + w);
            assert(rest[0] == s[n]);
            lemma_collapse_append_ws_run(rest, w);
            if has_newline(run) {
                assert(spec_collapse(s + w) == spec_trim_end(spec_collapse(rest)));
                assert(spec_collapse(s) == spec_collapse(rest));
            } else {
                lemma_collapse_head(rest);
                assert(!spec_is_ws(spec_collapse(rest)[0]));
                lemma_trim_end_concat_keeps(run, spec_collapse(rest));
            }
        }
    }
}

/// Collapsing removes every newline: each lies inside some whitespace run,
/// and every such run is removed whole.
pub proof fn lemma_collapse_no_newline(s: Seq<char>)
    ensures
        !has_newline(spec_collapse(s)),
    decreases s.len(),
{
    assert(spec_is_ws('\n'));
    if s.len() == 0 {
    } else if spec_is_ws(s[0]) {
        lemma_leading_ws_props(s);
        let n = leading_ws_len(s) as int;
        let run = s.subrange(0, n);
        let rest = spec_collapse(s.subrange(n, s.len() as int));
        lemma_collapse_no_newline(s.subrange(n, s.len() as int));
        if !has_newline(run) {
            assert forall|i: int| 0 <= i < (run + rest).len() implies (run + rest)[i] != '\n' by {
                if i < run.len() {
                    assert(run[i] != '\n');
                } else {
                    assert((run + rest)[i] == rest[i - run.len()]);
                }
            }
        }
    } else {
        let rest = spec_collapse(s.subrange(1, s.len() as int));
        lemma_collapse_no_newline(s.subrange(1, s.len() as int));
        assert forall|i: int| 0 <= i < (seq![s[0]] + rest).len() implies (seq![s[0]] + rest)[i]
            != '\n' by {
            if i >= 1 {
                assert((seq![s[0]] + rest)[i] == rest[i - 1]);
            }
        }
    }
}

/// Collapsing a text without a newline changes nothing: only runs that
/// contain a newline are removed.
pub proof fn lemma_collapse_newline_free_id(s: Seq<char>)
    requires
        !has_newline(s),
    ensures
        spec_collapse(s) == s,
    decreases s.len(),
{
    if s.len() == 0 {
        assert(spec_collapse(s) =~= s);
    } else if spec_is_ws(s[0]) {
        lemma_leading_ws_props(s);
        let n = leading_ws_len(s) as int;
        let run = s.subrange(0, n);
        let rest = s.subrange(n, s.len() as int);
        assert(!has_newline(run));
        assert(!has_newline(rest));
        lemma_collapse_newline_free_id(rest);
        assert(run + rest =~= s);
    } else {
        let rest = s.subrange(1, s.len() as int);
        assert(!has_newline(rest));
        lemma_collapse_newline_free_id(rest);
        assert(seq![s[0]] + rest =~= s);
    }
}

/// Collapsing is idempotent: a second pass finds no newline left to act on.
pub proof fn lemma_collapse_idempotent(s: Seq<char>)
    ensures
        spec_collapse(spec_collapse(s)) == spec_collapse(s),
{
    lemma_collapse_no_newline(s);
    lemma_collapse_newline_free_id(spec_collapse(s));
}

/// Rendering is a pure function of the buffered text: rendering the same
/// buffer twice, with nothing appended in between, yields the same string.
pub proof fn lemma_render_deterministic(s: Seq<char>, r1: Seq<char>, r2: Seq<char>)
    requires
        r1 == spec_render(s),
        r2 == spec_render(s),
    ensures
        r1 == r2,
{
}

/// Appending one run of whitespace that contains a newline and re-rendering
/// never changes visible content: the rendering is as before, except that
/// trailing whitespace of the buffered text is removed along with the run.
pub proof fn lemma_render_after_ws_newline_append(s: Seq<char>, w: Seq<char>)
    requires
        w.len() > 0,
        forall|j: int| 0 <= j < w.len() ==> spec_is_ws(#[trigger] w[j]),
        has_newline(w),
    ensures
        spec_render(s + w) == strip_trailing_comma(
            strip_leading_comma(spec_trim_end(spec_collapse(s))),
        ),
{
    lemma_collapse_append_ws_run(s, w);
}

/// `s` with one leading comma removed, if it starts with one.
pub open spec fn strip_leading_comma(s: Seq<char>) -> Seq<char> {
    if s.len() > 0 && s[0] == ',' {
        s.subrange(1, s.len() as int)
    } else {
        s
    }
}

/// `s` with one trailing comma removed, if it ends with one.
pub open spec fn strip_trailing_comma(s: Seq<char>) -> Seq<char> {
    if s.len() > 0 && s.last() == ',' {
        s.drop_last()
    } else {
        s
    }
}

/// The normalized rendering of a buffered element: whitespace runs that span
/// a line boundary collapse to nothing, then exactly one leading and one
/// trailing separator comma are stripped.
pub open spec fn spec_render(s: Seq<char>) -> Seq<char> {
    strip_trailing_comma(strip_leading_comma(spec_collapse(s)))
}

/// Relies on `regex::Regex::new` — compiling this fixed, valid pattern
/// cannot fail — and on `regex::Regex::replace_all`, which removes every
/// non-overlapping leftmost match of `\s{0,}\n\s{0,}`. With both repetitions
/// greedy, the matches are exactly the maximal runs of Unicode White_Space
/// characters (the class `\s`, the set `spec_is_ws` describes) that contain
/// a newline, each matched in full.
#[verifier::external_body]
pub(crate) fn collapse_newline_runs(v: &Vec<char>) -> (r: Vec<char>)
    ensures
        r@ == spec_collapse(v@),
{
    let text: String = v.iter().collect();
    let pattern = regex::Regex::new(r"\s{0,}\n\s{0,}").unwrap();
    pattern.replace_all(&text, "").chars().collect()
}

/// Relies on `String`'s `FromIterator` implementation: collecting characters
/// yields the string of exactly those characters, in order.
#[verifier::external_body]
pub(crate) fn chars_to_string(v: &Vec<char>) -> (r: String)
    ensures
        r@ == v@,
{
    v.iter().collect()
}

/// Copies the characters of a string slice into a vector.
pub fn str_to_chars(s: &str) -> (v: Vec<char>)
    ensures
        v@ == s@,
{
    let n = s.unicode_len();
    let mut v: Vec<char> = Vec::new();
    let mut i: usize = 0;
    while i < n
        invariant
            i <= n,
            n == s@.len(),
            v@ == s@.subrange(0, i as int),
        decreases n - i,
    {
        let c = s.get_char(i);
        v.push(c);
        proof {
            assert(s@.subrange(0, (i + 1) as int) =~= s@.subrange(0, i as int).push(s@[i as int]));
        }
        i = i + 1;
    }
    proof {
        assert(v@ =~= s@);
    }
    v
}

/// The characters of `v` with leading and trailing whitespace removed.
pub fn trim_chars(v: &Vec<char>) -> (r: Vec<char>)
    ensures
        r@ == spec_trim(v@),
{
    let len = v.len();
    proof {
        assert(v@.subrange(0, len as int) =~= v@);
    }
    let mut a: usize = 0;
    while a < len && is_ws(v[a])
        invariant
            a <= len,
            len == v@.len(),
            spec_trim_start(v@) == spec_trim_start(v@.subrange(a as int, len as int)),
        decreases len - a,
    {
        proof {
            assert(v@.subrange(a as int, len as int).subrange(1, (len - a) as int) =~= v@.subrange(
                (a + 1) as int,
                len as int,
            ));
        }
        a = a + 1;
    }
    proof {
        assert(spec_trim_start(v@) == v@.subrange(a as int, len as int));
    }
    let mut b: usize = len;
    while b > a && is_ws(v[b - 1])
        invariant
            a <= b <= len,
            len == v@.len(),
            spec_trim_start(v@) == v@.subrange(a as int, len as int),
            spec_trim_end(v@.subrange(a as int, len as int)) == spec_trim_end(
                v@.subrange(a as int, b as int),
            ),
        decreases b,
    {
        proof {
            assert(v@.subrange(a as int, b as int).drop_last() =~= v@.subrange(
                a as int,
                (b - 1) as int,
            ));
        }
        b = b - 1;
    }
    proof {
        assert(spec_trim(v@) == v@.subrange(a as int, b as int));
    }
    let mut r: Vec<char> = Vec::new();
    let mut i: usize = a;
    while i < b
        invariant
            a <= i <= b <= len,
            len == v@.len(),
            r@ == v@.subrange(a as int, i as int),
        decreases b - i,
    {
        let c = v[i];
        r.push(c);
        proof {
            assert(v@.subrange(a as int, (i + 1) as int) =~= v@.subrange(a as int, i as int).push(
                v@[i as int],
            ));
        }
        i = i + 1;
    }
    proof {
        assert(r@ =~= v@.subrange(a as int, b as int));
    }
    r
}

} // verus!
