//! The line-grained splitter: drives the bracket stack over one trimmed line
//! at a time, inferring bracket transitions only from each line's first and
//! last significant character. Faster than the byte splitter, but correct
//! only for pretty-printed input where each line edge carries at most one
//! nesting transition (plus the empty-pair special case below).

use vstd::prelude::*;

use crate::brackets::{
    is_closing_bracket, is_opening_bracket, spec_is_closing_bracket, spec_is_opening_bracket,
    spec_pairs_with, BracketStack,
};
use crate::errors::SplitError;
use crate::json_object::JSONLString;
use crate::processor::concat_texts;
use crate::text::{
    chars_to_string, spec_render, spec_trim, str_to_chars, strip_trailing_comma, trim_chars,
};

verus! {

/// The character that ends a line for bracket-tracking purposes, computed on
/// the already-trimmed line: one trailing separator comma is ignored; a line
/// of a single character has no end distinct from its start and reports the
/// neutral `' '`; and an empty pair `{}` or `[]` at the end of the line
/// cancels out, so it too reports the neutral `' '` rather than a closing
/// bracket. Meaningful only when the line minus its trailing comma is
/// nonempty.
pub open spec fn spec_end_char(line: Seq<char>) -> char {
    let cleaned = strip_trailing_comma(line);
    if cleaned.len() == 1 {
        ' '
    } else {
        let last = cleaned.last();
        if spec_is_closing_bracket(last) && spec_pairs_with(cleaned[cleaned.len() - 2], last) {
            ' '
        } else {
            last
        }
    }
}

/// The abstract state of the line splitter: the open brackets and the raw
/// text buffered for the element being assembled.
pub struct LineState {
    pub stack: Seq<char>,
    pub buf: Seq<char>,
}

/// The outcome of one successful step of the line splitter.
pub struct LineOutcome {
    pub state: LineState,
    pub emitted: Option<Seq<char>>,
}

/// One step of the line splitter on the raw line `line`: the line is
/// trimmed; an opening bracket at its start is pushed; a closing end
/// character pops its counterpart; an opening end character is pushed; a
/// closing bracket at the start pops its counterpart (end-of-line
/// transitions are resolved before the start-of-line closing case, matching
/// a pretty-printer's combined `},{` line); the trimmed text is buffered;
/// and the buffer is emitted once depth returns to 1. `None` is the fatal
/// bracket-mismatch outcome of either pop.
pub open spec fn spec_line_step(s: LineState, line: Seq<char>) -> Option<LineOutcome> {
    let t = spec_trim(line);
    let start = t[0];
    let endc = spec_end_char(t);
    let st1 = if spec_is_opening_bracket(start) {
        s.stack.push(start)
    } else {
        s.stack
    };
    if spec_is_closing_bracket(endc) && !(st1.len() > 0 && spec_pairs_with(st1.last(), endc)) {
        None
    } else {
        let st2 = if spec_is_closing_bracket(endc) {
            st1.drop_last()
        } else {
            st1
        };
        let st3 = if spec_is_opening_bracket(endc) {
            st2.push(endc)
        } else {
            st2
        };
        if spec_is_closing_bracket(start) && !(st3.len() > 0 && spec_pairs_with(st3.last(), start)) {
            None
        } else {
            let st4 = if spec_is_closing_bracket(start) {
                st3.drop_last()
            } else {
                st3
            };
            if st4.len() == 1 {
                Some(
                    LineOutcome {
                        state: LineState { stack: st4, buf: Seq::<char>::empty() },
                        emitted: Some(s.buf + t),
                    },
                )
            } else {
                Some(
                    LineOutcome { state: LineState { stack: st4, buf: s.buf + t }, emitted: None },
                )
            }
        }
    }
}

/// The line-grained splitter. It owns the bracket stack and the element
/// buffer; it has no string guard, since it never looks inside a line.
pub struct LineProcessor {
    pub bracket_stack: BracketStack,
    pub jsonl_string: JSONLString,
}

impl View for LineProcessor {
    type V = LineState;

    open spec fn view(&self) -> LineState {
        LineState { stack: self.bracket_stack@, buf: self.jsonl_string@ }
    }
}

impl LineProcessor {
    /// A fresh splitter: nothing open, nothing buffered.
    pub fn new() -> (r: LineProcessor)
        ensures
            r@ == (LineState { stack: Seq::<char>::empty(), buf: Seq::<char>::empty() }),
    {
        LineProcessor { bracket_stack: BracketStack::new(), jsonl_string: JSONLString::new() }
    }

    /// Records a bracket as open without buffering it; used to seed the
    /// tracker with the outermost `[` of the document.
    pub fn push_bracket(&mut self, byte: &char)
        ensures
            final(self)@ == (LineState {
                stack: old(self)@.stack.push(*byte),
                buf: old(self)@.buf,
            }),
    {
        self.bracket_stack.push(byte);
    }

    /// The end character of `line` for bracket tracking, per
    /// `spec_end_char`. `line` is expected already trimmed; it must not
    /// be empty once a trailing separator comma is ignored.
    pub fn get_end_char(&self, line: &str) -> (r: char)
        requires
            strip_trailing_comma(line@).len() >= 1,
        ensures
            r == spec_end_char(line@),
    {
        let cs = str_to_chars(line);
        let n = cs.len();
        let m: usize = if cs[n - 1] == ',' {
            n - 1
        } else {
            n
        };
        proof {
            if line@.last() == ',' {
                assert(strip_trailing_comma(line@) =~= line@.subrange(0, m as int));
            } else {
                assert(strip_trailing_comma(line@) =~= line@.subrange(0, m as int));
            }
        }
        if m == 1 {
            return ' ';
        }
        let last = cs[m - 1];
        if is_closing_bracket(&last) {
            let prev = cs[m - 2];
            if (last == ']' && prev == '[') || (last == '}' && prev == '{') {
                return ' ';
            }
        }
        last
    }

    /// Processes one raw line, per `spec_line_step`. Returns the normalized
    /// text of the element that the line completed, if it completed one.
    /// Fails with the fatal bracket-mismatch error — naming the bracket
    /// whose pop failed — exactly when the step has no successful outcome;
    /// nothing is buffered then. The line must not be blank, nor a lone
    /// separator comma, once trimmed.
    pub fn process_line(&mut self, line: &str) -> (r: Result<Option<String>, SplitError>)
        requires
            spec_trim(line@).len() > 0,
            strip_trailing_comma(spec_trim(line@)).len() > 0,
        ensures
            r is Ok <==> spec_line_step(old(self)@, line@) is Some,
            r matches Ok(em) ==> {
                let outcome = spec_line_step(old(self)@, line@)->0;
                &&& final(self)@ == outcome.state
                &&& match outcome.emitted {
                    Some(raw) => em matches Some(l) && l@ == spec_render(raw),
                    None => em is None,
                }
            },
            r matches Err(e) ==> {
                let t = spec_trim(line@);
                let st1 = if spec_is_opening_bracket(t[0]) {
                    old(self)@.stack.push(t[0])
                } else {
                    old(self)@.stack
                };
                &&& final(self)@.buf == old(self)@.buf
                &&& if spec_is_closing_bracket(spec_end_char(t)) && !(st1.len() > 0
                    && spec_pairs_with(st1.last(), spec_end_char(t))) {
                    e == (SplitError::BracketMismatch { closing: spec_end_char(t) })
                } else {
                    e == (SplitError::BracketMismatch { closing: t[0] })
                }
            },
    {
        let cs = str_to_chars(line);
        let tv = trim_chars(&cs);
        let start = tv[0];
        let tstr = chars_to_string(&tv);
        let endc = self.get_end_char(tstr.as_str());

        if is_opening_bracket(&start) {
            self.bracket_stack.push(&start);
        }
        if is_closing_bracket(&endc) {
            match self.bracket_stack.pop_pair(&endc) {
                Some(_) => {},
                None => {
                    return Err(SplitError::BracketMismatch { closing: endc });
                },
            }
        }
        if is_opening_bracket(&endc) {
            self.bracket_stack.push(&endc);
        }
        if is_closing_bracket(&start) {
            match self.bracket_stack.pop_pair(&start) {
                Some(_) => {},
                None => {
                    return Err(SplitError::BracketMismatch { closing: start });
                },
            }
        }
        self.jsonl_string.push_chars(&tv);
        if self.should_print() {
            let l = self.jsonl_string.to_string();
            self.jsonl_string.clear();
            Ok(Some(l))
        } else {
            Ok(None)
        }
    }

    /// Whether the element buffer is ready for emission: only the outermost
    /// array bracket remains open.
    pub fn should_print(&self) -> (r: bool)
        ensures
            r == (self@.stack.len() == 1),
    {
        self.bracket_stack.len() == 1
    }
}

/// The state of a line splitter just seeded with the outermost `[` of the
/// document.
pub open spec fn spec_line_seed() -> LineState {
    LineState { stack: seq!['['], buf: Seq::<char>::empty() }
}

/// The line splitter run over a whole sequence of raw lines: the final state
/// and the raw texts of the elements emitted along the way, in order; `None`
/// as soon as one step fails.
pub open spec fn spec_line_run(s: LineState, lines: Seq<Seq<char>>) -> Option<
    (LineState, Seq<Seq<char>>),
>
    decreases lines.len(),
{
    if lines.len() == 0 {
        Some((s, Seq::<Seq<char>>::empty()))
    } else {
        match spec_line_step(s, lines[0]) {
            None => None,
            Some(outcome) => match spec_line_run(
                outcome.state,
                lines.subrange(1, lines.len() as int),
            ) {
                None => None,
                Some(rest) => Some(
                    (
                        rest.0,
                        match outcome.emitted {
                            Some(raw) => seq![raw] + rest.1,
                            None => rest.1,
                        },
                    ),
                ),
            },
        }
    }
}

/// Splitting a run of lines into a first part and a second part composes:
/// the second part continues from the first part's final state, and the
/// emissions are those of the first part followed by those of the second.
pub proof fn lemma_line_run_app(s: LineState, a: Seq<Seq<char>>, b: Seq<Seq<char>>)
    ensures
        spec_line_run(s, a + b) == (match spec_line_run(s, a) {
            None => None::<(LineState, Seq<Seq<char>>)>,
            Some(ra) => match spec_line_run(ra.0, b) {
                None => None::<(LineState, Seq<Seq<char>>)>,
                Some(rb) => Some((rb.0, ra.1 + rb.1)),
            },
        }),
    decreases a.len(),
{
    if a.len() == 0 {
        assert(a + b =~= b);
        match spec_line_run(s, b) {
            None => {},
            Some(rb) => {
                assert(Seq::<Seq<char>>::empty() + rb.1 =~= rb.1);
            },
        }
    } else {
        assert((a + b)[0] == a[0]);
        match spec_line_step(s, a[0]) {
            None => {},
            Some(outcome) => {
                assert((a + b).subrange(1, (a + b).len() as int) =~= a.subrange(
                    1,
                    a.len() as int,
                ) + b);
                lemma_line_run_app(outcome.state, a.subrange(1, a.len() as int), b);
                match spec_line_run(outcome.state, a.subrange(1, a.len() as int)) {
                    None => {},
                    Some(ra1) => {
                        match spec_line_run(ra1.0, b) {
                            None => {},
                            Some(rb) => {
                                match outcome.emitted {
                                    Some(raw) => {
                                        assert(seq![raw] + (ra1.1 + rb.1) =~= (seq![raw] + ra1.1)
                                            + rb.1);
                                    },
                                    None => {},
                                }
                            },
                        }
                    },
                }
            },
        }
    }
}

/// A run over a single line is one step of the splitter.
pub proof fn lemma_line_run_one(s: LineState, line: Seq<char>)
    ensures
        spec_line_run(s, seq![line]) == (match spec_line_step(s, line) {
            None => None::<(LineState, Seq<Seq<char>>)>,
            Some(o) => Some(
                (
                    o.state,
                    match o.emitted {
                        Some(raw) => seq![raw],
                        None => Seq::<Seq<char>>::empty(),
                    },
                ),
            ),
        }),
{
    assert(seq![line][0] == line);
    assert(seq![line].subrange(1, 1) =~= Seq::<Seq<char>>::empty());
    match spec_line_step(s, line) {
        None => {},
        Some(o) => {
            assert(spec_line_run(o.state, Seq::<Seq<char>>::empty()) == Some(
                (o.state, Seq::<Seq<char>>::empty()),
            ));
            match o.emitted {
                Some(raw) => {
                    assert(seq![raw] + Seq::<Seq<char>>::empty() =~= seq![raw]);
                },
                None => {},
            }
        },
    }
}

/// Round-trip of the line splitter: every trimmed line lands, in order, in
/// exactly one emitted raw element or in the final buffer. The emitted raw
/// elements — each still carrying its original separator commas —
/// concatenated with what remains buffered reconstruct the starting buffer
/// followed by the trimmed lines, exactly.
pub proof fn lemma_line_run_preserves_text(s: LineState, lines: Seq<Seq<char>>)
    requires
        spec_line_run(s, lines) is Some,
    ensures
        ({
            let rr = spec_line_run(s, lines)->0;
            concat_texts(rr.1) + rr.0.buf == s.buf + concat_texts(
                lines.map_values(|l: Seq<char>| spec_trim(l)),
            )
        }),
    decreases lines.len(),
{
    let f = |l: Seq<char>| spec_trim(l);
    if lines.len() == 0 {
        assert(lines.map_values(f).len() == 0);
        assert(concat_texts(Seq::<Seq<char>>::empty()) + s.buf =~= s.buf + concat_texts(
            lines.map_values(f),
        ));
    } else {
        let l0 = lines[0];
        let t = spec_trim(l0);
        let outcome = spec_line_step(s, l0)->0;
        let rest = lines.subrange(1, lines.len() as int);
        lemma_line_run_preserves_text(outcome.state, rest);
        let rr = spec_line_run(outcome.state, rest)->0;
        let crm = concat_texts(rest.map_values(f));
        assert(lines.map_values(f)[0] == t);
        assert(lines.map_values(f).subrange(1, lines.len() as int) =~= rest.map_values(f));
        assert(concat_texts(lines.map_values(f)) == t + crm);
        match outcome.emitted {
            Some(raw) => {
                assert(raw == s.buf + t);
                assert(outcome.state.buf == Seq::<char>::empty());
                assert(Seq::<char>::empty() + crm =~= crm);
                let full = seq![raw] + rr.1;
                assert(full.subrange(1, full.len() as int) =~= rr.1);
                assert(concat_texts(full) == raw + concat_texts(rr.1));
                assert((raw + concat_texts(rr.1)) + rr.0.buf =~= raw + (concat_texts(rr.1)
                    + rr.0.buf));
                assert((s.buf + t) + crm =~= s.buf + (t + crm));
            },
            None => {
                assert(outcome.state.buf == s.buf + t);
                assert((s.buf + t) + crm =~= s.buf + (t + crm));
            },
        }
    }
}

/// Splits a whole document in line mode: checks that the first line opens
/// with `[`, seeds the tracker with that bracket, then feeds every further
/// line to the splitter, collecting the normalized elements in order. Fails
/// with `InvalidFirstChar` exactly when the first character is not `[`, and
/// with the fatal bracket-mismatch error exactly when the run fails. Every
/// line after the first must be neither blank nor a lone separator comma
/// once trimmed: this mode assumes pretty-printed input.
pub fn convert_lines(lines: &Vec<String>) -> (r: Result<Vec<String>, SplitError>)
    requires
        lines@.len() > 0,
        lines@[0]@.len() > 0,
        forall|j: int|
            1 <= j < lines@.len() ==> (#[trigger] spec_trim(lines@[j]@)).len() > 0
                && strip_trailing_comma(spec_trim(lines@[j]@)).len() > 0,
    ensures
        lines@[0]@[0] != '[' ==> r == Err::<Vec<String>, SplitError>(
            SplitError::InvalidFirstChar { found: lines@[0]@[0] },
        ),
        lines@[0]@[0] == '[' ==> {
            let run = spec_line_run(
                spec_line_seed(),
                lines.deep_view().subrange(1, lines@.len() as int),
            );
            match r {
                Ok(out) => {
                    let texts = (run->0).1;
                    &&& run is Some
                    &&& out@.len() == texts.len()
                    &&& forall|j: int|
                        0 <= j < texts.len() ==> (#[trigger] out@[j])@ == spec_render(texts[j])
                },
                Err(e) => run is None && e matches SplitError::BracketMismatch { .. },
            }
        },
{
    let n = lines.len();
    let first_line: &String = &lines[0];
    let first = first_line.as_str().get_char(0);
    if first != '[' {
        return Err(SplitError::InvalidFirstChar { found: first });
    }
    let mut p = LineProcessor::new();
    p.push_bracket(&first);
    proof {
        assert(p@.stack =~= seq!['[']);
        assert(p@ == spec_line_seed());
        assert(lines.deep_view().subrange(1, 1) =~= Seq::<Seq<char>>::empty());
    }
    let mut out: Vec<String> = Vec::new();
    let ghost mut emitted: Seq<Seq<char>> = Seq::<Seq<char>>::empty();
    let mut i: usize = 1;
    while i < n
        invariant
            1 <= i <= n,
            n == lines@.len(),
            lines@[0]@.len() > 0,
            lines@[0]@[0] == '[',
            forall|j: int|
                1 <= j < lines@.len() ==> (#[trigger] spec_trim(lines@[j]@)).len() > 0
                    && strip_trailing_comma(spec_trim(lines@[j]@)).len() > 0,
            spec_line_run(spec_line_seed(), lines.deep_view().subrange(1, i as int)) == Some(
                (p@, emitted),
            ),
            out@.len() == emitted.len(),
            forall|j: int|
                0 <= j < emitted.len() ==> (#[trigger] out@[j])@ == spec_render(emitted[j]),
        decreases n - i,
    {
        let line: &String = &lines[i];
        let ghost prefix = lines.deep_view().subrange(1, i as int);
        let ghost state0 = p@;
        proof {
            assert(lines.deep_view()[i as int] == lines@[i as int]@);
        }
        let step_result = p.process_line(line.as_str());
        proof {
            lemma_line_run_app(spec_line_seed(), prefix, seq![line@]);
            lemma_line_run_one(state0, line@);
            assert(lines.deep_view().subrange(1, (i + 1) as int) =~= prefix + seq![line@]);
        }
        match step_result {
            Ok(Some(text)) => {
                proof {
                    let outcome0 = spec_line_step(state0, line@)->0;
                    let raw = outcome0.emitted->0;
                    assert(emitted + seq![raw] =~= emitted.push(raw));
                    emitted = emitted.push(raw);
                }
                out.push(text);
            },
            Ok(None) => {
                proof {
                    assert(emitted + Seq::<Seq<char>>::empty() =~= emitted);
                }
            },
            Err(e) => {
                proof {
                    lemma_line_run_app(
                        spec_line_seed(),
                        lines.deep_view().subrange(1, (i + 1) as int),
                        lines.deep_view().subrange((i + 1) as int, n as int),
                    );
                    assert(lines.deep_view().subrange(1, (i + 1) as int) + lines.deep_view()
                        .subrange((i + 1) as int, n as int) =~= lines.deep_view().subrange(
                        1,
                        n as int,
                    ));
                }
                return Err(e);
            },
        }
        i = i + 1;
    }
    proof {
        assert(lines.deep_view().subrange(1, i as int) =~= lines.deep_view().subrange(
            1,
            n as int,
        ));
    }
    Ok(out)
}

} // verus!
