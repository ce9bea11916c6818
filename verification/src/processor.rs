//! The byte-grained splitter: drives the bracket stack and the string guard
//! over one character at a time. Exact — brackets inside string literals are
//! treated as ordinary text — at the cost of one decision per character.

use vstd::prelude::*;

use crate::brackets::{
    is_closing_bracket, is_opening_bracket, spec_is_closing_bracket, spec_is_opening_bracket,
    spec_pairs_with, BracketStack,
};
use crate::errors::SplitError;
use crate::json_object::JSONLString;
use crate::text::spec_render;

verus! {

/// The abstract state of the byte splitter: the open brackets, the raw text
/// of the element being assembled, and the two string-guard latches.
pub struct ByteState {
    /// The opening brackets currently open, oldest first.
    pub stack: Seq<char>,
    /// The raw text buffered for the element currently being built.
    pub buf: Seq<char>,
    /// Whether the scanner stands inside a string literal.
    pub inside_string: bool,
    /// Whether the previous character was an unescaped backslash.
    pub last_char_escape: bool,
}

/// The outcome of one successful step of the byte splitter: the state after
/// the character, and the raw (not yet normalized) text of the element that
/// the character completed, if it completed one.
pub struct ByteOutcome {
    pub state: ByteState,
    pub emitted: Option<Seq<char>>,
}

/// One step of the byte splitter on character `c`, in priority order: a quote
/// is buffered and toggles the string guard unless escaped; outside a string
/// literal an opening bracket is pushed and a closing bracket pops its
/// counterpart, emitting the buffer when depth returns to the outermost
/// array; everything else — including brackets inside a string literal — is
/// ordinary text. `None` is the fatal bracket-mismatch outcome. The escape
/// latch becomes true exactly when `c` is a backslash that is not itself
/// escaped.
pub open spec fn spec_byte_step(s: ByteState, c: char) -> Option<ByteOutcome> {
    if c == '"' {
        Some(
            ByteOutcome {
                state: ByteState {
                    stack: s.stack,
                    buf: s.buf.push(c),
                    inside_string: if !s.last_char_escape {
                        !s.inside_string
                    } else {
                        s.inside_string
                    },
                    last_char_escape: false,
                },
                emitted: None,
            },
        )
    } else if !s.inside_string && spec_is_opening_bracket(c) {
        Some(
            ByteOutcome {
                state: ByteState {
                    stack: s.stack.push(c),
                    buf: s.buf.push(c),
                    inside_string: s.inside_string,
                    last_char_escape: false,
                },
                emitted: None,
            },
        )
    } else if !s.inside_string && spec_is_closing_bracket(c) {
        if s.stack.len() > 0 && spec_pairs_with(s.stack.last(), c) {
            if s.stack.drop_last().len() == 1 {
                Some(
                    ByteOutcome {
                        state: ByteState {
                            stack: s.stack.drop_last(),
                            buf: Seq::<char>::empty(),
                            inside_string: s.inside_string,
                            last_char_escape: false,
                        },
                        emitted: Some(s.buf.push(c)),
                    },
                )
            } else {
                Some(
                    ByteOutcome {
                        state: ByteState {
                            stack: s.stack.drop_last(),
                            buf: s.buf.push(c),
                            inside_string: s.inside_string,
                            last_char_escape: false,
                        },
                        emitted: None,
                    },
                )
            }
        } else {
            None
        }
    } else {
        Some(
            ByteOutcome {
                state: ByteState {
                    stack: s.stack,
                    buf: s.buf.push(c),
                    inside_string: s.inside_string,
                    last_char_escape: c == '\\' && !s.last_char_escape,
                },
                emitted: None,
            },
        )
    }
}

/// The byte-grained splitter. It owns the bracket stack, the element buffer
/// and the string guard (the two boolean latches).
pub struct Processor {
    pub bracket_stack: BracketStack,
    pub jsonl_string: JSONLString,
    inside_string: bool,
    last_char_escape: bool,
}

impl View for Processor {
    type V = ByteState;

    closed spec fn view(&self) -> ByteState {
        ByteState {
            stack: self.bracket_stack@,
            buf: self.jsonl_string@,
            inside_string: self.inside_string,
            last_char_escape: self.last_char_escape,
        }
    }
}

impl Processor {
    /// A fresh splitter: nothing open, nothing buffered, outside any string.
    pub fn new() -> (r: Processor)
        ensures
            r@ == (ByteState {
                stack: Seq::<char>::empty(),
                buf: Seq::<char>::empty(),
                inside_string: false,
                last_char_escape: false,
            }),
    {
        Processor {
            bracket_stack: BracketStack::new(),
            jsonl_string: JSONLString::new(),
            inside_string: false,
            last_char_escape: false,
        }
    }

    /// Whether the scanner currently stands inside a string literal.
    pub fn is_inside_string(&self) -> (r: bool)
        ensures
            r == self@.inside_string,
    {
        self.inside_string
    }

    /// Whether the previous character was an unescaped backslash.
    pub fn is_last_char_escape(&self) -> (r: bool)
        ensures
            r == self@.last_char_escape,
    {
        self.last_char_escape
    }

    /// Records a bracket as open without buffering it; used to seed the
    /// tracker with the outermost `[` of the document.
    pub fn push_bracket(&mut self, byte: &char)
        ensures
            final(self)@ == (ByteState { stack: old(self)@.stack.push(*byte), ..old(self)@ }),
    {
        self.bracket_stack.push(byte);
    }

    /// Processes one character, per `spec_byte_step`. Returns the normalized
    /// text of the element that the character completed, if it completed
    /// one, and the fatal bracket-mismatch error exactly when the step has
    /// no successful outcome; the splitter is then left unchanged.
    pub fn process_char(&mut self, byte: &char) -> (r: Result<Option<String>, SplitError>)
        ensures
            r is Ok <==> spec_byte_step(old(self)@, *byte) is Some,
            r matches Ok(em) ==> {
                let outcome = spec_byte_step(old(self)@, *byte)->0;
                &&& final(self)@ == outcome.state
                &&& match outcome.emitted {
                    Some(raw) => em matches Some(line) && line@ == spec_render(raw),
                    None => em is None,
                }
            },
            r matches Err(e) ==> {
                &&& final(self)@ == old(self)@
                &&& e == (SplitError::BracketMismatch { closing: *byte })
            },
    {
        let r = if *byte == '"' {
            self.process_quote(byte);
            Ok(None)
        } else if !self.inside_string && is_opening_bracket(byte) {
            self.process_opening_bracket(byte);
            Ok(None)
        } else if !self.inside_string && is_closing_bracket(byte) {
            match self.process_closing_bracket(byte) {
                Ok(em) => Ok(em),
                Err(e) => {
                    return Err(e);
                },
            }
        } else {
            self.process_other_char(byte);
            Ok(None)
        };
        self.last_char_escape = *byte == '\\' && !self.last_char_escape;
        r
    }

    /// Buffers a quote character and toggles the inside-string latch, unless
    /// the previous character was an unescaped backslash.
    pub fn process_quote(&mut self, byte: &char)
        ensures
            final(self)@.buf == old(self)@.buf.push(*byte),
            final(self)@.stack == old(self)@.stack,
            final(self)@.last_char_escape == old(self)@.last_char_escape,
            final(self)@.inside_string == (if !old(self)@.last_char_escape {
                !old(self)@.inside_string
            } else {
                old(self)@.inside_string
            }),
    {
        self.jsonl_string.push_char(byte);
        if !self.last_char_escape {
            self.inside_string = !self.inside_string;
        }
    }

    /// Buffers an opening bracket and records it as open.
    pub fn process_opening_bracket(&mut self, byte: &char)
        ensures
            final(self)@ == (ByteState {
                stack: old(self)@.stack.push(*byte),
                buf: old(self)@.buf.push(*byte),
                ..old(self)@
            }),
    {
        self.bracket_stack.push(byte);
        self.jsonl_string.push_char(byte);
    }

    /// Pops the matching opening bracket and buffers the closing one. When
    /// depth thereby returns to 1 — only the outermost array remains open —
    /// the buffer is rendered, returned and cleared. Fails with the fatal
    /// bracket-mismatch error, leaving the splitter unchanged, exactly when
    /// nothing is open or the top of the stack does not pair with `byte`.
    pub fn process_closing_bracket(&mut self, byte: &char) -> (r: Result<
        Option<String>,
        SplitError,
    >)
        ensures
            r is Ok <==> (old(self)@.stack.len() > 0 && spec_pairs_with(
                old(self)@.stack.last(),
                *byte,
            )),
            r matches Ok(em) ==> {
                &&& final(self)@.stack == old(self)@.stack.drop_last()
                &&& final(self)@.inside_string == old(self)@.inside_string
                &&& final(self)@.last_char_escape == old(self)@.last_char_escape
                &&& if old(self)@.stack.drop_last().len() == 1 {
                    &&& em matches Some(line) && line@ == spec_render(old(self)@.buf.push(*byte))
                    &&& final(self)@.buf == Seq::<char>::empty()
                } else {
                    &&& em is None
                    &&& final(self)@.buf == old(self)@.buf.push(*byte)
                }
            },
            r matches Err(e) ==> {
                &&& final(self)@ == old(self)@
                &&& e == (SplitError::BracketMismatch { closing: *byte })
            },
    {
        match self.bracket_stack.pop_pair(byte) {
            Some(_) => {},
            None => {
                return Err(SplitError::BracketMismatch { closing: *byte });
            },
        }
        self.jsonl_string.push_char(byte);
        if self.should_print() {
            let line = self.jsonl_string.to_string();
            self.jsonl_string.clear();
            Ok(Some(line))
        } else {
            Ok(None)
        }
    }

    /// Buffers a character that is neither a structural bracket nor a quote.
    pub fn process_other_char(&mut self, byte: &char)
        ensures
            final(self)@ == (ByteState { buf: old(self)@.buf.push(*byte), ..old(self)@ }),
    {
        self.jsonl_string.push_char(byte);
    }

    /// Whether the element buffer is ready for emission: only the outermost
    /// array bracket remains open.
    pub fn should_print(&self) -> (r: bool)
        ensures
            r == (self@.stack.len() == 1),
    {
        self.bracket_stack.len() == 1
    }
}

/// The state of a byte splitter just seeded with the outermost `[` of the
/// document.
pub open spec fn spec_byte_seed() -> ByteState {
    ByteState {
        stack: seq!['['],
        buf: Seq::<char>::empty(),
        inside_string: false,
        last_char_escape: false,
    }
}

/// The byte splitter run over a whole character sequence: the final state
/// and the raw texts of the elements emitted along the way, in order; `None`
/// as soon as one step fails.
pub open spec fn spec_byte_run(s: ByteState, input: Seq<char>) -> Option<
    (ByteState, Seq<Seq<char>>),
>
    decreases input.len(),
{
    if input.len() == 0 {
        Some((s, Seq::<Seq<char>>::empty()))
    } else {
        match spec_byte_step(s, input[0]) {
            None => None,
            Some(outcome) => match spec_byte_run(
                outcome.state,
                input.subrange(1, input.len() as int),
            ) {
                None => None,
                Some(rest) => Some(
                    (
                        rest.0,
                        match outcome.emitted {
                            Some(raw) => seq![raw] + rest.1,
                            None => rest.1,
                        },
                    ),
                ),
            },
        }
    }
}

/// The concatenation of a sequence of texts, in order.
pub open spec fn concat_texts(ss: Seq<Seq<char>>) -> Seq<char>
    decreases ss.len(),
{
    if ss.len() == 0 {
        Seq::<char>::empty()
    } else {
        ss[0] + concat_texts(ss.subrange(1, ss.len() as int))
    }
}

/// Splitting a run into a first part and a second part composes: the second
/// part continues from the first part's final state, and the emissions are
/// those of the first part followed by those of the second.
pub proof fn lemma_byte_run_app(s: ByteState, a: Seq<char>, b: Seq<char>)
    ensures
        spec_byte_run(s, a + b) == (match spec_byte_run(s, a) {
            None => None::<(ByteState, Seq<Seq<char>>)>,
            Some(ra) => match spec_byte_run(ra.0, b) {
                None => None::<(ByteState, Seq<Seq<char>>)>,
                Some(rb) => Some((rb.0, ra.1 + rb.1)),
            },
        }),
    decreases a.len(),
{
    if a.len() == 0 {
        assert(a + b =~= b);
        match spec_byte_run(s, b) {
            None => {},
            Some(rb) => {
                assert(Seq::<Seq<char>>::empty() + rb.1 =~= rb.1);
            },
        }
    } else {
        assert((a + b)[0] == a[0]);
        match spec_byte_step(s, a[0]) {
            None => {},
            Some(outcome) => {
                assert((a + b).subrange(1, (a + b).len() as int) =~= a.subrange(
                    1,
                    a.len() as int,
                ) + b);
                lemma_byte_run_app(outcome.state, a.subrange(1, a.len() as int), b);
                match spec_byte_run(outcome.state, a.subrange(1, a.len() as int)) {
                    None => {},
                    Some(ra1) => {
                        match spec_byte_run(ra1.0, b) {
                            None => {},
                            Some(rb) => {
                                match outcome.emitted {
                                    Some(raw) => {
                                        assert(seq![raw] + (ra1.1 + rb.1) =~= (seq![raw] + ra1.1)
                                            + rb.1);
                                    },
                                    None => {},
                                }
                            },
                        }
                    },
                }
            },
        }
    }
}

/// A run over a single character is one step of the splitter.
pub proof fn lemma_byte_run_one(s: ByteState, c: char)
    ensures
        spec_byte_run(s, seq![c]) == (match spec_byte_step(s, c) {
            None => None::<(ByteState, Seq<Seq<char>>)>,
            Some(o) => Some(
                (
                    o.state,
                    match o.emitted {
                        Some(raw) => seq![raw],
                        None => Seq::<Seq<char>>::empty(),
                    },
                ),
            ),
        }),
{
    assert(seq![c][0] == c);
    assert(seq![c].subrange(1, 1) =~= Seq::<char>::empty());
    match spec_byte_step(s, c) {
        None => {},
        Some(o) => {
            assert(spec_byte_run(o.state, Seq::<char>::empty()) == Some(
                (o.state, Seq::<Seq<char>>::empty()),
            ));
            match o.emitted {
                Some(raw) => {
                    assert(seq![raw] + Seq::<Seq<char>>::empty() =~= seq![raw]);
                },
                None => {},
            }
        },
    }
}

/// A step of the byte splitter fails — deterministically — exactly when a
/// structural closing bracket arrives while nothing is open or while the
/// most recently opened bracket is not its counterpart. A successful step
/// never shrinks the stack by more than the one popped bracket, so the
/// depth, a natural number to begin with, never has to cross zero.
pub proof fn lemma_byte_step_failure(s: ByteState, c: char)
    ensures
        spec_byte_step(s, c) is None <==> (!s.inside_string && spec_is_closing_bracket(c) && (
        s.stack.len() == 0 || !spec_pairs_with(s.stack.last(), c))),
        spec_byte_step(s, c) matches Some(o) ==> o.state.stack.len() + 1 >= s.stack.len(),
{
}

/// Round-trip of the byte splitter: every input character lands, in order,
/// in exactly one emitted raw element or in the final buffer. The emitted
/// raw elements — each still carrying its original separator commas —
/// concatenated with what remains buffered reconstruct the starting buffer
/// followed by the input, exactly.
pub proof fn lemma_byte_run_preserves_text(s: ByteState, input: Seq<char>)
    requires
        spec_byte_run(s, input) is Some,
    ensures
        ({
            let rr = spec_byte_run(s, input)->0;
            concat_texts(rr.1) + rr.0.buf == s.buf + input
        }),
    decreases input.len(),
{
    if input.len() == 0 {
        assert(concat_texts(Seq::<Seq<char>>::empty()) + s.buf =~= s.buf + input);
    } else {
        let c = input[0];
        let outcome = spec_byte_step(s, c)->0;
        let rest = input.subrange(1, input.len() as int);
        lemma_byte_run_preserves_text(outcome.state, rest);
        let rr = spec_byte_run(outcome.state, rest)->0;
        match outcome.emitted {
            Some(raw) => {
                assert(raw == s.buf.push(c));
                assert(outcome.state.buf == Seq::<char>::empty());
                let full = seq![raw] + rr.1;
                assert(full.subrange(1, full.len() as int) =~= rr.1);
                assert(concat_texts(full) == raw + concat_texts(rr.1));
                assert(concat_texts(rr.1) + rr.0.buf == outcome.state.buf + rest);
                assert(raw + (concat_texts(rr.1) + rr.0.buf) =~= (raw + concat_texts(rr.1))
                    + rr.0.buf);
                assert(raw + (outcome.state.buf + rest) =~= s.buf + input);
            },
            None => {
                assert(outcome.state.buf == s.buf.push(c));
                assert(concat_texts(rr.1) + rr.0.buf == outcome.state.buf + rest);
                assert(s.buf.push(c) + rest =~= s.buf + input);
            },
        }
    }
}

/// Round-trip of a whole byte-mode run: for a document that opens with `[`
/// and splits without error, the emitted raw elements — separator commas
/// still in place — enclosed again in the outermost brackets (the seeding
/// `[` and whatever closing text remains buffered, normally `]`) reconstruct
/// the document exactly.
pub proof fn lemma_byte_mode_round_trip(doc: Seq<char>)
    requires
        doc.len() > 0,
        doc[0] == '[',
        spec_byte_run(spec_byte_seed(), doc.subrange(1, doc.len() as int)) is Some,
    ensures
        ({
            let rr = spec_byte_run(spec_byte_seed(), doc.subrange(1, doc.len() as int))->0;
            seq!['['] + concat_texts(rr.1) + rr.0.buf == doc
        }),
{
    let rest = doc.subrange(1, doc.len() as int);
    let rr = spec_byte_run(spec_byte_seed(), rest)->0;
    lemma_byte_run_preserves_text(spec_byte_seed(), rest);
    assert(Seq::<char>::empty() + rest =~= rest);
    assert(seq!['['] + concat_texts(rr.1) + rr.0.buf =~= seq!['['] + (concat_texts(rr.1)
        + rr.0.buf));
    assert(seq!['['] + rest =~= doc);
}

/// Splits a whole document in byte mode: checks that it opens with `[`,
/// seeds the tracker with that bracket, then feeds every further character
/// to the splitter, collecting the normalized elements in order. Fails with
/// `InvalidFirstChar` exactly when the first character is not `[`, and with
/// the fatal bracket-mismatch error exactly when the run fails.
pub fn convert_bytes(doc: &str) -> (r: Result<Vec<String>, SplitError>)
    requires
        doc@.len() > 0,
    ensures
        doc@[0] != '[' ==> r == Err::<Vec<String>, SplitError>(
            SplitError::InvalidFirstChar { found: doc@[0] },
        ),
        doc@[0] == '[' ==> {
            let run = spec_byte_run(spec_byte_seed(), doc@.subrange(1, doc@.len() as int));
            match r {
                Ok(lines) => {
                    let texts = (run->0).1;
                    &&& run is Some
                    &&& lines@.len() == texts.len()
                    &&& forall|j: int|
                        0 <= j < texts.len() ==> (#[trigger] lines@[j])@ == spec_render(texts[j])
                },
                Err(e) => run is None && e matches SplitError::BracketMismatch { .. },
            }
        },
{
    let n = doc.unicode_len();
    let first = doc.get_char(0);
    if first != '[' {
        return Err(SplitError::InvalidFirstChar { found: first });
    }
    let mut p = Processor::new();
    p.push_bracket(&first);
    proof {
        assert(p@.stack =~= seq!['[']);
        assert(p@ == spec_byte_seed());
        assert(doc@.subrange(1, 1) =~= Seq::<char>::empty());
    }
    let mut lines: Vec<String> = Vec::new();
    let ghost mut emitted: Seq<Seq<char>> = Seq::<Seq<char>>::empty();
    let mut i: usize = 1;
    while i < n
        invariant
            1 <= i <= n,
            n == doc@.len(),
            doc@[0] == '[',
            spec_byte_run(spec_byte_seed(), doc@.subrange(1, i as int)) == Some((p@, emitted)),
            lines@.len() == emitted.len(),
            forall|j: int|
                0 <= j < emitted.len() ==> (#[trigger] lines@[j])@ == spec_render(emitted[j]),
        decreases n - i,
    {
        let c = doc.get_char(i);
        let ghost prefix = doc@.subrange(1, i as int);
        let ghost state0 = p@;
        let step_result = p.process_char(&c);
        proof {
            lemma_byte_run_app(spec_byte_seed(), prefix, seq![c]);
            lemma_byte_run_one(state0, c);
            assert(doc@.subrange(1, (i + 1) as int) =~= prefix + seq![c]);
        }
        match step_result {
            Ok(Some(line)) => {
                proof {
                    let outcome0 = spec_byte_step(state0, c)->0;
                    let raw = outcome0.emitted->0;
                    assert(emitted + seq![raw] =~= emitted.push(raw));
                    emitted = emitted.push(raw);
                }
                lines.push(line);
            },
            Ok(None) => {
                proof {
                    assert(emitted + Seq::<Seq<char>>::empty() =~= emitted);
                }
            },
            Err(e) => {
                proof {
                    assert(spec_byte_run(spec_byte_seed(), doc@.subrange(1, (i + 1) as int))
                        is None);
                    lemma_byte_run_app(
                        spec_byte_seed(),
                        doc@.subrange(1, (i + 1) as int),
                        doc@.subrange((i + 1) as int, n as int),
                    );
                    assert(doc@.subrange(1, (i + 1) as int) + doc@.subrange(
                        (i + 1) as int,
                        n as int,
                    ) =~= doc@.subrange(1, n as int));
                }
                return Err(e);
            },
        }
        i = i + 1;
    }
    proof {
        assert(doc@.subrange(1, i as int) =~= doc@.subrange(1, n as int));
    }
    Ok(lines)
}

} // verus!
