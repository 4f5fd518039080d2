//! Configurations of the tokenizer: the abstract machine together with its input,
//! and the steps from one configuration to the next.

use vstd::prelude::*;
use crate::tokenizer::buffer_queue::{
    SetResultView, drop_chars, drop_from_front, joined, no_empty, outside_len, put_back, put_front,
};
use crate::tokenizer::char_ref::{CharRefStep, cr_step};
use crate::tokenizer::TokenizerOpts;
use crate::tokenizer::entities::named;
use crate::tokenizer::interface::{SinkEvent, TagKind, distinct_attrs, empty_doctype, opt_text};
use crate::tokenizer::machine::{Machine, takes_char_ref};
use crate::tokenizer::rules::{on_char, on_run, run_stops, takes_runs};
use crate::tokenizer::states::{AttrValueKind, DoctypeIdKind, State};
use crate::util::str::{is_letter, lower_text};

verus! {

/// A configuration.
#[verifier::ext_equal]
pub struct Config {
    pub m: Machine,
    /// The input that is still to be read, in the pieces in which it came.
    pub input: Seq<Seq<char>>,
    /// Nothing can be done before there are so many characters.
    pub wait_for: Option<nat>,
    /// No more input will come.
    pub at_eof: bool,
    /// Nothing has been fed yet, and a byte order mark is to be discarded.
    pub bom: bool,
}

/// A character that is reported when errors are exact.
pub open spec fn is_bad_char(c: char) -> bool {
    let n = c as u32;
    0x01 <= n <= 0x08 || n == 0x0B || 0x0E <= n <= 0x1F || 0x7F <= n <= 0x9F || 0xFDD0 <= n
        <= 0xFDEF || n & 0xFFFE == 0xFFFE
}

/// What becomes of a character that was taken from the input, once a line feed that
/// belongs to the carriage return before it has been passed over.
pub open spec fn read_char(m: Machine, c: char) -> (char, Machine) {
    let d = if c == '\r' {
        '\n'
    } else {
        c
    };
    let m = Machine { ignore_lf: c == '\r', ..m };
    let m = if m.exact && is_bad_char(d) {
        m.error_text("Bad character "@ + crate::tokenizer::machine::char_debug_text(d))
    } else {
        m
    };
    (d, m.saw(d))
}

impl Config {
    /// This configuration with another machine.
    pub open spec fn with(self, m: Machine) -> Config {
        Config { m, ..self }
    }

    /// The input, without its first character.
    pub open spec fn skip_one(self) -> Config {
        Config { input: drop_from_front(self.input, 1), ..self }
    }

    /// Process `c`, which was just taken from the input.
    pub open spec fn preprocess(self, c: char) -> (Option<char>, Config) {
        if self.m.ignore_lf && c == '\n' {
            let cfg = Config { m: Machine { ignore_lf: false, ..self.m }, ..self };
            if cfg.input.len() == 0 {
                (None, cfg)
            } else {
                let (d, m) = read_char(cfg.m, cfg.input[0][0]);
                (Some(d), Config { m, ..cfg.skip_one() })
            }
        } else {
            let (d, m) = read_char(self.m, c);
            (Some(d), Config { m, ..self })
        }
    }

    /// Read a character.
    pub open spec fn read(self) -> (Option<char>, Config) {
        match self.m.pending {
            Some(c) => (Some(c), Config { m: Machine { pending: None, ..self.m }, ..self }),
            None => if self.input.len() == 0 {
                (None, self)
            } else {
                self.skip_one().preprocess(self.input[0][0])
            },
        }
    }

    /// Read a character, or a run of characters outside of `set`.
    pub open spec fn read_run(self, set: Set<char>) -> (Option<SetResultView>, Config) {
        if self.m.exact || self.m.pending is Some || self.m.ignore_lf {
            let (c, cfg) = self.read();
            match c {
                Some(c) => (Some(SetResultView::FromSet(c)), cfg),
                None => (None, cfg),
            }
        } else if self.input.len() == 0 {
            (None, self)
        } else {
            let n = outside_len(self.input[0], set);
            if n == 0 {
                let (c, cfg) = self.skip_one().preprocess(self.input[0][0]);
                match c {
                    Some(c) => (Some(SetResultView::FromSet(c)), cfg),
                    None => (None, cfg),
                }
            } else {
                (
                    Some(SetResultView::NotFromSet(self.input[0].take(n as int))),
                    Config { input: drop_from_front(self.input, n as int), ..self },
                )
            }
        }
    }

    /// Look for `pat` in the input, and take it if it is there. Nothing if more input
    /// is needed to tell. With `fold`, letters match without regard to case.
    pub open spec fn lookahead(self, pat: Seq<char>, fold: bool) -> (Option<bool>, Config) {
        let n = pat.len();
        let all = joined(self.input);
        if all.len() < n {
            if self.at_eof {
                (Some(false), self)
            } else {
                (None, Config { wait_for: Some(n), ..self })
            }
        } else {
            let s = all.take(n as int);
            let rest = drop_chars(self.input, n);
            if if fold {
                lower_text(s) == lower_text(pat)
            } else {
                s == pat
            } {
                (Some(true), Config { input: rest, ..self })
            } else {
                (Some(false), Config { input: put_front(rest, s), ..self })
            }
        }
    }

    /// After the name of a doctype.
    pub open spec fn step_after_doctype_name(self, answer: Option<State>) -> (Config, bool) {
        let (r, cfg) = self.lookahead("public"@, true);
        match r {
            None => (cfg, true),
            Some(true) => (
                Config {
                    m: cfg.m.to(State::AfterDoctypeKeyword(DoctypeIdKind::Public)),
                    ..cfg
                },
                true,
            ),
            Some(false) => {
                let (r, cfg) = cfg.lookahead("system"@, true);
                match r {
                    None => (cfg, true),
                    Some(true) => (
                        Config {
                            m: cfg.m.to(State::AfterDoctypeKeyword(DoctypeIdKind::System)),
                            ..cfg
                        },
                        true,
                    ),
                    Some(false) => cfg.step_char(answer),
                }
            },
        }
    }

    /// After `<!`.
    pub open spec fn step_markup_declaration_open(self) -> (Config, bool) {
        let (r, cfg) = self.lookahead("--"@, false);
        match r {
            None => (cfg, true),
            Some(true) => (
                Config { m: cfg.m.clear_comment().to(State::CommentStart), ..cfg },
                true,
            ),
            Some(false) => {
                let (r, cfg) = cfg.lookahead("doctype"@, true);
                match r {
                    None => (cfg, true),
                    Some(true) => (Config { m: cfg.m.to(State::Doctype), ..cfg }, true),
                    Some(false) => (
                        Config { m: cfg.m.error().to(State::BogusComment), ..cfg },
                        true,
                    ),
                }
            },
        }
    }

    /// Read one character, and do what it does.
    pub open spec fn step_char(self, answer: Option<State>) -> (Config, bool) {
        let (c, cfg) = self.read();
        match c {
            None => (cfg, false),
            Some(c) => (Config { m: on_char(cfg.m, c, answer), ..cfg }, true),
        }
    }

    /// Read one character or one run, and do what it does.
    pub open spec fn step_run(self, answer: Option<State>) -> (Config, bool) {
        let (r, cfg) = self.read_run(run_stops(self.m.state));
        match r {
            None => (cfg, false),
            Some(SetResultView::FromSet(c)) => (
                Config { m: on_char(cfg.m, c, answer), ..cfg },
                true,
            ),
            Some(SetResultView::NotFromSet(s)) => (Config { m: on_run(cfg.m, s), ..cfg }, true),
        }
    }

    /// What a look at the input, or at its end, does to everything but the character
    /// reference.
    pub open spec fn after_look(self, s: CharRefStep) -> Config {
        let input = put_front(
            if s.eat {
                drop_from_front(self.input, 1)
            } else {
                self.input
            },
            s.back,
        );
        Config { m: s.m, input, ..self }
    }

    /// Do what a look at the input, or at its end, does to the character reference.
    pub open spec fn apply_char_ref(self, s: CharRefStep) -> Config {
        let cfg = self.after_look(s);
        match s.result {
            Some(chars) => cfg.with(s.m.put_char_ref(chars)),
            None => cfg.with(Machine { char_ref: Some(s.t), ..s.m }),
        }
    }

    /// The machine without its character reference.
    pub open spec fn without_char_ref(self) -> Machine {
        Machine { char_ref: None, ..self.m }
    }

    /// One step inside a character reference.
    pub open spec fn step_char_ref(self) -> (Config, bool)
        recommends
            self.m.char_ref is Some,
    {
        if self.input.len() == 0 {
            (self, false)
        } else {
            let s = cr_step(self.m.char_ref->0, self.without_char_ref(), self.input[0][0]);
            (self.apply_char_ref(s), true)
        }
    }

    /// Is there less input than the machine waits for?
    pub open spec fn stuck(self) -> bool {
        self.wait_for matches Some(n) && joined(self.input).len() < n
    }

    /// Read on: one character or one run, one look inside a character reference, or one
    /// look ahead. The second part of the result tells whether there may be more to do at
    /// once. `answer` is what the sink says if it is asked for a change of state.
    #[verifier::opaque]
    pub open spec fn advance(self, answer: Option<State>) -> (Config, bool) {
        if self.m.char_ref is Some {
            self.step_char_ref()
        } else if self.stuck() {
            (self, false)
        } else {
            let cfg = Config { wait_for: None, ..self };
            match cfg.m.state {
                State::AfterDoctypeName => cfg.step_after_doctype_name(answer),
                State::MarkupDeclarationOpen => cfg.step_markup_declaration_open(),
                s => if takes_runs(s) {
                    cfg.step_run(answer)
                } else {
                    cfg.step_char(answer)
                },
            }
        }
    }

    /// Input has been given, and none of it has been read. A byte order mark at the
    /// beginning of the stream is left out.
    pub open spec fn given(self, s: Seq<char>) -> Config {
        let text = if self.bom && s[0] == '\u{feff}' {
            s.drop_first()
        } else {
            s
        };
        Config { input: put_back(self.input, text), bom: false, ..self }
    }

    /// The invariant.
    pub open spec fn wf(self) -> bool {
        &&& no_empty(self.input)
        &&& self.m.wf()
        &&& self.m.settled()
        &&& !self.at_eof ==> self.m.char_ref_fits()
        &&& self.wait_for matches Some(n) ==> self.waits_for(n) && !self.at_eof
    }

    /// Is this a configuration in which `n` characters are needed to go on?
    pub open spec fn waits_for(self, n: nat) -> bool {
        let all = joined(self.input);
        match self.m.state {
            State::AfterDoctypeName => n == 6,
            State::MarkupDeclarationOpen => n == 2 || n == 7 && all.len() >= 2 && all.take(2)
                != "--"@,
            _ => false,
        }
    }
}

impl Machine {
    /// A character reference has an additional character that cannot begin it if and only
    /// if it stands in an attribute value.
    pub open spec fn char_ref_fits(self) -> bool {
        self.char_ref matches Some(t) ==> (t.addnl_allowed is Some
            <==> self.state is AttributeValue)
    }

    /// Between two steps, a carriage return cannot have been the last character read
    /// in an attribute value without quotes: it ends the value.
    pub open spec fn settled(self) -> bool {
        self.state == State::AttributeValue(AttrValueKind::Unquoted) ==> !self.ignore_lf
    }

    /// The invariant of the machine.
    pub open spec fn wf(self) -> bool {
        &&& self.state != State::CdataSection
        &&& distinct_attrs(self.attrs)
        &&& forall|i: int| 0 <= i < self.temp_buf.len() ==> is_letter(#[trigger] self.temp_buf[i])
        &&& !self.exact ==> self.seen == '\0'
        &&& self.exact && self.pending is Some ==> self.seen == self.pending->0
        &&& self.ignore_lf && self.pending is Some ==> self.pending == Some('\n')
        &&& self.char_ref matches Some(t) ==> t.wf() && takes_char_ref(self.state)
            && self.pending is None
    }
}

/// The configuration of a new tokenizer.
pub open spec fn initial(opts: TokenizerOpts, log: Seq<SinkEvent>) -> Config {
    Config {
        m: Machine {
            exact: opts.exact_errors,
            entities: named(),
            state: match opts.initial_state {
                Some(s) => s,
                None => State::Data,
            },
            pending: None,
            seen: '\0',
            ignore_lf: false,
            char_ref: None,
            tag_kind: TagKind::StartTag,
            tag_name: Seq::empty(),
            self_closing: false,
            attrs: Seq::empty(),
            attr_name: Seq::empty(),
            attr_value: Seq::empty(),
            comment: Seq::empty(),
            doctype: empty_doctype(),
            last_start_tag: opt_text(opts.last_start_tag_name),
            temp_buf: Seq::empty(),
            log,
        },
        input: Seq::empty(),
        wait_for: None,
        at_eof: false,
        bom: opts.discard_bom,
    }
}

/// The answer that the sink gave last, if a step ended with one.
pub open spec fn last_answer(log: Seq<SinkEvent>) -> Option<State> {
    if log.len() > 0 {
        match log.last() {
            SinkEvent::Asked(a) => a,
            _ => None,
        }
    } else {
        None
    }
}

} // verus!
