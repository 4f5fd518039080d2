//! The rules only add to the log, and what they add does not depend on what it holds.

use vstd::prelude::*;
use crate::tokenizer::char_ref::{CharRefStep, CharRefView, cr_eof, cr_step};
use crate::tokenizer::config::read_char;
use crate::tokenizer::interface::SinkEvent;
use crate::tokenizer::machine::Machine;
use crate::tokenizer::rules::{
    Group, group, on_attr_name, on_attr_value, on_char, on_comment, on_doctype, on_doctype_id,
    on_eof, on_raw_end, on_run, on_script, on_tag, on_text,
};
use crate::tokenizer::states::State;
use crate::util::str::lower;

verus! {

impl Machine {
    /// This machine, with nothing in its log.
    pub open spec fn unlogged(self) -> Machine {
        Machine { log: Seq::empty(), ..self }
    }

    /// This machine, with the events of `log` before those of its own.
    pub open spec fn logged(self, log: Seq<SinkEvent>) -> Machine {
        Machine { log: log + self.log, ..self }
    }
}

/// Adding an event to the end of the second of two logs.
pub broadcast proof fn lemma_add_push(l: Seq<SinkEvent>, s: Seq<SinkEvent>, e: SinkEvent)
    ensures
        #[trigger] (l + s.push(e)) == (l + s).push(e),
{
    assert(l + s.push(e) =~= (l + s).push(e));
}

/// Adding nothing to a log.
pub broadcast proof fn lemma_add_empty(l: Seq<SinkEvent>)
    ensures
        #[trigger] (l + Seq::<SinkEvent>::empty()) == l,
{
    assert(l + Seq::<SinkEvent>::empty() =~= l);
}

broadcast group group_logs {
    lemma_add_push,
    lemma_add_empty,
}

#[verifier::spinoff_prover]
#[verifier::rlimit(50)]
proof fn lemma_log_on_text(m: Machine, c: char, a: Option<State>)
    requires
        group(m.state) == Group::Text,
    ensures
        on_text(m, c) == on_text(m.unlogged(), c).logged(m.log),
{
    broadcast use group_logs;

}

#[verifier::spinoff_prover]
#[verifier::rlimit(50)]
proof fn lemma_log_on_tag(m: Machine, c: char, a: Option<State>)
    requires
        group(m.state) == Group::Tag,
    ensures
        on_tag(m, c, a) == on_tag(m.unlogged(), c, a).logged(m.log),
{
    broadcast use group_logs;

}

#[verifier::spinoff_prover]
#[verifier::rlimit(50)]
proof fn lemma_log_on_raw_end(m: Machine, c: char, a: Option<State>)
    requires
        group(m.state) == Group::RawEnd,
    ensures
        on_raw_end(m, c, a) == on_raw_end(m.unlogged(), c, a).logged(m.log),
{
    broadcast use group_logs;

}

#[verifier::spinoff_prover]
#[verifier::rlimit(50)]
proof fn lemma_log_on_script(m: Machine, c: char, a: Option<State>)
    requires
        group(m.state) == Group::Script,
    ensures
        on_script(m, c) == on_script(m.unlogged(), c).logged(m.log),
{
    broadcast use group_logs;

}

/// What emitting a tag does to the log.
#[verifier::spinoff_prover]
#[verifier::rlimit(50)]
proof fn lemma_log_emit_tag(m: Machine, log: Seq<SinkEvent>, s: State, a: Option<State>)
    ensures
        m.logged(log).emit_tag(s, a) == m.emit_tag(s, a).logged(log),
{
    broadcast use group_logs;

}

/// What beginning an attribute does to the log.
proof fn lemma_log_create_attr(m: Machine, log: Seq<SinkEvent>, c: char)
    ensures
        m.logged(log).create_attr(c) == m.create_attr(c).logged(log),
{
    broadcast use group_logs;

}

/// What reporting an error does to the log.
proof fn lemma_log_error(m: Machine, log: Seq<SinkEvent>)
    ensures
        m.logged(log).error() == m.error().logged(log),
{
    broadcast use group_logs;

}

#[verifier::spinoff_prover]
#[verifier::rlimit(50)]
proof fn lemma_log_on_attr_name(m: Machine, c: char, a: Option<State>)
    requires
        group(m.state) == Group::AttrName,
    ensures
        on_attr_name(m, c, a) == on_attr_name(m.unlogged(), c, a).logged(m.log),
{
    let u = m.unlogged();
    let l = m.log;
    assert(u.logged(l) == m) by {
        broadcast use group_logs;

    }
    lemma_log_error(u, l);
    if c == '>' {
        lemma_log_emit_tag(u, l, State::Data, a);
    } else {
        let d = if c == '\0' {
            '\u{fffd}'
        } else {
            lower(c)
        };
        lemma_log_create_attr(u, l, d);
        lemma_log_create_attr(u.error(), l, d);
    }
}

#[verifier::spinoff_prover]
#[verifier::rlimit(50)]
proof fn lemma_log_on_attr_value(m: Machine, c: char, a: Option<State>)
    requires
        group(m.state) == Group::AttrValue,
    ensures
        on_attr_value(m, c, a) == on_attr_value(m.unlogged(), c, a).logged(m.log),
{
    broadcast use group_logs;

}

#[verifier::spinoff_prover]
#[verifier::rlimit(50)]
proof fn lemma_log_on_comment(m: Machine, c: char, a: Option<State>)
    requires
        group(m.state) == Group::Comment,
    ensures
        on_comment(m, c) == on_comment(m.unlogged(), c).logged(m.log),
{
    broadcast use group_logs;

}

#[verifier::spinoff_prover]
#[verifier::rlimit(50)]
proof fn lemma_log_on_doctype(m: Machine, c: char, a: Option<State>)
    requires
        group(m.state) == Group::Doctype,
    ensures
        on_doctype(m, c) == on_doctype(m.unlogged(), c).logged(m.log),
{
    broadcast use group_logs;

}

#[verifier::spinoff_prover]
#[verifier::rlimit(50)]
proof fn lemma_log_on_doctype_id(m: Machine, c: char, a: Option<State>)
    requires
        group(m.state) == Group::DoctypeId,
    ensures
        on_doctype_id(m, c) == on_doctype_id(m.unlogged(), c).logged(m.log),
{
    broadcast use group_logs;

}

/// What a character does to the log.
pub proof fn lemma_log_on_char(m: Machine, c: char, a: Option<State>)
    ensures
        on_char(m, c, a) == on_char(m.unlogged(), c, a).logged(m.log),
{
    reveal(on_char);
    match group(m.state) {
        Group::Text => lemma_log_on_text(m, c, a),
        Group::Tag => lemma_log_on_tag(m, c, a),
        Group::RawEnd => lemma_log_on_raw_end(m, c, a),
        Group::Script => lemma_log_on_script(m, c, a),
        Group::AttrName => lemma_log_on_attr_name(m, c, a),
        Group::AttrValue => lemma_log_on_attr_value(m, c, a),
        Group::Comment => lemma_log_on_comment(m, c, a),
        Group::Doctype => lemma_log_on_doctype(m, c, a),
        Group::DoctypeId => lemma_log_on_doctype_id(m, c, a),
    }
}

/// What a run of characters does to the log.
pub proof fn lemma_log_on_run(m: Machine, s: Seq<char>)
    ensures
        on_run(m, s) == on_run(m.unlogged(), s).logged(m.log),
{
    broadcast use group_logs;

}

/// What reading a character does to the log.
pub proof fn lemma_log_read_char(m: Machine, c: char)
    ensures
        read_char(m, c).0 == read_char(m.unlogged(), c).0,
        read_char(m, c).1 == read_char(m.unlogged(), c).1.logged(m.log),
{
    broadcast use group_logs;

}

/// What the end of the input does to the log.
#[verifier::spinoff_prover]
#[verifier::rlimit(50)]
pub proof fn lemma_log_on_eof(m: Machine)
    ensures
        on_eof(m).0 == on_eof(m.unlogged()).0.logged(m.log),
        on_eof(m).1 == on_eof(m.unlogged()).1,
{
    broadcast use group_logs;

    reveal(on_eof);
}

/// What a look at the input does to the log.
#[verifier::spinoff_prover]
#[verifier::rlimit(50)]
pub proof fn lemma_log_cr_step(t: CharRefView, m: Machine, c: char)
    ensures
        ({
            let s = cr_step(t, m.unlogged(), c);
            cr_step(t, m, c) == (CharRefStep { m: s.m.logged(m.log), ..s })
        }),
{
    broadcast use group_logs;

}

/// What the end of the input does to the log, inside a character reference.
#[verifier::spinoff_prover]
#[verifier::rlimit(50)]
pub proof fn lemma_log_cr_eof(t: CharRefView, m: Machine)
    ensures
        ({
            let s = cr_eof(t, m.unlogged());
            cr_eof(t, m) == (CharRefStep { m: s.m.logged(m.log), ..s })
        }),
{
    broadcast use group_logs;

}

/// What putting the characters of a reference does to the log.
pub proof fn lemma_log_put_char_ref(m: Machine, chars: Seq<char>)
    ensures
        m.put_char_ref(chars) == m.unlogged().put_char_ref(chars).logged(m.log),
{
    broadcast use group_logs;

}

} // verus!
