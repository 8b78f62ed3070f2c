//! The harness's three modes, parsed once up front.
use vstd::prelude::*;

use crate::text::{
    chars_of, debug_form, debug_str, plain_text, push_all, push_str, str_eq, string_of,
};

verus! {

/// The modes the harness understands. The enum is closed, so a dispatch on
/// it is exhaustive.
#[derive(Debug, Clone, Copy, PartialEq, Eq)]
pub enum Mode {
    Run,
    Accept,
    Audit,
}

/// An argument that names no mode.
#[derive(Debug)]
pub struct UnknownMode {
    pub raw: String,
}

impl UnknownMode {
    /// The message shown for the unrecognized argument: it names the
    /// argument and lists the valid modes.
    pub fn message(&self) -> (m: String)
        ensures
            m@ == "unrecognized mode "@ + debug_form(self.raw@)
                + " \u{2014} expected one of: run, accept, audit"@,
            plain_text(self.raw@) ==> m@ == "unrecognized mode "@ + seq!['"'] + self.raw@ + seq!['"']
                + " \u{2014} expected one of: run, accept, audit"@,
    {
        let mut out = chars_of("unrecognized mode ");
        let q = debug_str(self.raw.as_str());
        let qc = chars_of(q.as_str());
        push_all(&mut out, qc.as_slice());
        push_str(&mut out, " \u{2014} expected one of: run, accept, audit");
        string_of(out.as_slice())
    }
}

pub open spec fn mode_spec(raw: Seq<char>) -> Option<Mode> {
    if raw == "run"@ {
        Some(Mode::Run)
    } else if raw == "accept"@ {
        Some(Mode::Accept)
    } else if raw == "audit"@ {
        Some(Mode::Audit)
    } else {
        None
    }
}

/// Parse the raw mode argument.
pub fn parse_mode(raw: &str) -> (r: Result<Mode, UnknownMode>)
    ensures
        match r {
            Ok(m) => mode_spec(raw@) == Some(m),
            Err(e) => mode_spec(raw@) is None && e.raw@ == raw@,
        },
{
    if str_eq(raw, "run") {
        Ok(Mode::Run)
    } else if str_eq(raw, "accept") {
        Ok(Mode::Accept)
    } else if str_eq(raw, "audit") {
        Ok(Mode::Audit)
    } else {
        Err(UnknownMode { raw: raw.to_owned() })
    }
}

/// The harness has exactly three modes, each named by its own word.
pub proof fn lemma_three_modes(raw: Seq<char>)
    ensures
        mode_spec(raw) is Some <==> (raw == "run"@ || raw == "accept"@ || raw == "audit"@),
        mode_spec(raw) == Some(Mode::Run) ==> raw == "run"@,
        mode_spec(raw) == Some(Mode::Accept) ==> raw == "accept"@,
        mode_spec(raw) == Some(Mode::Audit) ==> raw == "audit"@,
        raw == "run"@ ==> mode_spec(raw) == Some(Mode::Run),
{
}

} // verus!
