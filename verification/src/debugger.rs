//! The line-stepping debugger: its state and what its commands mean.

use vstd::prelude::*;
use crate::scan::{split_tokens, tokens, views};
use crate::table::{vars_model, Table};
use crate::text::{from_chars, to_chars};

verus! {

/// The debugger's state.
pub struct Debugger {
    /// Whether the run stops before each statement.
    pub enable: bool,
    /// Lines to stop at.
    pub breakpoints: Vec<usize>,
    /// The line last stopped at.
    pub current_line: usize,
}

impl Debugger {
    /// A debugger that is switched off, with no breakpoints, at line zero.
    pub fn new() -> (d: Self)
        ensures
            !d.enable,
            d.breakpoints@ == Seq::<usize>::empty(),
            d.current_line == 0,
    {
        Debugger { enable: false, breakpoints: Vec::new(), current_line: 0 }
    }
}

/// What a debugger command asks for.
#[derive(Debug, PartialEq, Eq)]
pub enum DebugReply {
    /// Go on to the next statement.
    Next,
    /// Switch stepping off and go on unattended.
    Continue,
    /// Show the variable of this name, which has this value.
    Show(String, String),
    /// Say that no variable of this name is bound.
    Unbound(String),
    /// Say how the print command is used.
    Usage,
    /// Show the list of commands.
    Unknown,
}

/// The model of a [`DebugReply`].
pub enum DebugReplyModel {
    Next,
    Continue,
    Show(Seq<char>, Seq<char>),
    Unbound(Seq<char>),
    Usage,
    Unknown,
}

impl View for DebugReply {
    type V = DebugReplyModel;

    open spec fn view(&self) -> DebugReplyModel {
        match self {
            DebugReply::Next => DebugReplyModel::Next,
            DebugReply::Continue => DebugReplyModel::Continue,
            DebugReply::Show(name, value) => DebugReplyModel::Show(name@, value@),
            DebugReply::Unbound(name) => DebugReplyModel::Unbound(name@),
            DebugReply::Usage => DebugReplyModel::Usage,
            DebugReply::Unknown => DebugReplyModel::Unknown,
        }
    }
}

/// What the command line `input` asks for, given the variables. The first
/// token selects the command: `n` goes on, `c` switches stepping off, `p`
/// shows the variable that the second token names. Anything else, an empty
/// line too, is unknown.
pub open spec fn command_spec(variables: Map<Seq<char>, Seq<char>>, input: Seq<char>)
    -> DebugReplyModel {
    let toks = tokens(input);
    if toks.len() == 0 {
        DebugReplyModel::Unknown
    } else if toks[0] == seq!['n'] {
        DebugReplyModel::Next
    } else if toks[0] == seq!['c'] {
        DebugReplyModel::Continue
    } else if toks[0] == seq!['p'] {
        if toks.len() < 2 {
            DebugReplyModel::Usage
        } else if variables.contains_key(toks[1]) {
            DebugReplyModel::Show(toks[1], variables[toks[1]])
        } else {
            DebugReplyModel::Unbound(toks[1])
        }
    } else {
        DebugReplyModel::Unknown
    }
}

/// Whether `t` is the single character `c`.
fn is_letter(t: &Vec<char>, c: char) -> (b: bool)
    ensures
        b == (t@ == seq![c]),
{
    if t.len() == 1 && t[0] == c {
        assert(t@ =~= seq![c]);
        true
    } else {
        assert(seq![c].len() == 1 && seq![c][0] == c);
        false
    }
}

impl Debugger {
    /// Carries out one command line. Only the command `c` changes the
    /// debugger: it switches stepping off. The variables are read, never
    /// changed.
    pub fn command(&mut self, variables: &Table<String>, input: &str) -> (r: DebugReply)
        requires
            variables.wf(),
        ensures
            r@ == command_spec(vars_model(*variables), input@),
            final(self).enable == (old(self).enable && !(r@ is Continue)),
            final(self).breakpoints == old(self).breakpoints,
            final(self).current_line == old(self).current_line,
    {
        let toks = split_tokens(&to_chars(input));
        if toks.len() == 0 {
            return DebugReply::Unknown;
        }
        assert(views(toks@)[0] == toks[0]@);
        if is_letter(&toks[0], 'n') {
            DebugReply::Next
        } else if is_letter(&toks[0], 'c') {
            self.enable = false;
            DebugReply::Continue
        } else if is_letter(&toks[0], 'p') {
            if toks.len() < 2 {
                return DebugReply::Usage;
            }
            assert(views(toks@)[1] == toks[1]@);
            let name = from_chars(&toks[1]);
            match variables.get(&name) {
                Some(v) => {
                    let value = v.clone();
                    DebugReply::Show(name, value)
                },
                None => DebugReply::Unbound(name),
            }
        } else {
            DebugReply::Unknown
        }
    }
}

} // verus!
