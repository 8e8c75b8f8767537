//! Parser contexts and the per-context transition policies: for each context,
//! which command a lookahead character triggers and which context it targets.
use vstd::prelude::*;

verus! {

/// A parsing state; the engine keeps a stack of them.
#[derive(PartialEq, Eq, Structural, Copy, Clone, Debug)]
pub enum CssContext {
    Root,
    Selector,
    RuleSet,
    Key,
    Value,
    String,
    Absent,
}

/// What the engine does with the character it has just classified.
#[derive(PartialEq, Eq, Structural, Copy, Clone, Debug)]
pub enum CssCommand {
    /// Push the target context and run its begin action.
    Begin,
    /// Flush the buffer into a list of the current context and stay in it.
    Append,
    /// Pop the current context and run its end action.
    End,
    /// As `End`, then classify the same character again in the context below.
    EndKeepChar,
    /// Append the character to the buffer.
    Continue,
}

/// The outcome of classifying one character: a command and a target context.
#[derive(PartialEq, Eq, Structural, Copy, Clone, Debug)]
pub struct CssTestResult {
    pub command: CssCommand,
    pub context: CssContext,
}

pub open spec fn outcome(command: CssCommand, context: CssContext) -> CssTestResult {
    CssTestResult { command, context }
}

/// The four whitespace characters that a rule set absorbs between declarations.
pub open spec fn is_layout_char(c: char) -> bool {
    c == ' ' || c == '\n' || c == '\r' || c == '\t'
}

pub open spec fn root_test(c: char) -> CssTestResult {
    outcome(CssCommand::Begin, CssContext::Selector)
}

pub open spec fn selector_test(c: char) -> CssTestResult {
    if c == '{' {
        outcome(CssCommand::End, CssContext::Absent)
    } else if c == ',' {
        outcome(CssCommand::Append, CssContext::Selector)
    } else {
        outcome(CssCommand::Continue, CssContext::Selector)
    }
}

pub open spec fn rule_set_test(c: char) -> CssTestResult {
    if is_layout_char(c) {
        outcome(CssCommand::Continue, CssContext::RuleSet)
    } else if c == '}' {
        outcome(CssCommand::End, CssContext::Absent)
    } else {
        outcome(CssCommand::Begin, CssContext::Key)
    }
}

pub open spec fn key_test(c: char) -> CssTestResult {
    if c == ':' {
        outcome(CssCommand::End, CssContext::Absent)
    } else {
        outcome(CssCommand::Continue, CssContext::Key)
    }
}

pub open spec fn value_test(c: char) -> CssTestResult {
    if c == '"' || c == '\'' {
        outcome(CssCommand::Begin, CssContext::String)
    } else if c == ';' {
        outcome(CssCommand::End, CssContext::Absent)
    } else if c == '}' {
        outcome(CssCommand::EndKeepChar, CssContext::Absent)
    } else {
        outcome(CssCommand::Continue, CssContext::Value)
    }
}

/// A string ends at the quote character that opened it.
pub open spec fn string_test(c: char, quote: char) -> CssTestResult {
    if c == quote {
        outcome(CssCommand::End, CssContext::Absent)
    } else {
        outcome(CssCommand::Continue, CssContext::String)
    }
}

pub open spec fn none_test(c: char) -> CssTestResult {
    outcome(CssCommand::Continue, CssContext::Absent)
}

/// The transition table: the outcome of character `c` in `context`, where
/// `quote` is the character that opened the string being read, if any.
pub open spec fn transition(context: CssContext, c: char, quote: char) -> CssTestResult {
    match context {
        CssContext::Root => root_test(c),
        CssContext::Selector => selector_test(c),
        CssContext::RuleSet => rule_set_test(c),
        CssContext::Key => key_test(c),
        CssContext::Value => value_test(c),
        CssContext::String => string_test(c, quote),
        CssContext::Absent => none_test(c),
    }
}

/// Policy of the absent context, met only if the stack were empty.
pub struct CssNone {}

impl CssNone {
    pub fn new() -> (r: CssNone) {
        CssNone {  }
    }

    pub fn test(&self, c: char) -> (r: CssTestResult)
        ensures
            r == none_test(c),
    {
        CssTestResult { command: CssCommand::Continue, context: CssContext::Absent }
    }
}

/// Policy while reading selectors.
pub struct CssSelector {}

impl CssSelector {
    pub fn new() -> (r: CssSelector) {
        CssSelector {  }
    }

    pub fn test(&self, c: char) -> (r: CssTestResult)
        ensures
            r == selector_test(c),
    {
        match c {
            '{' => CssTestResult { command: CssCommand::End, context: CssContext::Absent },
            ',' => CssTestResult { command: CssCommand::Append, context: CssContext::Selector },
            _ => CssTestResult { command: CssCommand::Continue, context: CssContext::Selector },
        }
    }
}

/// Policy while reading a declaration's key.
pub struct CssKey {}

impl CssKey {
    pub fn new() -> (r: CssKey) {
        CssKey {  }
    }

    pub fn test(&self, c: char) -> (r: CssTestResult)
        ensures
            r == key_test(c),
    {
        match c {
            ':' => CssTestResult { command: CssCommand::End, context: CssContext::Absent },
            _ => CssTestResult { command: CssCommand::Continue, context: CssContext::Key },
        }
    }
}

/// Policy while reading a declaration's value.
pub struct CssValue {}

impl CssValue {
    pub fn new() -> (r: CssValue) {
        CssValue {  }
    }

    pub fn test(&self, c: char) -> (r: CssTestResult)
        ensures
            r == value_test(c),
    {
        match c {
            '"' | '\'' => CssTestResult {
                command: CssCommand::Begin,
                context: CssContext::String,
            },
            ';' => CssTestResult { command: CssCommand::End, context: CssContext::Absent },
            '}' => CssTestResult { command: CssCommand::EndKeepChar, context: CssContext::Absent },
            _ => CssTestResult { command: CssCommand::Continue, context: CssContext::Value },
        }
    }
}

/// Policy inside a quoted string.
pub struct CssString {}

impl CssString {
    pub fn new() -> (r: CssString) {
        CssString {  }
    }

    pub fn test(&self, c: char, quote: char) -> (r: CssTestResult)
        ensures
            r == string_test(c, quote),
    {
        if c == quote {
            CssTestResult { command: CssCommand::End, context: CssContext::Absent }
        } else {
            CssTestResult { command: CssCommand::Continue, context: CssContext::String }
        }
    }
}

} // verus!
