//! The parser as a mathematical state machine: its state, the effect of one
//! character, and the result at the end of the input.
use vstd::prelude::*;

use crate::context::{transition, CssCommand, CssContext};
use crate::document::{empty_rule, empty_rule_set, RuleModel, RuleSetModel};
use crate::text::trimmed;

verus! {

/// Why a text is not a complete document: the construct still open at its end.
#[derive(PartialEq, Eq, Structural, Copy, Clone, Debug)]
pub enum ParseError {
    /// Text after the last rule set that never reached its `{`.
    UnterminatedSelector,
    /// A rule set whose `}` never came.
    UnterminatedRuleSet,
    /// A key whose `:` never came.
    UnterminatedKey,
    /// A value with neither `;` nor `}` after it.
    UnterminatedValue,
    /// A quoted string whose closing quote never came.
    UnterminatedString,
}

/// The whole state of the parser.
pub struct ParserModel {
    /// Open contexts, innermost last.
    pub stack: Seq<CssContext>,
    /// Characters of the token being read.
    pub buffer: Seq<char>,
    /// The character being processed (the last one read).
    pub current: char,
    /// The quote character that opened the current string.
    pub quote: char,
    /// The declaration being read.
    pub rule: RuleModel,
    /// The rule set being read.
    pub rule_set: RuleSetModel,
    /// The rule sets completed so far.
    pub rule_sets: Seq<RuleSetModel>,
}

pub open spec fn initial() -> ParserModel {
    ParserModel {
        stack: seq![CssContext::Root],
        buffer: Seq::empty(),
        current: '\0',
        quote: '\0',
        rule: empty_rule(),
        rule_set: empty_rule_set(),
        rule_sets: Seq::empty(),
    }
}

/// The innermost open context; `Absent` when none is open.
pub open spec fn top(stack: Seq<CssContext>) -> CssContext {
    if stack.len() > 0 {
        stack.last()
    } else {
        CssContext::Absent
    }
}

pub open spec fn pushed(s: ParserModel, context: CssContext) -> ParserModel {
    ParserModel { stack: s.stack.push(context), ..s }
}

pub open spec fn popped(s: ParserModel) -> ParserModel {
    ParserModel {
        stack: if s.stack.len() > 0 {
            s.stack.drop_last()
        } else {
            s.stack
        },
        ..s
    }
}

pub open spec fn with_char(s: ParserModel) -> ParserModel {
    ParserModel { buffer: s.buffer.push(s.current), ..s }
}

/// What entering `context` does: a selector or key starts with the current
/// character; a string remembers its opening quote, which is not kept.
pub open spec fn on_begin(s: ParserModel, context: CssContext) -> ParserModel {
    match context {
        CssContext::Selector => with_char(s),
        CssContext::Key => with_char(s),
        CssContext::String => ParserModel { quote: s.current, ..s },
        _ => s,
    }
}

/// What a separator does in `context`: a selector is complete and another follows.
pub open spec fn on_append(s: ParserModel, context: CssContext) -> ParserModel {
    match context {
        CssContext::Selector => ParserModel {
            buffer: Seq::empty(),
            rule_set: RuleSetModel {
                selectors: s.rule_set.selectors.push(trimmed(s.buffer)),
                ..s.rule_set
            },
            ..s
        },
        _ => s,
    }
}

/// What leaving `context` does, once it is popped.
pub open spec fn on_end(s: ParserModel, context: CssContext) -> ParserModel {
    match context {
        CssContext::Selector => ParserModel {
            stack: s.stack.push(CssContext::RuleSet),
            buffer: Seq::empty(),
            rule_set: RuleSetModel {
                selectors: s.rule_set.selectors.push(trimmed(s.buffer)),
                ..s.rule_set
            },
            ..s
        },
        CssContext::RuleSet => ParserModel {
            rule_set: empty_rule_set(),
            rule_sets: s.rule_sets.push(s.rule_set),
            ..s
        },
        CssContext::Key => ParserModel {
            stack: s.stack.push(CssContext::Value),
            buffer: Seq::empty(),
            rule: RuleModel { key: trimmed(s.buffer), ..s.rule },
            ..s
        },
        CssContext::Value => ParserModel {
            buffer: Seq::empty(),
            rule: empty_rule(),
            rule_set: RuleSetModel {
                rules: s.rule_set.rules.push(RuleModel { value: trimmed(s.buffer), ..s.rule }),
                ..s.rule_set
            },
            ..s
        },
        _ => s,
    }
}

/// Classifies `s.current` in the innermost context and carries out the command;
/// `EndKeepChar` classifies the same character again in the context below.
pub open spec fn process(s: ParserModel) -> ParserModel
    decreases s.stack.len(),
{
    let context = top(s.stack);
    let t = transition(context, s.current, s.quote);
    match t.command {
        CssCommand::Continue => with_char(s),
        CssCommand::Begin => on_begin(pushed(s, t.context), t.context),
        CssCommand::Append => on_append(s, context),
        CssCommand::End => on_end(popped(s), context),
        CssCommand::EndKeepChar => process(on_end(popped(s), context)),
    }
}

/// The state after reading one more character.
pub open spec fn step(s: ParserModel, c: char) -> ParserModel {
    process(ParserModel { current: c, ..s })
}

/// The state after reading `text` from `s`.
pub open spec fn run(s: ParserModel, text: Seq<char>) -> ParserModel
    decreases text.len(),
{
    if text.len() == 0 {
        s
    } else {
        step(run(s, text.drop_last()), text.last())
    }
}

/// The result once the input has ended in state `s`: the document, or the
/// construct still open. Whitespace after the last rule set is no construct.
pub open spec fn finish(s: ParserModel) -> Result<Seq<RuleSetModel>, ParseError> {
    match top(s.stack) {
        CssContext::Selector => if s.rule_set.selectors.len() == 0 && trimmed(s.buffer).len()
            == 0 {
            Ok(s.rule_sets)
        } else {
            Err(ParseError::UnterminatedSelector)
        },
        CssContext::RuleSet => Err(ParseError::UnterminatedRuleSet),
        CssContext::Key => Err(ParseError::UnterminatedKey),
        CssContext::Value => Err(ParseError::UnterminatedValue),
        CssContext::String => Err(ParseError::UnterminatedString),
        _ => Ok(s.rule_sets),
    }
}

/// The result of parsing `text`.
pub open spec fn parse_text(text: Seq<char>) -> Result<Seq<RuleSetModel>, ParseError> {
    finish(run(initial(), text))
}

/// The nestings of contexts that parsing can reach.
pub open spec fn stack_ok(stack: Seq<CssContext>) -> bool {
    &&& stack.len() >= 1
    &&& stack[0] == CssContext::Root
    &&& stack.len() == 1 || (stack.len() == 2 && (stack[1] == CssContext::Selector || stack[1]
        == CssContext::RuleSet)) || (stack.len() == 3 && stack[1] == CssContext::RuleSet && (
    stack[2] == CssContext::Key || stack[2] == CssContext::Value)) || (stack.len() == 4
        && stack[1] == CssContext::RuleSet && stack[2] == CssContext::Value && stack[3]
        == CssContext::String)
}

pub open spec fn wf(s: ParserModel) -> bool {
    stack_ok(s.stack)
}

/// Reading a character keeps the nesting of contexts well formed.
pub proof fn lemma_process_wf(s: ParserModel)
    requires
        wf(s),
    ensures
        wf(process(s)),
    decreases s.stack.len(),
{
    let context = top(s.stack);
    let t = transition(context, s.current, s.quote);
    if t.command == CssCommand::EndKeepChar {
        lemma_process_wf(on_end(popped(s), context));
    }
}

} // verus!
