//! The parsing engine: a context stack, a character buffer and the document
//! under construction, driven one character at a time.
use vstd::prelude::*;

use crate::context::{
    transition, CssCommand, CssContext, CssKey, CssNone, CssSelector, CssString, CssTestResult,
    CssValue,
};
use crate::document::{CssRoot, CssRule, CssRuleSet, RuleModel, RuleSetModel};
use crate::model::{
    initial, on_append, on_begin, on_end, parse_text, popped, process, pushed,
    run, top, wf, ParseError, ParserModel,
};
use crate::text::{trim_chars, trimmed};

verus! {

/// The parser's state while it reads one text.
pub struct CssParser {
    stack: Vec<CssContext>,
    char_buffer: Vec<char>,
    current_char: char,
    quote: char,
    root: CssRoot,
    ruleset: CssRuleSet,
    rule: CssRule,
}

impl View for CssParser {
    type V = ParserModel;

    closed spec fn view(&self) -> ParserModel {
        ParserModel {
            stack: self.stack@,
            buffer: self.char_buffer@,
            current: self.current_char,
            quote: self.quote,
            rule: self.rule@,
            rule_set: self.ruleset@,
            rule_sets: self.root@,
        }
    }
}

impl CssParser {
    /// A parser in its initial state: only the floor context is open.
    pub fn new() -> (r: CssParser)
        ensures
            r@ == initial(),
            wf(r@),
    {
        let mut parser = CssParser {
            stack: Vec::new(),
            char_buffer: Vec::new(),
            current_char: '\0',
            quote: '\0',
            root: CssRoot::new(),
            ruleset: CssRuleSet::new(),
            rule: CssRule::new(),
        };
        parser.push_context(CssContext::Root);
        assert(parser@.stack =~= seq![CssContext::Root]);
        assert(parser@.buffer =~= Seq::<char>::empty());
        parser
    }

    pub fn push_context(&mut self, context: CssContext)
        ensures
            final(self)@ == pushed(old(self)@, context),
    {
        self.stack.push(context);
    }

    pub fn pop_context(&mut self)
        ensures
            final(self)@ == popped(old(self)@),
    {
        let _ = self.stack.pop();
    }

    /// Takes the buffered characters, trimmed, and empties the buffer.
    pub fn flush_char_buffer(&mut self) -> (r: String)
        ensures
            r@ == trimmed(old(self)@.buffer),
            final(self)@ == (ParserModel { buffer: Seq::empty(), ..old(self)@ }),
    {
        let val = trim_chars(&self.char_buffer);
        self.char_buffer.clear();
        val
    }

    pub fn push_char(&mut self, c: char)
        ensures
            final(self)@ == (ParserModel { buffer: old(self)@.buffer.push(c), ..old(self)@ }),
    {
        self.char_buffer.push(c);
    }

    /// Classifies `c` by the policy of `context`.
    pub fn get_css_for_context(&self, context: CssContext, c: char) -> (r: CssTestResult)
        ensures
            r == transition(context, c, self@.quote),
    {
        match context {
            CssContext::Root => self.root.test(c),
            CssContext::Selector => CssSelector::new().test(c),
            CssContext::RuleSet => self.ruleset.test(c),
            CssContext::Key => CssKey::new().test(c),
            CssContext::Value => CssValue::new().test(c),
            CssContext::String => CssString::new().test(c, self.quote),
            CssContext::Absent => CssNone::new().test(c),
        }
    }

    fn begin(&mut self, context: CssContext)
        ensures
            final(self)@ == on_begin(old(self)@, context),
    {
        match context {
            CssContext::Selector | CssContext::Key => {
                let c = self.current_char;
                self.push_char(c);
            },
            CssContext::String => {
                self.quote = self.current_char;
            },
            _ => {},
        }
    }

    fn append(&mut self, context: CssContext)
        ensures
            final(self)@ == on_append(old(self)@, context),
    {
        if context == CssContext::Selector {
            let chars = self.flush_char_buffer();
            self.ruleset.selectors.push(chars);
            assert(self@.rule_set.selectors =~= old(self)@.rule_set.selectors.push(
                trimmed(old(self)@.buffer),
            ));
        }
    }

    fn end(&mut self, context: CssContext)
        ensures
            final(self)@ == on_end(old(self)@, context),
    {
        match context {
            CssContext::Selector => {
                let chars = self.flush_char_buffer();
                self.ruleset.selectors.push(chars);
                assert(self@.rule_set.selectors =~= old(self)@.rule_set.selectors.push(
                    trimmed(old(self)@.buffer),
                ));
                self.push_context(CssContext::RuleSet);
            },
            CssContext::RuleSet => {
                let mut current = CssRuleSet::new();
                std::mem::swap(&mut current, &mut self.ruleset);
                self.root.rule_sets.push(current);
                assert(self@.rule_sets =~= old(self)@.rule_sets.push(old(self)@.rule_set));
            },
            CssContext::Key => {
                self.rule.key = self.flush_char_buffer();
                self.push_context(CssContext::Value);
            },
            CssContext::Value => {
                self.rule.value = self.flush_char_buffer();
                let mut current = CssRule::new();
                std::mem::swap(&mut current, &mut self.rule);
                self.ruleset.rules.push(current);
                assert(self@.rule_set.rules =~= old(self)@.rule_set.rules.push(
                    RuleModel { value: trimmed(old(self)@.buffer), ..old(self)@.rule },
                ));
            },
            _ => {},
        }
    }

    /// Reads the current character: classifies it in the innermost context and
    /// carries out the command, classifying it once more after `EndKeepChar`.
    pub fn parse_char(&mut self)
        requires
            wf(old(self)@),
        ensures
            final(self)@ == process(old(self)@),
            wf(final(self)@),
    {
        loop
            invariant
                wf(self@),
                process(self@) == process(old(self)@),
            decreases self@.stack.len(),
        {
            let context = if self.stack.len() > 0 {
                self.stack[self.stack.len() - 1]
            } else {
                CssContext::Absent
            };
            let t = self.get_css_for_context(context, self.current_char);
            match t.command {
                CssCommand::Continue => {
                    let c = self.current_char;
                    self.push_char(c);
                    return;
                },
                CssCommand::Begin => {
                    self.push_context(t.context);
                    self.begin(t.context);
                    return;
                },
                CssCommand::Append => {
                    self.append(context);
                    return;
                },
                CssCommand::End => {
                    self.pop_context();
                    self.end(context);
                    return;
                },
                CssCommand::EndKeepChar => {
                    self.pop_context();
                    self.end(context);
                },
            }
        }
    }

    /// Parses `css` from a fresh state: the document with its rule sets in
    /// source order, or the construct left open at the end of the text.
    pub fn parse(&mut self, css: String) -> (r: Result<CssRoot, ParseError>)
        ensures
            match r {
                Ok(d) => parse_text(css@) == Ok::<Seq<RuleSetModel>, ParseError>(d@),
                Err(e) => parse_text(css@) == Err::<Seq<RuleSetModel>, ParseError>(e),
            },
    {
        *self = CssParser::new();
        for c in it: css.chars()
            invariant
                it.seq() == css@,
                wf(self@),
                self@ == run(initial(), css@.take(it.index() as int)),
        {
            self.current_char = c;
            self.parse_char();
            assert(css@.take(it.index() + 1).drop_last() =~= css@.take(it.index() as int));
        }
        assert(css@.take(css@.len() as int) =~= css@);
        let context = if self.stack.len() > 0 {
            self.stack[self.stack.len() - 1]
        } else {
            CssContext::Absent
        };
        assert(top(self@.stack) == context);
        match context {
            CssContext::Selector => {
                let pending = self.flush_char_buffer();
                if self.ruleset.selectors.len() > 0 || !pending.as_str().is_empty() {
                    return Err(ParseError::UnterminatedSelector);
                }
            },
            CssContext::RuleSet => {
                return Err(ParseError::UnterminatedRuleSet);
            },
            CssContext::Key => {
                return Err(ParseError::UnterminatedKey);
            },
            CssContext::Value => {
                return Err(ParseError::UnterminatedValue);
            },
            CssContext::String => {
                return Err(ParseError::UnterminatedString);
            },
            _ => {},
        }
        let mut doc = CssRoot::new();
        std::mem::swap(&mut doc, &mut self.root);
        Ok(doc)
    }
}

} // verus!
