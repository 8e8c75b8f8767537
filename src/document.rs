//! The parsed document: rule sets, each with selectors and declarations.
use vstd::prelude::*;

use crate::context::{rule_set_test, root_test, CssCommand, CssContext, CssTestResult};

verus! {

/// A declaration as text: its key and its value.
pub struct RuleModel {
    pub key: Seq<char>,
    pub value: Seq<char>,
}

/// A rule set as text: its selectors and its declarations, in source order.
pub struct RuleSetModel {
    pub selectors: Seq<Seq<char>>,
    pub rules: Seq<RuleModel>,
}

pub open spec fn empty_rule() -> RuleModel {
    RuleModel { key: Seq::empty(), value: Seq::empty() }
}

pub open spec fn empty_rule_set() -> RuleSetModel {
    RuleSetModel { selectors: Seq::empty(), rules: Seq::empty() }
}

/// One `key: value` declaration.
#[derive(Debug)]
pub struct CssRule {
    pub key: String,
    pub value: String,
}

impl View for CssRule {
    type V = RuleModel;

    open spec fn view(&self) -> RuleModel {
        RuleModel { key: self.key@, value: self.value@ }
    }
}

impl CssRule {
    pub fn new() -> (r: CssRule)
        ensures
            r@ == empty_rule(),
    {
        CssRule { key: String::new(), value: String::new() }
    }
}

/// A selector group with its declarations.
#[derive(Debug)]
pub struct CssRuleSet {
    pub selectors: Vec<String>,
    pub rules: Vec<CssRule>,
}

impl View for CssRuleSet {
    type V = RuleSetModel;

    open spec fn view(&self) -> RuleSetModel {
        RuleSetModel {
            selectors: self.selectors@.map_values(|s: String| s@),
            rules: self.rules@.map_values(|r: CssRule| r@),
        }
    }
}

impl CssRuleSet {
    pub fn new() -> (r: CssRuleSet)
        ensures
            r@ == empty_rule_set(),
    {
        let r = CssRuleSet { selectors: Vec::new(), rules: Vec::new() };
        assert(r@.selectors =~= Seq::<Seq<char>>::empty());
        assert(r@.rules =~= Seq::<RuleModel>::empty());
        r
    }

    /// Policy while inside a rule set's braces.
    pub fn test(&self, c: char) -> (r: CssTestResult)
        ensures
            r == rule_set_test(c),
    {
        match c {
            ' ' | '\n' | '\r' | '\t' => CssTestResult {
                command: CssCommand::Continue,
                context: CssContext::RuleSet,
            },
            '}' => CssTestResult { command: CssCommand::End, context: CssContext::Absent },
            _ => CssTestResult { command: CssCommand::Begin, context: CssContext::Key },
        }
    }
}

/// The whole document: its rule sets in source order.
#[derive(Debug)]
pub struct CssRoot {
    pub rule_sets: Vec<CssRuleSet>,
}

impl View for CssRoot {
    type V = Seq<RuleSetModel>;

    open spec fn view(&self) -> Seq<RuleSetModel> {
        self.rule_sets@.map_values(|r: CssRuleSet| r@)
    }
}

impl CssRoot {
    pub fn new() -> (r: CssRoot)
        ensures
            r@ == Seq::<RuleSetModel>::empty(),
    {
        let r = CssRoot { rule_sets: Vec::new() };
        assert(r@ =~= Seq::<RuleSetModel>::empty());
        r
    }

    /// Policy of the floor context: every character starts a selector.
    pub fn test(&self, c: char) -> (r: CssTestResult)
        ensures
            r == root_test(c),
    {
        CssTestResult { command: CssCommand::Begin, context: CssContext::Selector }
    }
}

} // verus!
