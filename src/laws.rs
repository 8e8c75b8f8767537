//! Laws of the parser, stated over the state machine of `model`.
use vstd::prelude::*;

use crate::context::{is_layout_char, transition, CssCommand, CssContext};
use crate::document::{empty_rule, empty_rule_set, RuleModel, RuleSetModel};
use crate::model::{
    initial, on_append, on_begin, on_end, parse_text, popped, process, pushed, run, step,
    top, wf, with_char, lemma_process_wf, ParseError, ParserModel,
};
use crate::text::{
    is_trimmed, lemma_trimmed_blank, lemma_trimmed_is_trimmed, lemma_trimmed_same,
    lemma_trimmed_keeps_last, lemma_trimmed_skips_prefix, trimmed, white_space,
};

verus! {

/// Layout whitespace, which a rule set skips between declarations.
pub open spec fn layout_only(pad: Seq<char>) -> bool {
    forall|i: int| 0 <= i < pad.len() ==> is_layout_char(#[trigger] pad[i])
}

/// Whitespace only.
pub open spec fn blank(x: Seq<char>) -> bool {
    forall|i: int| 0 <= i < x.len() ==> white_space(#[trigger] x[i])
}

/// The text of a selector list: the selectors joined by commas.
pub open spec fn render_selectors(sels: Seq<Seq<char>>) -> Seq<char>
    decreases sels.len(),
{
    if sels.len() == 0 {
        Seq::empty()
    } else if sels.len() == 1 {
        sels[0]
    } else {
        render_selectors(sels.drop_last()) + seq![','] + sels.last()
    }
}

/// The text of one declaration: `key:value;`.
pub open spec fn render_rule(r: RuleModel) -> Seq<char> {
    r.key + seq![':'] + r.value + seq![';']
}

pub open spec fn render_rules(rules: Seq<RuleModel>) -> Seq<char>
    decreases rules.len(),
{
    if rules.len() == 0 {
        Seq::empty()
    } else {
        render_rules(rules.drop_last()) + render_rule(rules.last())
    }
}

/// The text of a rule set, `selectors{declarations}`, with layout `pad` before
/// the closing brace.
pub open spec fn render_rule_set(rs: RuleSetModel, pad: Seq<char>) -> Seq<char> {
    render_selectors(rs.selectors) + seq!['{'] + render_rules(rs.rules) + pad + seq!['}']
}

/// The text of a document: its rule sets one after another.
pub open spec fn render(doc: Seq<RuleSetModel>, pad: Seq<char>) -> Seq<char>
    decreases doc.len(),
{
    if doc.len() == 0 {
        Seq::empty()
    } else {
        render(doc.drop_last(), pad) + render_rule_set(doc.last(), pad)
    }
}

pub open spec fn trim_rule(r: RuleModel) -> RuleModel {
    RuleModel { key: trimmed(r.key), value: trimmed(r.value) }
}

pub open spec fn trim_rule_set(rs: RuleSetModel) -> RuleSetModel {
    RuleSetModel {
        selectors: rs.selectors.map_values(|sel: Seq<char>| trimmed(sel)),
        rules: rs.rules.map_values(|r: RuleModel| trim_rule(r)),
    }
}

/// The document with every selector, key and value trimmed.
pub open spec fn trim_document(doc: Seq<RuleSetModel>) -> Seq<RuleSetModel> {
    doc.map_values(|rs: RuleSetModel| trim_rule_set(rs))
}

/// A selector without the characters that end one.
pub open spec fn selector_ok(sel: Seq<char>) -> bool {
    forall|i: int| 0 <= i < sel.len() ==> sel[i] != '{' && sel[i] != ','
}

/// A non-empty selector list whose first selector is not empty.
pub open spec fn selectors_ok(sels: Seq<Seq<char>>) -> bool {
    &&& sels.len() >= 1
    &&& sels[0].len() > 0
    &&& forall|i: int| 0 <= i < sels.len() ==> selector_ok(#[trigger] sels[i])
}

/// A key with something besides whitespace, and no colon or closing brace.
pub open spec fn key_ok(k: Seq<char>) -> bool {
    &&& trimmed(k).len() > 0
    &&& forall|i: int| 0 <= i < k.len() ==> k[i] != ':' && k[i] != '}'
}

/// A value that the grammar can write unquoted.
pub open spec fn value_ok(v: Seq<char>) -> bool {
    forall|i: int| 0 <= i < v.len() ==> v[i] != ';' && v[i] != '}' && v[i] != '"' && v[i] != '\''
}

pub open spec fn rule_ok(r: RuleModel) -> bool {
    key_ok(r.key) && value_ok(r.value)
}

pub open spec fn rule_set_ok(rs: RuleSetModel) -> bool {
    &&& selectors_ok(rs.selectors)
    &&& forall|i: int| 0 <= i < rs.rules.len() ==> rule_ok(#[trigger] rs.rules[i])
}

pub open spec fn document_ok(doc: Seq<RuleSetModel>) -> bool {
    forall|i: int| 0 <= i < doc.len() ==> rule_set_ok(#[trigger] doc[i])
}

/// Between rule sets: only the floor context open, nothing in progress, and at
/// most whitespace left in the buffer.
pub open spec fn at_rest(s: ParserModel) -> bool {
    &&& s.stack == seq![CssContext::Root]
    &&& blank(s.buffer)
    &&& s.rule_set == empty_rule_set()
    &&& s.rule == empty_rule()
}

/// Reading `a` then `b` is reading `a + b`.
pub proof fn lemma_run_concat(s: ParserModel, a: Seq<char>, b: Seq<char>)
    ensures
        run(s, a + b) == run(run(s, a), b),
    decreases b.len(),
{
    if b.len() == 0 {
        assert(a + b =~= a);
    } else {
        lemma_run_concat(s, a, b.drop_last());
        assert((a + b).drop_last() =~= a + b.drop_last());
        assert((a + b).last() == b.last());
    }
}

proof fn lemma_run_one(s: ParserModel, c: char)
    ensures
        run(s, seq![c]) == step(s, c),
{
    assert(seq![c].drop_last() =~= Seq::<char>::empty());
    assert(run(s, Seq::<char>::empty()) == s);
}

/// Characters that the innermost context accumulates are appended to the buffer.
proof fn lemma_run_continue(s: ParserModel, t: Seq<char>)
    requires
        forall|i: int|
            0 <= i < t.len() ==> (#[trigger] transition(top(s.stack), t[i], s.quote)).command
                == CssCommand::Continue,
    ensures
        run(s, t).stack == s.stack,
        run(s, t).buffer == s.buffer + t,
        run(s, t).quote == s.quote,
        run(s, t).rule == s.rule,
        run(s, t).rule_set == s.rule_set,
        run(s, t).rule_sets == s.rule_sets,
    decreases t.len(),
{
    if t.len() == 0 {
        assert(s.buffer + t =~= s.buffer);
    } else {
        let u = t.drop_last();
        assert forall|i: int| 0 <= i < u.len() implies (#[trigger] transition(
            top(s.stack),
            u[i],
            s.quote,
        )).command == CssCommand::Continue by {
            assert(u[i] == t[i]);
        }
        lemma_run_continue(s, u);
        assert(transition(top(s.stack), t[t.len() - 1], s.quote).command == CssCommand::Continue);
        let m = ParserModel { current: t.last(), ..run(s, u) };
        assert(run(s, t) == process(m));
        assert(m.stack == s.stack && m.quote == s.quote);
        assert(transition(top(m.stack), m.current, m.quote).command == CssCommand::Continue);
        lemma_process_continue(m);
        assert(s.buffer + t =~= (s.buffer + u).push(t.last()));
    }
}

proof fn lemma_process_continue(s: ParserModel)
    requires
        transition(top(s.stack), s.current, s.quote).command == CssCommand::Continue,
    ensures
        process(s) == with_char(s),
{
}

proof fn lemma_process_begin(s: ParserModel)
    requires
        transition(top(s.stack), s.current, s.quote).command == CssCommand::Begin,
    ensures
        process(s) == on_begin(
            pushed(s, transition(top(s.stack), s.current, s.quote).context),
            transition(top(s.stack), s.current, s.quote).context,
        ),
{
}

proof fn lemma_process_append(s: ParserModel)
    requires
        transition(top(s.stack), s.current, s.quote).command == CssCommand::Append,
    ensures
        process(s) == on_append(s, top(s.stack)),
{
}

proof fn lemma_process_end(s: ParserModel)
    requires
        transition(top(s.stack), s.current, s.quote).command == CssCommand::End,
    ensures
        process(s) == on_end(popped(s), top(s.stack)),
{
}

/// Reading a selector list from rest leaves the last selector in the buffer,
/// up to whitespace in front, and the others, trimmed, in the rule set being read.
proof fn lemma_selectors(s: ParserModel, sels: Seq<Seq<char>>)
    requires
        at_rest(s),
        selectors_ok(sels),
    ensures
        run(s, render_selectors(sels)).stack == seq![CssContext::Root, CssContext::Selector],
        trimmed(run(s, render_selectors(sels)).buffer) == trimmed(sels.last()),
        run(s, render_selectors(sels)).rule_set == (RuleSetModel {
            selectors: sels.drop_last().map_values(|sel: Seq<char>| trimmed(sel)),
            rules: Seq::empty(),
        }),
        run(s, render_selectors(sels)).rule == empty_rule(),
        run(s, render_selectors(sels)).rule_sets == s.rule_sets,
    decreases sels.len(),
{
    if sels.len() == 1 {
        let sel = sels[0];
        assert(selector_ok(sels[0]));
        let rest = sel.drop_first();
        assert(sel =~= seq![sel[0]] + rest);
        lemma_run_concat(s, seq![sel[0]], rest);
        lemma_run_one(s, sel[0]);
        lemma_process_begin(ParserModel { current: sel[0], ..s });
        let m1 = step(s, sel[0]);
        assert(m1.stack == seq![CssContext::Root, CssContext::Selector]);
        assert(m1.buffer == s.buffer.push(sel[0]));
        assert forall|i: int| 0 <= i < rest.len() implies (#[trigger] transition(
            top(m1.stack),
            rest[i],
            m1.quote,
        )).command == CssCommand::Continue by {
            assert(rest[i] == sel[i + 1]);
        }
        lemma_run_continue(m1, rest);
        assert(s.buffer.push(sel[0]) + rest =~= s.buffer + sel);
        lemma_trimmed_skips_prefix(s.buffer, sel);
        assert(sels.drop_last().map_values(|x: Seq<char>| trimmed(x)) =~= Seq::<
            Seq<char>,
        >::empty());
    } else {
        let p = sels.drop_last();
        let last = sels.last();
        assert forall|i: int| 0 <= i < p.len() implies selector_ok(#[trigger] p[i]) by {
            assert(p[i] == sels[i]);
            assert(selector_ok(sels[i]));
        }
        lemma_selectors(s, p);
        let rp = render_selectors(p);
        let m1 = run(s, rp);
        lemma_run_concat(s, rp + seq![','], last);
        lemma_run_concat(s, rp, seq![',']);
        lemma_run_one(m1, ',');
        lemma_process_append(ParserModel { current: ',', ..m1 });
        let m2 = step(m1, ',');
        assert(m2.rule_set.selectors =~= p.map_values(|x: Seq<char>| trimmed(x)));
        assert(selector_ok(sels[sels.len() - 1]));
        assert forall|i: int| 0 <= i < last.len() implies (#[trigger] transition(
            top(m2.stack),
            last[i],
            m2.quote,
        )).command == CssCommand::Continue by {}
        lemma_run_continue(m2, last);
        assert(m2.buffer + last =~= last);
    }
}

/// Inside a rule set's braces, with nothing buffered or in progress.
pub open spec fn in_rule_set(s: ParserModel) -> bool {
    &&& s.stack == seq![CssContext::Root, CssContext::RuleSet]
    &&& s.buffer == Seq::<char>::empty()
    &&& s.rule == empty_rule()
}

/// The characters of a key all go to the buffer: layout in front is taken in by
/// the rule set, and the first other character opens the key.
proof fn lemma_key(s: ParserModel, k: Seq<char>)
    requires
        in_rule_set(s),
        forall|i: int| 0 <= i < k.len() ==> k[i] != ':' && k[i] != '}',
    ensures
        run(s, k).buffer == k,
        run(s, k).rule == s.rule,
        run(s, k).rule_set == s.rule_set,
        run(s, k).rule_sets == s.rule_sets,
        run(s, k).stack == seq![CssContext::Root, CssContext::RuleSet, CssContext::Key] || (
        run(s, k).stack == seq![CssContext::Root, CssContext::RuleSet] && layout_only(k)),
    decreases k.len(),
{
    if k.len() == 0 {
        assert(run(s, k) == s);
        assert(s.buffer =~= k);
    } else {
        let u = k.drop_last();
        let c = k.last();
        lemma_key(s, u);
        let m = run(s, u);
        let mc = ParserModel { current: c, ..m };
        assert(k[k.len() - 1] != ':' && k[k.len() - 1] != '}');
        if m.stack == seq![CssContext::Root, CssContext::RuleSet] && is_layout_char(c) {
            lemma_process_continue(mc);
            assert forall|i: int| 0 <= i < k.len() implies is_layout_char(#[trigger] k[i]) by {
                if i < u.len() {
                    assert(k[i] == u[i]);
                }
            }
        } else if m.stack == seq![CssContext::Root, CssContext::RuleSet] {
            lemma_process_begin(mc);
        } else {
            lemma_process_continue(mc);
        }
        assert(u.push(c) =~= k);
    }
}

proof fn lemma_rule(s: ParserModel, r: RuleModel)
    requires
        in_rule_set(s),
        rule_ok(r),
    ensures
        in_rule_set(run(s, render_rule(r))),
        run(s, render_rule(r)).rule_set == (RuleSetModel {
            rules: s.rule_set.rules.push(trim_rule(r)),
            ..s.rule_set
        }),
        run(s, render_rule(r)).rule_sets == s.rule_sets,
{
    let k = r.key;
    let v = r.value;
    lemma_run_concat(s, k + seq![':'] + v, seq![';']);
    lemma_run_concat(s, k + seq![':'], v);
    lemma_run_concat(s, k, seq![':']);
    // the key
    lemma_key(s, k);
    let m2 = run(s, k);
    if layout_only(k) {
        assert forall|i: int| 0 <= i < k.len() implies white_space(#[trigger] k[i]) by {
            assert(is_layout_char(k[i]));
        }
        lemma_trimmed_blank(k);
    }
    assert(m2.stack == seq![CssContext::Root, CssContext::RuleSet, CssContext::Key]);
    // the colon ends the key and opens the value
    lemma_run_one(m2, ':');
    lemma_process_end(ParserModel { current: ':', ..m2 });
    let m3 = step(m2, ':');
    assert(popped(ParserModel { current: ':', ..m2 }).stack =~= seq![
        CssContext::Root,
        CssContext::RuleSet,
    ]);
    assert(m3.stack =~= seq![CssContext::Root, CssContext::RuleSet, CssContext::Value]);
    assert(m3.rule.key == trimmed(k));
    // the value accumulates
    assert forall|i: int| 0 <= i < v.len() implies (#[trigger] transition(
        top(m3.stack),
        v[i],
        m3.quote,
    )).command == CssCommand::Continue by {}
    lemma_run_continue(m3, v);
    let m4 = run(m3, v);
    assert(m4.buffer =~= v);
    // the semicolon ends the declaration
    lemma_run_one(m4, ';');
    lemma_process_end(ParserModel { current: ';', ..m4 });
    let m5 = step(m4, ';');
    assert(popped(ParserModel { current: ';', ..m4 }).stack =~= seq![
        CssContext::Root,
        CssContext::RuleSet,
    ]);
    assert(m5.rule_set.rules == s.rule_set.rules.push(trim_rule(r)));
}

proof fn lemma_rules(s: ParserModel, rules: Seq<RuleModel>)
    requires
        in_rule_set(s),
        forall|i: int| 0 <= i < rules.len() ==> rule_ok(#[trigger] rules[i]),
    ensures
        in_rule_set(run(s, render_rules(rules))),
        run(s, render_rules(rules)).rule_set == (RuleSetModel {
            rules: s.rule_set.rules + rules.map_values(|r: RuleModel| trim_rule(r)),
            ..s.rule_set
        }),
        run(s, render_rules(rules)).rule_sets == s.rule_sets,
    decreases rules.len(),
{
    if rules.len() == 0 {
        assert(s.rule_set.rules + rules.map_values(|r: RuleModel| trim_rule(r))
            =~= s.rule_set.rules);
        assert(run(s, Seq::<char>::empty()) == s);
    } else {
        let p = rules.drop_last();
        assert forall|i: int| 0 <= i < p.len() implies rule_ok(#[trigger] p[i]) by {
            assert(p[i] == rules[i]);
        }
        lemma_rules(s, p);
        lemma_run_concat(s, render_rules(p), render_rule(rules.last()));
        assert(rule_ok(rules[rules.len() - 1]));
        lemma_rule(run(s, render_rules(p)), rules.last());
        assert((s.rule_set.rules + p.map_values(|r: RuleModel| trim_rule(r))).push(
            trim_rule(rules.last()),
        ) =~= s.rule_set.rules + rules.map_values(|r: RuleModel| trim_rule(r)));
    }
}

proof fn lemma_rule_set(s: ParserModel, rs: RuleSetModel, pad: Seq<char>)
    requires
        at_rest(s),
        rule_set_ok(rs),
        layout_only(pad),
    ensures
        at_rest(run(s, render_rule_set(rs, pad))),
        run(s, render_rule_set(rs, pad)).rule_sets == s.rule_sets.push(trim_rule_set(rs)),
{
    let sels = rs.selectors;
    let rsel = render_selectors(sels);
    let rr = render_rules(rs.rules);
    lemma_run_concat(s, rsel + seq!['{'] + rr + pad, seq!['}']);
    lemma_run_concat(s, rsel + seq!['{'] + rr, pad);
    lemma_run_concat(s, rsel + seq!['{'], rr);
    lemma_run_concat(s, rsel, seq!['{']);
    lemma_selectors(s, sels);
    let m1 = run(s, rsel);
    // the brace ends the selector list
    lemma_run_one(m1, '{');
    lemma_process_end(ParserModel { current: '{', ..m1 });
    let m2 = step(m1, '{');
    assert(popped(ParserModel { current: '{', ..m1 }).stack =~= seq![CssContext::Root]);
    assert(m2.stack =~= seq![CssContext::Root, CssContext::RuleSet]);
    assert(m2.rule_set.selectors =~= sels.map_values(|x: Seq<char>| trimmed(x)));
    lemma_rules(m2, rs.rules);
    let m3 = run(m2, rr);
    assert(m3.rule_set.rules =~= rs.rules.map_values(|r: RuleModel| trim_rule(r)));
    assert(m3.rule_set == trim_rule_set(rs));
    // the layout before the closing brace is taken in
    assert forall|i: int| 0 <= i < pad.len() implies (#[trigger] transition(
        top(m3.stack),
        pad[i],
        m3.quote,
    )).command == CssCommand::Continue by {
        assert(is_layout_char(pad[i]));
    }
    lemma_run_continue(m3, pad);
    let m4 = run(m3, pad);
    assert(m4.buffer =~= pad);
    assert forall|i: int| 0 <= i < pad.len() implies white_space(#[trigger] pad[i]) by {
        assert(is_layout_char(pad[i]));
    }
    // the closing brace moves the rule set into the document
    lemma_run_one(m4, '}');
    lemma_process_end(ParserModel { current: '}', ..m4 });
    assert(popped(ParserModel { current: '}', ..m4 }).stack =~= seq![CssContext::Root]);
}

proof fn lemma_render(doc: Seq<RuleSetModel>, pad: Seq<char>)
    requires
        document_ok(doc),
        layout_only(pad),
    ensures
        at_rest(run(initial(), render(doc, pad))),
        run(initial(), render(doc, pad)).rule_sets == trim_document(doc),
    decreases doc.len(),
{
    if doc.len() == 0 {
        assert(run(initial(), Seq::<char>::empty()) == initial());
        assert(initial().rule_sets =~= trim_document(doc));
    } else {
        let p = doc.drop_last();
        assert forall|i: int| 0 <= i < p.len() implies rule_set_ok(#[trigger] p[i]) by {
            assert(p[i] == doc[i]);
        }
        lemma_render(p, pad);
        lemma_run_concat(initial(), render(p, pad), render_rule_set(doc.last(), pad));
        assert(rule_set_ok(doc[doc.len() - 1]));
        lemma_rule_set(run(initial(), render(p, pad)), doc.last(), pad);
        assert(trim_document(p).push(trim_rule_set(doc.last())) =~= trim_document(doc));
    }
}

/// Source order is kept: rule sets written one after another, each as
/// `s1,...,sn{k1:v1;...;km:vm;}`, parse to the same rule sets, selectors and
/// declarations in the same order. Each selector, key and value may carry
/// whitespace of its own: it comes back trimmed, with inner whitespace kept.
pub proof fn lemma_round_trip(doc: Seq<RuleSetModel>, pad: Seq<char>)
    requires
        document_ok(doc),
        layout_only(pad),
    ensures
        parse_text(render(doc, pad)) == Ok::<Seq<RuleSetModel>, ParseError>(
            trim_document(doc),
        ),
{
    lemma_render(doc, pad);
}

pub open spec fn rule_set_trimmed(rs: RuleSetModel) -> bool {
    &&& forall|j: int| 0 <= j < rs.selectors.len() ==> is_trimmed(#[trigger] rs.selectors[j])
    &&& forall|j: int|
        0 <= j < rs.rules.len() ==> is_trimmed((#[trigger] rs.rules[j]).key) && is_trimmed(
            rs.rules[j].value,
        )
}

/// Every text already taken out of the buffer is trimmed.
pub open spec fn all_trimmed(s: ParserModel) -> bool {
    &&& forall|i: int| 0 <= i < s.rule_sets.len() ==> rule_set_trimmed(#[trigger] s.rule_sets[i])
    &&& rule_set_trimmed(s.rule_set)
    &&& is_trimmed(s.rule.key)
}

proof fn lemma_process_trimmed(s: ParserModel)
    requires
        all_trimmed(s),
    ensures
        all_trimmed(process(s)),
    decreases s.stack.len(),
{
    lemma_trimmed_is_trimmed(s.buffer);
    let context = top(s.stack);
    let t = transition(context, s.current, s.quote);
    let r = process(s);
    if t.command == CssCommand::Append {
        lemma_process_append(s);
        assert(rule_set_trimmed(r.rule_set)) by {
            assert forall|j: int| 0 <= j < r.rule_set.selectors.len() implies is_trimmed(
                #[trigger] r.rule_set.selectors[j],
            ) by {
                if j < s.rule_set.selectors.len() {
                    assert(r.rule_set.selectors[j] == s.rule_set.selectors[j]);
                }
            }
        }
    } else if t.command == CssCommand::End || t.command == CssCommand::EndKeepChar {
        let e = on_end(popped(s), context);
        assert(all_trimmed(e)) by {
            if context == CssContext::Selector {
                assert forall|j: int| 0 <= j < e.rule_set.selectors.len() implies is_trimmed(
                    #[trigger] e.rule_set.selectors[j],
                ) by {
                    if j < s.rule_set.selectors.len() {
                        assert(e.rule_set.selectors[j] == s.rule_set.selectors[j]);
                    }
                }
            } else if context == CssContext::RuleSet {
                assert forall|i: int| 0 <= i < e.rule_sets.len() implies rule_set_trimmed(
                    #[trigger] e.rule_sets[i],
                ) by {
                    if i < s.rule_sets.len() {
                        assert(e.rule_sets[i] == s.rule_sets[i]);
                    }
                }
                assert(e.rule_set.selectors =~= Seq::<Seq<char>>::empty());
                assert(e.rule.key == s.rule.key);
            } else if context == CssContext::Value {
                assert forall|j: int| 0 <= j < e.rule_set.rules.len() implies is_trimmed(
                    (#[trigger] e.rule_set.rules[j]).key,
                ) && is_trimmed(e.rule_set.rules[j].value) by {
                    if j < s.rule_set.rules.len() {
                        assert(e.rule_set.rules[j] == s.rule_set.rules[j]);
                    }
                }
                assert(empty_rule().key.len() == 0);
            }
        }
        if t.command == CssCommand::End {
            lemma_process_end(s);
        } else {
            lemma_process_trimmed(e);
        }
    } else if t.command == CssCommand::Begin {
        lemma_process_begin(s);
    } else {
        lemma_process_continue(s);
    }
}

proof fn lemma_run_trimmed(text: Seq<char>)
    ensures
        all_trimmed(run(initial(), text)),
    decreases text.len(),
{
    if text.len() == 0 {
        assert(run(initial(), text) == initial());
        assert(empty_rule().key.len() == 0);
    } else {
        lemma_run_trimmed(text.drop_last());
        lemma_process_trimmed(ParserModel { current: text.last(), ..run(initial(), text.drop_last()) });
    }
}

/// No selector, key or value of a parsed document starts or ends with whitespace.
pub proof fn lemma_parsed_texts_trimmed(text: Seq<char>)
    ensures
        parse_text(text) matches Ok(doc) ==> forall|i: int|
            0 <= i < doc.len() ==> rule_set_trimmed(#[trigger] doc[i]),
{
    lemma_run_trimmed(text);
}

/// Trimming twice is trimming once.
pub proof fn lemma_trim_idempotent(s: Seq<char>)
    ensures
        trimmed(trimmed(s)) == trimmed(s),
{
    lemma_trimmed_is_trimmed(s);
    lemma_trimmed_same(trimmed(s));
}

/// The same text always parses to the same document or the same error.
pub proof fn lemma_parse_deterministic(a: Seq<char>, b: Seq<char>)
    requires
        a == b,
    ensures
        parse_text(a) == parse_text(b),
{
}

proof fn lemma_process_keep(s: ParserModel)
    requires
        transition(top(s.stack), s.current, s.quote).command == CssCommand::EndKeepChar,
    ensures
        process(s) == process(on_end(popped(s), top(s.stack))),
{
}

/// What holds of every state that parsing reaches from the start.
pub open spec fn reachable(s: ParserModel) -> bool {
    let c = top(s.stack);
    &&& wf(s)
    &&& (c == CssContext::Root || c == CssContext::Selector || c == CssContext::RuleSet || c
        == CssContext::Key) ==> s.rule == empty_rule()
    &&& c == CssContext::Root ==> s.rule_set == empty_rule_set()
    &&& (c == CssContext::Root || c == CssContext::RuleSet) ==> blank(s.buffer)
}

proof fn lemma_process_reachable(s: ParserModel)
    requires
        reachable(s),
    ensures
        reachable(process(s)),
    decreases s.stack.len(),
{
    let context = top(s.stack);
    let t = transition(context, s.current, s.quote);
    if t.command == CssCommand::Continue {
        lemma_process_continue(s);
        if context == CssContext::RuleSet {
            assert forall|i: int| 0 <= i < s.buffer.len() + 1 implies white_space(
                #[trigger] s.buffer.push(s.current)[i],
            ) by {
                if i < s.buffer.len() {
                    assert(s.buffer.push(s.current)[i] == s.buffer[i]);
                }
            }
        }
    } else if t.command == CssCommand::Begin {
        lemma_process_begin(s);
    } else if t.command == CssCommand::Append {
        lemma_process_append(s);
    } else if t.command == CssCommand::End {
        lemma_process_end(s);
    } else {
        lemma_process_keep(s);
        let e = on_end(popped(s), context);
        assert(reachable(e));
        lemma_process_reachable(e);
    }
}

proof fn lemma_run_reachable(text: Seq<char>)
    ensures
        reachable(run(initial(), text)),
    decreases text.len(),
{
    if text.len() == 0 {
        assert(run(initial(), text) == initial());
    } else {
        lemma_run_reachable(text.drop_last());
        lemma_process_reachable(
            ParserModel { current: text.last(), ..run(initial(), text.drop_last()) },
        );
    }
}

/// A text that parses and ends with the brace of its last rule set leaves the
/// parser in the floor context.
proof fn lemma_closed(text: Seq<char>)
    requires
        parse_text(text) is Ok,
        text.len() > 0 ==> text.last() == '}',
    ensures
        top(run(initial(), text).stack) == CssContext::Root,
{
    if text.len() > 0 {
        let u = text.drop_last();
        lemma_run_reachable(u);
        let m = ParserModel { current: '}', ..run(initial(), u) };
        let r = run(initial(), text);
        assert(r == process(m));
        let c = top(m.stack);
        if c == CssContext::Root {
            lemma_process_begin(m);
            lemma_trimmed_keeps_last(r.buffer);
        } else if c == CssContext::Selector {
            lemma_process_continue(m);
            lemma_trimmed_keeps_last(r.buffer);
        } else if c == CssContext::RuleSet {
            lemma_process_end(m);
        } else if c == CssContext::Key {
            lemma_process_continue(m);
        } else if c == CssContext::Value {
            lemma_process_keep(m);
            let e = on_end(popped(m), c);
            assert(top(e.stack) == CssContext::RuleSet);
            lemma_process_end(e);
        } else {
            if m.quote == '}' {
                lemma_process_end(m);
            } else {
                lemma_process_continue(m);
            }
        }
    }
}

/// `x` is `y` with whitespace in front.
pub open spec fn blank_before(x: Seq<char>, y: Seq<char>) -> bool {
    &&& x.len() >= y.len()
    &&& x == x.take(x.len() - y.len()) + y
    &&& blank(x.take(x.len() - y.len()))
}

/// State `a` is state `b` after the rule sets `doc` were read, up to
/// whitespace left in front of the buffer.
pub open spec fn follows(a: ParserModel, b: ParserModel, doc: Seq<RuleSetModel>) -> bool {
    &&& wf(a)
    &&& a.stack == b.stack
    &&& a.rule == b.rule
    &&& a.rule_set == b.rule_set
    &&& a.rule_sets == doc + b.rule_sets
    &&& top(a.stack) == CssContext::String ==> a.quote == b.quote
    &&& blank_before(a.buffer, b.buffer)
}

proof fn lemma_blank_before_push(x: Seq<char>, y: Seq<char>, c: char)
    requires
        blank_before(x, y),
    ensures
        blank_before(x.push(c), y.push(c)),
{
    let w = x.take(x.len() - y.len());
    assert(x.push(c).take(x.push(c).len() - y.push(c).len()) =~= w);
    assert(x.push(c) =~= w + y.push(c));
}

proof fn lemma_blank_before_trimmed(x: Seq<char>, y: Seq<char>)
    requires
        blank_before(x, y),
    ensures
        trimmed(x) == trimmed(y),
{
    lemma_trimmed_skips_prefix(x.take(x.len() - y.len()), y);
}

proof fn lemma_process_follows(a: ParserModel, b: ParserModel, doc: Seq<RuleSetModel>)
    requires
        follows(a, b, doc),
        a.current == b.current,
    ensures
        follows(process(a), process(b), doc),
    decreases a.stack.len(),
{
    let context = top(a.stack);
    let t = transition(context, a.current, a.quote);
    assert(t == transition(top(b.stack), b.current, b.quote));
    lemma_blank_before_trimmed(a.buffer, b.buffer);
    lemma_blank_before_push(a.buffer, b.buffer, a.current);
    lemma_process_wf(a);
    let empty = Seq::<char>::empty();
    assert(empty.take(0) =~= empty);
    assert(empty + empty =~= empty);
    if t.command == CssCommand::Continue {
        lemma_process_continue(a);
        lemma_process_continue(b);
    } else if t.command == CssCommand::Begin {
        lemma_process_begin(a);
        lemma_process_begin(b);
    } else if t.command == CssCommand::Append {
        lemma_process_append(a);
        lemma_process_append(b);
    } else {
        let ea = on_end(popped(a), context);
        let eb = on_end(popped(b), context);
        assert((doc + b.rule_sets).push(b.rule_set) =~= doc + b.rule_sets.push(b.rule_set));
        assert(follows(ea, eb, doc));
        if t.command == CssCommand::End {
            lemma_process_end(a);
            lemma_process_end(b);
        } else {
            lemma_process_keep(a);
            lemma_process_keep(b);
            lemma_process_follows(ea, eb, doc);
        }
    }
}

proof fn lemma_run_follows(a: ParserModel, b: ParserModel, doc: Seq<RuleSetModel>, text: Seq<char>)
    requires
        follows(a, b, doc),
    ensures
        follows(run(a, text), run(b, text), doc),
    decreases text.len(),
{
    if text.len() > 0 {
        lemma_run_follows(a, b, doc, text.drop_last());
        let c = text.last();
        lemma_process_follows(
            ParserModel { current: c, ..run(a, text.drop_last()) },
            ParserModel { current: c, ..run(b, text.drop_last()) },
            doc,
        );
    }
}

/// Texts of complete rule sets can be read one after the other: when `first`
/// parses and ends with the brace of its last rule set, parsing `first` then
/// `second` gives the rule sets of `first` followed by those of `second`, in
/// order, none merged, dropped or reordered; or the error that `second` gives.
pub proof fn lemma_parse_concat(first: Seq<char>, second: Seq<char>)
    requires
        parse_text(first) is Ok,
        first.len() > 0 ==> first.last() == '}',
    ensures
        parse_text(second) matches Ok(d2) ==> parse_text(first + second) == Ok::<
            Seq<RuleSetModel>,
            ParseError,
        >(parse_text(first)->Ok_0 + d2),
        parse_text(second) matches Err(e) ==> parse_text(first + second) == Err::<
            Seq<RuleSetModel>,
            ParseError,
        >(e),
{
    lemma_closed(first);
    lemma_run_reachable(first);
    let a = run(initial(), first);
    let b = initial();
    let d1 = a.rule_sets;
    assert(a.stack =~= seq![CssContext::Root]);
    assert(a.buffer.take(a.buffer.len() as int) =~= a.buffer);
    assert(a.buffer + Seq::<char>::empty() =~= a.buffer);
    assert(d1 + b.rule_sets =~= d1);
    assert(follows(a, b, d1));
    lemma_run_concat(initial(), first, second);
    lemma_run_follows(a, b, d1, second);
    let ra = run(a, second);
    let rb = run(b, second);
    lemma_blank_before_trimmed(ra.buffer, rb.buffer);
}

} // verus!
