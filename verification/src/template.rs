//! The template expander. A definition may invoke templates, written
//! `{{name|argument|...}}`. A table of rules says what an invocation stands
//! for; one that no rule covers is left as it is. Invocations may be nested:
//! each pass replaces the innermost ones, and passes are repeated until a pass
//! changes nothing, or a limit is reached.

use crate::text::{
    chars_of, fields_of, push_range, same_chars, slice_of, split_fields, string_of, views,
};
use vstd::prelude::*;

verus! {

/// A rule of the table: what an invocation of the template `name` stands for.
/// That is `prefix`, then the argument with the index `argument` if there is
/// one, then `suffix`. Index 0 is the template's name, index 1 the first
/// argument after it.
pub struct TemplateRule {
    pub name: String,
    pub prefix: String,
    pub argument: Option<usize>,
    pub suffix: String,
}

/// The mathematical value of a [`TemplateRule`].
pub struct RuleModel {
    pub name: Seq<char>,
    pub prefix: Seq<char>,
    pub argument: Option<nat>,
    pub suffix: Seq<char>,
}

impl View for TemplateRule {
    type V = RuleModel;

    open spec fn view(&self) -> RuleModel {
        RuleModel {
            name: self.name@,
            prefix: self.prefix@,
            argument: match self.argument {
                Some(k) => Some(k as nat),
                None => None,
            },
            suffix: self.suffix@,
        }
    }
}

impl TemplateRule {
    /// The rule that makes `prefix`, the argument with the index `argument`
    /// if one is given, and `suffix` of an invocation of the template `name`.
    pub fn new(name: &str, prefix: &str, argument: Option<usize>, suffix: &str) -> (rule:
        TemplateRule)
        ensures
            rule@ == (RuleModel {
                name: name@,
                prefix: prefix@,
                argument: match argument {
                    Some(k) => Some(k as nat),
                    None => None,
                },
                suffix: suffix@,
            }),
    {
        TemplateRule {
            name: name.to_owned(),
            prefix: prefix.to_owned(),
            argument,
            suffix: suffix.to_owned(),
        }
    }
}

/// The views of the rules of `v`.
pub open spec fn rule_views(v: Seq<TemplateRule>) -> Seq<RuleModel> {
    Seq::new(v.len(), |i: int| v[i]@)
}

/// Whether `{{` stands in `text` at index `at`.
pub open spec fn opens_at(text: Seq<char>, at: int) -> bool {
    0 <= at && at + 1 < text.len() && text[at] == '{' && text[at + 1] == '{'
}

/// Whether `}}` stands in `text` at index `at`.
pub open spec fn closes_at(text: Seq<char>, at: int) -> bool {
    0 <= at && at + 1 < text.len() && text[at] == '}' && text[at + 1] == '}'
}

/// Whether `text[start..end]` is an innermost invocation: it begins with
/// `{{`, ends with `}}`, and between the two no `{{` begins and no `}}` stands.
/// A single `{` or `}` between them is an ordinary character. Written as a
/// pattern, an innermost invocation whose body holds no `{` is what
/// `\{\{((?s:[^{])*?)\}\}` matches.
pub open spec fn is_invocation(text: Seq<char>, start: int, end: int) -> bool {
    &&& opens_at(text, start)
    &&& start + 4 <= end <= text.len()
    &&& closes_at(text, end - 2)
    &&& forall|k: int| start < k < end - 2 ==> !opens_at(text, k)
    &&& forall|k: int| start + 2 <= k < end - 2 ==> !closes_at(text, k)
}

/// The end of the first `}}` at or after `from`, unless a `{{` comes first.
pub open spec fn close_from(text: Seq<char>, from: int) -> Option<int>
    decreases text.len() - from,
{
    if from < 0 || from + 1 >= text.len() {
        None
    } else if closes_at(text, from) {
        Some(from + 2)
    } else if opens_at(text, from) {
        None
    } else {
        close_from(text, from + 1)
    }
}

/// The end of the innermost invocation that begins at `start`, if one does.
pub open spec fn invocation_end(text: Seq<char>, start: int) -> Option<int> {
    if opens_at(text, start) && !opens_at(text, start + 1) {
        close_from(text, start + 2)
    } else {
        None
    }
}

/// What [`close_from`] finds is the first `}}`, and no `{{` begins before it.
/// Where it finds none, a `{{` begins before every `}}`.
pub proof fn lemma_close_from(text: Seq<char>, from: int)
    requires
        0 <= from,
    ensures
        (match close_from(text, from) {
            Some(end) => {
                &&& from + 2 <= end <= text.len()
                &&& closes_at(text, end - 2)
                &&& forall|k: int| from <= k < end - 2 ==> !opens_at(text, k) && !closes_at(text, k)
            },
            None => forall|c: int|
                from <= c && #[trigger] closes_at(text, c) ==> exists|k: int|
                    from <= k < c && #[trigger] opens_at(text, k),
        }),
    decreases text.len() - from,
{
    if from + 1 < text.len() && !closes_at(text, from) && !opens_at(text, from) {
        lemma_close_from(text, from + 1);
    }
}

/// [`invocation_end`] finds exactly the innermost invocations.
pub proof fn lemma_invocation_end(text: Seq<char>, start: int, end: int)
    ensures
        invocation_end(text, start) == Some(end) <==> is_invocation(text, start, end),
{
    if opens_at(text, start) {
        lemma_close_from(text, start + 2);
        if is_invocation(text, start, end) {
            match close_from(text, start + 2) {
                Some(e) => {
                },
                None => {
                },
            }
        }
    }
}

/// Innermost invocations do not overlap: one ends before the next begins.
pub proof fn lemma_invocations_apart(text: Seq<char>, start: int, end: int, next: int, next_end: int)
    requires
        is_invocation(text, start, end),
        is_invocation(text, next, next_end),
        start < next,
    ensures
        end <= next,
{
}

/// Computes [`invocation_end`].
pub fn find_invocation_end(text: &Vec<char>, start: usize) -> (end: Option<usize>)
    ensures
        (match end {
            Some(e) => invocation_end(text@, start as int) == Some(e as int) && start + 4 <= e
                <= text.len(),
            None => invocation_end(text@, start as int) is None,
        }),
{
    let n = text.len();
    if n < 4 || start > n - 4 {
        proof {
            lemma_close_from(text@, start + 2);
        }
        return None;
    }
    if text[start] != '{' || text[start + 1] != '{' || text[start + 2] == '{' {
        return None;
    }
    let mut k: usize = start + 2;
    while k + 1 < n
        invariant
            start + 2 <= k < n == text@.len(),
            opens_at(text@, start as int),
            !opens_at(text@, start + 1),
            close_from(text@, start + 2) == close_from(text@, k as int),
        decreases n - k,
    {
        if text[k] == '}' && text[k + 1] == '}' {
            return Some(k + 2);
        }
        if text[k] == '{' && text[k + 1] == '{' {
            return None;
        }
        k += 1;
    }
    None
}

/// The rule for the template `name`: the first of `rules`, from index `from`
/// on, that has this name.
pub open spec fn find_rule(rules: Seq<RuleModel>, from: int, name: Seq<char>) -> Option<RuleModel>
    decreases rules.len() - from,
{
    if from < 0 || from >= rules.len() {
        None
    } else if rules[from].name == name {
        Some(rules[from])
    } else {
        find_rule(rules, from + 1, name)
    }
}

/// What the rule makes of the arguments `fields`, if it covers them: a rule
/// that takes an argument covers only the invocations that have it.
pub open spec fn rule_output(rule: RuleModel, fields: Seq<Seq<char>>) -> Option<Seq<char>> {
    match rule.argument {
        Some(k) => if k < fields.len() {
            Some(rule.prefix + fields[k as int] + rule.suffix)
        } else {
            None
        },
        None => Some(rule.prefix + rule.suffix),
    }
}

/// What an invocation with the given body stands for, if a rule covers it.
/// The body is what stands between `{{` and `}}`; `|` parts its fields, and
/// the first field is the template's name.
pub open spec fn expansion(rules: Seq<RuleModel>, body: Seq<char>) -> Option<Seq<char>> {
    let fields = fields_of(body, '|');
    match find_rule(rules, 0, fields[0]) {
        Some(rule) => rule_output(rule, fields),
        None => None,
    }
}

/// What replaces the invocation `text[start..end]`: its expansion, or the
/// invocation itself where no rule covers it.
pub open spec fn replacement(rules: Seq<RuleModel>, text: Seq<char>, start: int, end: int) -> Seq<
    char,
> {
    match expansion(rules, text.subrange(start + 2, end - 2)) {
        Some(output) => output,
        None => text.subrange(start, end),
    }
}

/// One pass over `text[from..]`: every innermost invocation is replaced.
pub open spec fn pass_from(rules: Seq<RuleModel>, text: Seq<char>, from: int) -> Seq<char>
    decreases text.len() - from,
{
    if from < 0 || from >= text.len() {
        Seq::empty()
    } else {
        match invocation_end(text, from) {
            Some(end) => {
                proof {
                    lemma_close_from(text, from + 2);
                }
                replacement(rules, text, from, end) + pass_from(rules, text, end)
            },
            None => seq![text[from]] + pass_from(rules, text, from + 1),
        }
    }
}

/// One pass over `text`.
pub open spec fn pass(rules: Seq<RuleModel>, text: Seq<char>) -> Seq<char> {
    pass_from(rules, text, 0)
}

/// The outcome of an expansion: the text, and whether a pass was seen to
/// change nothing. Where the limit was reached first, `resolved` is false and
/// `text` is what the last pass made.
pub struct Expansion {
    pub text: String,
    pub resolved: bool,
}

/// The mathematical value of an [`Expansion`].
pub struct ExpansionModel {
    pub text: Seq<char>,
    pub resolved: bool,
}

impl View for Expansion {
    type V = ExpansionModel;

    open spec fn view(&self) -> ExpansionModel {
        ExpansionModel { text: self.text@, resolved: self.resolved }
    }
}

/// The expansion of `text` with at most `passes` passes.
pub open spec fn expand_spec(rules: Seq<RuleModel>, text: Seq<char>, passes: nat) -> ExpansionModel
    decreases passes,
{
    if passes == 0 {
        ExpansionModel { text, resolved: false }
    } else if pass(rules, text) == text {
        ExpansionModel { text, resolved: true }
    } else {
        expand_spec(rules, pass(rules, text), (passes - 1) as nat)
    }
}

/// The number of passes that [`expand_templates`] is meant to be given where
/// the caller has no reason for another.
pub const PASS_LIMIT: usize = 64;

/// Computes [`find_rule`] from the first rule on.
fn lookup<'a>(rules: &'a Vec<TemplateRule>, name: &String) -> (found: Option<&'a TemplateRule>)
    ensures
        (match found {
            Some(rule) => find_rule(rule_views(rules@), 0, name@) == Some(rule@),
            None => find_rule(rule_views(rules@), 0, name@) is None,
        }),
{
    let mut i: usize = 0;
    while i < rules.len()
        invariant
            i <= rules.len(),
            find_rule(rule_views(rules@), 0, name@) == find_rule(rule_views(rules@), i as int, name@),
        decreases rules.len() - i,
    {
        if rules[i].name == *name {
            return Some(&rules[i]);
        }
        i += 1;
    }
    None
}

/// Computes [`expansion`].
pub fn expand_invocation(rules: &Vec<TemplateRule>, body: &Vec<char>) -> (output: Option<Vec<char>>)
    ensures
        (match output {
            Some(o) => expansion(rule_views(rules@), body@) == Some(o@),
            None => expansion(rule_views(rules@), body@) is None,
        }),
{
    let fields = split_fields(body, '|');
    let name = string_of(&fields[0], 0, fields[0].len());
    assert(name@ == fields@[0]@);
    match lookup(rules, &name) {
        Some(rule) => {
            let mut out = chars_of(rule.prefix.as_str());
            match rule.argument {
                Some(k) => {
                    if k < fields.len() {
                        push_range(&mut out, &fields[k], 0, fields[k].len());
                    } else {
                        return None;
                    }
                },
                None => {},
            }
            let suffix = chars_of(rule.suffix.as_str());
            push_range(&mut out, &suffix, 0, suffix.len());
            Some(out)
        },
        None => None,
    }
}

/// Computes [`pass`].
pub fn expand_pass(rules: &Vec<TemplateRule>, text: &Vec<char>) -> (out: Vec<char>)
    ensures
        out@ == pass(rule_views(rules@), text@),
{
    let mut out: Vec<char> = Vec::new();
    let mut i: usize = 0;
    while i < text.len()
        invariant
            i <= text.len(),
            out@ + pass_from(rule_views(rules@), text@, i as int) == pass(rule_views(rules@), text@),
        decreases text.len() - i,
    {
        match find_invocation_end(text, i) {
            Some(end) => {
                let body = slice_of(text, i + 2, end - 2);
                match expand_invocation(rules, &body) {
                    Some(output) => {
                        push_range(&mut out, &output, 0, output.len());
                    },
                    None => {
                        push_range(&mut out, text, i, end);
                    },
                }
                i = end;
            },
            None => {
                out.push(text[i]);
                i += 1;
            },
        }
    }
    out
}

/// Expands the templates of `text`: passes are made until one changes
/// nothing, and at most `limit` of them.
pub fn expand_templates(text: &str, rules: &Vec<TemplateRule>, limit: usize) -> (outcome: Expansion)
    ensures
        outcome@ == expand_spec(rule_views(rules@), text@, limit as nat),
{
    let mut current = chars_of(text);
    let mut left: usize = limit;
    let mut resolved = false;
    while left > 0 && !resolved
        invariant
            !resolved ==> expand_spec(rule_views(rules@), current@, left as nat) == expand_spec(
                rule_views(rules@),
                text@,
                limit as nat,
            ),
            resolved ==> expand_spec(rule_views(rules@), text@, limit as nat) == (ExpansionModel {
                text: current@,
                resolved: true,
            }),
        decreases left + (if resolved { 0int } else { 1int }),
    {
        let next = expand_pass(rules, &current);
        if same_chars(&next, &current) {
            resolved = true;
        } else {
            current = next;
            left -= 1;
        }
    }
    assert(current@.subrange(0, current@.len() as int) == current@);
    Expansion { text: string_of(&current, 0, current.len()), resolved }
}

/// The rule of the standard table for the template `name`.
pub open spec fn standard_rule(
    name: Seq<char>,
    prefix: Seq<char>,
    argument: Option<nat>,
    suffix: Seq<char>,
) -> RuleModel {
    RuleModel { name, prefix, argument, suffix }
}

/// The standard table.
pub open spec fn standard_rules_spec() -> Seq<RuleModel> {
    seq![
        standard_rule(","@, ","@, None, ""@),
        standard_rule("ngd"@, ""@, Some(1), ""@),
        standard_rule("unsupported"@, ""@, Some(1), ""@),
        standard_rule("non-gloss definition"@, ""@, Some(1), ""@),
        standard_rule("alternative form of"@, "Alternative form of "@, Some(1), ""@),
        standard_rule("ja-romanization of"@, "R\u{14d}maji transcription of "@, Some(1), ""@),
        standard_rule("sumti"@, "x"@, Some(1), ""@),
        standard_rule("ja-def"@, ""@, Some(1), ":"@),
        standard_rule("qualifier"@, "("@, Some(1), ")"@),
        standard_rule("lb"@, "("@, Some(2), ")"@),
        standard_rule("m"@, ""@, Some(2), ""@),
        standard_rule("l"@, ""@, Some(2), ""@),
    ]
}

/// The standard table: the templates that definitions use most.
pub fn standard_rules() -> (rules: Vec<TemplateRule>)
    ensures
        rule_views(rules@) == standard_rules_spec(),
{
    let mut rules: Vec<TemplateRule> = Vec::new();
    rules.push(TemplateRule::new(",", ",", None, ""));
    rules.push(TemplateRule::new("ngd", "", Some(1), ""));
    rules.push(TemplateRule::new("unsupported", "", Some(1), ""));
    rules.push(TemplateRule::new("non-gloss definition", "", Some(1), ""));
    rules.push(TemplateRule::new("alternative form of", "Alternative form of ", Some(1), ""));
    rules.push(
        TemplateRule::new("ja-romanization of", "R\u{14d}maji transcription of ", Some(1), ""),
    );
    rules.push(TemplateRule::new("sumti", "x", Some(1), ""));
    rules.push(TemplateRule::new("ja-def", "", Some(1), ":"));
    rules.push(TemplateRule::new("qualifier", "(", Some(1), ")"));
    rules.push(TemplateRule::new("lb", "(", Some(2), ")"));
    rules.push(TemplateRule::new("m", "", Some(2), ""));
    rules.push(TemplateRule::new("l", "", Some(2), ""));
    rules
}

/// A pass changes nothing in a text in which no rule covers an invocation.
pub proof fn lemma_pass_without_cover(rules: Seq<RuleModel>, text: Seq<char>, from: int)
    requires
        0 <= from <= text.len(),
        forall|start: int, end: int|
            from <= start && #[trigger] is_invocation(text, start, end) ==> expansion(
                rules,
                text.subrange(start + 2, end - 2),
            ) is None,
    ensures
        pass_from(rules, text, from) == text.subrange(from, text.len() as int),
    decreases text.len() - from,
{
    if from < text.len() {
        match invocation_end(text, from) {
            Some(end) => {
                lemma_invocation_end(text, from, end);
                lemma_pass_without_cover(rules, text, end);
            },
            None => {
                lemma_pass_without_cover(rules, text, from + 1);
            },
        }
    }
}

/// Where no rule covers an invocation of `text`, as where every template it
/// invokes is unknown, the first pass changes nothing: the expansion is `text`
/// itself, and it is resolved.
pub proof fn lemma_uncovered_resolves_at_once(rules: Seq<RuleModel>, text: Seq<char>, passes: nat)
    requires
        passes >= 1,
        forall|start: int, end: int| #[trigger]
            is_invocation(text, start, end) ==> expansion(
                rules,
                text.subrange(start + 2, end - 2),
            ) is None,
    ensures
        pass(rules, text) == text,
        expand_spec(rules, text, passes) == (ExpansionModel { text, resolved: true }),
{
    lemma_pass_without_cover(rules, text, 0);
    assert(text.subrange(0, text.len() as int) =~= text);
}

/// An invocation of a template that the table does not name has no expansion.
pub proof fn lemma_unknown_has_no_expansion(rules: Seq<RuleModel>, body: Seq<char>)
    requires
        forall|i: int| 0 <= i < rules.len() ==> (#[trigger] rules[i]).name != fields_of(body, '|')[0],
    ensures
        expansion(rules, body) is None,
{
    lemma_find_rule_none(rules, 0, fields_of(body, '|')[0]);
}

proof fn lemma_find_rule_none(rules: Seq<RuleModel>, from: int, name: Seq<char>)
    requires
        0 <= from,
        forall|i: int| 0 <= i < rules.len() ==> (#[trigger] rules[i]).name != name,
    ensures
        find_rule(rules, from, name) is None,
    decreases rules.len() - from,
{
    if from < rules.len() {
        lemma_find_rule_none(rules, from + 1, name);
    }
}

/// A resolved expansion is a text that a further pass leaves as it is.
pub proof fn lemma_resolved_is_fixed(rules: Seq<RuleModel>, text: Seq<char>, passes: nat)
    ensures
        expand_spec(rules, text, passes).resolved ==> pass(
            rules,
            expand_spec(rules, text, passes).text,
        ) == expand_spec(rules, text, passes).text,
    decreases passes,
{
    if passes > 0 && pass(rules, text) != text {
        lemma_resolved_is_fixed(rules, pass(rules, text), (passes - 1) as nat);
    }
}

/// The limit does not change an expansion that is resolved within it: with
/// more passes allowed the outcome is the same.
pub proof fn lemma_limit_keeps_resolved(
    rules: Seq<RuleModel>,
    text: Seq<char>,
    passes: nat,
    more: nat,
)
    requires
        expand_spec(rules, text, passes).resolved,
        passes <= more,
    ensures
        expand_spec(rules, text, more) == expand_spec(rules, text, passes),
    decreases passes,
{
    if passes > 0 && pass(rules, text) != text {
        lemma_limit_keeps_resolved(
            rules,
            pass(rules, text),
            (passes - 1) as nat,
            (more - 1) as nat,
        );
    }
}

} // verus!
