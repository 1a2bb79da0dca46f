//! The markup cleaner. What is left of the markup after the templates have
//! been expanded is stripped rule by rule: links give their label, comments
//! go, bold and italic text loses its quotes. A rule that finds its opening
//! mark without the rest leaves the text as it is.

use crate::text::{chars_of, has_at, push_range, starts_at, string_of};
use vstd::prelude::*;

verus! {

/// A rule of the cleaner: a piece of markup and how much of it stays.
///
/// The markup begins with `open` and ends with `close`. Where `lead` is
/// `Some((end, stop))`, a lead follows `open`: it holds no `stop` and ends
/// with an `end`, the first one behind which the rest of the markup is found.
/// What stands between the lead, or `open`, and the first `close` is the
/// inner text; it may not hold the character `plain`. The inner text replaces
/// the markup if `keep` is set; else nothing does.
pub struct MarkupRule {
    pub open: Vec<char>,
    pub lead: Option<(char, char)>,
    pub plain: Option<char>,
    pub close: Vec<char>,
    pub keep: bool,
}

/// The mathematical value of a [`MarkupRule`].
pub struct MarkupModel {
    pub open: Seq<char>,
    pub lead: Option<(char, char)>,
    pub plain: Option<char>,
    pub close: Seq<char>,
    pub keep: bool,
}

impl View for MarkupRule {
    type V = MarkupModel;

    open spec fn view(&self) -> MarkupModel {
        MarkupModel {
            open: self.open@,
            lead: self.lead,
            plain: self.plain,
            close: self.close@,
            keep: self.keep,
        }
    }
}

/// The views of the rules of `v`.
pub open spec fn markup_views(v: Seq<MarkupRule>) -> Seq<MarkupModel> {
    Seq::new(v.len(), |i: int| v[i]@)
}

/// A piece of markup in a text: the inner text is `text[from..to]`, and the
/// markup ends before index `end`.
pub struct Found {
    pub from: usize,
    pub to: usize,
    pub end: usize,
}

/// The mathematical value of a [`Found`].
pub struct FoundModel {
    pub from: int,
    pub to: int,
    pub end: int,
}

impl View for Found {
    type V = FoundModel;

    open spec fn view(&self) -> FoundModel {
        FoundModel { from: self.from as int, to: self.to as int, end: self.end as int }
    }
}

/// The first index at or after `from` at which `a` or `b` stands, or the
/// length of `text` if there is none.
pub open spec fn find_either(text: Seq<char>, from: int, a: char, b: char) -> int
    decreases text.len() - from,
{
    if from < 0 || from >= text.len() {
        text.len() as int
    } else if text[from] == a || text[from] == b {
        from
    } else {
        find_either(text, from + 1, a, b)
    }
}

/// Where the inner text ends, if it begins at `from`: at the first place
/// where `close` stands, unless the character `plain` comes first.
pub open spec fn inner_end(rule: MarkupModel, text: Seq<char>, from: int) -> Option<int>
    decreases text.len() - from,
{
    if from < 0 || from > text.len() {
        None
    } else if has_at(text, from, rule.close) {
        Some(from)
    } else if from == text.len() {
        None
    } else if rule.plain == Some(text[from]) {
        None
    } else {
        inner_end(rule, text, from + 1)
    }
}

/// Where the inner text begins and ends behind a lead that begins at index
/// `after`: the lead ends with the first `end` behind which the inner text
/// has an end, and holds no `stop`.
pub open spec fn inner_behind_lead(
    rule: MarkupModel,
    text: Seq<char>,
    after: int,
    end: char,
    stop: char,
) -> Option<(int, int)>
    decreases text.len() - after,
{
    let at = find_either(text, after, end, stop);
    if after < 0 || at >= text.len() || text[at] != end {
        None
    } else {
        match inner_end(rule, text, at + 1) {
            Some(to) => Some((at + 1, to)),
            None => {
                proof {
                    lemma_find_either(text, after, end, stop);
                }
                inner_behind_lead(rule, text, at + 1, end, stop)
            },
        }
    }
}

/// Where the inner text begins and ends, for markup whose opening mark ends
/// before index `after`.
pub open spec fn inner_bounds(rule: MarkupModel, text: Seq<char>, after: int) -> Option<(int, int)> {
    match rule.lead {
        Some((end, stop)) => inner_behind_lead(rule, text, after, end, stop),
        None => match inner_end(rule, text, after) {
            Some(to) => Some((after, to)),
            None => None,
        },
    }
}

/// The markup of the rule that begins at index `at`, if any does.
pub open spec fn match_at(rule: MarkupModel, text: Seq<char>, at: int) -> Option<FoundModel> {
    if rule.open.len() > 0 && has_at(text, at, rule.open) {
        match inner_bounds(rule, text, at + rule.open.len()) {
            Some((from, to)) => Some(FoundModel { from, to, end: to + rule.close.len() }),
            None => None,
        }
    } else {
        None
    }
}

/// What replaces a piece of markup.
pub open spec fn kept_text(rule: MarkupModel, text: Seq<char>, found: FoundModel) -> Seq<char> {
    if rule.keep {
        text.subrange(found.from, found.to)
    } else {
        Seq::empty()
    }
}

/// The parts of a piece of markup stand in order and within the text, and
/// the markup is longer than its inner text.
pub proof fn lemma_match_at(rule: MarkupModel, text: Seq<char>, at: int)
    ensures
        (match_at(rule, text, at) matches Some(found) ==> {
            &&& 0 <= at < found.from <= found.to <= found.end <= text.len()
            &&& found.from >= at + rule.open.len()
            &&& found.end == found.to + rule.close.len()
        }),
{
    if rule.open.len() > 0 && has_at(text, at, rule.open) {
        let after = at + rule.open.len();
        match rule.lead {
            Some((end, stop)) => {
                lemma_inner_behind_lead(rule, text, after, end, stop);
            },
            None => {
                lemma_inner_end(rule, text, after);
            },
        }
    }
}

pub proof fn lemma_find_either(text: Seq<char>, from: int, a: char, b: char)
    requires
        0 <= from <= text.len(),
    ensures
        from <= find_either(text, from, a, b) <= text.len(),
    decreases text.len() - from,
{
    if from < text.len() && text[from] != a && text[from] != b {
        lemma_find_either(text, from + 1, a, b);
    }
}

/// Whether the inner text may go on over index `at`: `close` does not stand
/// there, and the character there is not `plain`.
pub open spec fn goes_on(rule: MarkupModel, text: Seq<char>, at: int) -> bool {
    !has_at(text, at, rule.close) && rule.plain != Some(text[at])
}

/// The inner text ends at the first place where `close` stands, and holds
/// no character `plain`.
pub proof fn lemma_inner_end(rule: MarkupModel, text: Seq<char>, from: int)
    ensures
        (inner_end(rule, text, from) matches Some(to) ==> {
            &&& 0 <= from <= to
            &&& to + rule.close.len() <= text.len()
            &&& has_at(text, to, rule.close)
            &&& forall|k: int| from <= k < to ==> #[trigger] goes_on(rule, text, k)
        }),
    decreases text.len() - from,
{
    if 0 <= from < text.len() && !has_at(text, from, rule.close) && rule.plain != Some(text[from]) {
        lemma_inner_end(rule, text, from + 1);
    }
}

/// Where `close` stands at `to`, and the inner text may go on over every
/// index from `from` to there, the inner text ends at `to`.
pub proof fn lemma_inner_end_found(rule: MarkupModel, text: Seq<char>, from: int, to: int)
    requires
        0 <= from <= to,
        has_at(text, to, rule.close),
        forall|k: int| from <= k < to ==> #[trigger] goes_on(rule, text, k),
    ensures
        inner_end(rule, text, from) == Some(to),
    decreases to - from,
{
    if from < to {
        assert(goes_on(rule, text, from));
        lemma_inner_end_found(rule, text, from + 1, to);
    }
}

proof fn lemma_inner_behind_lead(
    rule: MarkupModel,
    text: Seq<char>,
    after: int,
    end: char,
    stop: char,
)
    requires
        0 <= after <= text.len(),
    ensures
        inner_behind_lead(rule, text, after, end, stop) matches Some((from, to)) ==> after < from
            <= to && to + rule.close.len() <= text.len(),
    decreases text.len() - after,
{
    let at = find_either(text, after, end, stop);
    lemma_find_either(text, after, end, stop);
    if at < text.len() && text[at] == end {
        lemma_inner_end(rule, text, at + 1);
        if inner_end(rule, text, at + 1) is None {
            lemma_inner_behind_lead(rule, text, at + 1, end, stop);
        }
    }
}

/// The text `text[from..]` after the rule has been applied to it: from left
/// to right, each piece of markup that begins where the one before has ended,
/// or later, is replaced.
pub open spec fn strip_from(rule: MarkupModel, text: Seq<char>, from: int) -> Seq<char>
    decreases text.len() - from,
{
    if from < 0 || from >= text.len() {
        Seq::empty()
    } else {
        match match_at(rule, text, from) {
            Some(found) => {
                proof {
                    lemma_match_at(rule, text, from);
                }
                kept_text(rule, text, found) + strip_from(rule, text, found.end)
            },
            None => seq![text[from]] + strip_from(rule, text, from + 1),
        }
    }
}

/// The text after the rule has been applied to it.
pub open spec fn strip(rule: MarkupModel, text: Seq<char>) -> Seq<char> {
    strip_from(rule, text, 0)
}

/// The text after the first `n` of `rules` have been applied, each to what
/// the one before has made.
pub open spec fn strip_first(rules: Seq<MarkupModel>, n: nat, text: Seq<char>) -> Seq<char>
    decreases n,
{
    if n == 0 || n > rules.len() {
        text
    } else {
        strip(rules[n - 1], strip_first(rules, (n - 1) as nat, text))
    }
}

/// The text after all of `rules` have been applied, in order.
pub open spec fn strip_all(rules: Seq<MarkupModel>, text: Seq<char>) -> Seq<char> {
    strip_first(rules, rules.len(), text)
}

/// The first piece of markup of the rule that begins at index `from` or
/// later.
pub open spec fn first_match(rule: MarkupModel, text: Seq<char>, from: int) -> Option<FoundModel>
    decreases text.len() - from,
{
    if from < 0 || from >= text.len() {
        None
    } else {
        match match_at(rule, text, from) {
            Some(found) => Some(found),
            None => first_match(rule, text, from + 1),
        }
    }
}

/// Computes [`find_either`].
fn index_of_either(text: &Vec<char>, from: usize, a: char, b: char) -> (at: usize)
    requires
        from <= text.len(),
    ensures
        at == find_either(text@, from as int, a, b),
        from <= at <= text.len(),
{
    let mut i: usize = from;
    while i < text.len() && text[i] != a && text[i] != b
        invariant
            from <= i <= text.len(),
            find_either(text@, from as int, a, b) == find_either(text@, i as int, a, b),
        decreases text.len() - i,
    {
        i += 1;
    }
    i
}

/// Computes [`inner_end`].
fn find_inner_end(rule: &MarkupRule, text: &Vec<char>, from: usize) -> (to: Option<usize>)
    requires
        from <= text.len(),
    ensures
        (match to {
            Some(t) => inner_end(rule@, text@, from as int) == Some(t as int) && from <= t
                && t + rule.close@.len() <= text.len(),
            None => inner_end(rule@, text@, from as int) is None,
        }),
{
    let mut k: usize = from;
    loop
        invariant
            from <= k <= text.len(),
            inner_end(rule@, text@, from as int) == inner_end(rule@, text@, k as int),
        decreases text.len() - k,
    {
        if starts_at(text, k, &rule.close) {
            return Some(k);
        }
        if k == text.len() {
            return None;
        }
        match rule.plain {
            Some(c) => {
                if text[k] == c {
                    return None;
                }
            },
            None => {},
        }
        k += 1;
    }
}

/// Computes [`match_at`].
pub fn find_markup(rule: &MarkupRule, text: &Vec<char>, at: usize) -> (found: Option<Found>)
    ensures
        (match found {
            Some(f) => match_at(rule@, text@, at as int) == Some(f@),
            None => match_at(rule@, text@, at as int) is None,
        }),
{
    if rule.open.len() == 0 || !starts_at(text, at, &rule.open) {
        return None;
    }
    let n = text.len();
    let after = at + rule.open.len();
    match rule.lead {
        Some((end, stop)) => {
            let mut lead: usize = after;
            loop
                invariant
                    after <= lead <= n == text.len(),
                    rule@.lead == Some((end, stop)),
                    rule@.open.len() > 0,
                    has_at(text@, at as int, rule@.open),
                    at + rule@.open.len() == after,
                    inner_behind_lead(rule@, text@, after as int, end, stop) == inner_behind_lead(
                        rule@,
                        text@,
                        lead as int,
                        end,
                        stop,
                    ),
                decreases n - lead,
            {
                let bar = index_of_either(text, lead, end, stop);
                if bar >= n || text[bar] != end {
                    return None;
                }
                match find_inner_end(rule, text, bar + 1) {
                    Some(to) => {
                        return Some(Found { from: bar + 1, to, end: to + rule.close.len() });
                    },
                    None => {},
                }
                lead = bar + 1;
            }
        },
        None => match find_inner_end(rule, text, after) {
            Some(to) => Some(Found { from: after, to, end: to + rule.close.len() }),
            None => None,
        },
    }
}

/// Applies a rule to a text.
pub fn strip_markup(rule: &MarkupRule, text: &Vec<char>) -> (out: Vec<char>)
    ensures
        out@ == strip(rule@, text@),
{
    let mut out: Vec<char> = Vec::new();
    let mut i: usize = 0;
    while i < text.len()
        invariant
            i <= text.len(),
            out@ + strip_from(rule@, text@, i as int) == strip(rule@, text@),
        decreases text.len() - i,
    {
        match find_markup(rule, text, i) {
            Some(found) => {
                proof {
                    lemma_match_at(rule@, text@, i as int);
                }
                if rule.keep {
                    push_range(&mut out, text, found.from, found.to);
                }
                i = found.end;
            },
            None => {
                out.push(text[i]);
                i += 1;
            },
        }
    }
    out
}

/// Applies the rules to a text, one after the other.
pub fn strip_each(rules: &Vec<MarkupRule>, text: Vec<char>) -> (out: Vec<char>)
    ensures
        out@ == strip_all(markup_views(rules@), text@),
{
    let mut current = text;
    let mut i: usize = 0;
    while i < rules.len()
        invariant
            i <= rules.len(),
            current@ == strip_first(markup_views(rules@), i as nat, text@),
        decreases rules.len() - i,
    {
        current = strip_markup(&rules[i], &current);
        i += 1;
    }
    current
}

/// The rules of the cleaner, in the order in which they are applied: a link
/// with a label, `[[target|label]]`, gives the label; a link without,
/// `[[target]]`, the target; a comment, `<!--...-->`, nothing; bold text,
/// `'''text'''`, and italic text, `''text''`, the text. What a link gives
/// does not reach over the end of a line, and bold or italic text holds no
/// quote.
///
/// Written as patterns, the five pieces of markup are
/// `\[\[[^\]]*?\|(.*?)\]\]`, `\[\[(.*?)\]\]`, `<!--(?s:.)*?-->`,
/// `'''([^']*?)'''` and `''([^']*?)''`: each rule replaces, from left to
/// right, what its pattern matches by what the brackets in it hold.
pub open spec fn standard_markup_spec() -> Seq<MarkupModel> {
    seq![
        MarkupModel {
            open: seq!['[', '['],
            lead: Some(('|', ']')),
            plain: Some('\n'),
            close: seq![']', ']'],
            keep: true,
        },
        MarkupModel {
            open: seq!['[', '['],
            lead: None,
            plain: Some('\n'),
            close: seq![']', ']'],
            keep: true,
        },
        MarkupModel {
            open: seq!['<', '!', '-', '-'],
            lead: None,
            plain: None,
            close: seq!['-', '-', '>'],
            keep: false,
        },
        MarkupModel {
            open: seq!['\'', '\'', '\''],
            lead: None,
            plain: Some('\''),
            close: seq!['\'', '\'', '\''],
            keep: true,
        },
        MarkupModel {
            open: seq!['\'', '\''],
            lead: None,
            plain: Some('\''),
            close: seq!['\'', '\''],
            keep: true,
        },
    ]
}

/// The rules of the cleaner.
pub fn standard_markup() -> (rules: Vec<MarkupRule>)
    ensures
        markup_views(rules@) == standard_markup_spec(),
{
    let mut rules: Vec<MarkupRule> = Vec::new();
    rules.push(
        MarkupRule {
            open: vec!['[', '['],
            lead: Some(('|', ']')),
            plain: Some('\n'),
            close: vec![']', ']'],
            keep: true,
        },
    );
    rules.push(
        MarkupRule {
            open: vec!['[', '['],
            lead: None,
            plain: Some('\n'),
            close: vec![']', ']'],
            keep: true,
        },
    );
    rules.push(
        MarkupRule {
            open: vec!['<', '!', '-', '-'],
            lead: None,
            plain: None,
            close: vec!['-', '-', '>'],
            keep: false,
        },
    );
    rules.push(
        MarkupRule {
            open: vec!['\'', '\'', '\''],
            lead: None,
            plain: Some('\''),
            close: vec!['\'', '\'', '\''],
            keep: true,
        },
    );
    rules.push(
        MarkupRule {
            open: vec!['\'', '\''],
            lead: None,
            plain: Some('\''),
            close: vec!['\'', '\''],
            keep: true,
        },
    );
    rules
}

/// The text after the cleaner has run over it.
pub open spec fn clean_spec(text: Seq<char>) -> Seq<char> {
    strip_all(standard_markup_spec(), text)
}

/// Strips the markup of `text`.
pub fn clean(text: &str) -> (out: String)
    ensures
        out@ == clean_spec(text@),
{
    let rules = standard_markup();
    let stripped = strip_each(&rules, chars_of(text));
    string_of(&stripped, 0, stripped.len())
}

/// Whether no markup of any of `rules` stands in `text`.
pub open spec fn is_clean(rules: Seq<MarkupModel>, text: Seq<char>) -> bool {
    forall|r: int, at: int| 0 <= r < rules.len() ==> #[trigger] match_at(rules[r], text, at) is None
}

/// A rule leaves a text without its markup as it is.
pub proof fn lemma_strip_unmarked(rule: MarkupModel, text: Seq<char>, from: int)
    requires
        0 <= from <= text.len(),
        forall|at: int| from <= at ==> #[trigger] match_at(rule, text, at) is None,
    ensures
        strip_from(rule, text, from) == text.subrange(from, text.len() as int),
    decreases text.len() - from,
{
    if from < text.len() {
        lemma_strip_unmarked(rule, text, from + 1);
    }
}

/// A rule never makes a text longer, and makes it shorter where its markup
/// stands in the text.
pub proof fn lemma_strip_shrinks(rule: MarkupModel, text: Seq<char>, from: int)
    requires
        0 <= from <= text.len(),
    ensures
        strip_from(rule, text, from).len() <= text.len() - from,
        strip_from(rule, text, from).len() == text.len() - from ==> forall|at: int|
            from <= at ==> #[trigger] match_at(rule, text, at) is None,
    decreases text.len() - from,
{
    if from < text.len() {
        match match_at(rule, text, from) {
            Some(found) => {
                lemma_match_at(rule, text, from);
                lemma_strip_shrinks(rule, text, found.end);
            },
            None => {
                lemma_strip_shrinks(rule, text, from + 1);
            },
        }
    }
}

/// The first `n` rules never make a text longer; and if they leave its
/// length, they leave the text, and it holds no markup of theirs.
pub proof fn lemma_strip_first(rules: Seq<MarkupModel>, n: nat, text: Seq<char>)
    requires
        n <= rules.len(),
    ensures
        strip_first(rules, n, text).len() <= text.len(),
        (strip_first(rules, n, text).len() == text.len() ==> {
            &&& strip_first(rules, n, text) == text
            &&& forall|r: int, at: int| 0 <= r < n ==> #[trigger] match_at(rules[r], text, at) is None
        }),
    decreases n,
{
    if n > 0 {
        let earlier = strip_first(rules, (n - 1) as nat, text);
        lemma_strip_first(rules, (n - 1) as nat, text);
        lemma_strip_shrinks(rules[n - 1], earlier, 0);
        if strip_first(rules, n, text).len() == text.len() {
            lemma_strip_unmarked(rules[n - 1], text, 0);
        }
    }
}

/// The first `n` rules leave a text without markup as it is.
proof fn lemma_strip_first_clean(rules: Seq<MarkupModel>, n: nat, text: Seq<char>)
    requires
        n <= rules.len(),
        is_clean(rules, text),
    ensures
        strip_first(rules, n, text) == text,
    decreases n,
{
    if n > 0 {
        lemma_strip_first_clean(rules, (n - 1) as nat, text);
        lemma_strip_unmarked(rules[n - 1], text, 0);
    }
}

/// The rules leave a text as it is if and only if it holds no markup of
/// theirs.
pub proof fn lemma_unchanged_iff_clean(rules: Seq<MarkupModel>, text: Seq<char>)
    ensures
        strip_all(rules, text) == text <==> is_clean(rules, text),
{
    lemma_strip_first(rules, rules.len(), text);
    if is_clean(rules, text) {
        lemma_strip_first_clean(rules, rules.len(), text);
    }
}

/// Applying the rules a second time changes nothing, where the first time
/// has left no markup. Markup can be left when stripping uncovers it: from
/// `[[[[a]]]]` the first time makes `[[a]]`, and the second `a`.
pub proof fn lemma_strip_twice(rules: Seq<MarkupModel>, text: Seq<char>)
    requires
        is_clean(rules, strip_all(rules, text)),
    ensures
        strip_all(rules, strip_all(rules, text)) == strip_all(rules, text),
{
    lemma_unchanged_iff_clean(rules, strip_all(rules, text));
}

/// The cleaner changes nothing in a text that holds no markup, however often
/// it runs.
pub proof fn lemma_clean_keeps_clean(text: Seq<char>)
    requires
        is_clean(standard_markup_spec(), text),
    ensures
        clean_spec(text) == text,
        clean_spec(clean_spec(text)) == text,
{
    lemma_unchanged_iff_clean(standard_markup_spec(), text);
}

/// The cleaner changes nothing in what it has cleaned, where that holds no
/// markup; and it changes every text that holds markup.
pub proof fn lemma_clean_twice(text: Seq<char>)
    ensures
        is_clean(standard_markup_spec(), clean_spec(text)) <==> clean_spec(clean_spec(text))
            == clean_spec(text),
{
    lemma_unchanged_iff_clean(standard_markup_spec(), clean_spec(text));
}

} // verus!
