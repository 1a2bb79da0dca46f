//! The structural parser: headings open and close sections, and a definition
//! line is kept when the sections around it name a language and a part of
//! speech.

use crate::text::{chars_of, lines_of, optional_view, split_lines, string_of, views};
use crate::vocabulary::Vocabulary;
use crate::{meaning_views, Meaning, MeaningModel};
use vstd::prelude::*;

verus! {

/// A heading and the section it opens. The number in the variant's name is
/// the heading's level: 1 opens the widest section, 6 the narrowest.
#[derive(Debug, PartialEq)]
pub enum WikiContext {
    Heading1(String),
    Heading2(String),
    Heading3(String),
    Heading4(String),
    Heading5(String),
    Heading6(String),
}

/// The mathematical value of a heading: its level and its text.
pub struct HeadingModel {
    pub level: nat,
    pub text: Seq<char>,
}

impl View for WikiContext {
    type V = HeadingModel;

    open spec fn view(&self) -> HeadingModel {
        match self {
            WikiContext::Heading1(t) => HeadingModel { level: 1, text: t@ },
            WikiContext::Heading2(t) => HeadingModel { level: 2, text: t@ },
            WikiContext::Heading3(t) => HeadingModel { level: 3, text: t@ },
            WikiContext::Heading4(t) => HeadingModel { level: 4, text: t@ },
            WikiContext::Heading5(t) => HeadingModel { level: 5, text: t@ },
            WikiContext::Heading6(t) => HeadingModel { level: 6, text: t@ },
        }
    }
}

impl WikiContext {
    /// The heading's level.
    pub fn precedence(&self) -> (level: u32)
        ensures
            level == self@.level,
            1 <= level <= 6,
    {
        match self {
            WikiContext::Heading1(_) => 1,
            WikiContext::Heading2(_) => 2,
            WikiContext::Heading3(_) => 3,
            WikiContext::Heading4(_) => 4,
            WikiContext::Heading5(_) => 5,
            WikiContext::Heading6(_) => 6,
        }
    }

    /// The heading's text.
    pub fn text(&self) -> (text: &String)
        ensures
            text@ == self@.text,
    {
        match self {
            WikiContext::Heading1(x) => x,
            WikiContext::Heading2(x) => x,
            WikiContext::Heading3(x) => x,
            WikiContext::Heading4(x) => x,
            WikiContext::Heading5(x) => x,
            WikiContext::Heading6(x) => x,
        }
    }

    /// The heading of the given level and text, if the level is one of 1 to 6.
    pub fn with_level(level: usize, text: String) -> (heading: Option<WikiContext>)
        ensures
            1 <= level <= 6 <==> heading is Some,
            heading matches Some(h) ==> h@ == (HeadingModel { level: level as nat, text: text@ }),
    {
        if level == 1 {
            Some(WikiContext::Heading1(text))
        } else if level == 2 {
            Some(WikiContext::Heading2(text))
        } else if level == 3 {
            Some(WikiContext::Heading3(text))
        } else if level == 4 {
            Some(WikiContext::Heading4(text))
        } else if level == 5 {
            Some(WikiContext::Heading5(text))
        } else if level == 6 {
            Some(WikiContext::Heading6(text))
        } else {
            None
        }
    }
}

/// The sections that are open at some line of a page, widest first, and the
/// language and the part of speech that they currently name.
pub struct ContextStack {
    contexts: Vec<WikiContext>,
    pub language: Option<String>,
    pub part_of_speech: Option<String>,
}

/// The mathematical value of a [`ContextStack`].
pub struct StackModel {
    pub contexts: Seq<HeadingModel>,
    pub language: Option<Seq<char>>,
    pub part_of_speech: Option<Seq<char>>,
}

/// The views of the headings of `v`.
pub open spec fn heading_views(v: Seq<WikiContext>) -> Seq<HeadingModel> {
    Seq::new(v.len(), |i: int| v[i]@)
}

/// From the bottom of the stack to its top the levels grow strictly.
pub open spec fn levels_increase(contexts: Seq<HeadingModel>) -> bool {
    forall|i: int, j: int| 0 <= i < j < contexts.len() ==> contexts[i].level < contexts[j].level
}

/// A binding, if there is one, is the text of a heading on the stack.
pub open spec fn bound_on(binding: Option<Seq<char>>, contexts: Seq<HeadingModel>) -> bool {
    binding matches Some(t) ==> exists|i: int| 0 <= i < contexts.len() && contexts[i].text == t
}

/// Whether a stack is well formed. The stacks that [`ContextStack::new`] and
/// [`ContextStack::apply`] produce are.
pub open spec fn stack_wf(s: StackModel) -> bool {
    &&& levels_increase(s.contexts)
    &&& bound_on(s.language, s.contexts)
    &&& bound_on(s.part_of_speech, s.contexts)
}

/// How many headings stay on the stack when a heading of `level` arrives:
/// those on top whose level is `level` or more leave.
pub open spec fn kept(contexts: Seq<HeadingModel>, level: nat) -> nat
    decreases contexts.len(),
{
    if contexts.len() == 0 {
        0
    } else if contexts.last().level >= level {
        kept(contexts.drop_last(), level)
    } else {
        contexts.len()
    }
}

/// Whether one of `contexts[from..]` has the text `text`.
pub open spec fn leaves_with(contexts: Seq<HeadingModel>, from: int, text: Seq<char>) -> bool {
    exists|i: int| from <= i < contexts.len() && #[trigger] contexts[i].text == text
}

/// A binding after the headings `contexts[from..]` have left the stack: it is
/// cleared if one of them has its text.
pub open spec fn after_leave(
    binding: Option<Seq<char>>,
    contexts: Seq<HeadingModel>,
    from: int,
) -> Option<Seq<char>> {
    match binding {
        Some(t) => if leaves_with(contexts, from, t) {
            None
        } else {
            Some(t)
        },
        None => None,
    }
}

/// A binding after a heading with `text` has arrived: it is set to the text
/// if the vocabulary holds it.
pub open spec fn after_arrive(
    binding: Option<Seq<char>>,
    text: Seq<char>,
    vocabulary: Set<Seq<char>>,
) -> Option<Seq<char>> {
    if vocabulary.contains(text) {
        Some(text)
    } else {
        binding
    }
}

/// The stack after the heading `context` has been applied to `s`.
pub open spec fn apply_spec(
    s: StackModel,
    context: HeadingModel,
    languages: Set<Seq<char>>,
    parts_of_speech: Set<Seq<char>>,
) -> StackModel {
    let k = kept(s.contexts, context.level) as int;
    StackModel {
        contexts: s.contexts.take(k).push(context),
        language: after_arrive(after_leave(s.language, s.contexts, k), context.text, languages),
        part_of_speech: after_arrive(
            after_leave(s.part_of_speech, s.contexts, k),
            context.text,
            parts_of_speech,
        ),
    }
}

/// The headings that leave are those from index `kept` on, and the one below
/// them, if any, has a smaller level.
pub proof fn lemma_kept(contexts: Seq<HeadingModel>, level: nat)
    ensures
        kept(contexts, level) <= contexts.len(),
        forall|i: int| kept(contexts, level) <= i < contexts.len() ==> contexts[i].level >= level,
        kept(contexts, level) > 0 ==> contexts[kept(contexts, level) - 1].level < level,
    decreases contexts.len(),
{
    if contexts.len() > 0 && contexts.last().level >= level {
        let below = contexts.drop_last();
        lemma_kept(below, level);
        assert forall|i: int| kept(contexts, level) <= i < contexts.len() implies contexts[i].level
            >= level by {
            if i < below.len() {
                assert(below[i] == contexts[i]);
            }
        }
    }
}

impl View for ContextStack {
    type V = StackModel;

    closed spec fn view(&self) -> StackModel {
        StackModel {
            contexts: heading_views(self.contexts@),
            language: optional_view(self.language),
            part_of_speech: optional_view(self.part_of_speech),
        }
    }
}

impl ContextStack {
    /// Whether the stack is well formed.
    pub open spec fn wf(&self) -> bool {
        stack_wf(self@)
    }

    /// The empty stack, with nothing bound.
    pub fn new() -> (stack: ContextStack)
        ensures
            stack@ == (StackModel { contexts: Seq::empty(), language: None, part_of_speech: None }),
            stack.wf(),
    {
        let stack = ContextStack { contexts: Vec::new(), language: None, part_of_speech: None };
        assert(heading_views(stack.contexts@) =~= Seq::empty());
        stack
    }

    /// The number of open sections.
    pub fn depth(&self) -> (depth: usize)
        ensures
            depth == self@.contexts.len(),
    {
        self.contexts.len()
    }

    /// The heading of the narrowest open section.
    pub fn top(&self) -> (top: Option<&WikiContext>)
        ensures
            (match top {
                Some(heading) => self@.contexts.len() > 0 && self@.contexts.last() == heading@,
                None => self@.contexts.len() == 0,
            }),
    {
        if self.contexts.len() == 0 {
            None
        } else {
            Some(&self.contexts[self.contexts.len() - 1])
        }
    }

    /// Applies a heading: the headings on top whose level is that of
    /// `context` or more leave, and each clears the binding that has its text;
    /// then `context` sets the bindings whose vocabulary holds its text, and is
    /// pushed.
    pub fn apply(
        &mut self,
        context: WikiContext,
        languages: &Vocabulary,
        parts_of_speech: &Vocabulary,
    )
        ensures
            final(self)@ == apply_spec(old(self)@, context@, languages@, parts_of_speech@),
            final(self)@.contexts.last() == context@,
            levels_increase(old(self)@.contexts) ==> levels_increase(final(self)@.contexts),
            old(self).wf() ==> final(self).wf(),
    {
        let new_prec = context.precedence();
        let ghost before = self@;
        let ghost level = context@.level;
        while self.contexts.len() > 0 && self.contexts[self.contexts.len() - 1].precedence()
            >= new_prec
            invariant
                new_prec == level,
                before == old(self)@,
                self@.contexts.len() <= before.contexts.len(),
                self@.contexts == before.contexts.take(self@.contexts.len() as int),
                kept(self@.contexts, level) == kept(before.contexts, level),
                self@.language == after_leave(
                    before.language,
                    before.contexts,
                    self@.contexts.len() as int,
                ),
                self@.part_of_speech == after_leave(
                    before.part_of_speech,
                    before.contexts,
                    self@.contexts.len() as int,
                ),
            decreases self.contexts.len(),
        {
            let ghost n = self@.contexts.len() as int;
            let ghost here = self@;
            let popped = self.contexts.pop().unwrap();
            assert(heading_views(self.contexts@) == here.contexts.drop_last());
            let clear_language = match &self.language {
                Some(l) => *l == *popped.text(),
                None => false,
            };
            if clear_language {
                self.language = None;
            }
            let clear_part = match &self.part_of_speech {
                Some(p) => *p == *popped.text(),
                None => false,
            };
            if clear_part {
                self.part_of_speech = None;
            }
            proof {
                lemma_leave_one_more(before.language, before.contexts, n - 1);
                lemma_leave_one_more(before.part_of_speech, before.contexts, n - 1);
            }
        }
        proof {
            lemma_kept(before.contexts, level);
            lemma_kept(self@.contexts, level);
        }
        if languages.contains(context.text().as_str()) {
            self.language = Some(context.text().clone());
        }
        if parts_of_speech.contains(context.text().as_str()) {
            self.part_of_speech = Some(context.text().clone());
        }
        let ghost shorter = self@.contexts;
        self.contexts.push(context);
        proof {
            assert(self@.contexts == shorter.push(context@));
            lemma_apply_wf(before, context@, languages@, parts_of_speech@);
        }
    }
}

/// Releasing the heading at `from` as well clears a binding that has its
/// text, and changes nothing else.
proof fn lemma_leave_one_more(binding: Option<Seq<char>>, contexts: Seq<HeadingModel>, from: int)
    requires
        0 <= from < contexts.len(),
    ensures
        (after_leave(binding, contexts, from) == match after_leave(binding, contexts, from + 1) {
            Some(t) => if contexts[from].text == t {
                None
            } else {
                Some(t)
            },
            None => None,
        }),
{
}

/// After a heading has been applied, it is on top of the stack. If the levels
/// grew strictly from the bottom of the stack to its top, they still do; and
/// if the stack was well formed, it still is.
pub proof fn lemma_apply_wf(
    s: StackModel,
    context: HeadingModel,
    languages: Set<Seq<char>>,
    parts_of_speech: Set<Seq<char>>,
)
    ensures
        apply_spec(s, context, languages, parts_of_speech).contexts.last() == context,
        levels_increase(s.contexts) ==> levels_increase(
            apply_spec(s, context, languages, parts_of_speech).contexts,
        ),
        stack_wf(s) ==> stack_wf(apply_spec(s, context, languages, parts_of_speech)),
{
    let after = apply_spec(s, context, languages, parts_of_speech);
    lemma_kept(s.contexts, context.level);
    if levels_increase(s.contexts) {
        assert(levels_increase(after.contexts));
    }
    if stack_wf(s) {
        lemma_bound_after(s.language, s.contexts, context, languages);
        lemma_bound_after(s.part_of_speech, s.contexts, context, parts_of_speech);
    }
}

/// A binding that was the text of a heading on the stack is, after a heading
/// has been applied, again the text of a heading on the stack.
proof fn lemma_bound_after(
    binding: Option<Seq<char>>,
    contexts: Seq<HeadingModel>,
    context: HeadingModel,
    vocabulary: Set<Seq<char>>,
)
    requires
        bound_on(binding, contexts),
    ensures
        bound_on(
            after_arrive(
                after_leave(binding, contexts, kept(contexts, context.level) as int),
                context.text,
                vocabulary,
            ),
            contexts.take(kept(contexts, context.level) as int).push(context),
        ),
{
    let k = kept(contexts, context.level) as int;
    lemma_kept(contexts, context.level);
    let after = contexts.take(k).push(context);
    if vocabulary.contains(context.text) {
        assert(after[k].text == context.text);
    } else if let Some(t) = after_leave(binding, contexts, k) {
        let i = choose|i: int| 0 <= i < contexts.len() && contexts[i].text == t;
        assert(after[i].text == t);
    }
}

/// The number of `=` that stand in `line` from index `from` on without a gap.
pub open spec fn leading_run(line: Seq<char>, from: int) -> nat
    decreases line.len() - from,
{
    if 0 <= from < line.len() && line[from] == '=' {
        1 + leading_run(line, from + 1)
    } else {
        0
    }
}

/// The number of `=` that stand in `line` before index `to` without a gap.
pub open spec fn trailing_run(line: Seq<char>, to: int) -> nat
    decreases to,
{
    if 0 < to <= line.len() && line[to - 1] == '=' {
        1 + trailing_run(line, to - 1)
    } else {
        0
    }
}

/// The heading that `line` is, if it is one: it begins with one to six `=`,
/// ends with as many, and holds at least one character between the two runs.
/// Those characters are the heading's text.
pub open spec fn heading_of(line: Seq<char>) -> Option<HeadingModel> {
    let lead = leading_run(line, 0);
    let trail = trailing_run(line, line.len() as int);
    if 1 <= lead <= 6 && lead == trail && lead + trail < line.len() {
        Some(HeadingModel { level: lead, text: line.subrange(lead as int, line.len() - trail) })
    } else {
        None
    }
}

/// Whether `line` begins with the marker of a definition, `# `.
pub open spec fn is_definition(line: Seq<char>) -> bool {
    line.len() >= 2 && line[0] == '#' && line[1] == ' '
}

/// Reads `line` as a heading.
pub fn parse_heading(line: &Vec<char>) -> (heading: Option<WikiContext>)
    ensures
        (match heading {
            Some(h) => heading_of(line@) == Some(h@),
            None => heading_of(line@) is None,
        }),
{
    let n = line.len();
    let mut lead: usize = 0;
    while lead < n && line[lead] == '='
        invariant
            lead <= n == line@.len(),
            leading_run(line@, 0) == lead + leading_run(line@, lead as int),
        decreases n - lead,
    {
        lead += 1;
    }
    let mut rest: usize = n;
    while rest > 0 && line[rest - 1] == '='
        invariant
            rest <= n == line@.len(),
            trailing_run(line@, n as int) == (n - rest) + trailing_run(line@, rest as int),
        decreases rest,
    {
        rest -= 1;
    }
    let trail = n - rest;
    if lead >= 1 && lead <= 6 && lead == trail && lead < rest {
        let text = string_of(line, lead, rest);
        WikiContext::with_level(lead, text)
    } else {
        None
    }
}

/// The state of the parser between two lines of a page: the open sections and
/// the meanings found so far.
pub struct ParseModel {
    pub stack: StackModel,
    pub meanings: Seq<MeaningModel>,
}

/// The state in which the parser starts a page.
pub open spec fn initial_state() -> ParseModel {
    ParseModel {
        stack: StackModel { contexts: Seq::empty(), language: None, part_of_speech: None },
        meanings: Seq::empty(),
    }
}

/// The state after `line` has been read in `state`. A heading is applied to
/// the stack. A definition line adds a meaning if a language and a part of
/// speech are bound. Any other line changes nothing.
pub open spec fn read_line(
    state: ParseModel,
    line: Seq<char>,
    languages: Set<Seq<char>>,
    parts_of_speech: Set<Seq<char>>,
) -> ParseModel {
    match heading_of(line) {
        Some(h) => ParseModel {
            stack: apply_spec(state.stack, h, languages, parts_of_speech),
            meanings: state.meanings,
        },
        None => match (state.stack.language, state.stack.part_of_speech) {
            (Some(language), Some(part_of_speech)) if is_definition(line) => ParseModel {
                stack: state.stack,
                meanings: state.meanings.push(
                    MeaningModel { language, part_of_speech, definition: line.skip(2) },
                ),
            },
            _ => state,
        },
    }
}

/// The state after all of `lines` have been read, in order, from the initial
/// state.
pub open spec fn read_lines(
    lines: Seq<Seq<char>>,
    languages: Set<Seq<char>>,
    parts_of_speech: Set<Seq<char>>,
) -> ParseModel
    decreases lines.len(),
{
    if lines.len() == 0 {
        initial_state()
    } else {
        read_line(
            read_lines(lines.drop_last(), languages, parts_of_speech),
            lines.last(),
            languages,
            parts_of_speech,
        )
    }
}

/// The meanings that a page with the markup `text` holds.
pub open spec fn meanings_of(
    text: Seq<char>,
    languages: Set<Seq<char>>,
    parts_of_speech: Set<Seq<char>>,
) -> Seq<MeaningModel> {
    read_lines(lines_of(text), languages, parts_of_speech).meanings
}

/// Extracts the meanings of a page, in the order of its lines.
pub fn parse_wikitext(text: String, languages: &Vocabulary, parts_of_speech: &Vocabulary) -> (result:
    Vec<Meaning>)
    ensures
        meaning_views(result@) == meanings_of(text@, languages@, parts_of_speech@),
{
    let chars = chars_of(text.as_str());
    let lines = split_lines(&chars);
    let mut result: Vec<Meaning> = Vec::new();
    let mut context_stack = ContextStack::new();
    let ghost all = views(lines@);
    let mut i: usize = 0;
    assert(meaning_views(result@) =~= Seq::<MeaningModel>::empty());
    while i < lines.len()
        invariant
            i <= lines.len(),
            all == views(lines@),
            (ParseModel { stack: context_stack@, meanings: meaning_views(result@) }) == read_lines(
                all.take(i as int),
                languages@,
                parts_of_speech@,
            ),
        decreases lines.len() - i,
    {
        let line = &lines[i];
        proof {
            assert(all.take(i + 1).drop_last() =~= all.take(i as int));
        }
        match parse_heading(line) {
            Some(heading) => {
                context_stack.apply(heading, languages, parts_of_speech);
            },
            None => {
                if line.len() >= 2 && line[0] == '#' && line[1] == ' ' {
                    let found = match (&context_stack.language, &context_stack.part_of_speech) {
                        (Some(language), Some(part_of_speech)) => Some(
                            Meaning {
                                language: language.clone(),
                                part_of_speech: part_of_speech.clone(),
                                definition: string_of(line, 2, line.len()),
                            },
                        ),
                        _ => None,
                    };
                    if let Some(meaning) = found {
                        let ghost earlier = meaning_views(result@);
                        result.push(meaning);
                        assert(meaning_views(result@) =~= earlier.push(meaning@));
                    }
                }
            },
        }
        i += 1;
    }
    assert(all.take(lines@.len() as int) =~= all);
    result
}

/// Every heading has a level from 1 to 6 and a text that is not empty, and
/// the line is the text between two runs of as many `=` as the level.
pub proof fn lemma_heading_shape(line: Seq<char>)
    requires
        heading_of(line) is Some,
    ensures
        ({
            let h = heading_of(line)->0;
            &&& 1 <= h.level <= 6
            &&& h.text.len() > 0
            &&& line.len() == h.text.len() + 2 * h.level
            &&& h.text == line.subrange(h.level as int, line.len() - h.level)
            &&& forall|i: int| 0 <= i < h.level ==> line[i] == '='
            &&& forall|i: int| line.len() - h.level <= i < line.len() ==> line[i] == '='
        }),
{
    lemma_leading_run(line, 0);
    lemma_trailing_run(line, line.len() as int);
}

/// The characters that [`leading_run`] counts are `=`.
proof fn lemma_leading_run(line: Seq<char>, from: int)
    requires
        0 <= from,
    ensures
        from + leading_run(line, from) <= line.len() || leading_run(line, from) == 0,
        forall|i: int| from <= i < from + leading_run(line, from) ==> line[i] == '=',
    decreases line.len() - from,
{
    if from < line.len() && line[from] == '=' {
        lemma_leading_run(line, from + 1);
    }
}

/// The characters that [`trailing_run`] counts are `=`.
proof fn lemma_trailing_run(line: Seq<char>, to: int)
    requires
        to <= line.len(),
    ensures
        trailing_run(line, to) <= to || trailing_run(line, to) == 0,
        forall|i: int| to - trailing_run(line, to) <= i < to ==> line[i] == '=',
    decreases to,
{
    if 0 < to && line[to - 1] == '=' {
        lemma_trailing_run(line, to - 1);
    }
}

/// The line that holds `text` between two runs of `level` `=`.
pub open spec fn framed(level: nat, text: Seq<char>) -> Seq<char> {
    Seq::new(level, |i: int| '=') + text + Seq::new(level, |i: int| '=')
}

proof fn lemma_framed_leading(level: nat, text: Seq<char>, from: int)
    requires
        0 <= from <= level,
        text.len() > 0,
        text.first() != '=',
    ensures
        leading_run(framed(level, text), from) == level - from,
    decreases level - from,
{
    if from < level {
        lemma_framed_leading(level, text, from + 1);
    }
}

proof fn lemma_framed_trailing(level: nat, text: Seq<char>, to: int)
    requires
        level + text.len() <= to <= 2 * level + text.len(),
        text.len() > 0,
        text.last() != '=',
    ensures
        trailing_run(framed(level, text), to) == to - level - text.len(),
    decreases to,
{
    if to > level + text.len() {
        lemma_framed_trailing(level, text, to - 1);
    }
}

/// A text that neither begins nor ends with `=`, between two runs of as many
/// `=`, one to six of them, is a heading: its level is the length of the runs,
/// and its text is the text.
pub proof fn lemma_framed_is_heading(level: nat, text: Seq<char>)
    requires
        1 <= level <= 6,
        text.len() > 0,
        text.first() != '=',
        text.last() != '=',
    ensures
        heading_of(framed(level, text)) == Some(HeadingModel { level, text }),
{
    let line = framed(level, text);
    lemma_framed_leading(level, text, 0);
    lemma_framed_trailing(level, text, line.len() as int);
    assert(line.subrange(level as int, line.len() - level) =~= text);
}

/// After a line that is a heading of level L has been read, the top of the
/// stack has level L, and the levels grow strictly from the bottom of the
/// stack to its top, as they did before.
pub proof fn lemma_heading_line_on_top(
    state: ParseModel,
    line: Seq<char>,
    languages: Set<Seq<char>>,
    parts_of_speech: Set<Seq<char>>,
)
    requires
        levels_increase(state.stack.contexts),
        heading_of(line) is Some,
    ensures
        ({
            let after = read_line(state, line, languages, parts_of_speech).stack;
            &&& after.contexts.len() > 0
            &&& after.contexts.last().level == leading_run(line, 0)
            &&& after.contexts.last().text == heading_of(line)->0.text
            &&& levels_increase(after.contexts)
            &&& stack_wf(state.stack) ==> stack_wf(after)
        }),
{
    lemma_apply_wf(state.stack, heading_of(line)->0, languages, parts_of_speech);
}

/// The stack after the headings of `headings` have been applied to `s`, in
/// order.
pub open spec fn apply_all(
    s: StackModel,
    headings: Seq<HeadingModel>,
    languages: Set<Seq<char>>,
    parts_of_speech: Set<Seq<char>>,
) -> StackModel
    decreases headings.len(),
{
    if headings.len() == 0 {
        s
    } else {
        apply_spec(
            apply_all(s, headings.drop_last(), languages, parts_of_speech),
            headings.last(),
            languages,
            parts_of_speech,
        )
    }
}

/// A heading whose text is in neither vocabulary leaves both bindings as they
/// are, unless a heading that leaves the stack has the text of a binding.
pub proof fn lemma_unnamed_heading_keeps_bindings(
    s: StackModel,
    context: HeadingModel,
    languages: Set<Seq<char>>,
    parts_of_speech: Set<Seq<char>>,
)
    requires
        !languages.contains(context.text),
        !parts_of_speech.contains(context.text),
        s.language matches Some(t) ==> !leaves_with(
            s.contexts,
            kept(s.contexts, context.level) as int,
            t,
        ),
        s.part_of_speech matches Some(t) ==> !leaves_with(
            s.contexts,
            kept(s.contexts, context.level) as int,
            t,
        ),
    ensures
        apply_spec(s, context, languages, parts_of_speech).language == s.language,
        apply_spec(s, context, languages, parts_of_speech).part_of_speech == s.part_of_speech,
{
}

/// A heading that is narrower than every heading on the stack, and whose text
/// is in neither vocabulary, is pushed and changes nothing else.
pub proof fn lemma_narrower_unnamed_heading(
    s: StackModel,
    context: HeadingModel,
    languages: Set<Seq<char>>,
    parts_of_speech: Set<Seq<char>>,
)
    requires
        !languages.contains(context.text),
        !parts_of_speech.contains(context.text),
        s.contexts.len() > 0 ==> s.contexts.last().level < context.level,
    ensures
        apply_spec(s, context, languages, parts_of_speech) == (StackModel {
            contexts: s.contexts.push(context),
            language: s.language,
            part_of_speech: s.part_of_speech,
        }),
{
    assert(s.contexts.take(s.contexts.len() as int) =~= s.contexts);
}

/// A heading whose level is below `level` stays on the stack, with all below
/// it, when a heading of `level` arrives.
proof fn lemma_kept_above(contexts: Seq<HeadingModel>, level: nat, at: int)
    requires
        0 <= at < contexts.len(),
        contexts[at].level < level,
    ensures
        kept(contexts, level) > at,
    decreases contexts.len(),
{
    if contexts.last().level >= level {
        lemma_kept_above(contexts.drop_last(), level, at);
    }
}

/// Where all headings from `at` on have `level` or more, they all leave when
/// a heading of `level` arrives.
proof fn lemma_kept_below(contexts: Seq<HeadingModel>, level: nat, at: int)
    requires
        0 <= at <= contexts.len(),
        forall|i: int| at <= i < contexts.len() ==> contexts[i].level >= level,
    ensures
        kept(contexts, level) <= at,
    decreases contexts.len(),
{
    if contexts.len() > at {
        let below = contexts.drop_last();
        lemma_kept_below(below, level, at);
    } else {
        lemma_kept(contexts, level);
    }
}

/// The language is the text of `opening`, which is on the stack, and all that
/// is above it is narrower and names no language.
spec fn language_held(s: StackModel, opening: HeadingModel, languages: Set<Seq<char>>) -> bool {
    &&& s.language == Some(opening.text)
    &&& exists|at: int|
        {
            &&& 0 <= at < s.contexts.len()
            &&& #[trigger] s.contexts[at] == opening
            &&& forall|i: int|
                at < i < s.contexts.len() ==> (#[trigger] s.contexts[i]).level > opening.level
                    && !languages.contains(s.contexts[i].text)
        }
}

proof fn lemma_language_held_step(
    s: StackModel,
    opening: HeadingModel,
    inner: HeadingModel,
    languages: Set<Seq<char>>,
    parts_of_speech: Set<Seq<char>>,
)
    requires
        languages.contains(opening.text),
        language_held(s, opening, languages),
        inner.level > opening.level,
        !languages.contains(inner.text),
    ensures
        language_held(apply_spec(s, inner, languages, parts_of_speech), opening, languages),
{
    let at = choose|at: int|
        {
            &&& 0 <= at < s.contexts.len()
            &&& #[trigger] s.contexts[at] == opening
            &&& forall|i: int|
                at < i < s.contexts.len() ==> (#[trigger] s.contexts[i]).level > opening.level
                    && !languages.contains(s.contexts[i].text)
        };
    lemma_kept(s.contexts, inner.level);
    lemma_kept_above(s.contexts, inner.level, at);
    let after = apply_spec(s, inner, languages, parts_of_speech);
    assert(after.contexts[at] == opening);
}

/// A language stays bound while its section is open. After a heading whose
/// text names a language has been applied, the language is bound to that text;
/// it stays so while narrower headings that name no language are applied; and
/// the first heading that is as wide or wider closes the section and clears
/// the binding, unless it names a language itself.
pub proof fn lemma_language_bound_until_closed(
    s: StackModel,
    opening: HeadingModel,
    inner: Seq<HeadingModel>,
    closing: HeadingModel,
    languages: Set<Seq<char>>,
    parts_of_speech: Set<Seq<char>>,
)
    requires
        languages.contains(opening.text),
        forall|i: int|
            0 <= i < inner.len() ==> (#[trigger] inner[i]).level > opening.level
                && !languages.contains(inner[i].text),
        closing.level <= opening.level,
        !languages.contains(closing.text),
    ensures
        ({
            let opened = apply_spec(s, opening, languages, parts_of_speech);
            let within = apply_all(opened, inner, languages, parts_of_speech);
            &&& opened.language == Some(opening.text)
            &&& within.language == Some(opening.text)
            &&& apply_spec(within, closing, languages, parts_of_speech).language is None
        }),
{
    let opened = apply_spec(s, opening, languages, parts_of_speech);
    let within = apply_all(opened, inner, languages, parts_of_speech);
    lemma_language_held_all(s, opening, inner, languages, parts_of_speech);
    let at = choose|at: int|
        {
            &&& 0 <= at < within.contexts.len()
            &&& #[trigger] within.contexts[at] == opening
            &&& forall|i: int|
                at < i < within.contexts.len() ==> (#[trigger] within.contexts[i]).level
                    > opening.level && !languages.contains(within.contexts[i].text)
        };
    lemma_kept_below(within.contexts, closing.level, at);
}

proof fn lemma_language_held_all(
    s: StackModel,
    opening: HeadingModel,
    inner: Seq<HeadingModel>,
    languages: Set<Seq<char>>,
    parts_of_speech: Set<Seq<char>>,
)
    requires
        languages.contains(opening.text),
        forall|i: int|
            0 <= i < inner.len() ==> (#[trigger] inner[i]).level > opening.level
                && !languages.contains(inner[i].text),
    ensures
        language_held(
            apply_all(
                apply_spec(s, opening, languages, parts_of_speech),
                inner,
                languages,
                parts_of_speech,
            ),
            opening,
            languages,
        ),
    decreases inner.len(),
{
    let opened = apply_spec(s, opening, languages, parts_of_speech);
    if inner.len() == 0 {
        let k = kept(s.contexts, opening.level) as int;
        lemma_kept(s.contexts, opening.level);
        assert(opened.contexts[k] == opening);
    } else {
        let earlier = inner.drop_last();
        lemma_language_held_all(s, opening, earlier, languages, parts_of_speech);
        lemma_language_held_step(
            apply_all(opened, earlier, languages, parts_of_speech),
            opening,
            inner.last(),
            languages,
            parts_of_speech,
        );
    }
}

/// Whether the state names members of the vocabularies only: the bindings
/// are members, and so are the language and the part of speech of each
/// meaning.
pub open spec fn within_vocabularies(
    state: ParseModel,
    languages: Set<Seq<char>>,
    parts_of_speech: Set<Seq<char>>,
) -> bool {
    &&& state.stack.language matches Some(l) ==> languages.contains(l)
    &&& state.stack.part_of_speech matches Some(p) ==> parts_of_speech.contains(p)
    &&& forall|i: int|
        0 <= i < state.meanings.len() ==> languages.contains(
            (#[trigger] state.meanings[i]).language,
        ) && parts_of_speech.contains(state.meanings[i].part_of_speech)
}

/// At every line of a page the stack is well formed, and the parser names
/// members of the vocabularies only.
pub proof fn lemma_read_lines_sound(
    lines: Seq<Seq<char>>,
    languages: Set<Seq<char>>,
    parts_of_speech: Set<Seq<char>>,
)
    ensures
        stack_wf(read_lines(lines, languages, parts_of_speech).stack),
        within_vocabularies(
            read_lines(lines, languages, parts_of_speech),
            languages,
            parts_of_speech,
        ),
    decreases lines.len(),
{
    if lines.len() > 0 {
        let before = read_lines(lines.drop_last(), languages, parts_of_speech);
        lemma_read_lines_sound(lines.drop_last(), languages, parts_of_speech);
        match heading_of(lines.last()) {
            Some(heading) => {
                lemma_apply_wf(before.stack, heading, languages, parts_of_speech);
            },
            None => {
            },
        }
    }
}

/// Every meaning of a page is in a language and a part of speech that the
/// vocabularies hold.
pub proof fn lemma_meanings_within_vocabularies(
    text: Seq<char>,
    languages: Set<Seq<char>>,
    parts_of_speech: Set<Seq<char>>,
)
    ensures
        forall|i: int|
            0 <= i < meanings_of(text, languages, parts_of_speech).len() ==> languages.contains(
                (#[trigger] meanings_of(text, languages, parts_of_speech)[i]).language,
            ) && parts_of_speech.contains(
                meanings_of(text, languages, parts_of_speech)[i].part_of_speech,
            ),
{
    lemma_read_lines_sound(lines_of(text), languages, parts_of_speech);
}

/// A page has no meanings where no language is known, or no part of speech.
pub proof fn lemma_no_meanings_without_vocabulary(
    text: Seq<char>,
    languages: Set<Seq<char>>,
    parts_of_speech: Set<Seq<char>>,
)
    requires
        languages == Set::<Seq<char>>::empty() || parts_of_speech == Set::<Seq<char>>::empty(),
    ensures
        meanings_of(text, languages, parts_of_speech).len() == 0,
{
    lemma_meanings_within_vocabularies(text, languages, parts_of_speech);
    let meanings = meanings_of(text, languages, parts_of_speech);
    if meanings.len() > 0 {
        assert(languages.contains(meanings[0].language));
    }
}

/// The stack with the two bindings in each other's place.
pub open spec fn mirrored(s: StackModel) -> StackModel {
    StackModel { contexts: s.contexts, language: s.part_of_speech, part_of_speech: s.language }
}

/// The two bindings follow the same rule, each with its own vocabulary.
pub proof fn lemma_apply_mirrored(
    s: StackModel,
    context: HeadingModel,
    languages: Set<Seq<char>>,
    parts_of_speech: Set<Seq<char>>,
)
    ensures
        apply_spec(mirrored(s), context, parts_of_speech, languages) == mirrored(
            apply_spec(s, context, languages, parts_of_speech),
        ),
{
}

proof fn lemma_apply_all_mirrored(
    s: StackModel,
    headings: Seq<HeadingModel>,
    languages: Set<Seq<char>>,
    parts_of_speech: Set<Seq<char>>,
)
    ensures
        apply_all(mirrored(s), headings, parts_of_speech, languages) == mirrored(
            apply_all(s, headings, languages, parts_of_speech),
        ),
    decreases headings.len(),
{
    if headings.len() > 0 {
        lemma_apply_all_mirrored(s, headings.drop_last(), languages, parts_of_speech);
        lemma_apply_mirrored(
            apply_all(s, headings.drop_last(), languages, parts_of_speech),
            headings.last(),
            languages,
            parts_of_speech,
        );
    }
}

/// A part of speech stays bound while its section is open, as a language
/// does: it is bound by the heading that names it, stays bound while narrower
/// headings that name no part of speech are applied, and is cleared by the
/// first heading that is as wide or wider, unless that names one itself.
pub proof fn lemma_part_of_speech_bound_until_closed(
    s: StackModel,
    opening: HeadingModel,
    inner: Seq<HeadingModel>,
    closing: HeadingModel,
    languages: Set<Seq<char>>,
    parts_of_speech: Set<Seq<char>>,
)
    requires
        parts_of_speech.contains(opening.text),
        forall|i: int|
            0 <= i < inner.len() ==> (#[trigger] inner[i]).level > opening.level
                && !parts_of_speech.contains(inner[i].text),
        closing.level <= opening.level,
        !parts_of_speech.contains(closing.text),
    ensures
        ({
            let opened = apply_spec(s, opening, languages, parts_of_speech);
            let within = apply_all(opened, inner, languages, parts_of_speech);
            &&& opened.part_of_speech == Some(opening.text)
            &&& within.part_of_speech == Some(opening.text)
            &&& apply_spec(within, closing, languages, parts_of_speech).part_of_speech is None
        }),
{
    let opened = apply_spec(s, opening, languages, parts_of_speech);
    let within = apply_all(opened, inner, languages, parts_of_speech);
    lemma_language_bound_until_closed(
        mirrored(s),
        opening,
        inner,
        closing,
        parts_of_speech,
        languages,
    );
    lemma_apply_mirrored(s, opening, languages, parts_of_speech);
    lemma_apply_all_mirrored(opened, inner, languages, parts_of_speech);
    lemma_apply_mirrored(within, closing, languages, parts_of_speech);
}

} // verus!
