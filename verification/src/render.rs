//! Rendering: the stored meanings of a word are grouped by language and part
//! of speech, each definition is expanded and cleaned, and the groups are
//! laid out as lines for display.

use crate::markup::{clean, clean_spec};
use crate::template::{
    expand_spec, expand_templates, rule_views, Expansion, ExpansionModel, RuleModel, TemplateRule,
};
use crate::text::{chars_of, optional_slice_view, same_chars};
use crate::{meaning_views, Meaning, MeaningModel};
use vstd::prelude::*;

verus! {

/// Whether `a` comes before `b` in the order of the dictionary, given that
/// they agree before index `from`: at the first index at which they differ,
/// `a` has the character with the smaller code point, or `a` ends where `b`
/// goes on.
pub open spec fn precedes_from(a: Seq<char>, b: Seq<char>, from: int) -> bool
    decreases a.len() - from,
{
    if from < 0 || from >= b.len() {
        false
    } else if from >= a.len() {
        true
    } else if a[from] != b[from] {
        a[from] < b[from]
    } else {
        precedes_from(a, b, from + 1)
    }
}

/// Whether `a` comes before `b` in the order of the dictionary.
pub open spec fn precedes(a: Seq<char>, b: Seq<char>) -> bool {
    precedes_from(a, b, 0)
}

/// Of two texts that agree before `from`, one comes before the other, or
/// they are the same.
pub proof fn lemma_precedes_total(a: Seq<char>, b: Seq<char>, from: int)
    requires
        0 <= from <= a.len(),
        from <= b.len(),
        forall|i: int| 0 <= i < from ==> a[i] == b[i],
    ensures
        precedes_from(a, b, from) || precedes_from(b, a, from) || a == b,
    decreases a.len() - from,
{
    if from < a.len() && from < b.len() {
        if a[from] == b[from] {
            lemma_precedes_total(a, b, from + 1);
        }
    }
}

/// No text comes before itself, and of two texts at most one comes before
/// the other.
pub proof fn lemma_precedes_one_way(a: Seq<char>, b: Seq<char>, from: int)
    ensures
        !(precedes_from(a, b, from) && precedes_from(b, a, from)),
        !precedes_from(a, a, from),
    decreases a.len() - from,
{
    if 0 <= from < a.len() {
        lemma_precedes_one_way(a, a, from + 1);
        if from < b.len() && a[from] == b[from] {
            lemma_precedes_one_way(a, b, from + 1);
        }
    }
}

/// What comes before a text comes before all that the text comes before.
pub proof fn lemma_precedes_chain(a: Seq<char>, b: Seq<char>, c: Seq<char>, from: int)
    requires
        precedes_from(a, b, from),
        precedes_from(b, c, from),
    ensures
        precedes_from(a, c, from),
    decreases a.len() - from,
{
    if from < a.len() && a[from] == b[from] && b[from] == c[from] {
        lemma_precedes_chain(a, b, c, from + 1);
    }
}

/// Decides [`precedes`].
pub fn comes_before(a: &Vec<char>, b: &Vec<char>) -> (before: bool)
    ensures
        before == precedes(a@, b@),
{
    let mut i: usize = 0;
    while i < a.len() && i < b.len()
        invariant
            i <= a.len(),
            i <= b.len(),
            precedes(a@, b@) == precedes_from(a@, b@, i as int),
        decreases a.len() - i,
    {
        if a[i] != b[i] {
            return a[i] < b[i];
        }
        i += 1;
    }
    i < b.len()
}

/// The definitions of a word in one language and one part of speech.
#[derive(Debug)]
pub struct Group {
    pub language: String,
    pub part_of_speech: String,
    pub definitions: Vec<String>,
}

/// The mathematical value of a [`Group`].
pub struct GroupModel {
    pub language: Seq<char>,
    pub part_of_speech: Seq<char>,
    pub definitions: Seq<Seq<char>>,
}

/// The views of the strings of `v`.
pub open spec fn string_views(v: Seq<String>) -> Seq<Seq<char>> {
    Seq::new(v.len(), |i: int| v[i]@)
}

impl View for Group {
    type V = GroupModel;

    open spec fn view(&self) -> GroupModel {
        GroupModel {
            language: self.language@,
            part_of_speech: self.part_of_speech@,
            definitions: string_views(self.definitions@),
        }
    }
}

/// The views of the groups of `v`.
pub open spec fn group_views(v: Seq<Group>) -> Seq<GroupModel> {
    Seq::new(v.len(), |i: int| v[i]@)
}

/// Whether the first language and part of speech come before the second:
/// the language decides, and the part of speech where the languages are the
/// same.
pub open spec fn key_precedes(
    language: Seq<char>,
    part: Seq<char>,
    other_language: Seq<char>,
    other_part: Seq<char>,
) -> bool {
    precedes(language, other_language) || (language == other_language && precedes(
        part,
        other_part,
    ))
}

/// The definitions that `rows` hold for a language and a part of speech, in
/// the order of the rows.
pub open spec fn definitions_of(rows: Seq<MeaningModel>, language: Seq<char>, part: Seq<char>) -> Seq<
    Seq<char>,
>
    decreases rows.len(),
{
    if rows.len() == 0 {
        Seq::empty()
    } else {
        let earlier = definitions_of(rows.drop_last(), language, part);
        if rows.last().language == language && rows.last().part_of_speech == part {
            earlier.push(rows.last().definition)
        } else {
            earlier
        }
    }
}

/// Whether one of `groups` is for the language and the part of speech.
pub open spec fn listed(groups: Seq<GroupModel>, language: Seq<char>, part: Seq<char>) -> bool {
    exists|i: int|
        0 <= i < groups.len() && (#[trigger] groups[i]).language == language
            && groups[i].part_of_speech == part
}

/// The groups come in the order of the dictionary, by language and then by
/// part of speech, and no two are for the same language and part of speech.
pub open spec fn in_order(groups: Seq<GroupModel>) -> bool {
    forall|i: int, j: int|
        0 <= i < j < groups.len() ==> key_precedes(
            (#[trigger] groups[i]).language,
            groups[i].part_of_speech,
            (#[trigger] groups[j]).language,
            groups[j].part_of_speech,
        )
}

/// Whether `groups` is the grouping of `rows`: the groups are in order, each
/// holds the definitions that the rows hold for its language and part of
/// speech, which is at least one, and every row is in a group.
pub open spec fn grouped(rows: Seq<MeaningModel>, groups: Seq<GroupModel>) -> bool {
    &&& in_order(groups)
    &&& forall|i: int|
        0 <= i < groups.len() ==> (#[trigger] groups[i]).definitions.len() > 0
            && groups[i].definitions == definitions_of(
            rows,
            groups[i].language,
            groups[i].part_of_speech,
        )
    &&& forall|r: int|
        0 <= r < rows.len() ==> listed(groups, (#[trigger] rows[r]).language, rows[r].part_of_speech)
}

proof fn lemma_key_differs(a: Seq<char>, b: Seq<char>, c: Seq<char>, d: Seq<char>)
    requires
        key_precedes(a, b, c, d),
    ensures
        !(a == c && b == d),
        !key_precedes(c, d, a, b),
{
    lemma_precedes_one_way(a, c, 0);
    lemma_precedes_one_way(b, d, 0);
    lemma_precedes_one_way(c, a, 0);
}

proof fn lemma_key_chain(
    a: Seq<char>,
    b: Seq<char>,
    c: Seq<char>,
    d: Seq<char>,
    e: Seq<char>,
    f: Seq<char>,
)
    requires
        key_precedes(a, b, c, d),
        key_precedes(c, d, e, f),
    ensures
        key_precedes(a, b, e, f),
{
    if precedes(a, c) && precedes(c, e) {
        lemma_precedes_chain(a, c, e, 0);
    } else if !precedes(a, c) && !precedes(c, e) {
        lemma_precedes_chain(b, d, f, 0);
    }
}

/// Rows that hold a definition for a language and a part of speech include
/// a row for them.
proof fn lemma_definitions_need_row(rows: Seq<MeaningModel>, language: Seq<char>, part: Seq<char>)
    requires
        definitions_of(rows, language, part).len() > 0,
    ensures
        exists|r: int|
            0 <= r < rows.len() && (#[trigger] rows[r]).language == language
                && rows[r].part_of_speech == part,
    decreases rows.len(),
{
    if rows.last().language != language || rows.last().part_of_speech != part {
        lemma_definitions_need_row(rows.drop_last(), language, part);
    }
}

/// A further row adds its definition to those of its language and part of
/// speech, and to no others.
proof fn lemma_definitions_push(
    rows: Seq<MeaningModel>,
    row: MeaningModel,
    language: Seq<char>,
    part: Seq<char>,
)
    ensures
        (definitions_of(rows.push(row), language, part) == if row.language == language
            && row.part_of_speech == part {
            definitions_of(rows, language, part).push(row.definition)
        } else {
            definitions_of(rows, language, part)
        }),
{
    assert(rows.push(row).drop_last() =~= rows);
}

/// The grouping after a row for a group that exists: the group has one
/// definition more.
proof fn lemma_grouped_extend(
    rows: Seq<MeaningModel>,
    row: MeaningModel,
    groups: Seq<GroupModel>,
    after: Seq<GroupModel>,
    at: int,
)
    requires
        grouped(rows, groups),
        0 <= at < groups.len(),
        groups[at].language == row.language,
        groups[at].part_of_speech == row.part_of_speech,
        after == groups.update(
            at,
            GroupModel {
                language: row.language,
                part_of_speech: row.part_of_speech,
                definitions: groups[at].definitions.push(row.definition),
            },
        ),
    ensures
        grouped(rows.push(row), after),
{
    let more = rows.push(row);
    assert forall|i: int| 0 <= i < after.len() implies (#[trigger] after[i]).definitions.len() > 0
        && after[i].definitions == definitions_of(more, after[i].language, after[i].part_of_speech) by {
        lemma_definitions_push(rows, row, after[i].language, after[i].part_of_speech);
        if i < at {
            lemma_key_differs(
                groups[i].language,
                groups[i].part_of_speech,
                groups[at].language,
                groups[at].part_of_speech,
            );
        } else if i > at {
            lemma_key_differs(
                groups[at].language,
                groups[at].part_of_speech,
                groups[i].language,
                groups[i].part_of_speech,
            );
        }
    }
    assert forall|r: int| 0 <= r < more.len() implies listed(
        after,
        (#[trigger] more[r]).language,
        more[r].part_of_speech,
    ) by {
        if r < rows.len() {
            let i = choose|i: int|
                0 <= i < groups.len() && (#[trigger] groups[i]).language == rows[r].language
                    && groups[i].part_of_speech == rows[r].part_of_speech;
            assert(after[i].language == rows[r].language);
        } else {
            assert(after[at].language == row.language);
        }
    }
}

/// The grouping after a row for which there is no group yet: a group with
/// the row's definition stands where the order asks for it.
proof fn lemma_grouped_insert(
    rows: Seq<MeaningModel>,
    row: MeaningModel,
    groups: Seq<GroupModel>,
    after: Seq<GroupModel>,
    at: int,
)
    requires
        grouped(rows, groups),
        0 <= at <= groups.len(),
        forall|j: int|
            0 <= j < at ==> key_precedes(
                (#[trigger] groups[j]).language,
                groups[j].part_of_speech,
                row.language,
                row.part_of_speech,
            ),
        at < groups.len() ==> key_precedes(
            row.language,
            row.part_of_speech,
            groups[at].language,
            groups[at].part_of_speech,
        ),
        after == groups.insert(
            at,
            GroupModel {
                language: row.language,
                part_of_speech: row.part_of_speech,
                definitions: seq![row.definition],
            },
        ),
    ensures
        grouped(rows.push(row), after),
{
    let more = rows.push(row);
    assert forall|j: int| at <= j < groups.len() implies key_precedes(
        row.language,
        row.part_of_speech,
        (#[trigger] groups[j]).language,
        groups[j].part_of_speech,
    ) by {
        if j > at {
            lemma_key_chain(
                row.language,
                row.part_of_speech,
                groups[at].language,
                groups[at].part_of_speech,
                groups[j].language,
                groups[j].part_of_speech,
            );
        }
    }
    assert(!listed(groups, row.language, row.part_of_speech)) by {
        if listed(groups, row.language, row.part_of_speech) {
            let i = choose|i: int|
                0 <= i < groups.len() && (#[trigger] groups[i]).language == row.language
                    && groups[i].part_of_speech == row.part_of_speech;
            if i < at {
                lemma_key_differs(
                    groups[i].language,
                    groups[i].part_of_speech,
                    row.language,
                    row.part_of_speech,
                );
            } else {
                lemma_key_differs(
                    row.language,
                    row.part_of_speech,
                    groups[i].language,
                    groups[i].part_of_speech,
                );
            }
        }
    }
    assert(definitions_of(rows, row.language, row.part_of_speech).len() == 0) by {
        if definitions_of(rows, row.language, row.part_of_speech).len() > 0 {
            lemma_definitions_need_row(rows, row.language, row.part_of_speech);
        }
    }
    assert forall|i: int| 0 <= i < after.len() implies (#[trigger] after[i]).definitions.len() > 0
        && after[i].definitions == definitions_of(more, after[i].language, after[i].part_of_speech) by {
        lemma_definitions_push(rows, row, after[i].language, after[i].part_of_speech);
        if i < at {
            lemma_key_differs(
                groups[i].language,
                groups[i].part_of_speech,
                row.language,
                row.part_of_speech,
            );
        } else if i > at {
            lemma_key_differs(
                row.language,
                row.part_of_speech,
                groups[i - 1].language,
                groups[i - 1].part_of_speech,
            );
        }
    }
    assert forall|r: int| 0 <= r < more.len() implies listed(
        after,
        (#[trigger] more[r]).language,
        more[r].part_of_speech,
    ) by {
        if r < rows.len() {
            let i = choose|i: int|
                0 <= i < groups.len() && (#[trigger] groups[i]).language == rows[r].language
                    && groups[i].part_of_speech == rows[r].part_of_speech;
            if i < at {
                assert(after[i].language == rows[r].language);
            } else {
                assert(after[i + 1].language == rows[r].language);
            }
        } else {
            assert(after[at].language == row.language);
        }
    }
}

/// Whether two groups are for the same language and part of speech.
pub open spec fn same_key(a: GroupModel, b: GroupModel) -> bool {
    a.language == b.language && a.part_of_speech == b.part_of_speech
}

proof fn lemma_key_total(a: Seq<char>, b: Seq<char>, c: Seq<char>, d: Seq<char>)
    ensures
        key_precedes(a, b, c, d) || key_precedes(c, d, a, b) || (a == c && b == d),
{
    lemma_precedes_total(a, c, 0);
    lemma_precedes_total(b, d, 0);
}

/// Every group of a grouping has its counterpart in any other grouping of
/// the same rows.
proof fn lemma_group_is_listed(
    rows: Seq<MeaningModel>,
    a: Seq<GroupModel>,
    b: Seq<GroupModel>,
    i: int,
)
    requires
        grouped(rows, a),
        grouped(rows, b),
        0 <= i < a.len(),
    ensures
        listed(b, a[i].language, a[i].part_of_speech),
{
    lemma_definitions_need_row(rows, a[i].language, a[i].part_of_speech);
}

proof fn lemma_not_before(rows: Seq<MeaningModel>, a: Seq<GroupModel>, b: Seq<GroupModel>, i: int)
    requires
        grouped(rows, a),
        grouped(rows, b),
        0 <= i < a.len(),
        i < b.len(),
        forall|k: int| 0 <= k < i ==> same_key(#[trigger] a[k], b[k]),
    ensures
        !key_precedes(a[i].language, a[i].part_of_speech, b[i].language, b[i].part_of_speech),
{
    if key_precedes(a[i].language, a[i].part_of_speech, b[i].language, b[i].part_of_speech) {
        lemma_group_is_listed(rows, a, b, i);
        let j = choose|j: int|
            0 <= j < b.len() && (#[trigger] b[j]).language == a[i].language && b[j].part_of_speech
                == a[i].part_of_speech;
        if j < i {
            lemma_key_differs(
                a[j].language,
                a[j].part_of_speech,
                a[i].language,
                a[i].part_of_speech,
            );
        } else if j == i {
            lemma_key_differs(
                a[i].language,
                a[i].part_of_speech,
                b[i].language,
                b[i].part_of_speech,
            );
        } else {
            lemma_key_chain(
                a[i].language,
                a[i].part_of_speech,
                b[i].language,
                b[i].part_of_speech,
                b[j].language,
                b[j].part_of_speech,
            );
            lemma_key_differs(
                a[i].language,
                a[i].part_of_speech,
                b[j].language,
                b[j].part_of_speech,
            );
        }
    }
}

proof fn lemma_same_keys(rows: Seq<MeaningModel>, a: Seq<GroupModel>, b: Seq<GroupModel>, n: int)
    requires
        grouped(rows, a),
        grouped(rows, b),
        0 <= n <= a.len(),
        n <= b.len(),
    ensures
        forall|k: int| 0 <= k < n ==> same_key(#[trigger] a[k], b[k]),
    decreases n,
{
    if n > 0 {
        lemma_same_keys(rows, a, b, n - 1);
        lemma_not_before(rows, a, b, n - 1);
        lemma_not_before(rows, b, a, n - 1);
        lemma_key_total(
            a[n - 1].language,
            a[n - 1].part_of_speech,
            b[n - 1].language,
            b[n - 1].part_of_speech,
        );
    }
}

proof fn lemma_not_longer(rows: Seq<MeaningModel>, a: Seq<GroupModel>, b: Seq<GroupModel>)
    requires
        grouped(rows, a),
        grouped(rows, b),
    ensures
        b.len() <= a.len(),
{
    if a.len() < b.len() {
        let n = a.len() as int;
        lemma_same_keys(rows, a, b, n);
        lemma_group_is_listed(rows, b, a, n);
        let j = choose|j: int|
            0 <= j < a.len() && (#[trigger] a[j]).language == b[n].language && a[j].part_of_speech
                == b[n].part_of_speech;
        lemma_key_differs(b[j].language, b[j].part_of_speech, b[n].language, b[n].part_of_speech);
    }
}

/// The rows have one grouping only.
pub proof fn lemma_grouping_is_unique(
    rows: Seq<MeaningModel>,
    a: Seq<GroupModel>,
    b: Seq<GroupModel>,
)
    requires
        grouped(rows, a),
        grouped(rows, b),
    ensures
        a == b,
{
    lemma_not_longer(rows, a, b);
    lemma_not_longer(rows, b, a);
    lemma_same_keys(rows, a, b, a.len() as int);
}

/// Where the group for a language and a part of speech stands among
/// `groups`, or where it would have to stand.
fn find_group(groups: &Vec<Group>, language: &Vec<char>, part: &Vec<char>) -> (place: (usize, bool))
    ensures
        place.0 <= groups.len(),
        forall|j: int|
            0 <= j < place.0 ==> key_precedes(
                (#[trigger] group_views(groups@)[j]).language,
                group_views(groups@)[j].part_of_speech,
                language@,
                part@,
            ),
        place.1 ==> place.0 < groups.len() && groups@[place.0 as int]@.language == language@
            && groups@[place.0 as int]@.part_of_speech == part@,
        !place.1 && place.0 < groups.len() ==> key_precedes(
            language@,
            part@,
            groups@[place.0 as int]@.language,
            groups@[place.0 as int]@.part_of_speech,
        ),
{
    let mut i: usize = 0;
    while i < groups.len()
        invariant
            i <= groups.len(),
            forall|j: int|
                0 <= j < i ==> key_precedes(
                    (#[trigger] group_views(groups@)[j]).language,
                    group_views(groups@)[j].part_of_speech,
                    language@,
                    part@,
                ),
        decreases groups.len() - i,
    {
        let here_language = chars_of(groups[i].language.as_str());
        let here_part = chars_of(groups[i].part_of_speech.as_str());
        if same_chars(&here_language, language) {
            if same_chars(&here_part, part) {
                return (i, true);
            }
            if comes_before(part, &here_part) {
                return (i, false);
            }
            proof {
                lemma_precedes_total(here_part@, part@, 0);
            }
        } else {
            if comes_before(language, &here_language) {
                return (i, false);
            }
            proof {
                lemma_precedes_total(here_language@, language@, 0);
            }
        }
        i += 1;
    }
    (i, false)
}

/// Groups the rows of a word by language and part of speech. The groups come
/// in the order of the dictionary; within a group the definitions keep the
/// order of the rows.
pub fn group_definitions(rows: &Vec<Meaning>) -> (groups: Vec<Group>)
    ensures
        grouped(meaning_views(rows@), group_views(groups@)),
{
    let mut groups: Vec<Group> = Vec::new();
    let ghost all = meaning_views(rows@);
    let mut r: usize = 0;
    while r < rows.len()
        invariant
            r <= rows.len(),
            all == meaning_views(rows@),
            grouped(all.take(r as int), group_views(groups@)),
        decreases rows.len() - r,
    {
        let row = &rows[r];
        let ghost before = group_views(groups@);
        proof {
            assert(all.take(r + 1) =~= all.take(r as int).push(row@));
        }
        let language = chars_of(row.language.as_str());
        let part = chars_of(row.part_of_speech.as_str());
        let (at, found) = find_group(&groups, &language, &part);
        if found {
            let mut group = groups.remove(at);
            let ghost earlier = string_views(group.definitions@);
            group.definitions.push(row.definition.clone());
            assert(string_views(group.definitions@) =~= earlier.push(row@.definition));
            groups.insert(at, group);
            proof {
                let after = before.update(
                    at as int,
                    GroupModel {
                        language: row@.language,
                        part_of_speech: row@.part_of_speech,
                        definitions: before[at as int].definitions.push(row@.definition),
                    },
                );
                assert(group_views(groups@) =~= after);
                lemma_grouped_extend(all.take(r as int), row@, before, after, at as int);
            }
        } else {
            let mut definitions: Vec<String> = Vec::new();
            definitions.push(row.definition.clone());
            assert(string_views(definitions@) =~= seq![row@.definition]);
            let group = Group {
                language: row.language.clone(),
                part_of_speech: row.part_of_speech.clone(),
                definitions,
            };
            groups.insert(at, group);
            proof {
                let after = before.insert(
                    at as int,
                    GroupModel {
                        language: row@.language,
                        part_of_speech: row@.part_of_speech,
                        definitions: seq![row@.definition],
                    },
                );
                assert(group_views(groups@) =~= after);
                lemma_grouped_insert(all.take(r as int), row@, before, after, at as int);
            }
        }
        r += 1;
    }
    assert(all.take(rows@.len() as int) =~= all);
    groups
}

/// The groups of `groups` that are for `language`, in order; all of them
/// where no language is given.
pub open spec fn of_language(groups: Seq<GroupModel>, language: Option<Seq<char>>) -> Seq<GroupModel>
    decreases groups.len(),
{
    if groups.len() == 0 {
        Seq::empty()
    } else {
        let earlier = of_language(groups.drop_last(), language);
        match language {
            Some(l) if groups.last().language != l => earlier,
            _ => earlier.push(groups.last()),
        }
    }
}

fn copy_strings(v: &Vec<String>) -> (copy: Vec<String>)
    ensures
        string_views(copy@) == string_views(v@),
{
    let mut copy: Vec<String> = Vec::new();
    let mut i: usize = 0;
    while i < v.len()
        invariant
            i <= v.len(),
            string_views(copy@) == string_views(v@).take(i as int),
        decreases v.len() - i,
    {
        let ghost earlier = string_views(copy@);
        copy.push(v[i].clone());
        assert(string_views(copy@) =~= earlier.push(v@[i as int]@));
        i += 1;
    }
    copy
}

/// Keeps the groups of one language; `None` keeps all.
pub fn filter_language(groups: &Vec<Group>, language: Option<&str>) -> (kept: Vec<Group>)
    ensures
        group_views(kept@) == of_language(group_views(groups@), optional_slice_view(language)),
{
    let ghost all = group_views(groups@);
    let ghost wanted = optional_slice_view(language);
    let wanted_chars = match language {
        Some(l) => Some(chars_of(l)),
        None => None,
    };
    let mut kept: Vec<Group> = Vec::new();
    let mut i: usize = 0;
    while i < groups.len()
        invariant
            i <= groups.len(),
            all == group_views(groups@),
            match wanted_chars {
                Some(l) => wanted == Some(l@),
                None => wanted is None,
            },
            group_views(kept@) == of_language(all.take(i as int), wanted),
        decreases groups.len() - i,
    {
        proof {
            assert(all.take(i + 1).drop_last() =~= all.take(i as int));
        }
        let keep = match &wanted_chars {
            Some(l) => same_chars(&chars_of(groups[i].language.as_str()), l),
            None => true,
        };
        if keep {
            let group = Group {
                language: groups[i].language.clone(),
                part_of_speech: groups[i].part_of_speech.clone(),
                definitions: copy_strings(&groups[i].definitions),
            };
            kept.push(group);
        }
        i += 1;
    }
    assert(all.take(groups@.len() as int) =~= all);
    kept
}

/// A definition as it is shown: its templates are expanded, unless `raw` is
/// set, and then its markup is stripped.
pub open spec fn render_spec(
    rules: Seq<RuleModel>,
    definition: Seq<char>,
    raw: bool,
    limit: nat,
) -> ExpansionModel {
    if raw {
        ExpansionModel { text: clean_spec(definition), resolved: true }
    } else {
        let expanded = expand_spec(rules, definition, limit);
        ExpansionModel { text: clean_spec(expanded.text), resolved: expanded.resolved }
    }
}

/// Computes [`render_spec`].
pub fn render_definition(
    definition: &str,
    rules: &Vec<TemplateRule>,
    raw: bool,
    limit: usize,
) -> (shown: Expansion)
    ensures
        shown@ == render_spec(rule_views(rules@), definition@, raw, limit as nat),
{
    if raw {
        Expansion { text: clean(definition), resolved: true }
    } else {
        let expanded = expand_templates(definition, rules, limit);
        Expansion { text: clean(expanded.text.as_str()), resolved: expanded.resolved }
    }
}

/// The text that the function `fill` of the crate `textwrap` makes of `text`
/// with options that are made for `width`, the indentation `first_indent` of
/// the first line and the indentation `next_indent` of the lines after it.
pub uninterp spec fn filled(
    text: Seq<char>,
    width: nat,
    first_indent: Seq<char>,
    next_indent: Seq<char>,
) -> Seq<char>;

/// Calls `textwrap::fill` on `text`, with the options that `Options::new`
/// makes for `width`, and with the two indentations. The contract names what
/// it returns, and claims nothing else of it.
#[verifier::external_body]
fn fill_text(text: &str, width: usize, first_indent: &str, next_indent: &str) -> (out: String)
    ensures
        out@ == filled(text@, width as nat, first_indent@, next_indent@),
{
    let options = textwrap::Options::new(width).initial_indent(first_indent).subsequent_indent(
        next_indent,
    );
    textwrap::fill(text, &options)
}

/// The width to which definitions are wrapped for display.
pub const LINE_WIDTH: usize = 80;

/// The group with each of its definitions as it is shown.
pub open spec fn rendered_group(
    rules: Seq<RuleModel>,
    group: GroupModel,
    raw: bool,
    limit: nat,
) -> GroupModel {
    GroupModel {
        language: group.language,
        part_of_speech: group.part_of_speech,
        definitions: Seq::new(
            group.definitions.len(),
            |i: int| render_spec(rules, group.definitions[i], raw, limit).text,
        ),
    }
}

/// The groups with each definition as it is shown.
pub open spec fn rendered_groups(
    rules: Seq<RuleModel>,
    groups: Seq<GroupModel>,
    raw: bool,
    limit: nat,
) -> Seq<GroupModel> {
    Seq::new(groups.len(), |k: int| rendered_group(rules, groups[k], raw, limit))
}

/// Whether every definition of the group is resolved.
pub open spec fn group_resolved(
    rules: Seq<RuleModel>,
    group: GroupModel,
    raw: bool,
    limit: nat,
) -> bool {
    forall|i: int|
        0 <= i < group.definitions.len() ==> render_spec(
            rules,
            #[trigger] group.definitions[i],
            raw,
            limit,
        ).resolved
}

/// Whether every definition of the groups is resolved.
pub open spec fn groups_resolved(
    rules: Seq<RuleModel>,
    groups: Seq<GroupModel>,
    raw: bool,
    limit: nat,
) -> bool {
    forall|k: int| 0 <= k < groups.len() ==> group_resolved(rules, #[trigger] groups[k], raw, limit)
}

/// Groups whose definitions are as they are shown, and whether every one of
/// them is resolved.
pub struct Rendered {
    pub groups: Vec<Group>,
    pub resolved: bool,
}

/// The mathematical value of a [`Rendered`].
pub struct RenderedModel {
    pub groups: Seq<GroupModel>,
    pub resolved: bool,
}

impl View for Rendered {
    type V = RenderedModel;

    open spec fn view(&self) -> RenderedModel {
        RenderedModel { groups: group_views(self.groups@), resolved: self.resolved }
    }
}

/// The groups rendered.
pub open spec fn render_groups_spec(
    rules: Seq<RuleModel>,
    groups: Seq<GroupModel>,
    raw: bool,
    limit: nat,
) -> RenderedModel {
    RenderedModel {
        groups: rendered_groups(rules, groups, raw, limit),
        resolved: groups_resolved(rules, groups, raw, limit),
    }
}

/// Renders each definition of the groups.
pub fn render_groups(
    groups: &Vec<Group>,
    rules: &Vec<TemplateRule>,
    raw: bool,
    limit: usize,
) -> (shown: Rendered)
    ensures
        shown@ == render_groups_spec(rule_views(rules@), group_views(groups@), raw, limit as nat),
{
    let mut ready: Vec<Group> = Vec::new();
    let mut resolved = true;
    let ghost all = group_views(groups@);
    let mut k: usize = 0;
    while k < groups.len()
        invariant
            k <= groups.len(),
            all == group_views(groups@),
            group_views(ready@) == rendered_groups(
                rule_views(rules@),
                all.take(k as int),
                raw,
                limit as nat,
            ),
            resolved == groups_resolved(rule_views(rules@), all.take(k as int), raw, limit as nat),
        decreases groups.len() - k,
    {
        let group = &groups[k];
        let mut definitions: Vec<String> = Vec::new();
        let mut group_is_resolved = true;
        let mut i: usize = 0;
        while i < group.definitions.len()
            invariant
                i <= group.definitions.len(),
                string_views(definitions@) == Seq::new(
                    i as nat,
                    |j: int|
                        render_spec(rule_views(rules@), group@.definitions[j], raw, limit as nat).text,
                ),
                group_is_resolved == forall|j: int|
                    0 <= j < i ==> render_spec(
                        rule_views(rules@),
                        #[trigger] group@.definitions[j],
                        raw,
                        limit as nat,
                    ).resolved,
            decreases group.definitions.len() - i,
        {
            assert(group@.definitions[i as int] == group.definitions@[i as int]@);
            let shown = render_definition(group.definitions[i].as_str(), rules, raw, limit);
            if !shown.resolved {
                group_is_resolved = false;
            }
            let ghost earlier = string_views(definitions@);
            definitions.push(shown.text);
            assert(string_views(definitions@) =~= earlier.push(shown@.text));
            i += 1;
        }
        let ghost earlier = group_views(ready@);
        if !group_is_resolved {
            resolved = false;
        }
        let done = Group {
            language: group.language.clone(),
            part_of_speech: group.part_of_speech.clone(),
            definitions,
        };
        ready.push(done);
        proof {
            let rules_view = rule_views(rules@);
            assert(group_views(ready@) =~= earlier.push(done@));
            if groups_resolved(rules_view, all.take(k + 1), raw, limit as nat) {
                assert(all.take(k + 1)[k as int] == group@);
            }
        }
        k += 1;
    }
    assert(all.take(groups@.len() as int) =~= all);
    Rendered { groups: ready, resolved }
}

/// What is shown of the rows of a word: their grouping, of which the groups
/// of one language are kept if one is given, with each definition rendered.
pub open spec fn shows(
    rows: Seq<MeaningModel>,
    language: Option<Seq<char>>,
    rules: Seq<RuleModel>,
    raw: bool,
    limit: nat,
    shown: RenderedModel,
) -> bool {
    exists|groups: Seq<GroupModel>| #[trigger]
        grouped(rows, groups) && shown == render_groups_spec(
            rules,
            of_language(groups, language),
            raw,
            limit,
        )
}

/// Renders the rows of a word: they are grouped by language and part of
/// speech, the groups of one language are kept if one is given, and each
/// definition is expanded, unless `raw` is set, and cleaned. Rows that leave
/// no group give no groups, which is no failure.
pub fn render(
    rows: &Vec<Meaning>,
    language: Option<&str>,
    rules: &Vec<TemplateRule>,
    raw: bool,
    limit: usize,
) -> (shown: Rendered)
    ensures
        shows(
            meaning_views(rows@),
            optional_slice_view(language),
            rule_views(rules@),
            raw,
            limit as nat,
            shown@,
        ),
{
    let groups = group_definitions(rows);
    let kept = filter_language(&groups, language);
    let shown = render_groups(&kept, rules, raw, limit);
    shown
}

/// What is shown of the rows of a word is one thing only.
pub proof fn lemma_shows_one(
    rows: Seq<MeaningModel>,
    language: Option<Seq<char>>,
    rules: Seq<RuleModel>,
    raw: bool,
    limit: nat,
    a: RenderedModel,
    b: RenderedModel,
)
    requires
        shows(rows, language, rules, raw, limit, a),
        shows(rows, language, rules, raw, limit, b),
    ensures
        a == b,
{
    let g = choose|groups: Seq<GroupModel>| #[trigger]
        grouped(rows, groups) && a == render_groups_spec(
            rules,
            of_language(groups, language),
            raw,
            limit,
        );
    let h = choose|groups: Seq<GroupModel>| #[trigger]
        grouped(rows, groups) && b == render_groups_spec(
            rules,
            of_language(groups, language),
            raw,
            limit,
        );
    lemma_grouping_is_unique(rows, g, h);
}

/// The group with each of its definitions wrapped to `width`: the first line
/// is indented by four spaces, the lines after it by six.
pub open spec fn wrapped_group(group: GroupModel, width: nat) -> GroupModel {
    GroupModel {
        language: group.language,
        part_of_speech: group.part_of_speech,
        definitions: Seq::new(
            group.definitions.len(),
            |i: int| filled(group.definitions[i], width, "    "@, "      "@),
        ),
    }
}

/// Wraps each definition of the groups to `width`.
pub fn wrap_groups(groups: &Vec<Group>, width: usize) -> (wrapped: Vec<Group>)
    ensures
        group_views(wrapped@) == Seq::new(
            groups@.len(),
            |k: int| wrapped_group(groups@[k]@, width as nat),
        ),
{
    let mut wrapped: Vec<Group> = Vec::new();
    let mut k: usize = 0;
    while k < groups.len()
        invariant
            k <= groups.len(),
            group_views(wrapped@) == Seq::new(
                k as nat,
                |j: int| wrapped_group(groups@[j]@, width as nat),
            ),
        decreases groups.len() - k,
    {
        let group = &groups[k];
        let mut definitions: Vec<String> = Vec::new();
        let mut i: usize = 0;
        while i < group.definitions.len()
            invariant
                i <= group.definitions.len(),
                string_views(definitions@) == Seq::new(
                    i as nat,
                    |j: int| filled(group@.definitions[j], width as nat, "    "@, "      "@),
                ),
            decreases group.definitions.len() - i,
        {
            let line = fill_text(group.definitions[i].as_str(), width, "    ", "      ");
            let ghost earlier = string_views(definitions@);
            definitions.push(line);
            assert(string_views(definitions@) =~= earlier.push(line@));
            i += 1;
        }
        let ghost earlier = group_views(wrapped@);
        let done = Group {
            language: group.language.clone(),
            part_of_speech: group.part_of_speech.clone(),
            definitions,
        };
        wrapped.push(done);
        assert(group_views(wrapped@) =~= earlier.push(done@));
        k += 1;
    }
    wrapped
}

/// A line of the display.
#[derive(Debug)]
pub enum DisplayLine {
    /// The name of a language, above its groups.
    Language(String),
    /// The name of a part of speech, above its definitions.
    PartOfSpeech(String),
    /// A definition.
    Definition(String),
    /// The notice that there is nothing to show.
    NoResults,
}

/// The mathematical value of a [`DisplayLine`].
pub enum LineModel {
    Language(Seq<char>),
    PartOfSpeech(Seq<char>),
    Definition(Seq<char>),
    NoResults,
}

impl View for DisplayLine {
    type V = LineModel;

    open spec fn view(&self) -> LineModel {
        match self {
            DisplayLine::Language(l) => LineModel::Language(l@),
            DisplayLine::PartOfSpeech(p) => LineModel::PartOfSpeech(p@),
            DisplayLine::Definition(d) => LineModel::Definition(d@),
            DisplayLine::NoResults => LineModel::NoResults,
        }
    }
}

/// The views of the lines of `v`.
pub open spec fn line_views(v: Seq<DisplayLine>) -> Seq<LineModel> {
    Seq::new(v.len(), |i: int| v[i]@)
}

/// The lines above the definitions of the group at index `k`: the language,
/// unless the group before is for the same language, and the part of speech.
pub open spec fn heading_lines(groups: Seq<GroupModel>, k: int) -> Seq<LineModel> {
    if k > 0 && groups[k - 1].language == groups[k].language {
        seq![LineModel::PartOfSpeech(groups[k].part_of_speech)]
    } else {
        seq![LineModel::Language(groups[k].language), LineModel::PartOfSpeech(groups[k].part_of_speech)]
    }
}

/// The lines of the definitions of a group.
pub open spec fn definition_lines(definitions: Seq<Seq<char>>) -> Seq<LineModel> {
    Seq::new(definitions.len(), |i: int| LineModel::Definition(definitions[i]))
}

/// The lines of the first `n` groups.
pub open spec fn lines_of_first(groups: Seq<GroupModel>, n: int) -> Seq<LineModel>
    decreases n,
{
    if n <= 0 {
        Seq::empty()
    } else {
        lines_of_first(groups, n - 1) + heading_lines(groups, n - 1) + definition_lines(
            groups[n - 1].definitions,
        )
    }
}

/// The lines of the display: those of the groups, in order, or the notice
/// where there is no group.
pub open spec fn layout_spec(groups: Seq<GroupModel>) -> Seq<LineModel> {
    if groups.len() == 0 {
        seq![LineModel::NoResults]
    } else {
        lines_of_first(groups, groups.len() as int)
    }
}

/// Lays the groups out as lines.
pub fn layout(groups: &Vec<Group>) -> (lines: Vec<DisplayLine>)
    ensures
        line_views(lines@) == layout_spec(group_views(groups@)),
{
    let mut lines: Vec<DisplayLine> = Vec::new();
    let ghost all = group_views(groups@);
    if groups.len() == 0 {
        lines.push(DisplayLine::NoResults);
        return lines;
    }
    let mut k: usize = 0;
    while k < groups.len()
        invariant
            k <= groups.len(),
            all == group_views(groups@),
            line_views(lines@) == lines_of_first(all, k as int),
        decreases groups.len() - k,
    {
        let group = &groups[k];
        let same_language = k > 0 && groups[k - 1].language == group.language;
        if !same_language {
            lines.push(DisplayLine::Language(group.language.clone()));
        }
        lines.push(DisplayLine::PartOfSpeech(group.part_of_speech.clone()));
        let ghost headed = line_views(lines@);
        let mut i: usize = 0;
        while i < group.definitions.len()
            invariant
                i <= group.definitions.len(),
                line_views(lines@) == headed + definition_lines(group@.definitions).take(i as int),
            decreases group.definitions.len() - i,
        {
            let ghost earlier = line_views(lines@);
            lines.push(DisplayLine::Definition(group.definitions[i].clone()));
            assert(line_views(lines@) =~= earlier.push(
                LineModel::Definition(group@.definitions[i as int]),
            ));
            i += 1;
        }
        k += 1;
    }
    lines
}

} // verus!
