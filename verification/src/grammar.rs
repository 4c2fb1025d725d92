//! The grammar of placeholders.
//!
//! A placeholder is a tag in square brackets. A group of two affixes in
//! braces, `{singular|plural}`, may stand before it and another behind it:
//!
//! ```text
//! {is|are} [subjective]
//! [^subjective] {walks|walk}
//! [subjective] always {walks|walk}
//! ```
//!
//! Between the group before and the bracket there may be one space.
//! Between the bracket and the group behind there may be a space, a run of
//! characters that are not white space, and a space again. Nothing that
//! lies between a bracket or a brace and its partner may run over the end
//! of a line, but for the first character of a tag.
//!
//! A bracket opens no placeholder where the escape character stands on
//! either side of it.

use vstd::prelude::*;
use crate::text::{chars_of, is_whitespace, slice_of, whitespace};

verus! {

/// The escape character, a space of no width. Next to an opening bracket
/// it keeps the bracket from opening a placeholder.
pub const ESCAPE: char = '\u{200B}';

/// The two affixes of a group and the text that parts the group from the
/// bracket.
pub struct Affixes {
    pub singular: Seq<char>,
    pub plural: Seq<char>,
    pub gap: Seq<char>,
}

/// What a placeholder holds, as texts.
pub struct PlaceholderText {
    pub before: Option<Affixes>,
    pub tag: Seq<char>,
    pub after: Option<Affixes>,
}

/// A group of two affixes with its gap.
#[derive(Clone, Debug, PartialEq, Eq)]
pub struct AffixGroup {
    /// The affix for a singular set.
    pub singular: Vec<char>,
    /// The affix for a plural set.
    pub plural: Vec<char>,
    /// What stands between the group and the bracket.
    pub gap: Vec<char>,
}

/// One placeholder of a template.
#[derive(Clone, Debug, PartialEq, Eq)]
pub struct Placeholder {
    /// The group before the bracket.
    pub before: Option<AffixGroup>,
    /// What stands between the brackets, markers included.
    pub tag: Vec<char>,
    /// The group behind the bracket.
    pub after: Option<AffixGroup>,
}

impl View for AffixGroup {
    type V = Affixes;

    open spec fn view(&self) -> Affixes {
        Affixes { singular: self.singular@, plural: self.plural@, gap: self.gap@ }
    }
}

/// The view of a group that may be missing.
pub open spec fn group_view(group: Option<AffixGroup>) -> Option<Affixes> {
    match group {
        Some(g) => Some(g@),
        None => None,
    }
}

impl View for Placeholder {
    type V = PlaceholderText;

    open spec fn view(&self) -> PlaceholderText {
        PlaceholderText {
            before: group_view(self.before),
            tag: self.tag@,
            after: group_view(self.after),
        }
    }
}

impl Affixes {
    /// The group as it is written: `{singular|plural}`.
    pub open spec fn braces(self) -> Seq<char> {
        seq!['{'] + self.singular + seq!['|'] + self.plural + seq!['}']
    }
}

impl PlaceholderText {
    /// The placeholder as it is written in a template.
    pub open spec fn source(self) -> Seq<char> {
        let before = match self.before {
            Some(group) => group.braces() + group.gap,
            None => Seq::empty(),
        };
        let after = match self.after {
            Some(group) => group.gap + group.braces(),
            None => Seq::empty(),
        };
        before + seq!['['] + self.tag + seq![']'] + after
    }
}

/// Where a group of affixes stands: the positions of its two braces and
/// of the bar between them.
pub struct AffixAt {
    pub open: int,
    pub bar: int,
    pub close: int,
}

/// Where a placeholder stands: the positions of its two brackets, and its
/// groups.
pub struct PlaceholderAt {
    pub before: Option<AffixAt>,
    pub open: int,
    pub close: int,
    pub after: Option<AffixAt>,
}

impl PlaceholderAt {
    /// The position of the first character of the placeholder.
    pub open spec fn start(self) -> int {
        match self.before {
            Some(group) => group.open,
            None => self.open,
        }
    }

    /// The position behind the last character of the placeholder.
    pub open spec fn end(self) -> int {
        match self.after {
            Some(group) => group.close + 1,
            None => self.close + 1,
        }
    }

    /// The positions follow each other as the grammar has them, inside a
    /// text of the given length.
    pub open spec fn within(self, len: int) -> bool {
        &&& 0 <= self.open
        &&& self.open + 2 <= self.close < len
        &&& self.before matches Some(g) ==> 0 <= g.open < g.bar < g.close < self.open
        &&& self.after matches Some(g) ==> self.close < g.open < g.bar < g.close < len
    }

    /// The texts of the placeholder that stands here in `t`.
    pub open spec fn read(self, t: Seq<char>) -> PlaceholderText {
        PlaceholderText {
            before: match self.before {
                Some(g) => Some(
                    Affixes {
                        singular: t.subrange(g.open + 1, g.bar),
                        plural: t.subrange(g.bar + 1, g.close),
                        gap: t.subrange(g.close + 1, self.open),
                    },
                ),
                None => None,
            },
            tag: t.subrange(self.open + 1, self.close),
            after: match self.after {
                Some(g) => Some(
                    Affixes {
                        singular: t.subrange(g.open + 1, g.bar),
                        plural: t.subrange(g.bar + 1, g.close),
                        gap: t.subrange(self.close + 1, g.open),
                    },
                ),
                None => None,
            },
        }
    }
}

/// The first position at or after `from` that holds `c`, where no line
/// ends before it.
pub open spec fn line_position(t: Seq<char>, c: char, from: int) -> Option<int>
    decreases t.len() - from,
{
    if from < 0 || from >= t.len() {
        None
    } else if t[from] == c {
        Some(from)
    } else if t[from] == '\n' {
        None
    } else {
        line_position(t, c, from + 1)
    }
}

/// Whether the bracket at `at` can open a placeholder: a character
/// follows it, and the escape character stands on neither side of it.
pub open spec fn opens_at(t: Seq<char>, at: int) -> bool {
    &&& 0 <= at
    &&& at + 1 < t.len()
    &&& t[at] == '['
    &&& t[at + 1] != ESCAPE
    &&& (at == 0 || t[at - 1] != ESCAPE)
}

/// The bracket that closes the tag opened at `at`: the first one behind
/// the first character of the tag.
pub open spec fn bracket_close(t: Seq<char>, at: int) -> Option<int> {
    if opens_at(t, at) {
        line_position(t, ']', at + 2)
    } else {
        None
    }
}

/// The group of affixes whose brace opens at `at`: it runs to the first
/// bar, and from there to the first closing brace.
pub open spec fn affix_at(t: Seq<char>, at: int) -> Option<AffixAt> {
    if 0 <= at < t.len() && t[at] == '{' {
        match line_position(t, '|', at + 1) {
            Some(bar) => match line_position(t, '}', bar + 1) {
                Some(close) => Some(AffixAt { open: at, bar, close }),
                None => None,
            },
            None => None,
        }
    } else {
        None
    }
}

/// The group behind a bracket, looked for from `at` on, where everything
/// before `at` is taken as part of the gap. The gap goes on over
/// characters that are not white space and ends with at most one space;
/// the first brace on the way that opens a group is the one.
pub open spec fn affix_behind_gap(t: Seq<char>, at: int) -> Option<AffixAt>
    decreases t.len() - at,
{
    if at < 0 || at >= t.len() {
        None
    } else if t[at] == ' ' {
        affix_at(t, at + 1)
    } else if is_whitespace(t[at]) {
        None
    } else {
        match affix_at(t, at) {
            Some(group) => Some(group),
            None => affix_behind_gap(t, at + 1),
        }
    }
}

/// The group behind the bracket that closes at `close`.
pub open spec fn affix_after(t: Seq<char>, close: int) -> Option<AffixAt> {
    if 0 <= close + 1 < t.len() && t[close + 1] == ' ' {
        affix_behind_gap(t, close + 2)
    } else {
        affix_behind_gap(t, close + 1)
    }
}

/// Where the bracket must open behind a group that closes at `close`:
/// right behind the brace, or behind one space.
pub open spec fn bracket_behind(t: Seq<char>, close: int) -> int {
    if 0 <= close + 1 < t.len() && t[close + 1] == ' ' {
        close + 2
    } else {
        close + 1
    }
}

/// The placeholder whose group before the bracket opens at `open` and has
/// its bar at `bar`, the closing brace being looked for from `from` on.
/// The group closes at the first brace behind which a bracket opens a
/// tag.
pub open spec fn prefixed_from(t: Seq<char>, open: int, bar: int, from: int) -> Option<
    PlaceholderAt,
>
    decreases t.len() - from,
{
    match line_position(t, '}', from) {
        None => None,
        Some(close) => {
            let bracket = bracket_behind(t, close);
            match bracket_close(t, bracket) {
                Some(end) => Some(
                    PlaceholderAt {
                        before: Some(AffixAt { open, bar, close }),
                        open: bracket,
                        close: end,
                        after: affix_after(t, end),
                    },
                ),
                None => if from <= close < t.len() {
                    prefixed_from(t, open, bar, close + 1)
                } else {
                    None
                },
            }
        },
    }
}

/// The placeholder that starts at `at`.
pub open spec fn placeholder_at(t: Seq<char>, at: int) -> Option<PlaceholderAt> {
    if 0 <= at < t.len() && t[at] == '{' {
        match line_position(t, '|', at + 1) {
            Some(bar) => prefixed_from(t, at, bar, bar + 1),
            None => None,
        }
    } else {
        match bracket_close(t, at) {
            Some(close) => Some(
                PlaceholderAt { before: None, open: at, close, after: affix_after(t, close) },
            ),
            None => None,
        }
    }
}

/// The placeholders of `t` from position `from` on, from left to right.
/// Each is the first that starts at or after the end of the one before.
pub open spec fn placeholders_from(t: Seq<char>, from: int) -> Seq<PlaceholderAt>
    decreases t.len() - from,
{
    if from < 0 || from >= t.len() {
        Seq::empty()
    } else {
        match placeholder_at(t, from) {
            Some(p) => if from < p.end() <= t.len() {
                seq![p] + placeholders_from(t, p.end())
            } else {
                Seq::empty()
            },
            None => placeholders_from(t, from + 1),
        }
    }
}

/// The placeholders of a template, from left to right.
pub open spec fn placeholders(t: Seq<char>) -> Seq<PlaceholderAt> {
    placeholders_from(t, 0)
}

/// The texts of the placeholders that stand in `t` at the given places.
pub open spec fn read_all(t: Seq<char>, places: Seq<PlaceholderAt>) -> Seq<PlaceholderText> {
    places.map_values(|p: PlaceholderAt| p.read(t))
}

/// The texts of the placeholders of a template, from left to right.
pub open spec fn placeholder_texts(t: Seq<char>) -> Seq<PlaceholderText> {
    read_all(t, placeholders(t))
}

/// The views of the placeholders in a vector.
pub open spec fn placeholder_views(v: Seq<Placeholder>) -> Seq<PlaceholderText> {
    v.map_values(|p: Placeholder| p@)
}

/// A position that `line_position` finds lies at or after the start, and
/// holds the character.
pub proof fn lemma_line_position(t: Seq<char>, c: char, from: int)
    ensures
        line_position(t, c, from) matches Some(p) ==> 0 <= from <= p < t.len() && t[p] == c,
    decreases t.len() - from,
{
    if 0 <= from < t.len() && t[from] != c && t[from] != '\n' {
        lemma_line_position(t, c, from + 1);
    }
}

/// Finds the first `c` at or after `from` before the line ends.
fn find_on_line(t: &Vec<char>, c: char, from: usize) -> (found: Option<usize>)
    ensures
        match line_position(t@, c, from as int) {
            Some(p) => found == Some(p as usize) && from <= p < t.len() && t@[p] == c,
            None => found is None,
        },
{
    let mut at: usize = from;
    while at < t.len()
        invariant
            from <= at,
            line_position(t@, c, from as int) == line_position(t@, c, at as int),
        decreases t.len() - at,
    {
        if t[at] == c {
            return Some(at);
        }
        if t[at] == '\n' {
            return None;
        }
        at += 1;
    }
    None
}

/// Finds the bracket that closes the tag opened at `at`.
fn find_bracket_close(t: &Vec<char>, at: usize) -> (found: Option<usize>)
    ensures
        match bracket_close(t@, at as int) {
            Some(p) => found == Some(p as usize) && at + 2 <= p < t.len(),
            None => found is None,
        },
{
    if at < t.len() && t.len() - at > 1 && t[at] == '[' && t[at + 1] != ESCAPE && (at == 0 || t[at
        - 1] != ESCAPE) {
        find_on_line(t, ']', at + 2)
    } else {
        None
    }
}

/// The positions of a group of affixes.
struct GroupSpan {
    open: usize,
    bar: usize,
    close: usize,
}

impl GroupSpan {
    spec fn at(self) -> AffixAt {
        AffixAt { open: self.open as int, bar: self.bar as int, close: self.close as int }
    }

    spec fn fits(self, found: Option<AffixAt>, len: int) -> bool {
        &&& found == Some(self.at())
        &&& self.open < self.bar < self.close < len
    }
}

/// Finds the group of affixes whose brace opens at `at`.
fn find_affix_at(t: &Vec<char>, at: usize) -> (found: Option<GroupSpan>)
    ensures
        match affix_at(t@, at as int) {
            Some(g) => found is Some && found.unwrap().fits(Some(g), t.len() as int) && g.open
                == at,
            None => found is None,
        },
{
    if at < t.len() && t[at] == '{' {
        match find_on_line(t, '|', at + 1) {
            Some(bar) => match find_on_line(t, '}', bar + 1) {
                Some(close) => Some(GroupSpan { open: at, bar, close }),
                None => None,
            },
            None => None,
        }
    } else {
        None
    }
}

/// Finds the group behind the bracket that closes at `close`.
fn find_affix_after(t: &Vec<char>, close: usize) -> (found: Option<GroupSpan>)
    requires
        close < t.len(),
    ensures
        match affix_after(t@, close as int) {
            Some(g) => found is Some && found.unwrap().fits(Some(g), t.len() as int) && close
                < g.open,
            None => found is None,
        },
{
    let mut at: usize = close + 1;
    if at < t.len() && t[at] == ' ' {
        at += 1;
    }
    while at < t.len()
        invariant
            close < at,
            affix_after(t@, close as int) == affix_behind_gap(t@, at as int),
        decreases t.len() - at,
    {
        if t[at] == ' ' {
            return find_affix_at(t, at + 1);
        }
        if whitespace(t[at]) {
            return None;
        }
        match find_affix_at(t, at) {
            Some(group) => {
                return Some(group);
            },
            None => {},
        }
        at += 1;
    }
    None
}

/// The place of a placeholder with the given brackets and groups.
spec fn place(before: Option<GroupSpan>, open: usize, close: usize, after: Option<GroupSpan>)
    -> PlaceholderAt {
    PlaceholderAt {
        before: match before {
            Some(g) => Some(g.at()),
            None => None,
        },
        open: open as int,
        close: close as int,
        after: match after {
            Some(g) => Some(g.at()),
            None => None,
        },
    }
}

/// Copies a group and its gap out of the template.
fn read_group(t: &Vec<char>, g: &GroupSpan, gap_from: usize, gap_to: usize) -> (group: AffixGroup)
    requires
        g.open < g.bar < g.close < t.len(),
        gap_from <= gap_to <= t.len(),
    ensures
        group@ == (Affixes {
            singular: t@.subrange(g.open + 1, g.bar as int),
            plural: t@.subrange(g.bar + 1, g.close as int),
            gap: t@.subrange(gap_from as int, gap_to as int),
        }),
{
    AffixGroup {
        singular: slice_of(t, g.open + 1, g.bar),
        plural: slice_of(t, g.bar + 1, g.close),
        gap: slice_of(t, gap_from, gap_to),
    }
}

/// Copies a placeholder out of the template.
fn read_placeholder(
    t: &Vec<char>,
    before: Option<GroupSpan>,
    open: usize,
    close: usize,
    after: Option<GroupSpan>,
) -> (found: Placeholder)
    requires
        place(before, open, close, after).within(t.len() as int),
    ensures
        found@ == place(before, open, close, after).read(t@),
{
    let before_group = match &before {
        Some(g) => Some(read_group(t, g, g.close + 1, open)),
        None => None,
    };
    let after_group = match &after {
        Some(g) => Some(read_group(t, g, close + 1, g.open)),
        None => None,
    };
    Placeholder { before: before_group, tag: slice_of(t, open + 1, close), after: after_group }
}

/// What `find_placeholder_at` returns for what the grammar finds: the
/// texts of the placeholder and the position behind it.
spec fn is_found(
    t: Seq<char>,
    at: int,
    place: Option<PlaceholderAt>,
    found: Option<(Placeholder, usize)>,
) -> bool {
    match place {
        Some(p) => {
            &&& found is Some
            &&& found.unwrap().0@ == p.read(t)
            &&& found.unwrap().1 == p.end()
            &&& at < p.end() <= t.len()
        },
        None => found is None,
    }
}

/// Finds the placeholder whose group before the bracket opens at `open`.
fn find_prefixed(t: &Vec<char>, open: usize, bar: usize) -> (found: Option<(Placeholder, usize)>)
    requires
        open < bar < t.len(),
    ensures
        is_found(t@, open as int, prefixed_from(t@, open as int, bar as int, bar + 1), found),
{
    let mut from: usize = bar + 1;
    loop
        invariant
            open < bar < from <= t.len(),
            prefixed_from(t@, open as int, bar as int, bar + 1) == prefixed_from(
                t@,
                open as int,
                bar as int,
                from as int,
            ),
        decreases t.len() - from,
    {
        match find_on_line(t, '}', from) {
            None => {
                return None;
            },
            Some(close) => {
                let mut bracket: usize = close + 1;
                if bracket < t.len() && t[bracket] == ' ' {
                    bracket += 1;
                }
                match find_bracket_close(t, bracket) {
                    Some(end) => {
                        let after = find_affix_after(t, end);
                        let before = Some(GroupSpan { open, bar, close });
                        let stop: usize = match &after {
                            Some(g) => g.close + 1,
                            None => end + 1,
                        };
                        let found = read_placeholder(t, before, bracket, end, after);
                        return Some((found, stop));
                    },
                    None => {
                        from = close + 1;
                    },
                }
            },
        }
    }
}

/// Finds the placeholder that starts at `at`.
fn find_placeholder_at(t: &Vec<char>, at: usize) -> (found: Option<(Placeholder, usize)>)
    requires
        at < t.len(),
    ensures
        is_found(t@, at as int, placeholder_at(t@, at as int), found),
{
    if t[at] == '{' {
        match find_on_line(t, '|', at + 1) {
            Some(bar) => find_prefixed(t, at, bar),
            None => None,
        }
    } else {
        match find_bracket_close(t, at) {
            Some(close) => {
                let after = find_affix_after(t, close);
                let stop: usize = match &after {
                    Some(g) => g.close + 1,
                    None => close + 1,
                };
                let found = read_placeholder(t, None, at, close, after);
                Some((found, stop))
            },
            None => None,
        }
    }
}

/// Finds the placeholders of a template, from left to right.
pub fn find_placeholders(t: &Vec<char>) -> (found: Vec<Placeholder>)
    ensures
        placeholder_views(found@) == placeholder_texts(t@),
{
    let mut found: Vec<Placeholder> = Vec::new();
    let mut from: usize = 0;
    while from < t.len()
        invariant
            from <= t.len(),
            placeholder_texts(t@) == placeholder_views(found@) + read_all(
                t@,
                placeholders_from(t@, from as int),
            ),
        decreases t.len() - from,
    {
        let ghost rest = placeholders_from(t@, from as int);
        let ghost before = found@;
        match find_placeholder_at(t, from) {
            Some((placeholder, stop)) => {
                proof {
                    let p = placeholder_at(t@, from as int).unwrap();
                    let next = placeholders_from(t@, p.end());
                    assert(rest == seq![p] + next);
                    assert(read_all(t@, rest) == seq![p.read(t@)] + read_all(t@, next));
                    assert(placeholder_views(before.push(placeholder)) == placeholder_views(
                        before,
                    ) + seq![placeholder@]);
                }
                found.push(placeholder);
                from = stop;
            },
            None => {
                from += 1;
            },
        }
    }
    assert(read_all(t@, placeholders_from(t@, from as int)) == Seq::<PlaceholderText>::empty());
    found
}

/// Finds the placeholders of a template given as a string.
pub fn placeholders_of(template: &str) -> (found: Vec<Placeholder>)
    ensures
        placeholder_views(found@) == placeholder_texts(template@),
{
    find_placeholders(&chars_of(template))
}

impl AffixAt {
    /// The group stands in `t`: its braces and its bar are where the
    /// positions say.
    pub open spec fn stands_in(self, t: Seq<char>) -> bool {
        &&& 0 <= self.open < self.bar < self.close < t.len()
        &&& t[self.open] == '{'
        &&& t[self.bar] == '|'
        &&& t[self.close] == '}'
    }
}

impl PlaceholderAt {
    /// The placeholder stands in `t`: its positions are in order, the
    /// brackets, braces and bars are where they say, and the first bracket
    /// can open a placeholder.
    pub open spec fn stands_in(self, t: Seq<char>) -> bool {
        &&& self.within(t.len() as int)
        &&& opens_at(t, self.open)
        &&& t[self.close] == ']'
        &&& self.before matches Some(g) ==> g.stands_in(t)
        &&& self.after matches Some(g) ==> g.stands_in(t)
    }
}

/// A group that the grammar finds stands in the text, at the position
/// asked for.
pub proof fn lemma_affix_at(t: Seq<char>, at: int)
    ensures
        affix_at(t, at) matches Some(g) ==> g.stands_in(t) && g.open == at,
{
    lemma_line_position(t, '|', at + 1);
    if let Some(bar) = line_position(t, '|', at + 1) {
        lemma_line_position(t, '}', bar + 1);
    }
}

/// A group found behind a gap stands in the text, at or after the
/// position from which it was looked for.
pub proof fn lemma_affix_behind_gap(t: Seq<char>, at: int)
    ensures
        affix_behind_gap(t, at) matches Some(g) ==> g.stands_in(t) && at <= g.open,
    decreases t.len() - at,
{
    if 0 <= at < t.len() {
        lemma_affix_at(t, at);
        lemma_affix_at(t, at + 1);
        if t[at] != ' ' && !is_whitespace(t[at]) && affix_at(t, at) is None {
            lemma_affix_behind_gap(t, at + 1);
        }
    }
}

/// A placeholder with a group before it, where the grammar finds one,
/// stands in the text and starts with that group.
pub proof fn lemma_prefixed_from(t: Seq<char>, open: int, bar: int, from: int)
    requires
        0 <= open < bar < from,
        t[open] == '{',
        t[bar] == '|',
    ensures
        prefixed_from(t, open, bar, from) matches Some(p) ==> p.stands_in(t) && p.start() == open,
    decreases t.len() - from,
{
    lemma_line_position(t, '}', from);
    if let Some(close) = line_position(t, '}', from) {
        let bracket = bracket_behind(t, close);
        match bracket_close(t, bracket) {
            Some(end) => {
                lemma_line_position(t, ']', bracket + 2);
                lemma_affix_behind_gap(t, end + 1);
                lemma_affix_behind_gap(t, end + 2);
            },
            None => {
                lemma_prefixed_from(t, open, bar, close + 1);
            },
        }
    }
}

/// A placeholder that the grammar finds stands in the text and starts at
/// the position asked for.
pub proof fn lemma_placeholder_at(t: Seq<char>, at: int)
    ensures
        placeholder_at(t, at) matches Some(p) ==> p.stands_in(t) && p.start() == at,
{
    if 0 <= at < t.len() && t[at] == '{' {
        lemma_line_position(t, '|', at + 1);
        if let Some(bar) = line_position(t, '|', at + 1) {
            lemma_prefixed_from(t, at, bar, bar + 1);
        }
    } else if let Some(close) = bracket_close(t, at) {
        lemma_line_position(t, ']', at + 2);
        lemma_affix_behind_gap(t, close + 1);
        lemma_affix_behind_gap(t, close + 2);
    }
}

/// The source of a placeholder that stands in a text is the stretch of
/// the text from its start to its end.
pub proof fn lemma_source_is_the_stretch(t: Seq<char>, p: PlaceholderAt)
    requires
        p.stands_in(t),
    ensures
        p.read(t).source() == t.subrange(p.start(), p.end()),
{
    let read = p.read(t);
    let tag = seq!['['] + read.tag + seq![']'];
    assert(tag == t.subrange(p.open, p.close + 1));
    let before = match read.before {
        Some(group) => group.braces() + group.gap,
        None => Seq::empty(),
    };
    let after = match read.after {
        Some(group) => group.gap + group.braces(),
        None => Seq::empty(),
    };
    assert(before == t.subrange(p.start(), p.open)) by {
        if let Some(g) = p.before {
            assert(read.before.unwrap().braces() == t.subrange(g.open, g.close + 1));
        }
    }
    assert(after == t.subrange(p.close + 1, p.end())) by {
        if let Some(g) = p.after {
            assert(read.after.unwrap().braces() == t.subrange(g.open, g.close + 1));
        }
    }
    assert(read.source() == before + seq!['['] + read.tag + seq![']'] + after);
    assert(before + seq!['['] + read.tag + seq![']'] + after == t.subrange(p.start(), p.end()));
}

/// The placeholders of a template stand in it, one behind the other:
/// each starts at or after `from` and at or after the end of the one
/// before it.
pub proof fn lemma_placeholders_from(t: Seq<char>, from: int)
    requires
        0 <= from,
    ensures
        forall|k: int|
            0 <= k < placeholders_from(t, from).len() ==> (#[trigger] placeholders_from(
                t,
                from,
            )[k]).stands_in(t) && from <= placeholders_from(t, from)[k].start(),
        forall|k: int|
            0 < k < placeholders_from(t, from).len() ==> placeholders_from(t, from)[k - 1].end()
                <= (#[trigger] placeholders_from(t, from)[k]).start(),
    decreases t.len() - from,
{
    let all = placeholders_from(t, from);
    if from < t.len() {
        lemma_placeholder_at(t, from);
        match placeholder_at(t, from) {
            Some(p) => {
                if from < p.end() <= t.len() {
                    lemma_placeholders_from(t, p.end());
                    let rest = placeholders_from(t, p.end());
                    assert(all == seq![p] + rest);
                    assert forall|k: int| 0 <= k < all.len() implies (#[trigger] all[k]).stands_in(
                        t,
                    ) && from <= all[k].start() by {
                        if k > 0 {
                            assert(all[k] == rest[k - 1]);
                        }
                    }
                    assert forall|k: int| 0 < k < all.len() implies all[k - 1].end() <= (
                    #[trigger] all[k]).start() by {
                        assert(all[k] == rest[k - 1]);
                        if k > 1 {
                            assert(all[k - 1] == rest[k - 2]);
                        }
                    }
                }
            },
            None => {
                lemma_placeholders_from(t, from + 1);
                assert(all == placeholders_from(t, from + 1));
            },
        }
    }
    assert forall|k: int| 0 <= k < all.len() implies (#[trigger] all[k]).stands_in(t) && from
        <= all[k].start() by {}
    assert forall|k: int| 0 < k < all.len() implies all[k - 1].end() <= (#[trigger] all[k]).start() by {}
}

/// The source of each placeholder of a template is the stretch of the
/// template in which the placeholder stands.
pub proof fn lemma_sources_are_stretches(t: Seq<char>, k: int)
    requires
        0 <= k < placeholders(t).len(),
    ensures
        placeholders(t)[k].stands_in(t),
        placeholder_texts(t)[k].source() == t.subrange(
            placeholders(t)[k].start(),
            placeholders(t)[k].end(),
        ),
{
    lemma_placeholders_from(t, 0);
    lemma_source_is_the_stretch(t, placeholders(t)[k]);
}

/// Where `c` stands at `at`, and neither `c` nor the end of a line
/// stands between `from` and `at`, `line_position` finds it there.
pub proof fn lemma_line_position_first(t: Seq<char>, c: char, from: int, at: int)
    requires
        0 <= from <= at < t.len(),
        t[at] == c,
        forall|i: int| from <= i < at ==> t[i] != c && t[i] != '\n',
    ensures
        line_position(t, c, from) == Some(at),
    decreases at - from,
{
    if from < at {
        lemma_line_position_first(t, c, from + 1, at);
    }
}

/// Where no brace opens from `from` on, no group is found behind a gap.
pub proof fn lemma_no_group_without_brace(t: Seq<char>, from: int)
    requires
        forall|i: int| from <= i < t.len() ==> t[i] != '{',
    ensures
        affix_behind_gap(t, from) is None,
    decreases t.len() - from,
{
    if 0 <= from < t.len() {
        if t[from] != ' ' && !is_whitespace(t[from]) {
            lemma_no_group_without_brace(t, from + 1);
        }
    }
}

/// A stretch without an opening bracket and without an opening brace
/// holds no placeholder.
pub proof fn lemma_no_placeholder_without_opening(t: Seq<char>, from: int, to: int)
    requires
        0 <= from <= to <= t.len(),
        forall|i: int| from <= i < to ==> t[i] != '[' && t[i] != '{',
    ensures
        placeholders_from(t, from) == placeholders_from(t, to),
    decreases to - from,
{
    if from < to {
        assert(placeholder_at(t, from) is None);
        lemma_no_placeholder_without_opening(t, from + 1, to);
    }
}

/// A tag that can stand twice in a template as a plain placeholder: it
/// is not empty, does not start with the escape character, holds no
/// brace that opens, and behind its first character no bracket that
/// closes and no end of a line.
pub open spec fn plain_tag(tag: Seq<char>) -> bool {
    &&& tag.len() > 0
    &&& tag[0] != ESCAPE
    &&& forall|i: int| 0 <= i < tag.len() ==> tag[i] != '{'
    &&& forall|i: int| 1 <= i < tag.len() ==> tag[i] != ']' && tag[i] != '\n'
}

/// A text that can stand beside plain placeholders without touching
/// them: it holds no bracket and no brace that opens, and does not end
/// with the escape character.
pub open spec fn plain_text(s: Seq<char>) -> bool {
    &&& forall|i: int| 0 <= i < s.len() ==> s[i] != '[' && s[i] != '{'
    &&& s.len() == 0 || s.last() != ESCAPE
}

/// A plain tag in brackets, with no escape character before it and no
/// opening brace behind it, is a placeholder without groups.
pub proof fn lemma_plain_placeholder_at(t: Seq<char>, at: int, tag: Seq<char>)
    requires
        plain_tag(tag),
        0 <= at,
        at + tag.len() + 2 <= t.len(),
        t[at] == '[',
        t[at + tag.len() + 1] == ']',
        forall|i: int| 0 <= i < tag.len() ==> t[at + 1 + i] == tag[i],
        at == 0 || t[at - 1] != ESCAPE,
        forall|i: int| at + tag.len() + 2 <= i < t.len() ==> t[i] != '{',
    ensures
        placeholder_at(t, at) == Some(
            PlaceholderAt { before: None, open: at, close: at + tag.len() + 1, after: None },
        ),
        t.subrange(at + 1, at + tag.len() + 1) == tag,
{
    let close = at + tag.len() + 1;
    assert(t[at + 1] == tag[0]);
    assert(opens_at(t, at));
    assert forall|i: int| at + 2 <= i < close implies t[i] != ']' && t[i] != '\n' by {
        assert(t[at + 1 + (i - at - 1)] == tag[i - at - 1]);
    }
    lemma_line_position_first(t, ']', at + 2, close);
    lemma_no_group_without_brace(t, close + 1);
    lemma_no_group_without_brace(t, close + 2);
    assert(t.subrange(at + 1, close) == tag) by {
        assert forall|i: int| 0 <= i < tag.len() implies t.subrange(at + 1, close)[i] == tag[i] by {
            assert(t[at + 1 + i] == tag[i]);
        }
    }
}

/// A template made of plain texts and the same plain tag in brackets,
/// twice, has two placeholders: the two tags, without groups.
pub proof fn lemma_plain_tag_twice(a: Seq<char>, b: Seq<char>, c: Seq<char>, tag: Seq<char>)
    requires
        plain_tag(tag),
        plain_text(a),
        plain_text(b),
        forall|i: int| 0 <= i < c.len() ==> c[i] != '[' && c[i] != '{',
    ensures
        placeholder_texts(a + (seq!['['] + tag + seq![']']) + b + (seq!['['] + tag + seq![']']) + c)
            == seq![
            PlaceholderText { before: None, tag, after: None },
            PlaceholderText { before: None, tag, after: None },
        ],
{
    let w = seq!['['] + tag + seq![']'];
    let t = a + w + b + w + c;
    let n = w.len() as int;
    let i1 = a.len() as int;
    let i2 = i1 + n;
    let i3 = i2 + b.len();
    let i4 = i3 + n;
    lemma_parts_of_plain_template(a, b, c, tag);
    lemma_two_plain_placeholders(t, i1, i3, tag);
}

/// A text in which the same plain tag stands in brackets at two places,
/// with no other bracket or brace that opens, has two placeholders: the
/// two tags, without groups.
proof fn lemma_two_plain_placeholders(t: Seq<char>, i1: int, i3: int, tag: Seq<char>)
    requires
        plain_tag(tag),
        0 <= i1,
        i1 + tag.len() + 2 <= i3,
        i3 + tag.len() + 2 <= t.len(),
        forall|i: int| 0 <= i < i1 ==> t[i] != '[' && t[i] != '{',
        forall|i: int| i1 + tag.len() + 2 <= i < i3 ==> t[i] != '[' && t[i] != '{',
        forall|i: int| i3 + tag.len() + 2 <= i < t.len() ==> t[i] != '[' && t[i] != '{',
        forall|i: int| i1 + tag.len() + 2 <= i < t.len() ==> t[i] != '{',
        t[i1] == '[',
        t[i1 + tag.len() + 1] == ']',
        t[i3] == '[',
        t[i3 + tag.len() + 1] == ']',
        forall|i: int| 0 <= i < tag.len() ==> t[i1 + 1 + i] == tag[i],
        forall|i: int| 0 <= i < tag.len() ==> t[i3 + 1 + i] == tag[i],
        i1 == 0 || t[i1 - 1] != ESCAPE,
        t[i3 - 1] != ESCAPE,
    ensures
        placeholder_texts(t) == seq![
            PlaceholderText { before: None, tag, after: None },
            PlaceholderText { before: None, tag, after: None },
        ],
{
    let n = tag.len() as int + 2;
    let i2 = i1 + n;
    let i4 = i3 + n;
    let end = t.len() as int;
    let first = PlaceholderAt { before: None, open: i1, close: i2 - 1, after: None };
    let second = PlaceholderAt { before: None, open: i3, close: i4 - 1, after: None };
    lemma_plain_placeholder_at(t, i1, tag);
    lemma_plain_placeholder_at(t, i3, tag);
    lemma_no_placeholder_without_opening(t, 0, i1);
    lemma_no_placeholder_without_opening(t, i2, i3);
    lemma_no_placeholder_without_opening(t, i4, end);
    assert(placeholders_from(t, end) == Seq::<PlaceholderAt>::empty());
    assert(placeholders_from(t, i3) == seq![second] + placeholders_from(t, i4));
    assert(placeholders_from(t, i1) == seq![first] + placeholders_from(t, i2));
    assert(placeholders(t) == seq![first, second]);
    assert(read_all(t, placeholders(t)) == seq![first.read(t), second.read(t)]);
}

/// The characters of a template that is made of three plain texts and
/// the same plain tag in brackets, twice.
proof fn lemma_parts_of_plain_template(a: Seq<char>, b: Seq<char>, c: Seq<char>, tag: Seq<char>)
    requires
        plain_tag(tag),
        plain_text(a),
        plain_text(b),
        forall|i: int| 0 <= i < c.len() ==> c[i] != '[' && c[i] != '{',
    ensures
        ({
            let w = seq!['['] + tag + seq![']'];
            let t = a + w + b + w + c;
            let n = tag.len() as int + 2;
            let i1 = a.len() as int;
            let i2 = i1 + n;
            let i3 = i2 + b.len();
            let i4 = i3 + n;
            &&& t.len() == i4 + c.len()
            &&& forall|i: int| 0 <= i < i1 ==> t[i] != '[' && t[i] != '{'
            &&& forall|i: int| i2 <= i < i3 ==> t[i] != '[' && t[i] != '{'
            &&& forall|i: int| i4 <= i < t.len() ==> t[i] != '[' && t[i] != '{'
            &&& forall|i: int| i2 <= i < t.len() ==> t[i] != '{'
            &&& t[i1] == '[' && t[i2 - 1] == ']' && t[i3] == '[' && t[i4 - 1] == ']'
            &&& forall|i: int| 0 <= i < tag.len() ==> t[i1 + 1 + i] == tag[i]
            &&& forall|i: int| 0 <= i < tag.len() ==> t[i3 + 1 + i] == tag[i]
            &&& i1 == 0 || t[i1 - 1] != ESCAPE
            &&& t[i3 - 1] != ESCAPE
        }),
{
    let w = seq!['['] + tag + seq![']'];
    let s1 = a + w;
    let s2 = s1 + b;
    let s3 = s2 + w;
    let t = s3 + c;
    let n = tag.len() as int + 2;
    let i1 = a.len() as int;
    let i2 = i1 + n;
    let i3 = i2 + b.len();
    let i4 = i3 + n;
    let end = t.len() as int;
    assert(w.len() == n && s1.len() == i2 && s2.len() == i3 && s3.len() == i4);
    assert(w[0] == '[' && w[n - 1] == ']');
    assert forall|j: int| 1 <= j < n - 1 implies w[j] == tag[j - 1] by {}
    assert forall|i: int| 0 <= i < i1 implies t[i] == a[i] by {
        assert(t[i] == s3[i] && s3[i] == s2[i] && s2[i] == s1[i] && s1[i] == a[i]);
    }
    assert forall|i: int| i1 <= i < i2 implies t[i] == w[i - i1] by {
        assert(t[i] == s3[i] && s3[i] == s2[i] && s2[i] == s1[i] && s1[i] == w[i - i1]);
    }
    assert forall|i: int| i2 <= i < i3 implies t[i] == b[i - i2] by {
        assert(t[i] == s3[i] && s3[i] == s2[i] && s2[i] == b[i - i2]);
    }
    assert forall|i: int| i3 <= i < i4 implies t[i] == w[i - i3] by {
        assert(t[i] == s3[i] && s3[i] == w[i - i3]);
    }
    assert forall|i: int| i4 <= i < end implies t[i] == c[i - i4] by {}
    assert(t[i1] == w[0] && t[i3] == w[0]);
    assert(t[i2 - 1] == w[n - 1] && t[i4 - 1] == w[n - 1]);
    assert forall|i: int| 0 <= i < tag.len() implies t[i1 + 1 + i] == tag[i] && t[i3 + 1 + i]
        == tag[i] by {
        assert(w[i + 1] == tag[i]);
        assert(t[i1 + 1 + i] == w[i1 + 1 + i - i1]);
        assert(t[i3 + 1 + i] == w[i3 + 1 + i - i3]);
    }
    assert forall|i: int| i2 <= i < end implies t[i] != '{' by {
        if i3 <= i < i4 {
            let j = i - i3;
            assert(t[i] == w[j]);
            if 1 <= j < n - 1 {
                assert(w[j] == tag[j - 1]);
            }
        } else if i < i3 {
            assert(t[i] == b[i - i2]);
        } else {
            assert(t[i] == c[i - i4]);
        }
    }
    if i1 > 0 {
        assert(t[i1 - 1] == a[i1 - 1]);
        assert(a[i1 - 1] == a.last());
    }
    if b.len() > 0 {
        assert(t[i3 - 1] == b[i3 - 1 - i2]);
        assert(b[i3 - 1 - i2] == b.last());
    } else {
        assert(t[i3 - 1] == w[n - 1]);
    }
}

/// Where no bracket opens from `from` on, no placeholder with a group
/// before it is found.
pub proof fn lemma_no_prefixed_without_bracket(t: Seq<char>, open: int, bar: int, from: int)
    requires
        forall|i: int| 0 <= i < t.len() ==> t[i] != '[',
    ensures
        prefixed_from(t, open, bar, from) is None,
    decreases t.len() - from,
{
    if let Some(close) = line_position(t, '}', from) {
        if from <= close < t.len() {
            lemma_no_prefixed_without_bracket(t, open, bar, close + 1);
        }
    }
}

/// A text without an opening bracket holds no placeholder.
pub proof fn lemma_no_placeholder_without_bracket(t: Seq<char>, from: int)
    requires
        forall|i: int| 0 <= i < t.len() ==> t[i] != '[',
    ensures
        placeholders_from(t, from) == Seq::<PlaceholderAt>::empty(),
    decreases t.len() - from,
{
    if 0 <= from < t.len() {
        if t[from] == '{' {
            if let Some(bar) = line_position(t, '|', from + 1) {
                lemma_no_prefixed_without_bracket(t, from, bar, bar + 1);
            }
        }
        lemma_no_placeholder_without_bracket(t, from + 1);
    }
}

/// Whether the position lies in one of the placeholders.
pub open spec fn covered(places: Seq<PlaceholderAt>, at: int) -> bool {
    exists|k: int| 0 <= k < places.len() && (#[trigger] places[k]).start() <= at < places[k].end()
}

/// The placeholders found are the first ones: wherever else a placeholder
/// could start, from `from` on, one that was found earlier runs over the
/// position.
pub proof fn lemma_placeholders_are_first(t: Seq<char>, from: int, at: int)
    requires
        0 <= from <= at < t.len(),
        placeholder_at(t, at) is Some,
    ensures
        covered(placeholders_from(t, from), at),
    decreases t.len() - from,
{
    let all = placeholders_from(t, from);
    lemma_placeholder_at(t, from);
    match placeholder_at(t, from) {
        Some(p) => {
            let rest = placeholders_from(t, p.end());
            assert(all == seq![p] + rest);
            assert(all[0] == p);
            if at >= p.end() {
                lemma_placeholders_are_first(t, p.end(), at);
                let k = choose|k: int|
                    0 <= k < rest.len() && (#[trigger] rest[k]).start() <= at < rest[k].end();
                assert(all[k + 1] == rest[k]);
            }
        },
        None => {
            lemma_placeholders_are_first(t, from + 1, at);
        },
    }
}

} // verus!
