//! The four regular expressions of the library and what they match.

use vstd::prelude::*;
use vstd::string::*;

use crate::json;
use crate::text;
use crate::text::occurs_at;

verus! {

// ---------------------------------------------------------------- matches

/// One match in a text, by the positions of its characters. Group zero is the whole
/// match; a group that took no part is absent.
pub struct Match {
    pub start: int,
    pub end: int,
    pub groups: Seq<Option<(int, int)>>,
}

/// The regular expressions of the library.
pub enum Pattern {
    /// A block between two fences of three backticks.
    Fenced,
    /// A span between two backticks on one line.
    Inline,
    /// A wikilink, with target, section and alias.
    Wikilink,
    /// A list item or quote that starts with the text of a lost link.
    Placeholder,
}

/// The text that follows what once was a link.
pub open spec fn marker() -> Seq<char> {
    " [possible linkout - elaboration needed]"@
}

/// The regular expression as it is written.
pub open spec fn source_of(p: Pattern) -> Seq<char> {
    match p {
        Pattern::Fenced => "(?s)```.*?```"@,
        Pattern::Inline => "`[^`\\n]+`"@,
        Pattern::Wikilink => "\\[\\[([^\\]\\|#]+?)(#([^\\]\\|]+))?(\\|([^\\]]+))?\\]\\]"@,
        Pattern::Placeholder =>
            "(?m)^([\\s\\-*>&&[^\\n]]+)([^\\n\\[\\]]+?)(?: \\(§([^)\\n]+)\\))? \\[possible linkout - elaboration needed\\]"@,
    }
}

/// The pattern that a regular expression writes.
pub open spec fn pattern_of(source: Seq<char>) -> Pattern {
    if source == source_of(Pattern::Fenced) {
        Pattern::Fenced
    } else if source == source_of(Pattern::Inline) {
        Pattern::Inline
    } else if source == source_of(Pattern::Wikilink) {
        Pattern::Wikilink
    } else {
        Pattern::Placeholder
    }
}

/// Whether three backticks stand at `i`.
pub open spec fn fence(s: Seq<char>, i: int) -> bool {
    occurs_at(s, seq!['`', '`', '`'], i)
}

/// Whether every character from `from` to before `to` is as asked.
pub open spec fn run(s: Seq<char>, from: int, to: int, ok: spec_fn(char) -> bool) -> bool {
    0 <= from <= to <= s.len() && forall|j: int| from <= j < to ==> ok(#[trigger] s[j])
}

/// A fenced block: from one fence to the next.
pub open spec fn fenced_at(s: Seq<char>, m: Match) -> bool {
    &&& 0 <= m.start
    &&& m.start + 6 <= m.end <= s.len()
    &&& fence(s, m.start)
    &&& fence(s, m.end - 3)
    &&& forall|j: int| m.start + 3 <= j < m.end - 3 ==> !#[trigger] fence(s, j)
    &&& m.groups == seq![Some((m.start, m.end))]
}

/// What may stand inside an inline code span.
pub open spec fn inline_char() -> spec_fn(char) -> bool {
    |c: char| c != '`' && c != '\n'
}

/// An inline code span: at least one character between two backticks of one line.
pub open spec fn inline_at(s: Seq<char>, m: Match) -> bool {
    &&& 0 <= m.start
    &&& m.start + 3 <= m.end <= s.len()
    &&& s[m.start] == '`'
    &&& s[m.end - 1] == '`'
    &&& run(s, m.start + 1, m.end - 1, inline_char())
    &&& m.groups == seq![Some((m.start, m.end))]
}

/// What may stand in the target of a wikilink.
pub open spec fn target_char() -> spec_fn(char) -> bool {
    |c: char| c != ']' && c != '|' && c != '#'
}

/// What may stand in the section of a wikilink.
pub open spec fn section_char() -> spec_fn(char) -> bool {
    |c: char| c != ']' && c != '|'
}

/// What may stand in the alias of a wikilink.
pub open spec fn alias_char() -> spec_fn(char) -> bool {
    |c: char| c != ']'
}

/// A group that took part exactly when it is not empty.
pub open spec fn part(from: int, to: int, inner: int) -> Option<(int, int)> {
    if from < to {
        Some((inner, to))
    } else {
        None
    }
}

/// A wikilink whose target ends at `a`, whose section ends at `b` and whose alias
/// ends at `c`.
pub open spec fn link_parts(s: Seq<char>, m: Match, a: int, b: int, c: int) -> bool {
    &&& 0 <= m.start
    &&& m.start + 2 < a <= b <= c
    &&& m.end == c + 2 <= s.len()
    &&& occurs_at(s, seq!['[', '['], m.start)
    &&& run(s, m.start + 2, a, target_char())
    &&& a < b ==> s[a] == '#' && a + 1 < b && run(s, a + 1, b, section_char())
    &&& b < c ==> s[b] == '|' && b + 1 < c && run(s, b + 1, c, alias_char())
    &&& occurs_at(s, seq![']', ']'], c)
    &&& m.groups == seq![
        Some((m.start, m.end)),
        Some((m.start + 2, a)),
        part(a, b, a),
        part(a, b, a + 1),
        part(b, c, b),
        part(b, c, b + 1),
    ]
}

/// A wikilink.
pub open spec fn wikilink_at(s: Seq<char>, m: Match) -> bool {
    exists|a: int, b: int, c: int| link_parts(s, m, a, b, c)
}

/// Whether a line starts at `i`.
pub open spec fn line_start(s: Seq<char>, i: int) -> bool {
    i == 0 || (0 < i <= s.len() && s[i - 1] == '\n')
}

/// What may stand before the text of a lost link, on its line.
pub open spec fn leading_char() -> spec_fn(char) -> bool {
    |c: char| (text::white(c) && c != '\n') || c == '-' || c == '*' || c == '>'
}

/// What may stand in the text of a lost link.
pub open spec fn display_char() -> spec_fn(char) -> bool {
    |c: char| c != '\n' && c != '[' && c != ']'
}

/// What may stand in the section of a lost link.
pub open spec fn lost_section_char() -> spec_fn(char) -> bool {
    |c: char| c != ')' && c != '\n'
}

/// A lost link whose leading part ends at `a`, whose text ends at `b` and whose
/// section, with its brackets, ends at `f`.
pub open spec fn lost_parts(s: Seq<char>, m: Match, a: int, b: int, f: int) -> bool {
    &&& 0 <= m.start < a < b <= f
    &&& line_start(s, m.start)
    &&& run(s, m.start, a, leading_char())
    &&& run(s, a, b, display_char())
    &&& b < f ==> occurs_at(s, seq![' ', '(', '§'], b) && b + 4 < f && run(
        s,
        b + 3,
        f - 1,
        lost_section_char(),
    ) && s[f - 1] == ')'
    &&& occurs_at(s, marker(), f)
    &&& m.end == f + marker().len()
    &&& m.groups == seq![
        Some((m.start, m.end)),
        Some((m.start, a)),
        Some((a, b)),
        if b < f {
            Some((b + 3, f - 1))
        } else {
            None
        },
    ]
}

/// A lost link, with the longest leading part that there is and, of those, the
/// shortest text.
pub open spec fn placeholder_at(s: Seq<char>, m: Match) -> bool {
    exists|a: int, b: int, f: int|
        #[trigger] lost_parts(s, m, a, b, f) && forall|m2: Match, a2: int, b2: int, f2: int|
            m2.start == m.start && #[trigger] lost_parts(s, m2, a2, b2, f2) ==> a2 < a || (a2 == a
                && b <= b2)
}

/// Whether `m` is the match that the pattern has at the start of `m`.
pub open spec fn match_at(p: Pattern, s: Seq<char>, m: Match) -> bool {
    match p {
        Pattern::Fenced => fenced_at(s, m),
        Pattern::Inline => inline_at(s, m),
        Pattern::Wikilink => wikilink_at(s, m),
        Pattern::Placeholder => placeholder_at(s, m),
    }
}

/// Whether the pattern matches at `i`.
pub open spec fn starts_at(p: Pattern, s: Seq<char>, i: int) -> bool {
    exists|m: Match| m.start == i && #[trigger] match_at(p, s, m)
}

/// The match that the pattern has at `i`.
pub open spec fn match_from(p: Pattern, s: Seq<char>, i: int) -> Match {
    choose|m: Match| m.start == i && #[trigger] match_at(p, s, m)
}

/// The matches from `from` on: the leftmost one, then those after its end.
pub open spec fn scan(p: Pattern, s: Seq<char>, from: int) -> Seq<Match>
    decreases s.len() - from,
{
    if from < 0 || from >= s.len() {
        Seq::empty()
    } else if starts_at(p, s, from) {
        let m = match_from(p, s, from);
        if from < m.end <= s.len() {
            seq![m] + scan(p, s, m.end)
        } else {
            Seq::empty()
        }
    } else {
        scan(p, s, from + 1)
    }
}

/// The matches of a pattern in a text, in order, none overlapping another.
pub open spec fn matches_of(p: Pattern, s: Seq<char>) -> Seq<Match> {
    scan(p, s, 0)
}

/// The text of a group.
pub open spec fn group_text(s: Seq<char>, g: Option<(int, int)>) -> Option<Seq<char>> {
    match g {
        Some((from, to)) => Some(s.subrange(from, to)),
        None => None,
    }
}

/// The texts of all groups of a match.
pub open spec fn groups_of(s: Seq<char>, m: Match) -> Seq<Option<Seq<char>>> {
    Seq::new(m.groups.len(), |i: int| group_text(s, m.groups[i]))
}

/// The texts of all groups of all matches.
pub open spec fn all_groups(s: Seq<char>, ms: Seq<Match>) -> Seq<Seq<Option<Seq<char>>>> {
    Seq::new(ms.len(), |i: int| groups_of(s, ms[i]))
}

/// Where the text between match `i - 1` and match `i` starts.
pub open spec fn gap_start(ms: Seq<Match>, i: int) -> int {
    if i <= 0 {
        0
    } else {
        ms[i - 1].end
    }
}

/// The text between match `i - 1` and match `i`.
pub open spec fn gap(s: Seq<char>, ms: Seq<Match>, i: int) -> Seq<char> {
    s.subrange(
        gap_start(ms, i),
        if i < ms.len() {
            ms[i].start
        } else {
            s.len() as int
        },
    )
}

/// The texts before, between and after the matches.
pub open spec fn gaps(s: Seq<char>, ms: Seq<Match>) -> Seq<Seq<char>> {
    Seq::new(ms.len() + 1, |i: int| gap(s, ms, i))
}

// ---------------------------------------------------------------- the calls

/// The views of captured groups.
pub open spec fn captured(v: Seq<Option<String>>) -> Seq<Option<Seq<char>>> {
    Seq::new(v.len(), |i: int| json::text_view(v[i]))
}

/// The views of the captured groups of all matches.
pub open spec fn all_captured(v: Seq<Vec<Option<String>>>) -> Seq<Seq<Option<Seq<char>>>> {
    Seq::new(v.len(), |i: int| captured(v[i]@))
}

/// Whether a text is one of the library's regular expressions.
pub open spec fn is_source(source: Seq<char>) -> bool {
    exists|p: Pattern| source == #[trigger] source_of(p)
}

/// `regex::Regex::captures_iter`. Compiles one of the library's regular expressions,
/// which are valid, and returns the texts of the groups of every match in order.
/// Claims the documented meaning of the four expressions: a match starts as far left
/// as there is one, lazy parts are as short and greedy parts as long as they can be,
/// and the search goes on behind each match.
#[verifier::external_body]
fn captures(source: &str, text: &str) -> (r: Vec<Vec<Option<String>>>)
    requires
        is_source(source@),
    ensures
        all_captured(r@) == all_groups(text@, matches_of(pattern_of(source@), text@)),
{
    let re = regex::Regex::new(source).unwrap();
    re.captures_iter(text)
        .map(|c| c.iter().map(|g| g.map(|m| m.as_str().to_string())).collect())
        .collect()
}

/// `regex::Regex::split`. Compiles one of the library's regular expressions, which
/// are valid, and returns the texts before, between and after its matches, empty
/// ones too.
#[verifier::external_body]
fn split(source: &str, text: &str) -> (r: Vec<String>)
    requires
        is_source(source@),
    ensures
        text::views(r@) == gaps(text@, matches_of(pattern_of(source@), text@)),
{
    let re = regex::Regex::new(source).unwrap();
    re.split(text).map(|piece| piece.to_string()).collect()
}

proof fn lemma_sources()
    ensures
        pattern_of(source_of(Pattern::Fenced)) == Pattern::Fenced,
        pattern_of(source_of(Pattern::Inline)) == Pattern::Inline,
        pattern_of(source_of(Pattern::Wikilink)) == Pattern::Wikilink,
        pattern_of(source_of(Pattern::Placeholder)) == Pattern::Placeholder,
{
    reveal_strlit("(?s)```.*?```");
    reveal_strlit("`[^`\\n]+`");
    reveal_strlit("\\[\\[([^\\]\\|#]+?)(#([^\\]\\|]+))?(\\|([^\\]]+))?\\]\\]");
    reveal_strlit(
        "(?m)^([\\s\\-*>&&[^\\n]]+)([^\\n\\[\\]]+?)(?: \\(§([^)\\n]+)\\))? \\[possible linkout - elaboration needed\\]",
    );
    assert(source_of(Pattern::Fenced).len() == 13);
    assert(source_of(Pattern::Inline).len() == 9);
    assert(source_of(Pattern::Wikilink).len() > 13);
    assert(source_of(Pattern::Placeholder).len() > 60);
    assert(source_of(Pattern::Wikilink).len() < 60);
}

/// What a pattern found in a text.
pub struct Findings {
    /// The groups of each match.
    pub captures: Vec<Vec<Option<String>>>,
    /// The texts before, between and after the matches.
    pub pieces: Vec<String>,
}

impl Findings {
    /// Whether these are the findings of `p` in `s`.
    pub open spec fn are(&self, p: Pattern, s: Seq<char>) -> bool {
        &&& all_captured(self.captures@) == all_groups(s, matches_of(p, s))
        &&& text::views(self.pieces@) == gaps(s, matches_of(p, s))
    }
}

/// The fenced blocks of a text.
pub fn find_fenced(text: &str) -> (r: Findings)
    ensures
        r.are(Pattern::Fenced, text@),
{
    let source = "(?s)```.*?```";
    proof {
        lemma_sources();
        assert(source@ == source_of(Pattern::Fenced));
    }
    Findings { captures: captures(source, text), pieces: split(source, text) }
}

/// The inline code spans of a text.
pub fn find_inline(text: &str) -> (r: Findings)
    ensures
        r.are(Pattern::Inline, text@),
{
    let source = "`[^`\\n]+`";
    proof {
        lemma_sources();
        assert(source@ == source_of(Pattern::Inline));
    }
    Findings { captures: captures(source, text), pieces: split(source, text) }
}

/// The wikilinks of a text.
pub fn find_wikilinks(text: &str) -> (r: Findings)
    ensures
        r.are(Pattern::Wikilink, text@),
{
    let source = "\\[\\[([^\\]\\|#]+?)(#([^\\]\\|]+))?(\\|([^\\]]+))?\\]\\]";
    proof {
        lemma_sources();
        assert(source@ == source_of(Pattern::Wikilink));
    }
    Findings { captures: captures(source, text), pieces: split(source, text) }
}

/// The lost links of a text.
pub fn find_placeholders(text: &str) -> (r: Findings)
    ensures
        r.are(Pattern::Placeholder, text@),
{
    let source = "(?m)^([\\s\\-*>&&[^\\n]]+)([^\\n\\[\\]]+?)(?: \\(§([^)\\n]+)\\))? \\[possible linkout - elaboration needed\\]";
    proof {
        lemma_sources();
        assert(source@ == source_of(Pattern::Placeholder));
    }
    Findings { captures: captures(source, text), pieces: split(source, text) }
}

// ---------------------------------------------------------------- facts

/// Matches stand in order, none is empty and none overlaps another.
pub open spec fn spread(s: Seq<char>, ms: Seq<Match>) -> bool {
    &&& forall|i: int|
        0 <= i < ms.len() ==> 0 <= (#[trigger] ms[i]).start < ms[i].end <= s.len()
    &&& forall|i: int, j: int|
        #![trigger ms[i], ms[j]]
        0 <= i < j < ms.len() ==> ms[i].end <= ms[j].start
}

/// Matches of `p` from `from` on, in order.
pub open spec fn in_order(p: Pattern, s: Seq<char>, ms: Seq<Match>, from: int) -> bool {
    &&& spread(s, ms)
    &&& forall|i: int|
        0 <= i < ms.len() ==> match_at(p, s, #[trigger] ms[i]) && from <= ms[i].start
}

/// A match is not empty and lies in the text.
pub proof fn lemma_match_bounds(p: Pattern, s: Seq<char>, m: Match)
    requires
        match_at(p, s, m),
    ensures
        0 <= m.start < m.end <= s.len(),
        m.groups.len() > 0,
        m.groups[0] == Some((m.start, m.end)),
        forall|i: int|
            0 <= i < m.groups.len() ==> (#[trigger] m.groups[i] matches Some((a, b)) ==> m.start
                <= a <= b <= m.end),
{
    reveal_strlit(" [possible linkout - elaboration needed]");
}

/// The matches of a scan are matches of the pattern, in order.
pub proof fn lemma_scan(p: Pattern, s: Seq<char>, from: int)
    requires
        0 <= from,
    ensures
        in_order(p, s, scan(p, s, from), from),
    decreases s.len() - from,
{
    let ms = scan(p, s, from);
    if from < s.len() {
        if starts_at(p, s, from) {
            let m = match_from(p, s, from);
            lemma_match_bounds(p, s, m);
            let rest = scan(p, s, m.end);
            lemma_scan(p, s, m.end);
            assert(ms == seq![m] + rest);
            assert forall|i: int| 0 <= i < ms.len() implies match_at(p, s, #[trigger] ms[i])
                && from <= ms[i].start < ms[i].end <= s.len() by {
                if i > 0 {
                    assert(ms[i] == rest[i - 1]);
                }
            }
            assert forall|i: int, j: int|
                #![trigger ms[i], ms[j]]
                0 <= i < j < ms.len() implies ms[i].end <= ms[j].start by {
                assert(ms[j] == rest[j - 1]);
                if i > 0 {
                    assert(ms[i] == rest[i - 1]);
                }
            }
        } else {
            lemma_scan(p, s, from + 1);
            assert(ms == scan(p, s, from + 1));
        }
    }
}

/// No match starts outside the matches of a scan.
pub proof fn lemma_scan_complete(p: Pattern, s: Seq<char>, from: int, i: int)
    requires
        0 <= from <= i < s.len(),
        forall|j: int|
            0 <= j < scan(p, s, from).len() ==> !((#[trigger] scan(p, s, from)[j]).start <= i
                < scan(p, s, from)[j].end),
    ensures
        !starts_at(p, s, i),
    decreases s.len() - from,
{
    let ms = scan(p, s, from);
    if starts_at(p, s, from) {
        let m = match_from(p, s, from);
        lemma_match_bounds(p, s, m);
        let rest = scan(p, s, m.end);
        assert(ms[0] == m);
        assert(i >= m.end);
        assert forall|j: int| 0 <= j < rest.len() implies !((#[trigger] rest[j]).start <= i
            < rest[j].end) by {
            assert(ms[j + 1] == rest[j]);
        }
        lemma_scan_complete(p, s, m.end, i);
    } else if i > from {
        lemma_scan_complete(p, s, from + 1, i);
    }
}

} // verus!
