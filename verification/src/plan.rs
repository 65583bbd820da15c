//! The plan of one agent run: a file with one JSON object per line, one line per
//! accepted command.

use vstd::prelude::*;
use vstd::string::*;

use crate::json;
use crate::json::{kind_of_json, member_of_json, object_text, Field, JsonKind, Member};
use crate::number;
use crate::number::count_text;
use crate::text;
use crate::text::{has_prefix, joined, lines_of, quote, same_text, split_at_first, trimmed};

verus! {

// ---------------------------------------------------------------- entries

/// One recorded command.
#[derive(Debug, Clone, PartialEq, Eq)]
pub struct PlanEntry {
    /// When the command was accepted, in seconds since the Unix epoch.
    pub ts: i64,
    /// `shadow` or `apply`.
    pub mode: String,
    /// The command, such as `create` or `property:set`.
    pub cmd: String,
    /// The `key=value` tokens.
    pub args: Vec<String>,
    /// Whether the command was carried out with success.
    pub applied: bool,
    /// The exit code; none for a command that was only recorded.
    pub exit_code: Option<i32>,
}

/// An entry, over texts and integers.
pub struct EntryView {
    pub ts: int,
    pub mode: Seq<char>,
    pub cmd: Seq<char>,
    pub args: Seq<Seq<char>>,
    pub applied: bool,
    pub exit_code: Option<i32>,
}

impl View for PlanEntry {
    type V = EntryView;

    open spec fn view(&self) -> EntryView {
        EntryView {
            ts: self.ts as int,
            mode: self.mode@,
            cmd: self.cmd@,
            args: text::views(self.args@),
            applied: self.applied,
            exit_code: self.exit_code,
        }
    }
}

/// The coarse category of a command.
pub open spec fn kind_of(cmd: Seq<char>) -> Seq<char> {
    if cmd == "create"@ {
        "create"@
    } else if cmd == "append"@ || cmd == "prepend"@ || cmd == "daily:append"@ || cmd
        == "daily:prepend"@ {
        "append"@
    } else if cmd == "property:set"@ {
        "property_set"@
    } else if cmd == "property:remove"@ {
        "property_remove"@
    } else if cmd == "move"@ || cmd == "rename"@ {
        "rename"@
    } else if cmd == "delete"@ {
        "delete"@
    } else if cmd == "bookmark"@ {
        "bookmark"@
    } else if text::starts_with(cmd, "base:"@) {
        "base"@
    } else {
        "other"@
    }
}

/// Whether a command writes new content to a file.
pub open spec fn writes_content(cmd: Seq<char>) -> bool {
    cmd == "create"@ || cmd == "append"@ || cmd == "prepend"@
}

/// The value of a token whose key is `path` or `file`.
pub open spec fn path_token(tok: Seq<char>) -> Option<Seq<char>> {
    match text::split_once(tok, '=') {
        Some((k, v)) => if k == "path"@ || k == "file"@ {
            Some(v)
        } else {
            None
        },
        None => None,
    }
}

/// The value of the first token, from index `from` on, whose key is `path` or
/// `file`.
pub open spec fn path_value(args: Seq<Seq<char>>, from: int) -> Option<Seq<char>>
    decreases args.len() - from,
{
    if from >= args.len() || from < 0 {
        None
    } else {
        match path_token(args[from]) {
            Some(v) => Some(v),
            None => path_value(args, from + 1),
        }
    }
}

impl PlanEntry {
    /// The coarse category of the command.
    pub fn kind(&self) -> (r: &'static str)
        ensures
            r@ == kind_of(self.cmd@),
    {
        let c = self.cmd.as_str();
        if same_text(c, "create") {
            "create"
        } else if same_text(c, "append") || same_text(c, "prepend") || same_text(c, "daily:append")
            || same_text(c, "daily:prepend") {
            "append"
        } else if same_text(c, "property:set") {
            "property_set"
        } else if same_text(c, "property:remove") {
            "property_remove"
        } else if same_text(c, "move") || same_text(c, "rename") {
            "rename"
        } else if same_text(c, "delete") {
            "delete"
        } else if same_text(c, "bookmark") {
            "bookmark"
        } else if has_prefix(c, "base:") {
            "base"
        } else {
            "other"
        }
    }

    /// Whether the command wrote new content, so that links in it are worth a look.
    pub fn is_write(&self) -> (r: bool)
        ensures
            r == writes_content(self.cmd@),
    {
        let c = self.cmd.as_str();
        same_text(c, "create") || same_text(c, "append") || same_text(c, "prepend")
    }

    /// The value of the first `path=` or `file=` token.
    pub fn path_arg(&self) -> (r: Option<&str>)
        ensures
            match r {
                Some(v) => path_value(text::views(self.args@), 0) == Some(v@),
                None => path_value(text::views(self.args@), 0) is None,
            },
    {
        let ghost vs = text::views(self.args@);
        let mut i: usize = 0;
        while i < self.args.len()
            invariant
                vs == text::views(self.args@),
                i <= self.args@.len(),
                path_value(vs, 0) == path_value(vs, i as int),
            decreases self.args@.len() - i,
        {
            assert(vs[i as int] == self.args@[i as int]@);
            if let Some((k, v)) = split_at_first(self.args[i].as_str(), '=') {
                if same_text(k, "path") || same_text(k, "file") {
                    return Some(v);
                }
            }
            i = i + 1;
        }
        None
    }
}

// ---------------------------------------------------------------- plans

/// All commands of one agent run.
#[derive(Debug, Clone)]
pub struct Plan {
    /// The file that the entries come from.
    pub path: String,
    /// The entries, in the order of the file.
    pub entries: Vec<PlanEntry>,
}

impl Default for Plan {
    fn default() -> (r: Self)
        ensures
            r.path@ == Seq::<char>::empty(),
            r.entries@ == Seq::<PlanEntry>::empty(),
    {
        Plan { path: String::new(), entries: Vec::new() }
    }
}

/// Every category, in order.
pub open spec fn kinds() -> Seq<Seq<char>> {
    seq![
        "append"@,
        "base"@,
        "bookmark"@,
        "create"@,
        "delete"@,
        "other"@,
        "property_remove"@,
        "property_set"@,
        "rename"@,
    ]
}

/// Whether an entry is of a category.
pub open spec fn is_kind(k: Seq<char>) -> spec_fn(PlanEntry) -> bool {
    |e: PlanEntry| kind_of(e.cmd@) == k
}

/// The entries of one category, in their order.
pub open spec fn of_kind(es: Seq<PlanEntry>, k: Seq<char>) -> Seq<PlanEntry> {
    es.filter(is_kind(k))
}

/// The non-empty groups among the first `n` categories.
pub open spec fn groups(es: Seq<PlanEntry>, n: nat) -> Seq<(Seq<char>, Seq<PlanEntry>)>
    decreases n,
{
    if n == 0 {
        Seq::empty()
    } else {
        let before = groups(es, (n - 1) as nat);
        let k = kinds()[n - 1];
        if of_kind(es, k).len() > 0 {
            before.push((k, of_kind(es, k)))
        } else {
            before
        }
    }
}

/// The non-empty groups by category, in the order of the categories.
pub open spec fn grouped(es: Seq<PlanEntry>) -> Seq<(Seq<char>, Seq<PlanEntry>)> {
    groups(es, kinds().len())
}

/// Whether an entry was applied.
pub open spec fn was_applied() -> spec_fn(PlanEntry) -> bool {
    |e: PlanEntry| e.applied
}

/// Whether a group has so many entries.
pub open spec fn has_count(n: nat) -> spec_fn((Seq<char>, Seq<PlanEntry>)) -> bool {
    |g: (Seq<char>, Seq<PlanEntry>)| g.1.len() == n
}

/// The groups with at most `most` entries: those with more of them first, those with
/// equally many in their order.
pub open spec fn ranked(gs: Seq<(Seq<char>, Seq<PlanEntry>)>, most: nat) -> Seq<
    (Seq<char>, Seq<PlanEntry>),
>
    decreases most,
{
    if most == 0 {
        Seq::empty()
    } else {
        gs.filter(has_count(most)) + ranked(gs, (most - 1) as nat)
    }
}

/// `category=count` for each group.
pub open spec fn counts(gs: Seq<(Seq<char>, Seq<PlanEntry>)>) -> Seq<Seq<char>> {
    Seq::new(gs.len(), |i: int| gs[i].0 + "="@ + number::numeral(gs[i].1.len()))
}

/// The one-line summary of a plan.
pub open spec fn summary_text(es: Seq<PlanEntry>) -> Seq<char> {
    if es.len() == 0 {
        "(empty plan — agent proposed no mutations)"@
    } else {
        "plan("@ + number::numeral(es.len()) + " entries; applied="@ + number::numeral(
            es.filter(was_applied()).len(),
        ) + "): "@ + text::join(counts(ranked(grouped(es), es.len())), ", "@)
    }
}

/// One group of a plan: a category and its entries.
pub struct KindGroup<'a> {
    pub kind: &'static str,
    pub entries: Vec<&'a PlanEntry>,
}

/// Whether the executable group holds what the specified group holds.
pub open spec fn is_group(g: KindGroup<'_>, s: (Seq<char>, Seq<PlanEntry>)) -> bool {
    g.kind@ == s.0 && g.entries@.len() == s.1.len() && forall|i: int|
        0 <= i < s.1.len() ==> *(#[trigger] g.entries@[i]) == s.1[i]
}

impl Plan {
    /// How many entries there are.
    pub fn len(&self) -> (n: usize)
        ensures
            n == self.entries@.len(),
    {
        self.entries.len()
    }

    /// Whether there are none.
    pub fn is_empty(&self) -> (b: bool)
        ensures
            b == (self.entries@.len() == 0),
    {
        self.entries.len() == 0
    }

    fn entries_of(&self, kind: &'static str) -> (r: Vec<&PlanEntry>)
        ensures
            r@.len() == of_kind(self.entries@, kind@).len(),
            forall|i: int|
                0 <= i < r@.len() ==> *(#[trigger] r@[i]) == of_kind(self.entries@, kind@)[i],
    {
        let mut r: Vec<&PlanEntry> = Vec::new();
        let mut i: usize = 0;
        assert(self.entries@.take(0).filter(is_kind(kind@)).len() == 0) by {
            reveal(Seq::filter);
        }
        while i < self.entries.len()
            invariant
                i <= self.entries@.len(),
                r@.len() == of_kind(self.entries@.take(i as int), kind@).len(),
                forall|j: int|
                    0 <= j < r@.len() ==> *(#[trigger] r@[j]) == of_kind(
                        self.entries@.take(i as int),
                        kind@,
                    )[j],
            decreases self.entries@.len() - i,
        {
            proof {
                let now = self.entries@.take(i + 1);
                assert(now.drop_last() =~= self.entries@.take(i as int));
                reveal(Seq::filter);
            }
            if same_text(self.entries[i].kind(), kind) {
                r.push(&self.entries[i]);
            }
            i = i + 1;
        }
        assert(self.entries@.take(i as int) =~= self.entries@);
        r
    }

    /// The entries grouped by category. Only categories that occur are listed, in
    /// alphabetical order.
    pub fn by_kind(&self) -> (r: Vec<KindGroup<'_>>)
        ensures
            r@.len() == grouped(self.entries@).len(),
            forall|i: int|
                0 <= i < r@.len() ==> is_group(#[trigger] r@[i], grouped(self.entries@)[i]),
    {
        let names: Vec<&'static str> = vec![
            "append",
            "base",
            "bookmark",
            "create",
            "delete",
            "other",
            "property_remove",
            "property_set",
            "rename",
        ];
        assert(names@.len() == kinds().len());
        assert(forall|i: int| 0 <= i < kinds().len() ==> (#[trigger] names@[i])@ == kinds()[i]);
        let mut r: Vec<KindGroup<'_>> = Vec::new();
        let mut i: usize = 0;
        while i < names.len()
            invariant
                names@.len() == kinds().len(),
                forall|j: int| 0 <= j < kinds().len() ==> (#[trigger] names@[j])@ == kinds()[j],
                i <= names@.len(),
                r@.len() == groups(self.entries@, i as nat).len(),
                forall|j: int|
                    0 <= j < r@.len() ==> is_group(
                        #[trigger] r@[j],
                        groups(self.entries@, i as nat)[j],
                    ),
            decreases names@.len() - i,
        {
            let kind = names[i];
            let entries = self.entries_of(kind);
            assert(kind@ == kinds()[i as int]);
            if entries.len() > 0 {
                r.push(KindGroup { kind, entries });
            }
            i = i + 1;
        }
        r
    }

    /// How many entries were applied.
    fn applied_count(&self) -> (n: usize)
        ensures
            n == self.entries@.filter(was_applied()).len(),
    {
        let mut n: usize = 0;
        let mut i: usize = 0;
        assert(self.entries@.take(0).filter(was_applied()).len() == 0) by {
            reveal(Seq::filter);
        }
        while i < self.entries.len()
            invariant
                i <= self.entries@.len(),
                n <= i,
                n == self.entries@.take(i as int).filter(was_applied()).len(),
            decreases self.entries@.len() - i,
        {
            proof {
                let now = self.entries@.take(i + 1);
                assert(now.drop_last() =~= self.entries@.take(i as int));
                reveal(Seq::filter);
            }
            if self.entries[i].applied {
                n = n + 1;
            }
            i = i + 1;
        }
        assert(self.entries@.take(i as int) =~= self.entries@);
        n
    }

    /// The one-line summary for logs and reports, such as
    /// `plan(7 entries; applied=6): create=4, property_set=2, append=1`.
    pub fn summary(&self) -> (r: String)
        ensures
            r@ == summary_text(self.entries@),
    {
        if self.entries.len() == 0 {
            return String::from_str("(empty plan — agent proposed no mutations)");
        }
        let gs = self.by_kind();
        let ghost all = grouped(self.entries@);
        let mut parts: Vec<String> = Vec::new();
        let mut most: usize = self.entries.len();
        assert(text::views(parts@) + counts(ranked(all, most as nat)) =~= counts(
            ranked(all, most as nat),
        ));
        while most > 0
            invariant
                most <= self.entries@.len(),
                all == grouped(self.entries@),
                gs@.len() == all.len(),
                forall|j: int| 0 <= j < gs@.len() ==> is_group(#[trigger] gs@[j], all[j]),
                text::views(parts@) + counts(ranked(all, most as nat)) == counts(
                    ranked(all, self.entries@.len()),
                ),
            decreases most,
        {
            let ghost before = text::views(parts@);
            add_counts(&mut parts, &gs, most, Ghost(all));
            proof {
                let here = all.filter(has_count(most as nat));
                let rest = ranked(all, (most - 1) as nat);
                assert(counts(here + rest) =~= counts(here) + counts(rest));
                assert(before + (counts(here) + counts(rest)) =~= (before + counts(here)) + counts(
                    rest,
                ));
            }
            most = most - 1;
        }
        assert(text::views(parts@) + counts(ranked(all, 0)) =~= text::views(parts@));
        let mut s = String::from_str("plan(");
        s.append(count_text(self.entries.len()).as_str());
        s.append(" entries; applied=");
        s.append(count_text(self.applied_count()).as_str());
        s.append("): ");
        s.append(joined(&parts, ", ").as_str());
        s
    }
}

/// Adds `category=count` for each group with `n` entries.
fn add_counts(
    parts: &mut Vec<String>,
    gs: &Vec<KindGroup<'_>>,
    n: usize,
    Ghost(all): Ghost<Seq<(Seq<char>, Seq<PlanEntry>)>>,
)
    requires
        gs@.len() == all.len(),
        forall|j: int| 0 <= j < gs@.len() ==> is_group(#[trigger] gs@[j], all[j]),
    ensures
        text::views(final(parts)@) == text::views(old(parts)@) + counts(
            all.filter(has_count(n as nat)),
        ),
{
    let ghost before = text::views(parts@);
    let mut i: usize = 0;
    proof {
        reveal(Seq::filter);
        assert(counts(all.take(0).filter(has_count(n as nat))) =~= Seq::<Seq<char>>::empty());
        assert(before + Seq::<Seq<char>>::empty() =~= before);
    }
    while i < gs.len()
        invariant
            i <= gs@.len(),
            gs@.len() == all.len(),
            forall|j: int| 0 <= j < gs@.len() ==> is_group(#[trigger] gs@[j], all[j]),
            text::views(parts@) == before + counts(all.take(i as int).filter(has_count(n as nat))),
        decreases gs@.len() - i,
    {
        let ghost past = all.take(i as int).filter(has_count(n as nat));
        let ghost sofar = text::views(parts@);
        proof {
            let now = all.take(i + 1);
            assert(now.drop_last() =~= all.take(i as int));
            assert(now.last() == all[i as int]);
            reveal(Seq::filter);
        }
        assert(is_group(gs@[i as int], all[i as int]));
        if gs[i].entries.len() == n {
            let mut part = String::from_str(gs[i].kind);
            part.append("=");
            part.append(count_text(n).as_str());
            parts.push(part);
            assert(text::views(parts@) =~= sofar.push(part@));
            assert(counts(past.push(all[i as int])) =~= counts(past).push(part@));
            assert((before + counts(past)).push(part@) =~= before + counts(past).push(part@));
        }
        i = i + 1;
    }
    assert(all.take(i as int) =~= all);
}

// ---------------------------------------------------------------- reading

/// Why a plan could not be read.
#[derive(Debug, Clone)]
pub enum PlanParseError {
    /// The file or one of its lines could not be read.
    Io { path: String, source: String },
    /// A line is no JSON.
    InvalidJson { path: String, line_no: usize, source: String },
    /// A line is JSON but no plan entry.
    Schema { path: String, line_no: usize, detail: String },
}

impl PlanParseError {
    pub open spec fn text(&self) -> Seq<char> {
        match *self {
            PlanParseError::Io { path, source } => "io error reading plan "@ + text::quoted(path@)
                + ": "@ + source@,
            PlanParseError::InvalidJson { path, line_no, source } => text::quoted(path@) + ":"@
                + number::numeral(line_no as nat) + ": invalid JSON: "@ + source@,
            PlanParseError::Schema { path, line_no, detail } => text::quoted(path@) + ":"@
                + number::numeral(line_no as nat) + ": "@ + detail@,
        }
    }

    /// The message that a user sees.
    pub fn message(&self) -> (r: String)
        ensures
            r@ == self.text(),
    {
        match self {
            PlanParseError::Io { path, source } => {
                let mut s = String::from_str("io error reading plan ");
                s.append(quote(path.as_str()).as_str());
                s.append(": ");
                s.append(source.as_str());
                s
            },
            PlanParseError::InvalidJson { path, line_no, source } => {
                let mut s = quote(path.as_str());
                s.append(":");
                s.append(count_text(*line_no).as_str());
                s.append(": invalid JSON: ");
                s.append(source.as_str());
                s
            },
            PlanParseError::Schema { path, line_no, detail } => {
                let mut s = quote(path.as_str());
                s.append(":");
                s.append(count_text(*line_no).as_str());
                s.append(": ");
                s.append(detail.as_str());
                s
            },
        }
    }
}

/// What is wrong with a line.
pub enum LineFault {
    InvalidJson(Seq<char>),
    Schema(Seq<char>),
}

/// What a line of a plan says.
pub type LineView = Result<EntryView, LineFault>;

/// The name of a kind of JSON value in messages.
pub open spec fn kind_name(k: JsonKind) -> Seq<char> {
    match k {
        JsonKind::Null => "null"@,
        JsonKind::Bool => "bool"@,
        JsonKind::Number => "number"@,
        JsonKind::Text => "string"@,
        JsonKind::Array => "array"@,
        JsonKind::Object => "object"@,
    }
}

/// The name of a kind of JSON value in messages.
pub fn value_type_name(k: JsonKind) -> (r: &'static str)
    ensures
        r@ == kind_name(k),
{
    match k {
        JsonKind::Null => "null",
        JsonKind::Bool => "bool",
        JsonKind::Number => "number",
        JsonKind::Text => "string",
        JsonKind::Array => "array",
        JsonKind::Object => "object",
    }
}

/// The members of an object that make up an entry, where they are there.
#[derive(Debug, Clone)]
pub struct EntryMembers {
    pub ts: Option<Member>,
    pub mode: Option<Member>,
    pub cmd: Option<Member>,
    pub args: Option<Member>,
    pub applied: Option<Member>,
    pub exit_code: Option<Member>,
}

/// The members of an object that make up an entry, over texts and integers.
pub struct EntryMembersView {
    pub ts: Option<json::MemberView>,
    pub mode: Option<json::MemberView>,
    pub cmd: Option<json::MemberView>,
    pub args: Option<json::MemberView>,
    pub applied: Option<json::MemberView>,
    pub exit_code: Option<json::MemberView>,
}

impl View for EntryMembers {
    type V = EntryMembersView;

    open spec fn view(&self) -> EntryMembersView {
        EntryMembersView {
            ts: json::member_view(self.ts),
            mode: json::member_view(self.mode),
            cmd: json::member_view(self.cmd),
            args: json::member_view(self.args),
            applied: json::member_view(self.applied),
            exit_code: json::member_view(self.exit_code),
        }
    }
}

/// The first required key that an object lacks.
pub open spec fn missing_key(m: EntryMembersView) -> Option<Seq<char>> {
    if m.ts is None {
        Some("ts"@)
    } else if m.mode is None {
        Some("mode"@)
    } else if m.cmd is None {
        Some("cmd"@)
    } else if m.args is None {
        Some("args"@)
    } else if m.applied is None {
        Some("applied"@)
    } else {
        None
    }
}

/// Whether a mode is one of the two that exist.
pub open spec fn is_mode(m: Seq<char>) -> bool {
    m == "shadow"@ || m == "apply"@
}

/// The texts of a list, where every element is one.
pub open spec fn all_texts(v: Seq<Option<Seq<char>>>) -> Option<Seq<Seq<char>>> {
    if forall|i: int| 0 <= i < v.len() ==> (#[trigger] v[i]) is Some {
        Some(Seq::new(v.len(), |i: int| v[i]->0))
    } else {
        None
    }
}

/// A text or nothing, as a text.
pub open spec fn or_empty(t: Option<Seq<char>>) -> Seq<char> {
    match t {
        Some(s) => s,
        None => Seq::empty(),
    }
}

/// The required member whose value is of the wrong type, of those that hold one value,
/// and what it has to be.
pub open spec fn type_fault(m: EntryMembersView) -> Option<Seq<char>> {
    if json::member_int(m.ts) is None {
        Some("plan entry 'ts' must be an integer"@)
    } else if json::member_text(m.cmd) is None {
        Some("plan entry 'cmd' must be a string"@)
    } else if json::member_bool(m.applied) is None {
        Some("plan entry 'applied' must be a boolean"@)
    } else {
        None
    }
}

/// The entry that the members of an object make, or what is wrong with them.
pub open spec fn entry_of_members(m: EntryMembersView) -> LineView {
    match missing_key(m) {
        Some(k) => Err(
            LineFault::Schema("plan entry missing required key "@ + text::quoted(k)),
        ),
        None => {
            let mode = or_empty(json::member_text(m.mode));
            if !is_mode(mode) {
                Err(
                    LineFault::Schema(
                        "plan entry 'mode' must be 'shadow' or 'apply': got "@ + text::quoted(mode),
                    ),
                )
            } else {
                match m.args {
                    Some(json::MemberView::List(v)) => match all_texts(v) {
                        Some(args) => match type_fault(m) {
                            Some(f) => Err(LineFault::Schema(f)),
                            None => Ok(
                                EntryView {
                                    ts: json::member_int(m.ts)->0,
                                    mode,
                                    cmd: json::member_text(m.cmd)->0,
                                    args,
                                    applied: json::member_bool(m.applied)->0,
                                    exit_code: match json::member_int(m.exit_code) {
                                        Some(n) => Some(n as i32),
                                        None => None,
                                    },
                                },
                            ),
                        },
                        None => Err(
                            LineFault::Schema("plan entry 'args' must contain only strings"@),
                        ),
                    },
                    _ => Err(LineFault::Schema("plan entry 'args' must be an array of strings"@)),
                }
            }
        },
    }
}

/// The members of the object that a text holds.
pub open spec fn members_of(line: Seq<char>) -> EntryMembersView {
    EntryMembersView {
        ts: json::json_member(line, "ts"@),
        mode: json::json_member(line, "mode"@),
        cmd: json::json_member(line, "cmd"@),
        args: json::json_member(line, "args"@),
        applied: json::json_member(line, "applied"@),
        exit_code: json::json_member(line, "exit_code"@),
    }
}

/// What a trimmed, non-blank line says.
pub open spec fn line_entry(line: Seq<char>) -> LineView {
    match json::json_kind(line) {
        Err(e) => Err(LineFault::InvalidJson(e)),
        Ok(k) => if k != JsonKind::Object {
            Err(LineFault::Schema("top-level value must be an object, got "@ + kind_name(k)))
        } else {
            entry_of_members(members_of(line))
        },
    }
}

/// Whether `r` says what `v` says, with the place of the line.
pub open spec fn is_parse(
    r: Result<PlanEntry, PlanParseError>,
    v: LineView,
    path: Seq<char>,
    line_no: nat,
) -> bool {
    match v {
        Ok(e) => r matches Ok(x) && x@ == e,
        Err(LineFault::InvalidJson(m)) => r matches Err(
            PlanParseError::InvalidJson { path: p, line_no: n, source },
        ) && p@ == path && n == line_no && source@ == m,
        Err(LineFault::Schema(d)) => r matches Err(
            PlanParseError::Schema { path: p, line_no: n, detail },
        ) && p@ == path && n == line_no && detail@ == d,
    }
}

fn schema_fault(path: &str, line_no: usize, detail: String) -> (r: Result<
    PlanEntry,
    PlanParseError,
>)
    ensures
        is_parse(r, Err(LineFault::Schema(detail@)), path@, line_no as nat),
{
    Err(PlanParseError::Schema { path: String::from_str(path), line_no, detail })
}

/// The first required key that an object lacks.
fn first_missing(m: &EntryMembers) -> (r: Option<&'static str>)
    ensures
        match r {
            Some(k) => missing_key(m@) == Some(k@),
            None => missing_key(m@) is None,
        },
{
    if m.ts.is_none() {
        Some("ts")
    } else if m.mode.is_none() {
        Some("mode")
    } else if m.cmd.is_none() {
        Some("cmd")
    } else if m.args.is_none() {
        Some("args")
    } else if m.applied.is_none() {
        Some("applied")
    } else {
        None
    }
}

/// The texts of a list, where every element is one.
fn texts_of(v: Vec<Option<String>>) -> (r: Option<Vec<String>>)
    ensures
        ({
            let list = Seq::new(v@.len(), |i: int| json::text_view(v@[i]));
            match r {
                Some(t) => all_texts(list) == Some(text::views(t@)),
                None => all_texts(list) is None,
            }
        }),
{
    let ghost list = Seq::new(v@.len(), |i: int| json::text_view(v@[i]));
    let mut out: Vec<String> = Vec::new();
    let mut i: usize = 0;
    while i < v.len()
        invariant
            list == Seq::new(v@.len(), |i: int| json::text_view(v@[i])),
            i <= v@.len(),
            out@.len() == i,
            forall|j: int| 0 <= j < i ==> (#[trigger] list[j]) == Some(out@[j]@),
        decreases v@.len() - i,
    {
        assert(list[i as int] == json::text_view(v@[i as int]));
        match &v[i] {
            Some(s) => out.push(s.clone()),
            None => {
                return None;
            },
        }
        i = i + 1;
    }
    assert(text::views(out@) =~= Seq::new(list.len(), |i: int| list[i]->0));
    Some(out)
}

/// The entry that the members of an object make.
pub fn entry_from(m: EntryMembers, path: &str, line_no: usize) -> (r: Result<
    PlanEntry,
    PlanParseError,
>)
    ensures
        is_parse(r, entry_of_members(m@), path@, line_no as nat),
{
    if let Some(key) = first_missing(&m) {
        let mut detail = String::from_str("plan entry missing required key ");
        detail.append(quote(key).as_str());
        return schema_fault(path, line_no, detail);
    }
    let mode = match m.mode {
        Some(Member::Text(s)) => s,
        _ => String::new(),
    };
    assert(mode@ == or_empty(json::member_text(m@.mode)));
    if !same_text(mode.as_str(), "shadow") && !same_text(mode.as_str(), "apply") {
        let mut detail = String::from_str("plan entry 'mode' must be 'shadow' or 'apply': got ");
        detail.append(quote(mode.as_str()).as_str());
        return schema_fault(path, line_no, detail);
    }
    let args = match m.args {
        Some(Member::List(v)) => match texts_of(v) {
            Some(args) => args,
            None => {
                return schema_fault(
                    path,
                    line_no,
                    String::from_str("plan entry 'args' must contain only strings"),
                );
            },
        },
        _ => {
            return schema_fault(
                path,
                line_no,
                String::from_str("plan entry 'args' must be an array of strings"),
            );
        },
    };
    let ts: i64 = match m.ts {
        Some(Member::Number { signed: Some(n), .. }) => n,
        _ => {
            return schema_fault(
                path,
                line_no,
                String::from_str("plan entry 'ts' must be an integer"),
            );
        },
    };
    let cmd = match m.cmd {
        Some(Member::Text(c)) => c,
        _ => {
            return schema_fault(
                path,
                line_no,
                String::from_str("plan entry 'cmd' must be a string"),
            );
        },
    };
    let applied = match m.applied {
        Some(Member::Bool(b)) => b,
        _ => {
            return schema_fault(
                path,
                line_no,
                String::from_str("plan entry 'applied' must be a boolean"),
            );
        },
    };
    let exit_code: Option<i32> = match m.exit_code {
        Some(Member::Number { signed: Some(n), .. }) => Some(
            #[verifier::truncate]
            (n as i32),
        ),
        _ => None,
    };
    Ok(PlanEntry { ts, mode, cmd, args, applied, exit_code })
}

/// Reads one entry from a line.
pub fn parse_line(line: &str, path: &str, line_no: usize) -> (r: Result<PlanEntry, PlanParseError>)
    ensures
        is_parse(r, line_entry(line@), path@, line_no as nat),
{
    match kind_of_json(line) {
        Err(source) => {
            return Err(
                PlanParseError::InvalidJson { path: String::from_str(path), line_no, source },
            );
        },
        Ok(k) => {
            if k != JsonKind::Object {
                let mut detail = String::from_str("top-level value must be an object, got ");
                detail.append(value_type_name(k));
                return schema_fault(path, line_no, detail);
            }
        },
    }
    let members = EntryMembers {
        ts: member_of_json(line, "ts"),
        mode: member_of_json(line, "mode"),
        cmd: member_of_json(line, "cmd"),
        args: member_of_json(line, "args"),
        applied: member_of_json(line, "applied"),
        exit_code: member_of_json(line, "exit_code"),
    };
    assert(members@ == members_of(line@));
    entry_from(members, path, line_no)
}

/// One line of a plan file as it was read.
#[derive(Debug, Clone)]
pub enum LineRead {
    Text(String),
    Failed(String),
}

/// What the file system says of a plan file.
#[derive(Debug, Clone)]
pub enum FoundPlan {
    Missing,
    Unopened(String),
    Lines(Vec<LineRead>),
}

/// What the lines of a plan say from index `from` on: the next entry, fault or read
/// error with the index of its line. Blank lines say nothing.
pub open spec fn next_said(lines: Seq<LineRead>, from: int) -> Option<int>
    decreases lines.len() - from,
{
    if from < 0 || from >= lines.len() {
        None
    } else {
        match lines[from] {
            LineRead::Failed(_) => Some(from),
            LineRead::Text(t) => if text::trim(t@).len() == 0 {
                next_said(lines, from + 1)
            } else {
                Some(from)
            },
        }
    }
}

/// Whether `r` is what line `i` says.
pub open spec fn is_said(
    r: Result<PlanEntry, PlanParseError>,
    lines: Seq<LineRead>,
    i: int,
    path: Seq<char>,
) -> bool {
    match lines[i] {
        LineRead::Failed(e) => r matches Err(PlanParseError::Io { path: p, source }) && p@ == path
            && source@ == e@,
        LineRead::Text(t) => is_parse(r, line_entry(text::trim(t@)), path, (i + 1) as nat),
    }
}

/// The entries that the first `n` lines say, where none of them is faulty.
pub open spec fn entries_said(lines: Seq<LineRead>, n: nat) -> Option<Seq<EntryView>>
    decreases n,
{
    if n == 0 {
        Some(Seq::empty())
    } else {
        match entries_said(lines, (n - 1) as nat) {
            None => None,
            Some(es) => match lines[n - 1] {
                LineRead::Failed(_) => None,
                LineRead::Text(t) => if text::trim(t@).len() == 0 {
                    Some(es)
                } else {
                    match line_entry(text::trim(t@)) {
                        Ok(e) => Some(es.push(e)),
                        Err(_) => None,
                    }
                },
            },
        }
    }
}

/// Whether line `i` is the first faulty one.
pub open spec fn first_faulty(lines: Seq<LineRead>, i: int) -> bool {
    0 <= i < lines.len() && entries_said(lines, i as nat) is Some && entries_said(
        lines,
        (i + 1) as nat,
    ) is None
}

/// The views of a sequence of entries.
pub open spec fn entry_views(v: Seq<PlanEntry>) -> Seq<EntryView> {
    Seq::new(v.len(), |i: int| v[i]@)
}

/// Whether `r` is what reading a plan file gives.
pub open spec fn is_read(
    path: Seq<char>,
    found: FoundPlan,
    r: Result<Plan, PlanParseError>,
) -> bool {
    match found {
        FoundPlan::Missing => r matches Ok(p) && p.path@ == path && p.entries@.len() == 0,
        FoundPlan::Unopened(e) => r matches Err(PlanParseError::Io { path: p, source }) && p@
            == path && source@ == e@,
        FoundPlan::Lines(lines) => match entries_said(lines@, lines@.len()) {
            Some(es) => r matches Ok(p) && p.path@ == path && entry_views(p.entries@) == es,
            None => exists|i: int, q: Result<PlanEntry, PlanParseError>|
                #![trigger is_said(q, lines@, i, path)]
                first_faulty(lines@, i) && is_said(q, lines@, i, path) && r is Err && q is Err
                    && r->Err_0 == q->Err_0,
        },
    }
}

proof fn lemma_faulty_stays(lines: Seq<LineRead>, m: nat, n: nat)
    requires
        m <= n,
        entries_said(lines, m) is None,
    ensures
        entries_said(lines, n) is None,
    decreases n - m,
{
    if m < n {
        lemma_faulty_stays(lines, m, (n - 1) as nat);
    }
}

/// Reads every entry of a plan.
///
/// A missing file is an empty plan. Blank lines are skipped; the first line that
/// cannot be read or is no entry ends the reading with its error, and no partial
/// plan is returned.
pub fn read_plan(path: &str, found: &FoundPlan) -> (r: Result<Plan, PlanParseError>)
    ensures
        is_read(path@, *found, r),
{
    let mut entries: Vec<PlanEntry> = Vec::new();
    match found {
        FoundPlan::Missing => {},
        FoundPlan::Unopened(e) => {
            return Err(PlanParseError::Io { path: String::from_str(path), source: e.clone() });
        },
        FoundPlan::Lines(lines) => {
            let mut i: usize = 0;
            assert(entry_views(entries@) =~= Seq::<EntryView>::empty());
            while i < lines.len()
                invariant
                    *found == FoundPlan::Lines(*lines),
                    i <= lines@.len(),
                    entries_said(lines@, i as nat) == Some(entry_views(entries@)),
                decreases lines@.len() - i,
            {
                let q: Result<PlanEntry, PlanParseError> = match &lines[i] {
                    LineRead::Failed(e) => Err(
                        PlanParseError::Io { path: String::from_str(path), source: e.clone() },
                    ),
                    LineRead::Text(t) => {
                        let line = trimmed(t.as_str());
                        if line.is_empty() {
                            i = i + 1;
                            continue;
                        }
                        parse_line(line, path, i + 1)
                    },
                };
                assert(is_said(q, lines@, i as int, path@));
                match q {
                    Ok(e) => {
                        let ghost before = entry_views(entries@);
                        entries.push(e);
                        assert(entry_views(entries@) =~= before.push(e@));
                    },
                    Err(e) => {
                        proof {
                            assert(first_faulty(lines@, i as int));
                            lemma_faulty_stays(lines@, (i + 1) as nat, lines@.len());
                        }
                        return Err(e);
                    },
                }
                i = i + 1;
            }
        },
    }
    Ok(Plan { path: String::from_str(path), entries })
}

/// Reads a plan entry by entry.
#[derive(Debug)]
pub struct PlanIter {
    lines: Vec<LineRead>,
    at: usize,
    path: String,
}

impl PlanIter {
    /// The lines that are read.
    pub closed spec fn lines(&self) -> Seq<LineRead> {
        self.lines@
    }

    /// The index of the line to be read next.
    pub closed spec fn at(&self) -> int {
        self.at as int
    }

    /// The path that errors name.
    pub closed spec fn path(&self) -> Seq<char> {
        self.path@
    }

    #[verifier::type_invariant]
    spec fn in_file(self) -> bool {
        self.at <= self.lines@.len()
    }

    /// The next entry or error; nothing after the last line.
    pub fn next(&mut self) -> (r: Option<Result<PlanEntry, PlanParseError>>)
        ensures
            final(self).lines() == old(self).lines(),
            final(self).path() == old(self).path(),
            match next_said(old(self).lines(), old(self).at()) {
                Some(i) => r matches Some(q) && is_said(
                    q,
                    old(self).lines(),
                    i,
                    old(self).path(),
                ) && final(self).at() == i + 1,
                None => r is None && final(self).at() == old(self).lines().len(),
            },
    {
        proof {
            use_type_invariant(&*self);
        }
        let mut i: usize = self.at;
        while i < self.lines.len()
            invariant
                self.lines@ == old(self).lines(),
                self.path@ == old(self).path(),
                i <= self.lines@.len(),
                next_said(old(self).lines(), old(self).at()) == next_said(
                    old(self).lines(),
                    i as int,
                ),
            decreases self.lines@.len() - i,
        {
            match &self.lines[i] {
                LineRead::Failed(e) => {
                    let q = Err(
                        PlanParseError::Io { path: self.path.clone(), source: e.clone() },
                    );
                    self.at = i + 1;
                    return Some(q);
                },
                LineRead::Text(t) => {
                    let line = trimmed(t.as_str());
                    if !line.is_empty() {
                        let q = parse_line(line, self.path.as_str(), i + 1);
                        self.at = i + 1;
                        return Some(q);
                    }
                },
            }
            i = i + 1;
        }
        self.at = i;
        None
    }
}

/// Starts reading a plan entry by entry. A missing file has no entries.
pub fn iter_plan(path: &str, found: FoundPlan) -> (r: Result<PlanIter, PlanParseError>)
    ensures
        match found {
            FoundPlan::Missing => r matches Ok(it) && it.lines().len() == 0 && it.at() == 0
                && it.path() == path@,
            FoundPlan::Unopened(e) => r matches Err(PlanParseError::Io { path: p, source }) && p@
                == path@ && source@ == e@,
            FoundPlan::Lines(lines) => r matches Ok(it) && it.lines() == lines@ && it.at() == 0
                && it.path() == path@,
        },
{
    match found {
        FoundPlan::Missing => Ok(
            PlanIter { lines: Vec::new(), at: 0, path: String::from_str(path) },
        ),
        FoundPlan::Unopened(e) => Err(
            PlanParseError::Io { path: String::from_str(path), source: e },
        ),
        FoundPlan::Lines(lines) => Ok(PlanIter { lines, at: 0, path: String::from_str(path) }),
    }
}

/// The lines of a plan that is held as one text.
pub open spec fn text_lines(content: Seq<char>, lines: Seq<LineRead>) -> bool {
    lines.len() == text::lines(content).len() && forall|i: int|
        0 <= i < lines.len() ==> (#[trigger] lines[i] matches LineRead::Text(t) && t@
            == text::lines(content)[i])
}

/// The lines of a plan that is held as one text.
pub fn plan_lines(content: &str) -> (r: Vec<LineRead>)
    ensures
        text_lines(content@, r@),
{
    let lines = lines_of(content);
    let ghost vs = text::views(lines@);
    let mut r: Vec<LineRead> = Vec::new();
    let mut i: usize = 0;
    assert(vs.len() == lines@.len());
    while i < lines.len()
        invariant
            vs == text::views(lines@),
            i <= lines@.len(),
            r@.len() == i,
            forall|j: int|
                0 <= j < i ==> (#[trigger] r@[j] matches LineRead::Text(t) && t@ == vs[j]),
        decreases lines@.len() - i,
    {
        r.push(LineRead::Text(lines[i].clone()));
        i = i + 1;
    }
    r
}

// ---------------------------------------------------------------- writing

/// The members of the object that records an entry, in the order of their keys.
pub open spec fn entry_fields(e: EntryView) -> Seq<(Seq<char>, json::FieldView)> {
    let front = seq![
        ("applied"@, json::FieldView::Bool(e.applied)),
        ("args"@, json::FieldView::Texts(e.args)),
        ("cmd"@, json::FieldView::Text(e.cmd)),
    ];
    let code = match e.exit_code {
        Some(rc) => seq![("exit_code"@, json::FieldView::Int(rc as int))],
        None => Seq::empty(),
    };
    front + code + seq![
        ("mode"@, json::FieldView::Text(e.mode)),
        ("ts"@, json::FieldView::Int(e.ts)),
    ]
}

/// The line that records an entry, without its line break.
pub open spec fn entry_json(e: EntryView) -> Seq<char> {
    json::object_written(entry_fields(e))
}

proof fn lemma_key_lengths()
    ensures
        "applied"@.len() == 7,
        "args"@.len() == 4 && "args"@[0] == 'a',
        "cmd"@.len() == 3,
        "exit_code"@.len() == 9,
        "mode"@.len() == 4 && "mode"@[0] == 'm',
        "ts"@.len() == 2,
{
    reveal_strlit("applied");
    reveal_strlit("args");
    reveal_strlit("cmd");
    reveal_strlit("exit_code");
    reveal_strlit("mode");
    reveal_strlit("ts");
}

proof fn lemma_entry_members(e: EntryView)
    ensures
        ({
            let fs = entry_fields(e);
            &&& json::field_named(fs, "applied"@) == Some(json::FieldView::Bool(e.applied))
            &&& json::field_named(fs, "args"@) == Some(json::FieldView::Texts(e.args))
            &&& json::field_named(fs, "cmd"@) == Some(json::FieldView::Text(e.cmd))
            &&& json::field_named(fs, "mode"@) == Some(json::FieldView::Text(e.mode))
            &&& json::field_named(fs, "ts"@) == Some(json::FieldView::Int(e.ts))
            &&& json::field_named(fs, "exit_code"@) == match e.exit_code {
                Some(rc) => Some(json::FieldView::Int(rc as int)),
                None => None,
            }
        }),
{
    lemma_key_lengths();
    reveal_with_fuel(json::field_named, 7);
    let fs = entry_fields(e);
    let n = fs.len() as int;
    let a = fs.drop_last();
    let b = a.drop_last();
    let c = b.drop_last();
    let d = c.drop_last();
    let g = d.drop_last();
    assert(fs.last() == ("ts"@, json::FieldView::Int(e.ts)));
    assert(a.last() == ("mode"@, json::FieldView::Text(e.mode)));
    match e.exit_code {
        Some(rc) => {
            assert(b.last() == ("exit_code"@, json::FieldView::Int(rc as int)));
            assert(c.last() == ("cmd"@, json::FieldView::Text(e.cmd)));
            assert(d.last() == ("args"@, json::FieldView::Texts(e.args)));
            assert(g.last() == ("applied"@, json::FieldView::Bool(e.applied)));
            assert(g.drop_last().len() == 0);
        },
        None => {
            assert(b.last() == ("cmd"@, json::FieldView::Text(e.cmd)));
            assert(c.last() == ("args"@, json::FieldView::Texts(e.args)));
            assert(d.last() == ("applied"@, json::FieldView::Bool(e.applied)));
            assert(g.len() == 0);
        },
    }
}

/// The keys of an entry stand in alphabetical order.
proof fn lemma_key_order(e: EntryView)
    ensures
        json::names_ascend(entry_fields(e)),
        json::plain_names(entry_fields(e)),
{
    lemma_key_lengths();
    reveal_strlit("applied");
    reveal_strlit("args");
    reveal_strlit("cmd");
    reveal_strlit("exit_code");
    reveal_strlit("mode");
    reveal_strlit("ts");
    let fs = entry_fields(e);
    assert(text::text_lt("applied"@, "args"@)) by {
        reveal_with_fuel(text::text_lt, 3);
        assert("applied"@.skip(1)[0] == 'p');
        assert("args"@.skip(1)[0] == 'r');
    }
    json::lemma_plain_names(fs);
}

/// A text that reads back as the members of an entry is read as that entry.
proof fn lemma_read_back(line: Seq<char>, e: EntryView)
    requires
        is_mode(e.mode),
        json::holds_object(line),
        json::reads_back(line, entry_fields(e)),
    ensures
        line_entry(line) == Ok::<EntryView, LineFault>(e),
{
    lemma_entry_members(e);
    let fs = entry_fields(e);
    let members = members_of(line);
    assert forall|k: Seq<char>| #[trigger] json::json_member(line, k) == json::member_read_back(
        fs,
        k,
    ) by {}
    assert(members.applied == Some(json::MemberView::Bool(e.applied)));
    assert(members.mode == Some(json::MemberView::Text(e.mode)));
    assert(members.cmd == Some(json::MemberView::Text(e.cmd)));
    assert(members.args == Some(
        json::MemberView::List(Seq::new(e.args.len(), |i: int| Some(e.args[i]))),
    ));
    assert(json::member_int(members.ts) == Some(e.ts));
    let list = Seq::new(e.args.len(), |i: int| Some(e.args[i]));
    assert(Seq::new(list.len(), |i: int| list[i]->0) =~= e.args);
    assert(all_texts(list) == Some(e.args));
}

/// The line that records an entry, with its line break: a JSON object whose keys
/// stand in alphabetical order. An entry in one of the two modes is read back from
/// its line.
pub fn entry_line(entry: &PlanEntry) -> (r: String)
    ensures
        r@ == entry_json(entry@) + seq!['\n'],
        entry_json(entry@) == json::in_order(entry_fields(entry@)),
        json::one_braced_line(entry_json(entry@)),
        is_mode(entry.mode@) ==> line_entry(entry_json(entry@)) == Ok::<EntryView, LineFault>(
            entry@,
        ),
{
    let mut fields: Vec<(String, Field)> = Vec::new();
    fields.push((String::from_str("applied"), Field::Bool(entry.applied)));
    let mut args: Vec<String> = Vec::new();
    let mut i: usize = 0;
    while i < entry.args.len()
        invariant
            i <= entry.args@.len(),
            text::views(args@) == text::views(entry.args@).take(i as int),
        decreases entry.args@.len() - i,
    {
        let ghost before = text::views(args@);
        args.push(entry.args[i].clone());
        assert(text::views(args@) =~= before.push(entry.args@[i as int]@));
        assert(text::views(entry.args@).take(i + 1) =~= text::views(entry.args@).take(
            i as int,
        ).push(text::views(entry.args@)[i as int]));
        i = i + 1;
    }
    assert(text::views(entry.args@).take(i as int) =~= text::views(entry.args@));
    fields.push((String::from_str("args"), Field::Texts(args)));
    fields.push((String::from_str("cmd"), Field::Text(entry.cmd.clone())));
    if let Some(rc) = entry.exit_code {
        fields.push((String::from_str("exit_code"), Field::Int(rc as i64)));
    }
    fields.push((String::from_str("mode"), Field::Text(entry.mode.clone())));
    fields.push((String::from_str("ts"), Field::Int(entry.ts)));
    assert(json::fields_view(fields@) =~= entry_fields(entry@));
    proof {
        lemma_key_order(entry@);
    }
    let mut line = object_text(&fields);
    proof {
        if is_mode(entry.mode@) {
            lemma_read_back(line@, entry@);
        }
    }
    line.push('\n');
    assert(line@ =~= entry_json(entry@) + seq!['\n']);
    line
}

/// The entries that the first `n` lines of a text say, where none is faulty.
pub open spec fn text_entries(lines: Seq<Seq<char>>, n: nat) -> Option<Seq<EntryView>>
    decreases n,
{
    if n == 0 {
        Some(Seq::empty())
    } else {
        match text_entries(lines, (n - 1) as nat) {
            None => None,
            Some(es) => {
                let line = text::trim(lines[n - 1]);
                if line.len() == 0 {
                    Some(es)
                } else {
                    match line_entry(line) {
                        Ok(e) => Some(es.push(e)),
                        Err(_) => None,
                    }
                }
            },
        }
    }
}

/// The entries that a text says, where none of its lines is faulty.
pub open spec fn entries_of_text(content: Seq<char>) -> Option<Seq<EntryView>> {
    text_entries(text::lines(content), text::lines(content).len())
}

/// Whether a text is made of whole lines.
pub open spec fn whole_lines(content: Seq<char>) -> bool {
    content.len() == 0 || content.last() == '\n'
}

proof fn lemma_lines_append(a: Seq<char>, b: Seq<char>)
    requires
        whole_lines(a),
    ensures
        text::lines(a + b) == text::lines(a) + text::lines(b),
    decreases a.len(),
{
    if a.len() == 0 {
        assert(a + b =~= b);
        assert(text::lines(a) + text::lines(b) =~= text::lines(b));
    } else {
        text::lemma_index_of(a, '\n');
        let i = text::index_of(a, '\n') as int;
        if i >= a.len() {
            assert(a[a.len() - 1] != '\n');
        }
        let whole = a + b;
        assert forall|j: int| 0 <= j < i implies whole[j] != '\n' by {
            assert(whole[j] == a[j]);
        }
        assert(whole[i] == a[i]);
        text::lemma_index_of_unique(whole, '\n', i);
        assert(whole.take(i) =~= a.take(i));
        assert(whole.skip(i + 1) =~= a.skip(i + 1) + b);
        let rest = a.skip(i + 1);
        if rest.len() > 0 {
            assert(rest.last() == a.last());
        }
        lemma_lines_append(rest, b);
        let first = seq![text::without_cr(a.take(i))];
        assert(first + (text::lines(rest) + text::lines(b)) =~= (first + text::lines(rest))
            + text::lines(b));
    }
}

proof fn lemma_one_line(r: Seq<char>)
    requires
        json::one_braced_line(r),
    ensures
        text::lines(r + seq!['\n']) == seq![r],
        text::trim(r) == r,
{
    let whole = r + seq!['\n'];
    assert forall|j: int| 0 <= j < r.len() implies whole[j] != '\n' by {
        assert(whole[j] == r[j]);
        assert(r.contains(r[j]));
    }
    text::lemma_index_of_unique(whole, '\n', r.len() as int);
    assert(whole.take(r.len() as int) =~= r);
    assert(whole.skip(r.len() as int + 1) =~= Seq::<char>::empty());
    assert(text::lines(Seq::<char>::empty()) =~= Seq::<Seq<char>>::empty());
    assert(seq![r] + Seq::<Seq<char>>::empty() =~= seq![r]);
}

proof fn lemma_text_entries_prefix(a: Seq<Seq<char>>, b: Seq<Seq<char>>, n: nat)
    requires
        n <= a.len(),
    ensures
        text_entries(a + b, n) == text_entries(a, n),
    decreases n,
{
    if n > 0 {
        lemma_text_entries_prefix(a, b, (n - 1) as nat);
        assert((a + b)[n - 1] == a[n - 1]);
    }
}

/// Appends an entry to the text of a plan. Behind whole lines the text then says
/// what it said before, followed by the entry.
pub fn append_entry(plan_text: &mut String, entry: &PlanEntry)
    ensures
        final(plan_text)@ == old(plan_text)@ + entry_json(entry@) + seq!['\n'],
        whole_lines(final(plan_text)@),
        whole_lines(old(plan_text)@) && is_mode(entry.mode@) ==> entries_of_text(
            final(plan_text)@,
        ) == match entries_of_text(old(plan_text)@) {
            Some(es) => Some(es.push(entry@)),
            None => None,
        },
{
    let line = entry_line(entry);
    plan_text.append(line.as_str());
    proof {
        let before = old(plan_text)@;
        let r = entry_json(entry@);
        assert(plan_text@ =~= before + r + seq!['\n']);
        if whole_lines(before) && is_mode(entry.mode@) {
            lemma_lines_append(before, r + seq!['\n']);
            lemma_one_line(r);
            assert(before + (r + seq!['\n']) =~= plan_text@);
            let ls = text::lines(before);
            lemma_text_entries_prefix(ls, seq![r], ls.len());
            assert((ls + seq![r])[ls.len() as int] == r);
        }
    }
}

/// Reading the lines of a text gives the entries that the text says.
pub proof fn law_read_of_text(
    path: Seq<char>,
    content: Seq<char>,
    lines: Vec<LineRead>,
    r: Result<Plan, PlanParseError>,
)
    requires
        text_lines(content, lines@),
        is_read(path, FoundPlan::Lines(lines), r),
    ensures
        match entries_of_text(content) {
            Some(es) => r matches Ok(p) && entry_views(p.entries@) == es,
            None => r is Err,
        },
{
    lemma_said_is_text(content, lines@, lines@.len());
}

proof fn lemma_said_is_text(content: Seq<char>, lines: Seq<LineRead>, n: nat)
    requires
        text_lines(content, lines),
        n <= lines.len(),
    ensures
        entries_said(lines, n) == text_entries(text::lines(content), n),
    decreases n,
{
    if n > 0 {
        lemma_said_is_text(content, lines, (n - 1) as nat);
        assert(lines[n - 1] matches LineRead::Text(t) && t@ == text::lines(content)[n - 1]);
    }
}

// ---------------------------------------------------------------- laws

/// Every entry stands in exactly the group of its category, and the groups stand
/// in alphabetical order.
pub proof fn law_grouping(es: Seq<PlanEntry>)
    ensures
        forall|i: int, j: int|
            #![trigger grouped(es)[i], grouped(es)[j]]
            0 <= i < j < grouped(es).len() ==> text::text_lt(grouped(es)[i].0, grouped(es)[j].0),
        forall|i: int|
            #![trigger grouped(es)[i]]
            0 <= i < grouped(es).len() ==> grouped(es)[i].1 == of_kind(es, grouped(es)[i].0)
                && grouped(es)[i].1.len() > 0,
        forall|e: PlanEntry|
            #![trigger es.contains(e)]
            es.contains(e) ==> exists|i: int|
                0 <= i < grouped(es).len() && (#[trigger] grouped(es)[i]).0 == kind_of(e.cmd@)
                    && grouped(es)[i].1.contains(e),
{
    lemma_kinds_ascend();
    lemma_groups(es, kinds().len());
    assert forall|e: PlanEntry| #![trigger es.contains(e)] es.contains(e) implies exists|i: int|
        0 <= i < grouped(es).len() && (#[trigger] grouped(es)[i]).0 == kind_of(e.cmd@) && grouped(
            es,
        )[i].1.contains(e) by {
        let k = kind_of(e.cmd@);
        let at = choose|at: int| 0 <= at < es.len() && es[at] == e;
        es.lemma_filter_contains(is_kind(k), at);
        let t = lemma_kind_listed(e.cmd@);
        assert(of_kind(es, k).contains(e));
        assert(of_kind(es, k).len() > 0);
        lemma_group_there(es, kinds().len(), t);
        let i = choose|i: int|
            0 <= i < grouped(es).len() && (#[trigger] groups(es, kinds().len())[i]) == (
                k,
                of_kind(es, k),
            );
        assert(grouped(es)[i].0 == k);
    }
}

proof fn lemma_kind_listed(cmd: Seq<char>) -> (t: int)
    ensures
        0 <= t < kinds().len(),
        kinds()[t] == kind_of(cmd),
{
    let k = kind_of(cmd);
    if k == "append"@ {
        0
    } else if k == "base"@ {
        1
    } else if k == "bookmark"@ {
        2
    } else if k == "create"@ {
        3
    } else if k == "delete"@ {
        4
    } else if k == "other"@ {
        5
    } else if k == "property_remove"@ {
        6
    } else if k == "property_set"@ {
        7
    } else {
        8
    }
}

proof fn lemma_kinds_ascend()
    ensures
        forall|i: int, j: int|
            #![trigger kinds()[i], kinds()[j]]
            0 <= i < j < kinds().len() ==> text::text_lt(kinds()[i], kinds()[j]),
{
    reveal_strlit("append");
    reveal_strlit("base");
    reveal_strlit("bookmark");
    reveal_strlit("create");
    reveal_strlit("delete");
    reveal_strlit("other");
    reveal_strlit("property_remove");
    reveal_strlit("property_set");
    reveal_strlit("rename");
    assert(text::text_lt("base"@, "bookmark"@)) by {
        reveal_with_fuel(text::text_lt, 3);
    }
    assert(text::text_lt("property_remove"@, "property_set"@)) by {
        reveal_with_fuel(text::text_lt, 12);
    }
}

proof fn lemma_groups(es: Seq<PlanEntry>, n: nat)
    requires
        n <= kinds().len(),
        forall|i: int, j: int|
            #![trigger kinds()[i], kinds()[j]]
            0 <= i < j < kinds().len() ==> text::text_lt(kinds()[i], kinds()[j]),
    ensures
        forall|i: int, j: int|
            #![trigger groups(es, n)[i], groups(es, n)[j]]
            0 <= i < j < groups(es, n).len() ==> text::text_lt(
                groups(es, n)[i].0,
                groups(es, n)[j].0,
            ),
        forall|i: int|
            #![trigger groups(es, n)[i]]
            0 <= i < groups(es, n).len() ==> groups(es, n)[i].1 == of_kind(es, groups(es, n)[i].0)
                && groups(es, n)[i].1.len() > 0 && exists|t: int|
                0 <= t < n && (#[trigger] kinds()[t]) == groups(es, n)[i].0,
    decreases n,
{
    if n > 0 {
        lemma_groups(es, (n - 1) as nat);
        let before = groups(es, (n - 1) as nat);
        let now = groups(es, n);
        assert forall|i: int|
            #![trigger now[i]]
            0 <= i < now.len() implies now[i].1 == of_kind(es, now[i].0) && now[i].1.len() > 0
            && exists|t: int| 0 <= t < n && (#[trigger] kinds()[t]) == now[i].0 by {
            if i < before.len() {
                assert(now[i] == before[i]);
                let t = choose|t: int| 0 <= t < n - 1 && (#[trigger] kinds()[t]) == before[i].0;
                assert(kinds()[t] == now[i].0);
            } else {
                assert(kinds()[n - 1] == now[i].0);
            }
        }
        assert forall|i: int, j: int|
            #![trigger now[i], now[j]]
            0 <= i < j < now.len() implies text::text_lt(now[i].0, now[j].0) by {
            assert(now[i] == before[i]);
            if j < before.len() {
                assert(now[j] == before[j]);
            } else {
                let t = choose|t: int| 0 <= t < n - 1 && (#[trigger] kinds()[t]) == before[i].0;
                assert(text::text_lt(kinds()[t], kinds()[n - 1]));
            }
        }
    }
}

proof fn lemma_group_there(es: Seq<PlanEntry>, n: nat, t: int)
    requires
        0 <= t < n <= kinds().len(),
        of_kind(es, kinds()[t]).len() > 0,
    ensures
        exists|i: int|
            0 <= i < groups(es, n).len() && (#[trigger] groups(es, n)[i]) == (
                kinds()[t],
                of_kind(es, kinds()[t]),
            ),
    decreases n,
{
    let now = groups(es, n);
    let goal = (kinds()[t], of_kind(es, kinds()[t]));
    if t == n - 1 {
        assert(now[now.len() - 1] == goal);
    } else {
        lemma_group_there(es, (n - 1) as nat, t);
        let before = groups(es, (n - 1) as nat);
        let i = choose|i: int| 0 <= i < before.len() && (#[trigger] before[i]) == goal;
        assert(now[i] == before[i]);
    }
}

} // verus!
