//! Wikilinks in the agent's notes: which of them lead nowhere, and how links that
//! were once turned into plain text become links again.

use vstd::hash_set::StringHashSet;
use vstd::prelude::*;
use vstd::string::*;

use crate::code_stash;
use crate::code_stash::{interleaved, restore_code, restore_each, stash_code};
use crate::json;
use crate::json::Field;
use crate::path_map::PathMap;
use crate::paths;
use crate::paths::{
    components, extension_of, file_name_of, is_under, join_path, stem_of, strip_base,
};
use crate::pattern;
use crate::pattern::{find_placeholders, find_wikilinks, marker, Findings, Pattern};
use crate::plan;
use crate::plan::PlanEntry;
use crate::text;
use crate::text::{lowered, same_text, strip_back, trimmed};

verus! {

// ---------------------------------------------------------------- links

/// A wikilink whose target is no note.
#[derive(Debug, Clone)]
pub struct UnresolvedLink {
    /// The target as written.
    pub target: String,
    /// The text shown in place of the target.
    pub alias: Option<String>,
    /// The section of the target.
    pub section: Option<String>,
}

/// A wikilink whose target is no note, over texts.
pub struct LinkView {
    pub target: Seq<char>,
    pub alias: Option<Seq<char>>,
    pub section: Option<Seq<char>>,
}

impl View for UnresolvedLink {
    type V = LinkView;

    open spec fn view(&self) -> LinkView {
        LinkView {
            target: self.target@,
            alias: json::text_view(self.alias),
            section: json::text_view(self.section),
        }
    }
}

/// The views of a sequence of links.
pub open spec fn link_views(v: Seq<UnresolvedLink>) -> Seq<LinkView> {
    Seq::new(v.len(), |i: int| v[i]@)
}

/// The plain text for a link that leads nowhere.
pub open spec fn replacement(l: LinkView) -> Seq<char> {
    let display = match l.alias {
        Some(a) => a,
        None => l.target,
    };
    match l.section {
        Some(s) => display + " (§"@ + s + ")"@ + marker(),
        None => display + marker(),
    }
}

impl UnresolvedLink {
    /// The plain text for this link.
    pub fn as_replacement(&self) -> (r: String)
        ensures
            r@ == replacement(self@),
    {
        let mut r = match &self.alias {
            Some(a) => a.clone(),
            None => self.target.clone(),
        };
        if let Some(s) = &self.section {
            r.append(" (§");
            r.append(s.as_str());
            r.append(")");
        }
        r.append(" [possible linkout - elaboration needed]");
        r
    }
}

// ---------------------------------------------------------------- the notes

/// The names by which wikilinks may call the notes of a vault.
pub struct NoteIndex {
    names: StringHashSet,
}

impl View for NoteIndex {
    type V = Set<Seq<char>>;

    closed spec fn view(&self) -> Set<Seq<char>> {
        self.names@
    }
}

impl NoteIndex {
    /// No names.
    pub fn new() -> (r: NoteIndex)
        ensures
            r@ == Set::<Seq<char>>::empty(),
    {
        NoteIndex { names: StringHashSet::new() }
    }

    /// Adds a name.
    pub fn insert(&mut self, name: &str)
        ensures
            final(self)@ == old(self)@.insert(name@),
    {
        self.names.insert(String::from_str(name));
    }

    /// Whether a name is there.
    pub fn contains(&self, name: &str) -> (b: bool)
        ensures
            b == self@.contains(name@),
    {
        self.names.contains(name)
    }
}

/// A regular file that the walk through the vault came upon.
#[derive(Debug, Clone)]
pub struct NoteFile {
    /// The path as walked.
    pub path: String,
    /// The path with all links followed, where it could be told.
    pub canonical: Option<String>,
}

/// Whether the walk for notes enters a directory.
pub fn enters_notes_directory(name: &str) -> (b: bool)
    ensures
        b == (name@ != ".obsidian"@ && name@ != ".trash"@),
{
    !same_text(name, ".obsidian") && !same_text(name, ".trash")
}

/// Whether a path has the extension `md`, in any case of letters.
pub open spec fn is_markdown(path: Seq<char>) -> bool {
    paths::extension(path) matches Some(e) && text::lower_ascii(e) == "md"@
}

/// Whether a path has the extension `md`, in any case of letters.
pub fn has_markdown_extension(path: &str) -> (b: bool)
    ensures
        b == is_markdown(path@),
{
    match extension_of(path) {
        Some(e) => same_text(lowered(e.as_str()).as_str(), "md"),
        None => false,
    }
}

/// Whether a file is a note: markdown below the vault and not below the sources.
pub open spec fn is_note(f: NoteFile, vault_root: Seq<char>, sources: Seq<char>) -> bool {
    is_markdown(f.path@) && !paths::under(
        match f.canonical {
            Some(c) => c@,
            None => f.path@,
        },
        sources,
    ) && paths::below(f.path@, vault_root) is Some
}

/// Whether `name` calls the note at `path`: its file name without extension, its
/// path below the vault, or that path without `.md`.
pub open spec fn calls(name: Seq<char>, path: Seq<char>, vault_root: Seq<char>) -> bool {
    let rel = paths::below(path, vault_root).unwrap();
    ||| (paths::file_name(path) matches Some(n) && name == paths::name_stem(n))
    ||| name == rel
    ||| name + ".md"@ == rel
}

/// Whether one of the files is a note that `name` calls.
pub open spec fn indexed(
    files: Seq<NoteFile>,
    vault_root: Seq<char>,
    sources: Seq<char>,
    name: Seq<char>,
) -> bool {
    exists|i: int|
        0 <= i < files.len() && is_note(#[trigger] files[i], vault_root, sources) && calls(
            name,
            files[i].path@,
            vault_root,
        )
}

/// The names by which wikilinks may call the files that are notes.
pub fn build_existing_index(files: &Vec<NoteFile>, vault_root: &str, sources: &str) -> (r: NoteIndex)
    ensures
        forall|name: Seq<char>| #[trigger]
            r@.contains(name) <==> indexed(files@, vault_root@, sources@, name),
{
    let mut r = NoteIndex::new();
    let mut i: usize = 0;
    while i < files.len()
        invariant
            i <= files@.len(),
            forall|name: Seq<char>| #[trigger]
                r@.contains(name) <==> indexed(files@.take(i as int), vault_root@, sources@, name),
        decreases files@.len() - i,
    {
        let ghost before = r@;
        let f = &files[i];
        let path = f.path.as_str();
        let place = match &f.canonical {
            Some(c) => c.as_str(),
            None => path,
        };
        let ghost counts = is_note(*f, vault_root@, sources@);
        if has_markdown_extension(path) && !is_under(place, sources) {
            if let Some(rel) = strip_base(path, vault_root) {
                if let Some(stem) = stem_of(path) {
                    r.insert(stem.as_str());
                }
                r.insert(rel.as_str());
                if let Some(short) = strip_back(rel.as_str(), ".md") {
                    r.insert(short);
                    assert(short@ + ".md"@ =~= rel@);
                }
                assert forall|name: Seq<char>| #[trigger]
                    r@.contains(name) <==> before.contains(name) || calls(
                        name,
                        path@,
                        vault_root@,
                    ) by {
                    if name + ".md"@ == rel@ {
                        assert(rel@.subrange(
                            rel@.len() - ".md"@.len(),
                            rel@.len() as int,
                        ) =~= ".md"@);
                        assert(name =~= rel@.take(rel@.len() - ".md"@.len()));
                    }
                }
            }
        }
        proof {
            let a = files@.take(i as int);
            let b = files@.take(i + 1);
            assert(b =~= a.push(*f));
            assert forall|name: Seq<char>| #[trigger]
                r@.contains(name) <==> indexed(b, vault_root@, sources@, name) by {
                let own = counts && calls(name, path@, vault_root@);
                assert(r@.contains(name) <==> before.contains(name) || own);
                if indexed(a, vault_root@, sources@, name) {
                    let j = choose|j: int|
                        0 <= j < a.len() && is_note(#[trigger] a[j], vault_root@, sources@)
                            && calls(name, a[j].path@, vault_root@);
                    assert(b[j] == a[j]);
                }
                if own {
                    assert(b[i as int] == *f);
                }
                if indexed(b, vault_root@, sources@, name) && !own {
                    let j = choose|j: int|
                        0 <= j < b.len() && is_note(#[trigger] b[j], vault_root@, sources@)
                            && calls(name, b[j].path@, vault_root@);
                    assert(j < i);
                    assert(a[j] == b[j]);
                }
            }
        }
        i = i + 1;
    }
    assert(files@.take(i as int) =~= files@);
    r
}

/// Whether a target is the name of a note, with or without `.md`.
pub open spec fn resolved(target: Seq<char>, existing: Set<Seq<char>>) -> bool {
    ||| existing.contains(target)
    ||| (text::ends_with(target, ".md"@) && existing.contains(
        target.take(target.len() - ".md"@.len()),
    ))
    ||| existing.contains(target + ".md"@)
}

/// Whether a target is the name of a note, with or without `.md`.
pub fn is_resolved(target: &str, existing: &NoteIndex) -> (b: bool)
    ensures
        b == resolved(target@, existing@),
{
    if existing.contains(target) {
        return true;
    }
    if let Some(short) = strip_back(target, ".md") {
        if existing.contains(short) {
            return true;
        }
    }
    let mut long = String::from_str(target);
    long.append(".md");
    existing.contains(long.as_str())
}

// ---------------------------------------------------------------- sweeping a text

/// The groups of one match.
pub type Groups = Seq<Option<Seq<char>>>;

/// The text of a group, empty where it took no part.
pub open spec fn group(g: Groups, i: int) -> Seq<char> {
    if i < g.len() {
        plan::or_empty(g[i])
    } else {
        Seq::empty()
    }
}

/// The trimmed text of a group, absent where it took no part or is blank.
pub open spec fn said(g: Groups, i: int) -> Option<Seq<char>> {
    if text::trim(group(g, i)).len() > 0 {
        Some(text::trim(group(g, i)))
    } else {
        None
    }
}

/// The link that a match of the wikilink pattern writes.
pub open spec fn link_of(g: Groups) -> LinkView {
    LinkView { target: text::trim(group(g, 1)), section: said(g, 3), alias: said(g, 5) }
}

/// A piece of a text that code was put aside from, with the code put back.
pub open spec fn with_code(s: Seq<char>, blocks: Seq<Seq<char>>) -> Seq<char> {
    code_stash::restore(sweep_mark(), s, blocks, blocks.len())
}

/// A part of a link with its code put back, where the link has that part.
pub open spec fn part_with_code(s: Option<Seq<char>>, blocks: Seq<Seq<char>>) -> Option<Seq<char>> {
    match s {
        Some(t) => Some(with_code(t, blocks)),
        None => None,
    }
}

/// The link that a match of the wikilink pattern writes, as it stands in the text that
/// code was put aside from.
pub open spec fn link_as_written(g: Groups, blocks: Seq<Seq<char>>) -> LinkView {
    let l = link_of(g);
    LinkView {
        target: with_code(l.target, blocks),
        section: part_with_code(l.section, blocks),
        alias: part_with_code(l.alias, blocks),
    }
}

/// What stands in place of a wikilink: the link itself where it leads to a note.
pub open spec fn swept(g: Groups, blocks: Seq<Seq<char>>, existing: Set<Seq<char>>) -> Seq<char> {
    if resolved(link_as_written(g, blocks).target, existing) {
        group(g, 0)
    } else {
        replacement(link_of(g))
    }
}

/// What stands in place of each wikilink.
pub open spec fn all_swept(
    gs: Seq<Groups>,
    blocks: Seq<Seq<char>>,
    existing: Set<Seq<char>>,
) -> Seq<Seq<char>> {
    Seq::new(gs.len(), |i: int| swept(gs[i], blocks, existing))
}

/// Those of the first `n` links that lead nowhere, in order.
pub open spec fn unresolved(
    gs: Seq<Groups>,
    blocks: Seq<Seq<char>>,
    existing: Set<Seq<char>>,
    n: nat,
) -> Seq<LinkView>
    decreases n,
{
    if n == 0 {
        Seq::empty()
    } else {
        let before = unresolved(gs, blocks, existing, (n - 1) as nat);
        let l = link_as_written(gs[n - 1], blocks);
        if resolved(l.target, existing) {
            before
        } else {
            before.push(l)
        }
    }
}

/// The wikilinks of a text, as the pattern finds them.
pub open spec fn wikilinks(s: Seq<char>) -> Seq<Groups> {
    pattern::all_groups(s, pattern::matches_of(Pattern::Wikilink, s))
}

/// The name under which code is put aside while links are swept.
pub open spec fn sweep_mark() -> Seq<char> {
    "KBLINK"@
}

/// A text whose links that lead nowhere gave way to plain text; code is kept.
pub open spec fn swept_text(content: Seq<char>, existing: Set<Seq<char>>) -> Seq<char> {
    let st = code_stash::stash(sweep_mark(), content);
    code_stash::restore(
        sweep_mark(),
        code_stash::spliced(
            st.text,
            pattern::matches_of(Pattern::Wikilink, st.text),
            all_swept(wikilinks(st.text), st.blocks, existing),
        ),
        st.blocks,
        st.blocks.len(),
    )
}

/// The links of a text that lead nowhere, outside code, in order.
pub open spec fn unresolved_in(content: Seq<char>, existing: Set<Seq<char>>) -> Seq<LinkView> {
    let st = code_stash::stash(sweep_mark(), content);
    let gs = wikilinks(st.text);
    unresolved(gs, st.blocks, existing, gs.len())
}

fn group_text<'a>(g: &'a Vec<Option<String>>, i: usize) -> (r: &'a str)
    ensures
        r@ == group(pattern::captured(g@), i as int),
{
    if i < g.len() {
        match &g[i] {
            Some(t) => {
                assert(pattern::captured(g@)[i as int] == Some(t@));
                t.as_str()
            },
            None => {
                proof {
                    reveal_strlit("");
                    assert(""@ =~= Seq::<char>::empty());
                }
                ""
            },
        }
    } else {
        proof {
            reveal_strlit("");
            assert(""@ =~= Seq::<char>::empty());
        }
        ""
    }
}

fn said_text(g: &Vec<Option<String>>, i: usize) -> (r: Option<String>)
    ensures
        json::text_view(r) == said(pattern::captured(g@), i as int),
{
    let t = trimmed(group_text(g, i));
    if t.is_empty() {
        None
    } else {
        Some(String::from_str(t))
    }
}

fn text_with_code(s: Option<String>, blocks: &Vec<String>) -> (r: Option<String>)
    ensures
        json::text_view(r) == part_with_code(json::text_view(s), text::views(blocks@)),
{
    match s {
        Some(t) => Some(restore_code("KBLINK", t.as_str(), blocks)),
        None => None,
    }
}

/// What stands in place of each wikilink that was found in a text whose code was put
/// aside, and those of them that lead nowhere, with their code.
pub fn sweep_found(found: &Findings, blocks: &Vec<String>, existing: &NoteIndex) -> (r: (
    Vec<String>,
    Vec<UnresolvedLink>,
))
    ensures
        text::views(r.0@) == all_swept(
            pattern::all_captured(found.captures@),
            text::views(blocks@),
            existing@,
        ),
        link_views(r.1@) == unresolved(
            pattern::all_captured(found.captures@),
            text::views(blocks@),
            existing@,
            found.captures@.len(),
        ),
{
    let ghost gs = pattern::all_captured(found.captures@);
    let ghost bs = text::views(blocks@);
    let mut between: Vec<String> = Vec::new();
    let mut lost: Vec<UnresolvedLink> = Vec::new();
    let mut i: usize = 0;
    assert(link_views(lost@) =~= Seq::<LinkView>::empty());
    while i < found.captures.len()
        invariant
            i <= found.captures@.len(),
            gs == pattern::all_captured(found.captures@),
            between@.len() == i,
            bs == text::views(blocks@),
            forall|j: int| 0 <= j < i ==> (#[trigger] between@[j])@ == swept(gs[j], bs, existing@),
            link_views(lost@) == unresolved(gs, bs, existing@, i as nat),
        decreases found.captures@.len() - i,
    {
        let g = &found.captures[i];
        assert(gs[i as int] == pattern::captured(g@));
        let target = trimmed(group_text(g, 1));
        let written = restore_code("KBLINK", target, blocks);
        if is_resolved(written.as_str(), existing) {
            between.push(String::from_str(group_text(g, 0)));
        } else {
            let link = UnresolvedLink {
                target: String::from_str(target),
                section: said_text(g, 3),
                alias: said_text(g, 5),
            };
            assert(link@ == link_of(gs[i as int]));
            between.push(link.as_replacement());
            let whole = UnresolvedLink {
                target: written,
                section: text_with_code(link.section, blocks),
                alias: text_with_code(link.alias, blocks),
            };
            assert(whole@ == link_as_written(gs[i as int], bs));
            let ghost before = link_views(lost@);
            lost.push(whole);
            assert(link_views(lost@) =~= before.push(whole@));
        }
        i = i + 1;
    }
    assert(text::views(between@) =~= all_swept(gs, bs, existing@));
    (between, lost)
}

/// Replaces every wikilink that leads nowhere by plain text and returns the new
/// text and those links. Code is kept.
pub fn sweep_links_in_text(content: &str, existing: &NoteIndex) -> (r: (
    String,
    Vec<UnresolvedLink>,
))
    ensures
        r.0@ == swept_text(content@, existing@),
        link_views(r.1@) == unresolved_in(content@, existing@),
{
    let st = stash_code("KBLINK", content);
    let found = find_wikilinks(st.text.as_str());
    let ghost ms = pattern::matches_of(Pattern::Wikilink, st.text@);
    assert(pattern::all_captured(found.captures@).len() == ms.len());
    assert(text::views(found.pieces@).len() == ms.len() + 1);
    let (between, lost) = sweep_found(&found, &st.blocks, existing);
    assert(text::views(between@).len() == ms.len());
    let work = interleaved(&found.pieces, &between);
    (restore_code("KBLINK", work.as_str(), &st.blocks), lost)
}

/// The links of a text that lead nowhere.
pub fn unresolved_links_in_text(content: &str, existing: &NoteIndex) -> (r: Vec<UnresolvedLink>)
    ensures
        link_views(r@) == unresolved_in(content@, existing@),
{
    let (_, lost) = sweep_links_in_text(content, existing);
    lost
}

// ---------------------------------------------------------------- relinking a text

/// The target that a match of the placeholder pattern stands for; none where its
/// text is blank.
pub open spec fn lost_target(g: Groups) -> Option<Seq<char>> {
    let display = text::trim(group(g, 2));
    if display.len() == 0 {
        None
    } else {
        match said(g, 3) {
            Some(s) => Some(display + "#"@ + s),
            None => Some(display),
        }
    }
}

/// What stands in place of a match of the placeholder pattern.
pub open spec fn relinked(g: Groups) -> Seq<char> {
    match lost_target(g) {
        Some(t) => group(g, 1) + "[["@ + t + "]]"@,
        None => group(g, 0),
    }
}

/// What stands in place of each match.
pub open spec fn all_relinked(gs: Seq<Groups>) -> Seq<Seq<char>> {
    Seq::new(gs.len(), |i: int| relinked(gs[i]))
}

/// The targets of the first `n` matches, in order.
pub open spec fn targets(gs: Seq<Groups>, n: nat) -> Seq<Seq<char>>
    decreases n,
{
    if n == 0 {
        Seq::empty()
    } else {
        let before = targets(gs, (n - 1) as nat);
        match lost_target(gs[n - 1]) {
            Some(t) => before.push(t),
            None => before,
        }
    }
}

/// The lost links of a text, as the pattern finds them.
pub open spec fn placeholders(s: Seq<char>) -> Seq<Groups> {
    pattern::all_groups(s, pattern::matches_of(Pattern::Placeholder, s))
}

/// The name under which code is put aside while links are restored.
pub open spec fn relink_mark() -> Seq<char> {
    "KBRELINK"@
}

/// A text with each lost link a link again.
pub open spec fn relink_prose(s: Seq<char>) -> Seq<char> {
    code_stash::spliced(
        s,
        pattern::matches_of(Pattern::Placeholder, s),
        all_relinked(placeholders(s)),
    )
}

/// A text with each lost link outside code a link again.
pub open spec fn relinked_text(content: Seq<char>) -> Seq<char> {
    let st = code_stash::stash(relink_mark(), content);
    code_stash::restore(relink_mark(), relink_prose(st.text), st.blocks, st.blocks.len())
}

/// The targets of the lost links of a text, outside code, in order.
pub open spec fn targets_in(content: Seq<char>) -> Seq<Seq<char>> {
    let st = code_stash::stash(relink_mark(), content);
    let gs = placeholders(st.text);
    code_stash::all_restored(relink_mark(), targets(gs, gs.len()), st.blocks)
}

/// What stands in place of each lost link that was found, and the targets.
pub fn relink_found(found: &Findings) -> (r: (Vec<String>, Vec<String>))
    ensures
        text::views(r.0@) == all_relinked(pattern::all_captured(found.captures@)),
        text::views(r.1@) == targets(
            pattern::all_captured(found.captures@),
            found.captures@.len(),
        ),
{
    let ghost gs = pattern::all_captured(found.captures@);
    let mut between: Vec<String> = Vec::new();
    let mut restored: Vec<String> = Vec::new();
    let mut i: usize = 0;
    assert(text::views(restored@) =~= Seq::<Seq<char>>::empty());
    while i < found.captures.len()
        invariant
            i <= found.captures@.len(),
            gs == pattern::all_captured(found.captures@),
            between@.len() == i,
            forall|j: int| 0 <= j < i ==> (#[trigger] between@[j])@ == relinked(gs[j]),
            text::views(restored@) == targets(gs, i as nat),
        decreases found.captures@.len() - i,
    {
        let g = &found.captures[i];
        assert(gs[i as int] == pattern::captured(g@));
        let display = trimmed(group_text(g, 2));
        if display.is_empty() {
            between.push(String::from_str(group_text(g, 0)));
        } else {
            let mut target = String::from_str(display);
            if let Some(section) = said_text(g, 3) {
                target.append("#");
                target.append(section.as_str());
            }
            let mut link = String::from_str(group_text(g, 1));
            link.append("[[");
            link.append(target.as_str());
            link.append("]]");
            between.push(link);
            let ghost before = text::views(restored@);
            restored.push(target);
            assert(text::views(restored@) =~= before.push(target@));
        }
        i = i + 1;
    }
    assert(text::views(between@) =~= all_relinked(gs));
    (between, restored)
}

/// Turns every lost link back into a wikilink and returns the new text and the
/// targets. Code is kept.
pub fn relink_text(content: &str) -> (r: (String, Vec<String>))
    ensures
        r.0@ == relinked_text(content@),
        text::views(r.1@) == targets_in(content@),
{
    let st = stash_code("KBRELINK", content);
    let found = find_placeholders(st.text.as_str());
    let ghost ms = pattern::matches_of(Pattern::Placeholder, st.text@);
    assert(pattern::all_captured(found.captures@).len() == ms.len());
    assert(text::views(found.pieces@).len() == ms.len() + 1);
    let (between, restored) = relink_found(&found);
    assert(text::views(between@).len() == ms.len());
    let work = interleaved(&found.pieces, &between);
    (
        restore_code("KBRELINK", work.as_str(), &st.blocks),
        restore_each("KBRELINK", &restored, &st.blocks),
    )
}

// ---------------------------------------------------------------- files

/// A file that the sweep was handed.
#[derive(Debug, Clone)]
pub struct SweptFile {
    /// The path with all links followed, or as handed over where it could not be
    /// told.
    pub path: String,
    /// Whether a regular file is there.
    pub is_file: bool,
    /// What it holds, where it could be read.
    pub content: Option<String>,
}

/// What the sweep does with a file.
#[derive(Debug, Clone, Copy, PartialEq, Eq, Structural)]
pub enum Visit {
    /// Passed over: it was handed over before.
    Again,
    /// Passed over: no regular file is there.
    NotAFile,
    /// Passed over: outside the agent's directory.
    OutsideRoot,
    /// Passed over: not markdown.
    NotMarkdown,
    /// Passed over: it could not be read.
    Unreadable,
    /// Looked into.
    Examined,
}

/// Whether the file at index `i` was handed over before.
pub open spec fn handed_before(files: Seq<SweptFile>, i: int) -> bool {
    exists|j: int|
        0 <= j < i && components((#[trigger] files[j]).path@) == components(files[i].path@)
}

/// What the sweep does with the file at index `i`.
pub open spec fn visit(files: Seq<SweptFile>, agent_root: Seq<char>, i: int) -> Visit {
    let f = files[i];
    if handed_before(files, i) {
        Visit::Again
    } else if !f.is_file {
        Visit::NotAFile
    } else if !paths::under(f.path@, agent_root) {
        Visit::OutsideRoot
    } else if !is_markdown(f.path@) {
        Visit::NotMarkdown
    } else if f.content is None {
        Visit::Unreadable
    } else {
        Visit::Examined
    }
}

/// On how many of the first `n` files the sweep does `v`.
pub open spec fn visits(files: Seq<SweptFile>, agent_root: Seq<char>, v: Visit, n: nat) -> nat
    decreases n,
{
    if n == 0 {
        0
    } else {
        visits(files, agent_root, v, (n - 1) as nat) + if visit(files, agent_root, n - 1) == v {
            1nat
        } else {
            0
        }
    }
}

/// Whether a file is worth reading.
pub fn is_wanted(path: &str, is_file: bool, agent_root: &str) -> (b: bool)
    ensures
        b == (is_file && paths::under(path@, agent_root@) && is_markdown(path@)),
{
    is_file && is_under(path, agent_root) && has_markdown_extension(path)
}

/// Whether `seen` holds the paths of the first `n` files.
spec fn has_seen(seen: Map<Seq<Seq<char>>, ()>, files: Seq<SweptFile>, n: int) -> bool {
    forall|k: Seq<Seq<char>>| #[trigger]
        seen.contains_key(k) <==> exists|j: int|
            0 <= j < n && components((#[trigger] files[j]).path@) == k
}

fn visit_next(
    seen: &mut PathMap<()>,
    files: &Vec<SweptFile>,
    agent_root: &str,
    i: usize,
) -> (r: Visit)
    requires
        i < files@.len(),
        has_seen(old(seen)@, files@, i as int),
    ensures
        r == visit(files@, agent_root@, i as int),
        has_seen(final(seen)@, files@, i + 1),
{
    let f = &files[i];
    let ghost here = components(f.path@);
    let again = seen.contains(f.path.as_str());
    let ghost before = seen@;
    seen.insert(f.path.as_str(), ());
    assert forall|k: Seq<Seq<char>>| #[trigger]
        seen@.contains_key(k) <==> exists|j: int|
            0 <= j < i + 1 && components((#[trigger] files@[j]).path@) == k by {
        if before.contains_key(k) {
            let j = choose|j: int|
                0 <= j < i && components((#[trigger] files@[j]).path@) == k;
            assert(0 <= j < i + 1);
        }
        if k == here {
            assert(components(files@[i as int].path@) == k);
        } else if exists|j: int|
            0 <= j < i + 1 && components((#[trigger] files@[j]).path@) == k {
            let j = choose|j: int|
                0 <= j < i + 1 && components((#[trigger] files@[j]).path@) == k;
            assert(0 <= j < i);
        }
    }
    if again {
        Visit::Again
    } else if !f.is_file {
        Visit::NotAFile
    } else if !is_under(f.path.as_str(), agent_root) {
        Visit::OutsideRoot
    } else if !has_markdown_extension(f.path.as_str()) {
        Visit::NotMarkdown
    } else {
        match &f.content {
            Some(_) => Visit::Examined,
            None => Visit::Unreadable,
        }
    }
}

/// The name of a file as reports show it.
pub open spec fn shown_name(path: Seq<char>) -> Seq<char> {
    match paths::file_name(path) {
        Some(n) => n,
        None => "?"@,
    }
}

fn name_shown(path: &str) -> (r: String)
    ensures
        r@ == shown_name(path@),
{
    match file_name_of(path) {
        Some(n) => n,
        None => String::from_str("?"),
    }
}

/// One line of a report: the file and a target.
pub open spec fn example(path: Seq<char>, target: Seq<char>) -> Seq<char> {
    shown_name(path) + ": [["@ + target + "]]"@
}

/// Lines for the first five targets.
pub open spec fn examples(path: Seq<char>, ts: Seq<Seq<char>>) -> Seq<Seq<char>> {
    Seq::new(
        if ts.len() < 5 {
            ts.len()
        } else {
            5
        },
        |i: int| example(path, ts[i]),
    )
}

fn add_examples(out: &mut Vec<String>, path: &str, ts: &Vec<String>)
    ensures
        text::views(final(out)@) == text::views(old(out)@) + examples(path@, text::views(ts@)),
{
    let ghost before = text::views(out@);
    let name = name_shown(path);
    let mut i: usize = 0;
    while i < ts.len() && i < 5
        invariant
            i <= ts@.len(),
            i <= 5,
            name@ == shown_name(path@),
            text::views(out@) == before + examples(path@, text::views(ts@)).take(i as int),
        decreases 5 - i,
    {
        let mut line = name.clone();
        line.append(": [[");
        line.append(ts[i].as_str());
        line.append("]]");
        let ghost sofar = text::views(out@);
        out.push(line);
        assert(text::views(out@) =~= sofar.push(line@));
        assert(examples(path@, text::views(ts@)).take(i + 1) =~= examples(
            path@,
            text::views(ts@),
        ).take(i as int).push(line@));
        i = i + 1;
    }
    assert(examples(path@, text::views(ts@)).take(i as int) =~= examples(
        path@,
        text::views(ts@),
    ));
}

/// What a sweep over files found.
#[derive(Debug, Clone)]
pub struct SweepStats {
    /// Files looked into.
    pub files_examined: usize,
    /// Files changed; the sweep changes none.
    pub files_modified: usize,
    /// Links that lead nowhere.
    pub links_replaced: usize,
    /// Up to five lines for each file.
    pub examples: Vec<String>,
    /// Files handed over.
    pub files_input: usize,
    /// Files outside the agent's directory.
    pub skipped_outside_root: usize,
    /// Paths where no regular file is.
    pub skipped_not_a_file: usize,
    /// Files that are not markdown.
    pub skipped_non_markdown: usize,
}

impl Default for SweepStats {
    fn default() -> (r: SweepStats)
        ensures
            r.files_examined == 0,
            r.files_modified == 0,
            r.links_replaced == 0,
            r.examples@.len() == 0,
            r.files_input == 0,
            r.skipped_outside_root == 0,
            r.skipped_not_a_file == 0,
            r.skipped_non_markdown == 0,
    {
        SweepStats {
            files_examined: 0,
            files_modified: 0,
            links_replaced: 0,
            examples: Vec::new(),
            files_input: 0,
            skipped_outside_root: 0,
            skipped_not_a_file: 0,
            skipped_non_markdown: 0,
        }
    }
}

/// The first twenty of `v`.
pub open spec fn first_twenty(v: Seq<Seq<char>>) -> Seq<Seq<char>> {
    if v.len() <= 20 {
        v
    } else {
        v.take(20)
    }
}

/// The members under which a sweep is recorded.
pub open spec fn sweep_fields(s: SweepStats) -> Seq<(Seq<char>, json::FieldView)> {
    seq![
        ("link_sweep_examined"@, json::FieldView::Unsigned(s.files_examined as int)),
        ("link_sweep_modified"@, json::FieldView::Unsigned(s.files_modified as int)),
        ("link_sweep_replaced"@, json::FieldView::Unsigned(s.links_replaced as int)),
        (
            "link_sweep_examples"@,
            json::FieldView::Texts(first_twenty(text::views(s.examples@))),
        ),
        ("link_sweep_input"@, json::FieldView::Unsigned(s.files_input as int)),
        (
            "link_sweep_skipped_outside_root"@,
            json::FieldView::Unsigned(s.skipped_outside_root as int),
        ),
        (
            "link_sweep_skipped_not_a_file"@,
            json::FieldView::Unsigned(s.skipped_not_a_file as int),
        ),
        (
            "link_sweep_skipped_non_markdown"@,
            json::FieldView::Unsigned(s.skipped_non_markdown as int),
        ),
    ]
}

impl SweepStats {
    /// The members under which this sweep is recorded.
    pub fn as_metadata(&self) -> (r: Vec<(String, Field)>)
        ensures
            json::fields_view(r@) == sweep_fields(*self),
    {
        let mut shown: Vec<String> = Vec::new();
        let mut i: usize = 0;
        assert(text::views(shown@) =~= first_twenty(text::views(self.examples@)).take(0));
        while i < self.examples.len() && i < 20
            invariant
                i <= self.examples@.len(),
                i <= 20,
                text::views(shown@) == first_twenty(text::views(self.examples@)).take(i as int),
            decreases 20 - i,
        {
            let ghost before = text::views(shown@);
            shown.push(self.examples[i].clone());
            assert(text::views(shown@) =~= before.push(self.examples@[i as int]@));
            assert(first_twenty(text::views(self.examples@)).take(i + 1) =~= first_twenty(
                text::views(self.examples@),
            ).take(i as int).push(self.examples@[i as int]@));
            i = i + 1;
        }
        assert(first_twenty(text::views(self.examples@)).take(i as int) =~= first_twenty(
            text::views(self.examples@),
        ));
        let mut r: Vec<(String, Field)> = Vec::new();
        r.push(
            (String::from_str("link_sweep_examined"), Field::Unsigned(self.files_examined as u64)),
        );
        r.push(
            (String::from_str("link_sweep_modified"), Field::Unsigned(self.files_modified as u64)),
        );
        r.push(
            (String::from_str("link_sweep_replaced"), Field::Unsigned(self.links_replaced as u64)),
        );
        r.push((String::from_str("link_sweep_examples"), Field::Texts(shown)));
        r.push((String::from_str("link_sweep_input"), Field::Unsigned(self.files_input as u64)));
        r.push(
            (
                String::from_str("link_sweep_skipped_outside_root"),
                Field::Unsigned(self.skipped_outside_root as u64),
            ),
        );
        r.push(
            (
                String::from_str("link_sweep_skipped_not_a_file"),
                Field::Unsigned(self.skipped_not_a_file as u64),
            ),
        );
        r.push(
            (
                String::from_str("link_sweep_skipped_non_markdown"),
                Field::Unsigned(self.skipped_non_markdown as u64),
            ),
        );
        assert(json::fields_view(r@) =~= sweep_fields(*self));
        r
    }
}

/// The targets of links.
pub open spec fn link_targets(ls: Seq<LinkView>) -> Seq<Seq<char>> {
    Seq::new(ls.len(), |i: int| ls[i].target)
}

/// The targets that lead nowhere in the file at index `i`; none where it is passed
/// over.
pub open spec fn lost_in(
    files: Seq<SweptFile>,
    agent_root: Seq<char>,
    existing: Set<Seq<char>>,
    i: int,
) -> Seq<Seq<char>> {
    if visit(files, agent_root, i) == Visit::Examined {
        link_targets(unresolved_in(files[i].content.unwrap()@, existing))
    } else {
        Seq::empty()
    }
}

/// How many links lead nowhere in the first `n` files.
pub open spec fn lost_count(
    files: Seq<SweptFile>,
    agent_root: Seq<char>,
    existing: Set<Seq<char>>,
    n: nat,
) -> nat
    decreases n,
{
    if n == 0 {
        0
    } else {
        lost_count(files, agent_root, existing, (n - 1) as nat) + lost_in(
            files,
            agent_root,
            existing,
            n - 1,
        ).len()
    }
}

/// The lines for the first `n` files.
pub open spec fn lost_examples(
    files: Seq<SweptFile>,
    agent_root: Seq<char>,
    existing: Set<Seq<char>>,
    n: nat,
) -> Seq<Seq<char>>
    decreases n,
{
    if n == 0 {
        Seq::empty()
    } else {
        lost_examples(files, agent_root, existing, (n - 1) as nat) + examples(
            files[n - 1].path@,
            lost_in(files, agent_root, existing, n - 1),
        )
    }
}

/// Whether `s` is what a sweep over the first `n` files finds.
pub open spec fn is_sweep(
    s: SweepStats,
    files: Seq<SweptFile>,
    agent_root: Seq<char>,
    existing: Set<Seq<char>>,
    n: nat,
) -> bool {
    &&& s.files_input == n
    &&& s.files_modified == 0
    &&& s.files_examined == visits(files, agent_root, Visit::Examined, n)
    &&& s.skipped_outside_root == visits(files, agent_root, Visit::OutsideRoot, n)
    &&& s.skipped_not_a_file == visits(files, agent_root, Visit::NotAFile, n)
    &&& s.skipped_non_markdown == visits(files, agent_root, Visit::NotMarkdown, n)
    &&& s.links_replaced == lost_count(files, agent_root, existing, n)
    &&& text::views(s.examples@) == lost_examples(files, agent_root, existing, n)
}

fn targets_of(ls: &Vec<UnresolvedLink>) -> (r: Vec<String>)
    ensures
        text::views(r@) == link_targets(link_views(ls@)),
{
    let mut r: Vec<String> = Vec::new();
    let mut i: usize = 0;
    while i < ls.len()
        invariant
            i <= ls@.len(),
            r@.len() == i,
            forall|j: int| 0 <= j < i ==> (#[trigger] r@[j])@ == ls@[j].target@,
        decreases ls@.len() - i,
    {
        r.push(ls[i].target.clone());
        i = i + 1;
    }
    assert(text::views(r@) =~= link_targets(link_views(ls@)));
    r
}

proof fn lemma_lost_grows(
    files: Seq<SweptFile>,
    agent_root: Seq<char>,
    existing: Set<Seq<char>>,
    i: nat,
    n: nat,
)
    requires
        i <= n,
    ensures
        lost_count(files, agent_root, existing, i) <= lost_count(files, agent_root, existing, n),
    decreases n,
{
    if i < n {
        lemma_lost_grows(files, agent_root, existing, i, (n - 1) as nat);
    }
}

proof fn lemma_visits_bounded(files: Seq<SweptFile>, agent_root: Seq<char>, v: Visit, n: nat)
    ensures
        visits(files, agent_root, v, n) <= n,
    decreases n,
{
    if n > 0 {
        lemma_visits_bounded(files, agent_root, v, (n - 1) as nat);
    }
}

/// Counts the links that lead nowhere in the files that were handed over. No file is
/// changed.
pub fn sweep_files(files: &Vec<SweptFile>, agent_root: &str, existing: &NoteIndex) -> (r: SweepStats)
    requires
        lost_count(files@, agent_root@, existing@, files@.len()) <= usize::MAX,
    ensures
        is_sweep(r, files@, agent_root@, existing@, files@.len()),
{
    let mut stats = SweepStats::default();
    let mut seen: PathMap<()> = PathMap::new();
    let mut i: usize = 0;
    assert(text::views(stats.examples@) =~= Seq::<Seq<char>>::empty());
    while i < files.len()
        invariant
            i <= files@.len(),
            lost_count(files@, agent_root@, existing@, files@.len()) <= usize::MAX,
            has_seen(seen@, files@, i as int),
            is_sweep(stats, files@, agent_root@, existing@, i as nat),
        decreases files@.len() - i,
    {
        let ghost next = (i + 1) as nat;
        proof {
            lemma_visits_bounded(files@, agent_root@, Visit::Examined, i as nat);
            lemma_visits_bounded(files@, agent_root@, Visit::OutsideRoot, i as nat);
            lemma_visits_bounded(files@, agent_root@, Visit::NotAFile, i as nat);
            lemma_visits_bounded(files@, agent_root@, Visit::NotMarkdown, i as nat);
            lemma_lost_grows(files@, agent_root@, existing@, next, files@.len());
        }
        let ghost here = lost_in(files@, agent_root@, existing@, i as int);
        let ghost sofar = text::views(stats.examples@);
        stats.files_input = stats.files_input + 1;
        let v = visit_next(&mut seen, files, agent_root, i);
        match v {
            Visit::NotAFile => {
                stats.skipped_not_a_file = stats.skipped_not_a_file + 1;
            },
            Visit::OutsideRoot => {
                stats.skipped_outside_root = stats.skipped_outside_root + 1;
            },
            Visit::NotMarkdown => {
                stats.skipped_non_markdown = stats.skipped_non_markdown + 1;
            },
            Visit::Examined => {
                if let Some(content) = &files[i].content {
                    stats.files_examined = stats.files_examined + 1;
                    let lost = unresolved_links_in_text(content.as_str(), existing);
                    let ts = targets_of(&lost);
                    assert(text::views(ts@) == here);
                    assert(lost@.len() == here.len());
                    stats.links_replaced = stats.links_replaced + lost.len();
                    add_examples(&mut stats.examples, files[i].path.as_str(), &ts);
                }
            },
            Visit::Again => {},
            Visit::Unreadable => {},
        }
        proof {
            if v != Visit::Examined {
                assert(here.len() == 0);
                assert(examples(files@[i as int].path@, here) =~= Seq::<Seq<char>>::empty());
                assert(sofar + examples(files@[i as int].path@, here) =~= sofar);
            }
        }
        i = i + 1;
    }
    stats
}

// ---------------------------------------------------------------- relinking files

/// What restoring links in files did.
#[derive(Debug, Clone)]
pub struct RelinkStats {
    /// Files handed over.
    pub files_input: usize,
    /// Files looked into.
    pub files_examined: usize,
    /// Files that were written.
    pub files_modified: usize,
    /// Links restored.
    pub links_restored: usize,
    /// Up to five lines for each file.
    pub examples: Vec<String>,
}

impl Default for RelinkStats {
    fn default() -> (r: RelinkStats)
        ensures
            r.files_input == 0,
            r.files_examined == 0,
            r.files_modified == 0,
            r.links_restored == 0,
            r.examples@.len() == 0,
    {
        RelinkStats {
            files_input: 0,
            files_examined: 0,
            files_modified: 0,
            links_restored: 0,
            examples: Vec::new(),
        }
    }
}

impl RelinkStats {
    /// Counts a file that was written.
    pub fn wrote(&mut self)
        requires
            old(self).files_modified < usize::MAX,
        ensures
            *final(self) == (RelinkStats {
                files_modified: (old(self).files_modified + 1) as usize,
                ..*old(self)
            }),
    {
        self.files_modified = self.files_modified + 1;
    }
}

/// The targets to restore in the file at index `i`; none where it is passed over.
pub open spec fn restored_in(files: Seq<SweptFile>, agent_root: Seq<char>, i: int) -> Seq<
    Seq<char>,
> {
    if visit(files, agent_root, i) == Visit::Examined {
        targets_in(files[i].content.unwrap()@)
    } else {
        Seq::empty()
    }
}

/// How many links are restored in the first `n` files.
pub open spec fn restored_count(files: Seq<SweptFile>, agent_root: Seq<char>, n: nat) -> nat
    decreases n,
{
    if n == 0 {
        0
    } else {
        restored_count(files, agent_root, (n - 1) as nat) + restored_in(
            files,
            agent_root,
            n - 1,
        ).len()
    }
}

/// The lines for the first `n` files.
pub open spec fn restored_examples(files: Seq<SweptFile>, agent_root: Seq<char>, n: nat) -> Seq<
    Seq<char>,
>
    decreases n,
{
    if n == 0 {
        Seq::empty()
    } else {
        restored_examples(files, agent_root, (n - 1) as nat) + examples(
            files[n - 1].path@,
            restored_in(files, agent_root, n - 1),
        )
    }
}

/// The files among the first `n` that are to be written, with their new content:
/// those with a link to restore.
pub open spec fn rewrites(files: Seq<SweptFile>, agent_root: Seq<char>, n: nat) -> Seq<
    (Seq<char>, Seq<char>),
>
    decreases n,
{
    if n == 0 {
        Seq::empty()
    } else {
        let before = rewrites(files, agent_root, (n - 1) as nat);
        if restored_in(files, agent_root, n - 1).len() > 0 {
            before.push(
                (files[n - 1].path@, relinked_text(files[n - 1].content.unwrap()@)),
            )
        } else {
            before
        }
    }
}

/// The views of paths with their contents.
pub open spec fn rewrite_views(v: Seq<(String, String)>) -> Seq<(Seq<char>, Seq<char>)> {
    Seq::new(v.len(), |i: int| (v[i].0@, v[i].1@))
}

/// Whether `s` is what restoring links in the first `n` files finds, before any file
/// is written.
pub open spec fn is_relink(
    s: RelinkStats,
    files: Seq<SweptFile>,
    agent_root: Seq<char>,
    n: nat,
) -> bool {
    &&& s.files_input == n
    &&& s.files_modified == 0
    &&& s.files_examined == visits(files, agent_root, Visit::Examined, n)
    &&& s.links_restored == restored_count(files, agent_root, n)
    &&& text::views(s.examples@) == restored_examples(files, agent_root, n)
}

proof fn lemma_restored_grows(files: Seq<SweptFile>, agent_root: Seq<char>, i: nat, n: nat)
    requires
        i <= n,
    ensures
        restored_count(files, agent_root, i) <= restored_count(files, agent_root, n),
    decreases n,
{
    if i < n {
        lemma_restored_grows(files, agent_root, i, (n - 1) as nat);
    }
}

/// Restores the lost links in the files that were handed over. Returns the count
/// and the files to write; a dry run writes none.
pub fn relink_files(files: &Vec<SweptFile>, agent_root: &str, dry_run: bool) -> (r: (
    RelinkStats,
    Vec<(String, String)>,
))
    requires
        restored_count(files@, agent_root@, files@.len()) <= usize::MAX,
    ensures
        is_relink(r.0, files@, agent_root@, files@.len()),
        dry_run ==> r.1@.len() == 0,
        !dry_run ==> rewrite_views(r.1@) == rewrites(files@, agent_root@, files@.len()),
{
    let mut stats = RelinkStats::default();
    let mut out: Vec<(String, String)> = Vec::new();
    let mut seen: PathMap<()> = PathMap::new();
    let mut i: usize = 0;
    assert(text::views(stats.examples@) =~= Seq::<Seq<char>>::empty());
    assert(rewrite_views(out@) =~= Seq::<(Seq<char>, Seq<char>)>::empty());
    while i < files.len()
        invariant
            i <= files@.len(),
            restored_count(files@, agent_root@, files@.len()) <= usize::MAX,
            has_seen(seen@, files@, i as int),
            is_relink(stats, files@, agent_root@, i as nat),
            dry_run ==> out@.len() == 0,
            !dry_run ==> rewrite_views(out@) == rewrites(files@, agent_root@, i as nat),
        decreases files@.len() - i,
    {
        let ghost next = (i + 1) as nat;
        proof {
            lemma_visits_bounded(files@, agent_root@, Visit::Examined, i as nat);
            lemma_restored_grows(files@, agent_root@, next, files@.len());
        }
        let ghost here = restored_in(files@, agent_root@, i as int);
        let ghost sofar = text::views(stats.examples@);
        stats.files_input = stats.files_input + 1;
        let v = visit_next(&mut seen, files, agent_root, i);
        if v == Visit::Examined {
            if let Some(content) = &files[i].content {
                stats.files_examined = stats.files_examined + 1;
                let (new_content, restored) = relink_text(content.as_str());
                assert(text::views(restored@) == here);
                assert(restored@.len() == here.len());
                stats.links_restored = stats.links_restored + restored.len();
                add_examples(&mut stats.examples, files[i].path.as_str(), &restored);
                if restored.len() > 0 && !dry_run {
                    let ghost before = rewrite_views(out@);
                    let pair = (files[i].path.clone(), new_content);
                    out.push(pair);
                    assert(rewrite_views(out@) =~= before.push((pair.0@, pair.1@)));
                }
            }
        }
        proof {
            if v != Visit::Examined {
                assert(here.len() == 0);
                assert(examples(files@[i as int].path@, here) =~= Seq::<Seq<char>>::empty());
                assert(sofar + examples(files@[i as int].path@, here) =~= sofar);
            }
        }
        i = i + 1;
    }
    (stats, out)
}

// ---------------------------------------------------------------- the plan's files

/// The place that an entry wrote, if it was applied and wrote one.
pub open spec fn touched(e: PlanEntry, vault_root: Seq<char>) -> Option<Seq<char>> {
    if e.applied && plan::writes_content(e.cmd@) {
        match plan::path_value(text::views(e.args@), 0) {
            Some(v) => Some(paths::join(vault_root, v)),
            None => None,
        }
    } else {
        None
    }
}

/// The places that the first `n` entries wrote, in order.
pub open spec fn all_touched(es: Seq<PlanEntry>, vault_root: Seq<char>, n: nat) -> Seq<Seq<char>>
    decreases n,
{
    if n == 0 {
        Seq::empty()
    } else {
        let before = all_touched(es, vault_root, (n - 1) as nat);
        match touched(es[n - 1], vault_root) {
            Some(p) => before.push(p),
            None => before,
        }
    }
}

/// The absolute paths that the entries of a plan wrote.
pub fn files_touched_by_plan(entries: &Vec<PlanEntry>, vault_root: &str) -> (r: Vec<String>)
    ensures
        text::views(r@) == all_touched(entries@, vault_root@, entries@.len()),
{
    let mut r: Vec<String> = Vec::new();
    let mut i: usize = 0;
    assert(text::views(r@) =~= Seq::<Seq<char>>::empty());
    while i < entries.len()
        invariant
            i <= entries@.len(),
            text::views(r@) == all_touched(entries@, vault_root@, i as nat),
        decreases entries@.len() - i,
    {
        let e = &entries[i];
        if e.applied && e.is_write() {
            if let Some(v) = e.path_arg() {
                let ghost before = text::views(r@);
                let place = join_path(vault_root, v);
                r.push(place);
                assert(text::views(r@) =~= before.push(place@));
            }
        }
        i = i + 1;
    }
    r
}

} // verus!
