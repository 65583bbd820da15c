//! Path arithmetic and the output-path invariant.
//!
//! A path is a text; what it denotes is its sequence of components. Every
//! output must lie inside the vault and outside the sources directory, which
//! [`validate_output`] decides. One that a processor reports must lie inside the
//! directory of the agent too: [`validate_processor_output`].

use vstd::prelude::*;
use vstd::string::*;

use crate::text;
use crate::text::{chars_of, same_text, string_between, text_before};

verus! {

// ---------------------------------------------------------------- components

/// Whether a path starts at the root.
pub open spec fn absolute(s: Seq<char>) -> bool {
    s.len() > 0 && s[0] == '/'
}

/// What stands between the slashes of `s`, empty pieces included.
pub open spec fn pieces(s: Seq<char>) -> Seq<Seq<char>>
    decreases s.len(),
{
    let i = text::index_of(s, '/') as int;
    if i < s.len() {
        seq![s.take(i)] + pieces(s.skip(i + 1))
    } else {
        seq![s]
    }
}

/// Whether a piece counts: it is neither empty nor `.`.
pub open spec fn counts(p: Seq<char>) -> bool {
    p.len() > 0 && p != seq!['.']
}

/// The pieces of a sequence that count.
pub open spec fn counted(ps: Seq<Seq<char>>) -> Seq<Seq<char>> {
    ps.filter(|p: Seq<char>| counts(p))
}

/// The component that a path starts with by its form: `/` for the root, `.` for a
/// relative path whose first piece is `.`.
pub open spec fn head(s: Seq<char>) -> Seq<Seq<char>> {
    if absolute(s) {
        seq![seq!['/']]
    } else if pieces(s)[0] == seq!['.'] {
        seq![seq!['.']]
    } else {
        Seq::empty()
    }
}

/// The components of a path: repeated slashes, a trailing slash and inner `.`
/// pieces leave no trace; `..` is kept.
pub open spec fn components(s: Seq<char>) -> Seq<Seq<char>> {
    head(s) + counted(pieces(s))
}

/// Whether two texts denote the same path.
pub open spec fn same_path(a: Seq<char>, b: Seq<char>) -> bool {
    components(a) == components(b)
}

/// Whether `base` is `path` itself or one of the directories above it.
pub open spec fn under(path: Seq<char>, base: Seq<char>) -> bool {
    components(base).is_prefix_of(components(path))
}

/// Whether `child` lies strictly inside `parent`.
pub open spec fn inside(child: Seq<char>, parent: Seq<char>) -> bool {
    components(child) != components(parent) && under(child, parent)
}

proof fn lemma_counted_push(ps: Seq<Seq<char>>, p: Seq<char>)
    ensures
        counted(ps.push(p)) == if counts(p) {
            counted(ps).push(p)
        } else {
            counted(ps)
        },
{
    reveal(Seq::filter);
    assert(ps.push(p).drop_last() =~= ps);
}

proof fn lemma_counted_add(a: Seq<Seq<char>>, b: Seq<Seq<char>>)
    ensures
        counted(a + b) == counted(a) + counted(b),
{
    Seq::filter_distributes_over_add(a, b, |p: Seq<char>| counts(p));
}

/// Whether `s` starts at the root.
pub fn is_absolute(s: &str) -> (b: bool)
    ensures
        b == absolute(s@),
{
    let v = chars_of(s);
    v.len() > 0 && v[0] == '/'
}

fn pieces_of(s: &str) -> (r: Vec<String>)
    ensures
        text::views(r@) == pieces(s@),
{
    let v = chars_of(s);
    let n: usize = v.len();
    let mut out: Vec<String> = Vec::new();
    let mut start: usize = 0;
    assert(s@.skip(0) =~= s@);
    assert(text::views(out@) + pieces(s@) =~= pieces(s@));
    loop
        invariant
            v@ == s@,
            n == s@.len(),
            start <= n,
            pieces(s@) == text::views(out@) + pieces(s@.skip(start as int)),
        decreases n - start,
    {
        let ghost rest = s@.skip(start as int);
        let ghost before = text::views(out@);
        let mut end: usize = start;
        while end < n && v[end] != '/'
            invariant
                v@ == s@,
                n == s@.len(),
                start <= end <= n,
                forall|j: int| start <= j < end ==> v@[j] != '/',
            decreases n - end,
        {
            end = end + 1;
        }
        proof {
            assert forall|j: int| 0 <= j < end - start implies rest[j] != '/' by {
                assert(rest[j] == v@[start + j]);
            }
            text::lemma_index_of_unique(rest, '/', end - start);
        }
        let piece = string_between(&v, start, end);
        out.push(piece);
        assert(text::views(out@) =~= before + seq![piece@]);
        if end == n {
            assert(piece@ =~= rest);
            return out;
        }
        proof {
            let i = end - start;
            assert(rest.take(i) =~= piece@);
            assert(rest.skip(i + 1) =~= s@.skip(end + 1));
            assert(before + (seq![piece@] + pieces(s@.skip(end + 1))) =~= text::views(out@) + pieces(
                s@.skip(end + 1),
            ));
        }
        start = end + 1;
    }
}

proof fn lemma_pieces_nonempty(s: Seq<char>)
    ensures
        pieces(s).len() > 0,
{
}

/// The components of a path.
pub fn components_of(s: &str) -> (r: Vec<String>)
    ensures
        text::views(r@) == components(s@),
{
    let ps = pieces_of(s);
    let mut out: Vec<String> = Vec::new();
    proof {
        lemma_pieces_nonempty(s@);
        assert(text::views(ps@)[0] == ps@[0]@);
        reveal_strlit("/");
        reveal_strlit(".");
        assert("/"@ =~= seq!['/']);
        assert("."@ =~= seq!['.']);
    }
    assert(ps@.len() == text::views(ps@).len());
    if is_absolute(s) {
        out.push(String::from_str("/"));
    } else if same_text(ps[0].as_str(), ".") {
        out.push(String::from_str("."));
    }
    assert(text::views(out@) =~= head(s@));
    let mut i: usize = 0;
    assert(text::views(ps@).take(0) =~= Seq::<Seq<char>>::empty());
    assert(counted(Seq::<Seq<char>>::empty()) =~= Seq::<Seq<char>>::empty()) by {
        reveal(Seq::filter);
    }
    assert(text::views(out@) =~= head(s@) + counted(text::views(ps@).take(0)));
    while i < ps.len()
        invariant
            "."@ == seq!['.'],
            i <= ps@.len(),
            text::views(ps@) == pieces(s@),
            text::views(out@) == head(s@) + counted(text::views(ps@).take(i as int)),
        decreases ps@.len() - i,
    {
        let p = ps[i].clone();
        let ghost before = text::views(out@);
        proof {
            assert(text::views(ps@).take(i + 1) =~= text::views(ps@).take(i as int).push(p@));
            lemma_counted_push(text::views(ps@).take(i as int), p@);
        }
        if !p.as_str().is_empty() && !same_text(p.as_str(), ".") {
            out.push(p);
            assert(text::views(out@) =~= before.push(p@));
            assert(head(s@) + counted(text::views(ps@).take(i as int)).push(p@) =~= before.push(p@));
        }
        i = i + 1;
    }
    assert(text::views(ps@).take(i as int) =~= text::views(ps@));
    out
}

// ---------------------------------------------------------------- comparing

/// Whether two lists hold the same texts in the same order.
fn same_list(a: &Vec<String>, b: &Vec<String>) -> (r: bool)
    ensures
        r == (text::views(a@) == text::views(b@)),
{
    assert(text::views(a@).len() == a@.len());
    assert(text::views(b@).len() == b@.len());
    a.len() == b.len() && list_starts_with(a, b)
}

/// Whether `a` begins with all of `b`.
fn list_starts_with(a: &Vec<String>, b: &Vec<String>) -> (r: bool)
    ensures
        r == text::views(b@).is_prefix_of(text::views(a@)),
        a@.len() == b@.len() ==> r == (text::views(a@) == text::views(b@)),
{
    if b.len() > a.len() {
        return false;
    }
    let mut i: usize = 0;
    while i < b.len()
        invariant
            i <= b@.len() <= a@.len(),
            forall|j: int| 0 <= j < i ==> a@[j]@ == b@[j]@,
        decreases b@.len() - i,
    {
        if !same_text(a[i].as_str(), b[i].as_str()) {
            proof {
                let va = text::views(a@);
                let vb = text::views(b@);
                assert(va[i as int] != vb[i as int]);
                if vb.is_prefix_of(va) {
                    assert(va.subrange(0, vb.len() as int)[i as int] == va[i as int]);
                }
            }
            return false;
        }
        i = i + 1;
    }
    proof {
        let va = text::views(a@);
        let vb = text::views(b@);
        assert(vb =~= va.subrange(0, vb.len() as int));
        if a@.len() == b@.len() {
            assert(va =~= vb);
        }
    }
    true
}

/// Whether two texts denote the same path.
pub fn equal_paths(a: &str, b: &str) -> (r: bool)
    ensures
        r == same_path(a@, b@),
{
    let x = components_of(a);
    let y = components_of(b);
    same_list(&x, &y)
}

/// Whether `base` is `path` or one of the directories above it; compared
/// component by component, so `/a/bc` is not under `/a/b`.
pub fn is_under(path: &str, base: &str) -> (r: bool)
    ensures
        r == under(path@, base@),
{
    let x = components_of(path);
    let y = components_of(base);
    list_starts_with(&x, &y)
}

/// Whether `child` lies strictly inside `parent`. A path is not inside itself.
pub fn is_inside(child: &str, parent: &str) -> (r: bool)
    ensures
        r == inside(child@, parent@),
{
    !equal_paths(child, parent) && is_under(child, parent)
}

/// Where a component stands in the order of paths: the root first, then `.`, then
/// `..`, then names.
pub open spec fn component_rank(c: Seq<char>) -> int {
    if c == seq!['/'] {
        0
    } else if c == seq!['.'] {
        1
    } else if c == seq!['.', '.'] {
        2
    } else {
        3
    }
}

/// The order of components: by rank, names among themselves by their text.
pub open spec fn component_lt(a: Seq<char>, b: Seq<char>) -> bool {
    if component_rank(a) != component_rank(b) {
        component_rank(a) < component_rank(b)
    } else {
        component_rank(a) == 3 && text::text_lt(a, b)
    }
}

/// Dictionary order of component sequences.
pub open spec fn components_lt(a: Seq<Seq<char>>, b: Seq<Seq<char>>) -> bool
    decreases a.len(),
{
    if b.len() == 0 {
        false
    } else if a.len() == 0 {
        true
    } else if a[0] != b[0] {
        component_lt(a[0], b[0])
    } else {
        components_lt(a.skip(1), b.skip(1))
    }
}

/// The order of paths.
pub open spec fn path_lt(a: Seq<char>, b: Seq<char>) -> bool {
    components_lt(components(a), components(b))
}

fn rank_of(c: &str) -> (r: u8)
    ensures
        r == component_rank(c@),
{
    proof {
        reveal_strlit("/");
        reveal_strlit(".");
        reveal_strlit("..");
        assert("/"@ =~= seq!['/']);
        assert("."@ =~= seq!['.']);
        assert(".."@ =~= seq!['.', '.']);
    }
    if same_text(c, "/") {
        0
    } else if same_text(c, ".") {
        1
    } else if same_text(c, "..") {
        2
    } else {
        3
    }
}

fn component_before(a: &str, b: &str) -> (r: bool)
    ensures
        r == component_lt(a@, b@),
{
    let x: u8 = rank_of(a);
    let y: u8 = rank_of(b);
    if x != y {
        x < y
    } else {
        x == 3 && text_before(a, b)
    }
}

/// Whether path `a` comes strictly before path `b`.
pub fn path_before(a: &str, b: &str) -> (r: bool)
    ensures
        r == path_lt(a@, b@),
{
    let x = components_of(a);
    let y = components_of(b);
    let ghost va = text::views(x@);
    let ghost vb = text::views(y@);
    let mut i: usize = 0;
    assert(va.skip(0) =~= va);
    assert(vb.skip(0) =~= vb);
    while i < x.len() && i < y.len() && same_text(x[i].as_str(), y[i].as_str())
        invariant
            va == text::views(x@),
            vb == text::views(y@),
            i <= x@.len(),
            i <= y@.len(),
            components_lt(va, vb) == components_lt(va.skip(i as int), vb.skip(i as int)),
        decreases x@.len() - i,
    {
        assert(va.skip(i as int)[0] == vb.skip(i as int)[0]);
        assert(va.skip(i as int).skip(1) =~= va.skip(i + 1));
        assert(vb.skip(i as int).skip(1) =~= vb.skip(i + 1));
        i = i + 1;
    }
    if i == y.len() {
        false
    } else if i == x.len() {
        true
    } else {
        assert(va.skip(i as int)[0] == x@[i as int]@);
        assert(vb.skip(i as int)[0] == y@[i as int]@);
        component_before(x[i].as_str(), y[i].as_str())
    }
}

pub proof fn lemma_components_lt_irreflexive(a: Seq<Seq<char>>)
    ensures
        !components_lt(a, a),
    decreases a.len(),
{
    if a.len() > 0 {
        lemma_components_lt_irreflexive(a.skip(1));
    }
}

pub proof fn lemma_components_lt_transitive(
    a: Seq<Seq<char>>,
    b: Seq<Seq<char>>,
    c: Seq<Seq<char>>,
)
    requires
        components_lt(a, b),
        components_lt(b, c),
    ensures
        components_lt(a, c),
    decreases a.len(),
{
    if a.len() > 0 {
        if a[0] == b[0] && b[0] == c[0] {
            lemma_components_lt_transitive(a.skip(1), b.skip(1), c.skip(1));
        } else if a[0] != b[0] && b[0] != c[0] {
            if component_rank(a[0]) == 3 && component_rank(b[0]) == 3 && component_rank(c[0]) == 3 {
                text::lemma_text_lt_transitive(a[0], b[0], c[0]);
                text::lemma_text_lt_irreflexive(a[0]);
            }
        }
    }
}

pub proof fn lemma_components_lt_total(a: Seq<Seq<char>>, b: Seq<Seq<char>>)
    ensures
        a == b || components_lt(a, b) || components_lt(b, a),
    decreases a.len(),
{
    if a.len() == 0 {
        if b.len() == 0 {
            assert(a =~= b);
        }
    } else if b.len() > 0 {
        if a[0] == b[0] {
            lemma_components_lt_total(a.skip(1), b.skip(1));
            if a.skip(1) == b.skip(1) {
                assert(a =~= seq![a[0]] + a.skip(1));
                assert(b =~= seq![b[0]] + b.skip(1));
            }
        } else {
            text::lemma_text_lt_total(a[0], b[0]);
        }
    }
}

// ---------------------------------------------------------------- joining

/// `rel` seen from `base`: an absolute `rel` stands for itself, any other is put
/// behind `base` and a slash.
pub open spec fn join(base: Seq<char>, rel: Seq<char>) -> Seq<char> {
    if absolute(rel) {
        rel
    } else if base.len() == 0 || base.last() == '/' {
        base + rel
    } else {
        base + seq!['/'] + rel
    }
}

/// `rel` seen from `base`.
pub fn join_path(base: &str, rel: &str) -> (r: String)
    ensures
        r@ == join(base@, rel@),
{
    if is_absolute(rel) {
        return String::from_str(rel);
    }
    let n: usize = base.unicode_len();
    let mut r = String::from_str(base);
    if n == 0 || base.get_char(n - 1) == '/' {
        r.append(rel);
    } else {
        r.append("/");
        r.append(rel);
        proof {
            reveal_strlit("/");
            assert("/"@ =~= seq!['/']);
        }
    }
    r
}

proof fn lemma_pieces_join(a: Seq<char>, b: Seq<char>)
    ensures
        pieces(a + seq!['/'] + b) == pieces(a) + pieces(b),
    decreases a.len(),
{
    let whole = a + seq!['/'] + b;
    text::lemma_index_of(a, '/');
    let i = text::index_of(a, '/') as int;
    assert forall|j: int| 0 <= j < i implies whole[j] != '/' by {
        assert(whole[j] == a[j]);
    }
    if i < a.len() {
        assert(whole[i] == a[i]);
        text::lemma_index_of_unique(whole, '/', i);
        assert(whole.take(i) =~= a.take(i));
        assert(whole.skip(i + 1) =~= a.skip(i + 1) + seq!['/'] + b);
        lemma_pieces_join(a.skip(i + 1), b);
        assert(seq![a.take(i)] + (pieces(a.skip(i + 1)) + pieces(b)) =~= (seq![a.take(i)] + pieces(
            a.skip(i + 1),
        )) + pieces(b));
    } else {
        text::lemma_index_of_unique(whole, '/', i);
        assert(whole.take(i) =~= a);
        assert(whole.skip(i + 1) =~= b);
    }
}

/// Joining appends the components of the relative path, but for a leading `.`.
pub proof fn lemma_join_components(base: Seq<char>, rel: Seq<char>)
    requires
        base.len() > 0,
        !absolute(rel),
    ensures
        components(join(base, rel)) == components(base) + counted(pieces(rel)),
{
    let whole = join(base, rel);
    if base.last() == '/' {
        let a = base.drop_last();
        assert(base =~= a + seq!['/'] + Seq::<char>::empty());
        assert(whole =~= a + seq!['/'] + rel);
        lemma_pieces_join(a, Seq::empty());
        lemma_pieces_join(a, rel);
        lemma_counted_add(pieces(a), pieces(Seq::<char>::empty()));
        lemma_counted_add(pieces(a), pieces(rel));
        assert(pieces(Seq::<char>::empty()) =~= seq![Seq::<char>::empty()]);
        lemma_counted_push(Seq::<Seq<char>>::empty(), Seq::<char>::empty());
        assert(Seq::<Seq<char>>::empty().push(Seq::<char>::empty()) =~= seq![Seq::<char>::empty()]);
        assert(counted(Seq::<Seq<char>>::empty()) =~= Seq::<Seq<char>>::empty()) by {
            reveal(Seq::filter);
        }
        lemma_pieces_nonempty(a);
        assert(pieces(whole)[0] == pieces(a)[0]);
        assert(pieces(base)[0] == pieces(a)[0]);
        assert(whole[0] == base[0]);
        assert(components(whole) =~= components(base) + counted(pieces(rel)));
    } else {
        lemma_pieces_join(base, rel);
        lemma_counted_add(pieces(base), pieces(rel));
        lemma_pieces_nonempty(base);
        assert(pieces(whole)[0] == pieces(base)[0]);
        assert(whole[0] == base[0]);
        assert(components(whole) =~= components(base) + counted(pieces(rel)));
    }
}

/// What a path becomes when it is written from its components.
pub open spec fn render(cs: Seq<Seq<char>>) -> Seq<char>
    decreases cs.len(),
{
    if cs.len() == 0 {
        Seq::empty()
    } else {
        join(render(cs.drop_last()), cs.last())
    }
}

/// A component that names something: it counts and holds no slash.
pub open spec fn is_name(c: Seq<char>) -> bool {
    counts(c) && !c.contains('/')
}

/// A component sequence that only the first place may root, without `.`.
pub open spec fn plain(cs: Seq<Seq<char>>) -> bool {
    forall|i: int|
        #![trigger cs[i]]
        0 <= i < cs.len() ==> is_name(cs[i]) || (i == 0 && cs[i] == seq!['/'])
}

proof fn lemma_name_pieces(c: Seq<char>)
    requires
        is_name(c),
    ensures
        pieces(c) == seq![c],
        counted(pieces(c)) == seq![c],
        components(c) == seq![c],
        !absolute(c),
{
    text::lemma_index_of(c, '/');
    if text::index_of(c, '/') < c.len() {
        assert(c.contains('/'));
    }
    assert(pieces(c) =~= seq![c]);
    lemma_counted_push(Seq::<Seq<char>>::empty(), c);
    assert(Seq::<Seq<char>>::empty().push(c) =~= seq![c]);
    assert(counted(Seq::<Seq<char>>::empty()) =~= Seq::<Seq<char>>::empty()) by {
        reveal(Seq::filter);
    }
    assert(components(c) =~= seq![c]);
}

proof fn lemma_empty_path()
    ensures
        components(Seq::<char>::empty()) == Seq::<Seq<char>>::empty(),
{
    let e = Seq::<char>::empty();
    assert(pieces(e) =~= seq![e]);
    lemma_counted_push(Seq::<Seq<char>>::empty(), e);
    assert(Seq::<Seq<char>>::empty().push(e) =~= seq![e]);
    assert(counted(Seq::<Seq<char>>::empty()) =~= Seq::<Seq<char>>::empty()) by {
        reveal(Seq::filter);
    }
    assert(components(e) =~= Seq::<Seq<char>>::empty());
}

pub(crate) proof fn lemma_join_name(base: Seq<char>, name: Seq<char>)
    requires
        is_name(name),
    ensures
        components(join(base, name)) == components(base).push(name),
        join(base, name).len() > 0,
{
    lemma_name_pieces(name);
    if base.len() == 0 {
        lemma_empty_path();
        assert(base =~= Seq::<char>::empty());
        assert(base + name =~= name);
        assert(Seq::<Seq<char>>::empty().push(name) =~= seq![name]);
    } else {
        lemma_join_components(base, name);
        assert(components(base) + seq![name] =~= components(base).push(name));
    }
}

/// Writing plain components and reading them again gives them back.
pub proof fn lemma_render_components(cs: Seq<Seq<char>>)
    requires
        plain(cs),
    ensures
        components(render(cs)) == cs,
        cs.len() > 0 ==> render(cs).len() > 0,
    decreases cs.len(),
{
    if cs.len() == 0 {
        lemma_empty_path();
        assert(cs =~= Seq::<Seq<char>>::empty());
    } else {
        let front = cs.drop_last();
        let last = cs.last();
        assert(plain(front)) by {
            assert forall|i: int| #![trigger front[i]] 0 <= i < front.len() implies is_name(
                front[i],
            ) || (i == 0 && front[i] == seq!['/']) by {
                assert(front[i] == cs[i]);
            }
        }
        lemma_render_components(front);
        assert(last == cs[cs.len() - 1]);
        if is_name(last) {
            lemma_join_name(render(front), last);
            assert(cs =~= front.push(last));
        } else {
            lemma_root();
            assert(render(cs) == last);
            assert(cs =~= seq![seq!['/']]);
        }
    }
}

proof fn lemma_root()
    ensures
        components(seq!['/']) == seq![seq!['/']],
{
    let r = seq!['/'];
    let e = Seq::<char>::empty();
    assert(r =~= e + seq!['/'] + e);
    lemma_pieces_join(e, e);
    assert(pieces(e) =~= seq![e]);
    lemma_counted_push(Seq::<Seq<char>>::empty(), e);
    lemma_counted_push(seq![e], e);
    assert(Seq::<Seq<char>>::empty().push(e) =~= seq![e]);
    assert(seq![e] + seq![e] =~= seq![e].push(e));
    assert(counted(Seq::<Seq<char>>::empty()) =~= Seq::<Seq<char>>::empty()) by {
        reveal(Seq::filter);
    }
    assert(components(r) =~= seq![seq!['/']]);
}

pub(crate) proof fn lemma_plain_starts()
    ensures
        components(seq!['/']) == seq![seq!['/']],
        components(Seq::<char>::empty()) == Seq::<Seq<char>>::empty(),
{
    lemma_root();
    lemma_empty_path();
}

/// The path that `cs` are the components of.
fn render_of(cs: &Vec<String>) -> (r: String)
    ensures
        r@ == render(text::views(cs@)),
{
    let mut r: String = String::new();
    let mut i: usize = 0;
    assert(text::views(cs@).take(0) =~= Seq::<Seq<char>>::empty());
    while i < cs.len()
        invariant
            i <= cs@.len(),
            r@ == render(text::views(cs@).take(i as int)),
        decreases cs@.len() - i,
    {
        proof {
            let now = text::views(cs@).take(i + 1);
            assert(now.drop_last() =~= text::views(cs@).take(i as int));
            assert(now.last() == cs@[i as int]@);
        }
        r = join_path(r.as_str(), cs[i].as_str());
        i = i + 1;
    }
    assert(text::views(cs@).take(i as int) =~= text::views(cs@));
    r
}

// ---------------------------------------------------------------- normalising

/// The components that remain when `.` is dropped and each `..` takes the
/// component before it away; at the root or at nothing, `..` does nothing.
pub open spec fn resolved(cs: Seq<Seq<char>>) -> Seq<Seq<char>>
    decreases cs.len(),
{
    if cs.len() == 0 {
        Seq::empty()
    } else {
        let before = resolved(cs.drop_last());
        let last = cs.last();
        if last == seq!['.', '.'] {
            if before.len() > 0 && before.last() != seq!['/'] {
                before.drop_last()
            } else {
                before
            }
        } else if last == seq!['.'] {
            before
        } else {
            before.push(last)
        }
    }
}

/// The path that `s` denotes with `.` and `..` worked out by the text alone.
pub open spec fn normal(s: Seq<char>) -> Seq<char> {
    render(resolved(components(s)))
}

/// The form of every component of a path.
proof fn lemma_components_shape(s: Seq<char>, i: int)
    requires
        0 <= i < components(s).len(),
    ensures
        is_name(components(s)[i]) || (i == 0 && (components(s)[0] == seq!['/'] || components(s)[0]
            == seq!['.'])),
{
    lemma_pieces_nonempty(s);
    let h = head(s);
    if i >= h.len() {
        let c = components(s)[i];
        assert(c == counted(pieces(s))[i - h.len()]);
        pieces(s).lemma_filter_pred(|p: Seq<char>| counts(p), i - h.len());
        assert(counted(pieces(s)).contains(c));
        pieces(s).lemma_filter_contains_rev(|p: Seq<char>| counts(p), c);
        lemma_pieces_no_slash(s, c);
    }
}

proof fn lemma_pieces_no_slash(s: Seq<char>, p: Seq<char>)
    requires
        pieces(s).contains(p),
    ensures
        !p.contains('/'),
    decreases s.len(),
{
    text::lemma_index_of(s, '/');
    let i = text::index_of(s, '/') as int;
    if i < s.len() {
        let k = choose|k: int| 0 <= k < pieces(s).len() && pieces(s)[k] == p;
        if k == 0 {
            assert(p == s.take(i));
            assert(forall|j: int| 0 <= j < p.len() ==> p[j] == s[j]);
        } else {
            assert(pieces(s.skip(i + 1))[k - 1] == p);
            lemma_pieces_no_slash(s.skip(i + 1), p);
        }
    } else {
        assert(p == pieces(s)[0]);
    }
}

/// Resolving leaves plain components without `..`.
pub proof fn lemma_resolved_plain(cs: Seq<Seq<char>>)
    requires
        forall|i: int|
            #![trigger cs[i]]
            0 <= i < cs.len() ==> is_name(cs[i]) || (i == 0 && (cs[i] == seq!['/'] || cs[i]
                == seq!['.'])),
    ensures
        plain(resolved(cs)),
        forall|i: int|
            #![trigger resolved(cs)[i]]
            0 <= i < resolved(cs).len() ==> resolved(cs)[i] != seq!['.', '.'],
        resolved(cs).len() <= cs.len(),
    decreases cs.len(),
{
    if cs.len() > 0 {
        let front = cs.drop_last();
        assert forall|i: int| #![trigger front[i]] 0 <= i < front.len() implies is_name(front[i])
            || (i == 0 && (front[i] == seq!['/'] || front[i] == seq!['.'])) by {
            assert(front[i] == cs[i]);
        }
        lemma_resolved_plain(front);
        assert(cs.last() == cs[cs.len() - 1]);
        let before = resolved(front);
        let now = resolved(cs);
        assert forall|i: int| #![trigger now[i]] 0 <= i < now.len() implies (is_name(now[i]) || (i
            == 0 && now[i] == seq!['/'])) && now[i] != seq!['.', '.'] by {
            if i < before.len() {
                assert(now[i] == before[i]);
            } else {
                assert(now[i] == cs.last());
            }
        }
    }
}

/// What the components of a normalised path are.
pub proof fn lemma_normal_components(s: Seq<char>)
    ensures
        components(normal(s)) == resolved(components(s)),
        plain(resolved(components(s))),
{
    let cs = components(s);
    assert forall|i: int| #![trigger cs[i]] 0 <= i < cs.len() implies is_name(cs[i]) || (i == 0
        && (cs[i] == seq!['/'] || cs[i] == seq!['.'])) by {
        lemma_components_shape(s, i);
    }
    lemma_resolved_plain(cs);
    lemma_render_components(resolved(cs));
}

/// The path that `p` denotes with `.` and `..` worked out by the text alone.
pub fn normalise_lexical(p: &str) -> (r: String)
    ensures
        r@ == normal(p@),
{
    let cs = components_of(p);
    let mut out: Vec<String> = Vec::new();
    let mut i: usize = 0;
    proof {
        reveal_strlit("/");
        reveal_strlit(".");
        reveal_strlit("..");
        assert("/"@ =~= seq!['/']);
        assert("."@ =~= seq!['.']);
        assert(".."@ =~= seq!['.', '.']);
    }
    assert(text::views(cs@).take(0) =~= Seq::<Seq<char>>::empty());
    assert(text::views(out@) =~= Seq::<Seq<char>>::empty());
    while i < cs.len()
        invariant
            "/"@ == seq!['/'],
            "."@ == seq!['.'],
            ".."@ == seq!['.', '.'],
            i <= cs@.len(),
            text::views(out@) == resolved(text::views(cs@).take(i as int)),
        decreases cs@.len() - i,
    {
        let ghost before = text::views(out@);
        proof {
            let now = text::views(cs@).take(i + 1);
            assert(now.drop_last() =~= text::views(cs@).take(i as int));
            assert(now.last() == cs@[i as int]@);
        }
        let c = cs[i].clone();
        if same_text(c.as_str(), "..") {
            if out.len() > 0 && !same_text(out[out.len() - 1].as_str(), "/") {
                assert(before.last() == out@[out@.len() - 1]@);
                out.pop();
                assert(text::views(out@) =~= before.drop_last());
            } else {
                assert(out@.len() > 0 ==> before.last() == out@[out@.len() - 1]@);
            }
        } else if !same_text(c.as_str(), ".") {
            out.push(c);
            assert(text::views(out@) =~= before.push(c@));
        }
        i = i + 1;
    }
    assert(text::views(cs@).take(i as int) =~= text::views(cs@));
    render_of(&out)
}

// ---------------------------------------------------------------- names

/// The last component of a path where it is a name.
pub open spec fn file_name(s: Seq<char>) -> Option<Seq<char>> {
    let cs = components(s);
    if cs.len() > 0 && component_rank(cs.last()) == 3 {
        Some(cs.last())
    } else {
        None
    }
}

/// The last component of a path where it is a name.
pub fn file_name_of(s: &str) -> (r: Option<String>)
    ensures
        match r {
            Some(n) => file_name(s@) == Some(n@),
            None => file_name(s@) is None,
        },
{
    let cs = components_of(s);
    let ghost vs = text::views(cs@);
    if cs.len() == 0 {
        return None;
    }
    let last = cs[cs.len() - 1].clone();
    assert(vs.last() == last@);
    if rank_of(last.as_str()) == 3 {
        Some(last)
    } else {
        None
    }
}

/// The index of the last `c` in `s`, or -1 where there is none.
pub open spec fn last_index_of(s: Seq<char>, c: char) -> int
    decreases s.len(),
{
    if s.len() == 0 {
        -1
    } else if s.last() == c {
        s.len() - 1
    } else {
        last_index_of(s.drop_last(), c)
    }
}

/// What follows the last dot of a name, where that dot is not its first
/// character.
pub open spec fn name_extension(n: Seq<char>) -> Option<Seq<char>> {
    let d = last_index_of(n, '.');
    if d > 0 {
        Some(n.skip(d + 1))
    } else {
        None
    }
}

/// A name without its extension and the dot before it.
pub open spec fn name_stem(n: Seq<char>) -> Seq<char> {
    let d = last_index_of(n, '.');
    if d > 0 {
        n.take(d)
    } else {
        n
    }
}

/// The extension of the file that a path names.
pub open spec fn extension(s: Seq<char>) -> Option<Seq<char>> {
    match file_name(s) {
        Some(n) => name_extension(n),
        None => None,
    }
}

/// Splits a name into its stem and its extension.
fn split_name(n: &str) -> (r: (String, Option<String>))
    ensures
        r.0@ == name_stem(n@),
        match r.1 {
            Some(e) => name_extension(n@) == Some(e@),
            None => name_extension(n@) is None,
        },
{
    let v = chars_of(n);
    let mut i: usize = v.len();
    assert(n@.take(i as int) =~= n@);
    while i > 0 && v[i - 1] != '.'
        invariant
            v@ == n@,
            i <= n@.len(),
            last_index_of(n@, '.') == last_index_of(n@.take(i as int), '.'),
        decreases i,
    {
        assert(n@.take(i as int).drop_last() =~= n@.take(i - 1));
        i = i - 1;
    }
    if i > 1 {
        let d: usize = i - 1;
        assert(n@.take(d as int) =~= v@.subrange(0, d as int));
        assert(n@.skip(d + 1) =~= v@.subrange(d + 1, n@.len() as int));
        (string_between(&v, 0, d), Some(string_between(&v, d + 1, v.len())))
    } else {
        (String::from_str(n), None)
    }
}

/// The extension of the file that a path names.
pub fn extension_of(s: &str) -> (r: Option<String>)
    ensures
        match r {
            Some(e) => extension(s@) == Some(e@),
            None => extension(s@) is None,
        },
{
    match file_name_of(s) {
        Some(n) => split_name(n.as_str()).1,
        None => None,
    }
}

/// The stem of the file that a path names.
pub fn stem_of(s: &str) -> (r: Option<String>)
    ensures
        match r {
            Some(t) => file_name(s@) is Some && t@ == name_stem(file_name(s@)->0),
            None => file_name(s@) is None,
        },
{
    match file_name_of(s) {
        Some(n) => Some(split_name(n.as_str()).0),
        None => None,
    }
}

/// The shortest beginning of `s` that denotes the path with the components `cs`, among
/// those of at least `from` characters; all of `s` where none does.
pub open spec fn beginning(s: Seq<char>, cs: Seq<Seq<char>>, from: int) -> Seq<char>
    decreases s.len() - from,
{
    if from >= s.len() {
        s
    } else if components(s.take(from)) == cs {
        s.take(from)
    } else {
        beginning(s, cs, from + 1)
    }
}

/// The shortest ending of `s` that denotes the path with the components `cs`, among
/// those of at least `from` characters; all of `s` where none does.
pub open spec fn ending(s: Seq<char>, cs: Seq<Seq<char>>, from: int) -> Seq<char>
    decreases s.len() - from,
{
    if from >= s.len() {
        s
    } else if components(s.skip(s.len() - from)) == cs {
        s.skip(s.len() - from)
    } else {
        ending(s, cs, from + 1)
    }
}

fn beginning_of(s: &str, cs: &Vec<String>) -> (r: String)
    ensures
        r@ == beginning(s@, text::views(cs@), 0),
{
    let v = chars_of(s);
    let mut k: usize = 0;
    while k < v.len()
        invariant
            v@ == s@,
            k <= s@.len(),
            beginning(s@, text::views(cs@), 0) == beginning(s@, text::views(cs@), k as int),
        decreases s@.len() - k,
    {
        let p = string_between(&v, 0, k);
        assert(p@ =~= s@.take(k as int));
        let found = components_of(p.as_str());
        if same_list(&found, cs) {
            return p;
        }
        k = k + 1;
    }
    String::from_str(s)
}

fn ending_of(s: &str, cs: &Vec<String>) -> (r: String)
    ensures
        r@ == ending(s@, text::views(cs@), 0),
{
    let v = chars_of(s);
    let n: usize = v.len();
    let mut k: usize = 0;
    while k < n
        invariant
            v@ == s@,
            n == s@.len(),
            k <= n,
            ending(s@, text::views(cs@), 0) == ending(s@, text::views(cs@), k as int),
        decreases n - k,
    {
        let p = string_between(&v, n - k, n);
        assert(p@ =~= s@.skip(n - k));
        let found = components_of(p.as_str());
        if same_list(&found, cs) {
            return p;
        }
        k = k + 1;
    }
    String::from_str(s)
}

/// The directory that holds what a path names: the path without its last component, as
/// it was written. The root and the empty path have none.
pub open spec fn parent(s: Seq<char>) -> Option<Seq<char>> {
    let cs = components(s);
    if cs.len() == 0 || cs.last() == seq!['/'] {
        None
    } else {
        Some(beginning(s, cs.drop_last(), 0))
    }
}

/// The directory that holds what a path names.
pub fn parent_of(s: &str) -> (r: Option<String>)
    ensures
        match r {
            Some(p) => parent(s@) == Some(p@),
            None => parent(s@) is None,
        },
{
    proof {
        reveal_strlit("/");
        assert("/"@ =~= seq!['/']);
    }
    let mut cs = components_of(s);
    let ghost vs = text::views(cs@);
    match cs.pop() {
        Some(last) => {
            assert(vs.last() == last@);
            assert(text::views(cs@) =~= vs.drop_last());
            if same_text(last.as_str(), "/") {
                None
            } else {
                Some(beginning_of(s, &cs))
            }
        },
        None => None,
    }
}

/// What remains of `path` below `base`, as it was written, without what trails the last
/// component.
pub open spec fn below(path: Seq<char>, base: Seq<char>) -> Option<Seq<char>> {
    let cs = components(path);
    let n = components(base).len() as int;
    let trimmed = beginning(path, cs, 0);
    if !under(path, base) {
        None
    } else if n == 0 {
        Some(trimmed)
    } else {
        Some(ending(trimmed, cs.skip(n), 0))
    }
}

/// What remains of `path` below `base`.
pub fn strip_base(path: &str, base: &str) -> (r: Option<String>)
    ensures
        match r {
            Some(t) => below(path@, base@) == Some(t@),
            None => below(path@, base@) is None,
        },
{
    let x = components_of(path);
    let y = components_of(base);
    let ghost vx = text::views(x@);
    if !list_starts_with(&x, &y) {
        return None;
    }
    let trimmed = beginning_of(path, &x);
    assert(text::views(y@).len() == y@.len());
    if y.len() == 0 {
        return Some(trimmed);
    }
    let mut rest: Vec<String> = Vec::new();
    let mut i: usize = y.len();
    assert(text::views(rest@) =~= vx.subrange(i as int, i as int));
    while i < x.len()
        invariant
            vx == text::views(x@),
            y@.len() <= i <= x@.len(),
            text::views(rest@) == vx.subrange(y@.len() as int, i as int),
        decreases x@.len() - i,
    {
        let ghost before = text::views(rest@);
        rest.push(x[i].clone());
        assert(text::views(rest@) =~= before.push(vx[i as int]));
        assert(vx.subrange(y@.len() as int, i + 1) =~= vx.subrange(y@.len() as int, i as int).push(
            vx[i as int],
        ));
        i = i + 1;
    }
    assert(vx.subrange(y@.len() as int, i as int) =~= vx.skip(y@.len() as int));
    Some(ending_of(trimmed.as_str(), &rest))
}

// ---------------------------------------------------------------- outputs

/// Why an output path is refused.
#[derive(Debug, Clone)]
pub enum PathError {
    /// The path does not exist or cannot be made canonical.
    Canonicalize { path: String, source: String },
    /// The path is not inside the vault.
    OutsideVault { path: String, vault_root: String },
    /// The path is inside the sources directory.
    InsideSources { path: String, sources_dir: String },
    /// The path is not a regular file.
    NotAFile(String),
}

impl PathError {
    /// The text of the error.
    pub open spec fn text(&self) -> Seq<char> {
        match *self {
            PathError::Canonicalize { path, source } =>
                "path does not exist or cannot be canonicalized: "@ + path@ + ": "@ + source@,
            PathError::OutsideVault { path, vault_root } =>
                "output path is not inside vault_root\n  path:       "@ + path@
                    + "\n  vault_root: "@ + vault_root@,
            PathError::InsideSources { path, sources_dir } =>
                "output path is inside sources_dir (would cause reprocessing loop)\n  path:        "@
                    + path@ + "\n  sources_dir: "@ + sources_dir@,
            PathError::NotAFile(path) => "output path is not a regular file: "@ + path@,
        }
    }

    /// The message that a user sees.
    pub fn message(&self) -> (r: String)
        ensures
            r@ == self.text(),
    {
        match self {
            PathError::Canonicalize { path, source } => {
                let mut s = String::from_str("path does not exist or cannot be canonicalized: ");
                s.append(path.as_str());
                s.append(": ");
                s.append(source.as_str());
                s
            },
            PathError::OutsideVault { path, vault_root } => {
                let mut s = String::from_str("output path is not inside vault_root\n  path:       ");
                s.append(path.as_str());
                s.append("\n  vault_root: ");
                s.append(vault_root.as_str());
                s
            },
            PathError::InsideSources { path, sources_dir } => {
                let mut s = String::from_str(
                    "output path is inside sources_dir (would cause reprocessing loop)\n  path:        ",
                );
                s.append(path.as_str());
                s.append("\n  sources_dir: ");
                s.append(sources_dir.as_str());
                s
            },
            PathError::NotAFile(path) => {
                let mut s = String::from_str("output path is not a regular file: ");
                s.append(path.as_str());
                s
            },
        }
    }
}

/// What the file system says of a path: its canonical form, and whether a
/// regular file stands there.
#[derive(Debug, Clone)]
pub struct Located {
    pub canonical: String,
    pub is_file: bool,
}

/// Whether an output that was found may stand where it stands.
pub open spec fn well_placed(l: Located, vault_root: Seq<char>, sources_dir: Seq<char>) -> bool {
    l.is_file && under(l.canonical@, vault_root) && !under(l.canonical@, sources_dir)
}

/// Whether `e` is why an output is refused.
pub open spec fn misplaced(
    e: PathError,
    output_path: Seq<char>,
    found: Result<Located, String>,
    vault_root: Seq<char>,
    sources_dir: Seq<char>,
) -> bool {
    match (e, found) {
        (PathError::Canonicalize { path, source }, Err(s)) => path@ == output_path && source@ == s@,
        (PathError::NotAFile(path), Ok(l)) => !l.is_file && path@ == l.canonical@,
        (PathError::OutsideVault { path, vault_root: v }, Ok(l)) => l.is_file && !under(
            l.canonical@,
            vault_root,
        ) && path@ == l.canonical@ && v@ == vault_root,
        (PathError::InsideSources { path, sources_dir: d }, Ok(l)) => l.is_file && under(
            l.canonical@,
            vault_root,
        ) && under(l.canonical@, sources_dir) && path@ == l.canonical@ && d@ == sources_dir,
        _ => false,
    }
}

/// Decides whether an output may stand where it stands.
///
/// `found` is what the file system says of `output_path`, or its error text. The
/// checks run in this order: the path exists, it is a regular file, it is inside
/// `vault_root`, it is not inside `sources_dir`. `vault_root` and `sources_dir` are
/// canonical.
pub fn validate_output(
    output_path: &str,
    found: Result<Located, String>,
    vault_root: &str,
    sources_dir: &str,
) -> (r: Result<String, PathError>)
    ensures
        match r {
            Ok(p) => found matches Ok(l) && well_placed(l, vault_root@, sources_dir@) && p@
                == l.canonical@,
            Err(e) => misplaced(e, output_path@, found, vault_root@, sources_dir@),
        },
{
    match found {
        Err(source) => Err(
            PathError::Canonicalize { path: String::from_str(output_path), source },
        ),
        Ok(l) => {
            if !l.is_file {
                return Err(PathError::NotAFile(l.canonical));
            }
            if !is_under(l.canonical.as_str(), vault_root) {
                return Err(
                    PathError::OutsideVault {
                        path: l.canonical,
                        vault_root: String::from_str(vault_root),
                    },
                );
            }
            if is_under(l.canonical.as_str(), sources_dir) {
                return Err(
                    PathError::InsideSources {
                        path: l.canonical,
                        sources_dir: String::from_str(sources_dir),
                    },
                );
            }
            Ok(l.canonical)
        },
    }
}

/// Why an output that a processor reports is refused. The processor put it in the wrong
/// place, so the job is not retried.
#[derive(Debug, Clone)]
pub enum OutputError {
    /// It may stand in no part of the vault.
    Misplaced(PathError),
    /// The path is not inside the directory of the agent.
    OutsideAgentRoot { path: String, agent_root: String },
}

impl OutputError {
    /// The text of the error.
    pub open spec fn text(&self) -> Seq<char> {
        match *self {
            OutputError::Misplaced(e) => e.text(),
            OutputError::OutsideAgentRoot { path, agent_root } =>
                "output path is not inside agent_root\n  path:       "@ + path@
                    + "\n  agent_root: "@ + agent_root@,
        }
    }

    /// The message that a user sees.
    pub fn message(&self) -> (r: String)
        ensures
            r@ == self.text(),
    {
        match self {
            OutputError::Misplaced(e) => e.message(),
            OutputError::OutsideAgentRoot { path, agent_root } => {
                let mut s = String::from_str("output path is not inside agent_root\n  path:       ");
                s.append(path.as_str());
                s.append("\n  agent_root: ");
                s.append(agent_root.as_str());
                s
            },
        }
    }
}

/// Decides whether an output that a processor reports may stand where it stands: where
/// [`validate_output`] lets it stand, and inside `agent_root`, which is canonical too.
pub fn validate_processor_output(
    output_path: &str,
    found: Result<Located, String>,
    vault_root: &str,
    sources_dir: &str,
    agent_root: &str,
) -> (r: Result<String, OutputError>)
    ensures
        match r {
            Ok(p) => found matches Ok(l) && well_placed(l, vault_root@, sources_dir@) && under(
                l.canonical@,
                agent_root@,
            ) && p@ == l.canonical@,
            Err(OutputError::Misplaced(e)) => misplaced(
                e,
                output_path@,
                found,
                vault_root@,
                sources_dir@,
            ),
            Err(OutputError::OutsideAgentRoot { path, agent_root: a }) => found matches Ok(l)
                && well_placed(l, vault_root@, sources_dir@) && !under(l.canonical@, agent_root@)
                && path@ == l.canonical@ && a@ == agent_root@,
        },
{
    match validate_output(output_path, found, vault_root, sources_dir) {
        Err(e) => Err(OutputError::Misplaced(e)),
        Ok(path) => {
            if is_under(path.as_str(), agent_root) {
                Ok(path)
            } else {
                Err(
                    OutputError::OutsideAgentRoot { path, agent_root: String::from_str(agent_root) },
                )
            }
        },
    }
}

// ---------------------------------------------------------------- laws

/// No path is strictly inside itself, and being inside goes one way only.
pub proof fn law_inside_is_strict(a: Seq<char>, b: Seq<char>)
    ensures
        !inside(a, a),
        inside(a, b) ==> !inside(b, a),
        inside(a, b) ==> components(b).len() < components(a).len(),
{
    let x = components(a);
    let y = components(b);
    if inside(a, b) {
        if x.len() == y.len() {
            assert(x.subrange(0, y.len() as int) =~= x);
        }
    }
}

/// What is inside a directory inside a directory is inside the outer one.
pub proof fn law_inside_is_transitive(a: Seq<char>, b: Seq<char>, c: Seq<char>)
    requires
        inside(a, b),
        inside(b, c),
    ensures
        inside(a, c),
{
    law_inside_is_strict(a, b);
    law_inside_is_strict(b, c);
    law_under_is_order(a, b, c);
}

/// Standing at or below a directory is reflexive and transitive, and two paths
/// that stand below each other are the same.
pub proof fn law_under_is_order(a: Seq<char>, b: Seq<char>, c: Seq<char>)
    ensures
        under(a, a),
        under(a, b) && under(b, c) ==> under(a, c),
        under(a, b) && under(b, a) ==> same_path(a, b),
{
    let x = components(a);
    let y = components(b);
    let z = components(c);
    assert(x =~= x.subrange(0, x.len() as int));
    if under(a, b) && under(b, c) {
        assert(z =~= x.subrange(0, z.len() as int)) by {
            assert(forall|i: int| 0 <= i < z.len() ==> z[i] == y.subrange(0, z.len() as int)[i]);
            assert(forall|i: int| 0 <= i < y.len() ==> y[i] == x.subrange(0, y.len() as int)[i]);
        }
    }
    if under(a, b) && under(b, a) {
        assert(x.subrange(0, y.len() as int) =~= x);
    }
}

/// A beginning that is looked for is found where there is one.
proof fn lemma_beginning(s: Seq<char>, cs: Seq<Seq<char>>, from: int, k: int)
    requires
        0 <= from <= k <= s.len(),
        components(s.take(k)) == cs,
    ensures
        components(beginning(s, cs, from)) == cs,
    decreases s.len() - from,
{
    if from >= s.len() {
        assert(s.take(k) =~= s);
    } else if components(s.take(from)) != cs {
        lemma_beginning(s, cs, from + 1, k);
    }
}

/// An ending that is looked for is found where there is one.
proof fn lemma_ending(s: Seq<char>, cs: Seq<Seq<char>>, from: int, k: int)
    requires
        0 <= from <= k <= s.len(),
        components(s.skip(s.len() - k)) == cs,
    ensures
        components(ending(s, cs, from)) == cs,
    decreases s.len() - from,
{
    if from >= s.len() {
        assert(s.skip(s.len() - k) =~= s);
    } else if components(s.skip(s.len() - from)) != cs {
        lemma_ending(s, cs, from + 1, k);
    }
}

proof fn lemma_no_piece()
    ensures
        counted(Seq::<Seq<char>>::empty()) == Seq::<Seq<char>>::empty(),
{
    reveal(Seq::filter);
    assert(counted(Seq::<Seq<char>>::empty()) =~= Seq::<Seq<char>>::empty());
}

/// A character that is no slash goes to the last piece.
proof fn lemma_pieces_push(s: Seq<char>, c: char)
    requires
        c != '/',
    ensures
        pieces(s.push(c)) == pieces(s).drop_last().push(pieces(s).last().push(c)),
    decreases s.len(),
{
    let whole = s.push(c);
    text::lemma_index_of(s, '/');
    let i = text::index_of(s, '/') as int;
    assert forall|j: int| 0 <= j < i implies whole[j] != '/' by {
        assert(whole[j] == s[j]);
    }
    if i < s.len() {
        let rest = s.skip(i + 1);
        assert(whole[i] == s[i]);
        text::lemma_index_of_unique(whole, '/', i);
        assert(whole.take(i) =~= s.take(i));
        assert(whole.skip(i + 1) =~= rest.push(c));
        lemma_pieces_push(rest, c);
        lemma_pieces_nonempty(rest);
        assert(pieces(s).last() == pieces(rest).last());
        assert(pieces(whole) =~= pieces(s).drop_last().push(pieces(s).last().push(c)));
    } else {
        text::lemma_index_of_unique(whole, '/', i + 1);
        assert(pieces(whole) =~= pieces(s).drop_last().push(pieces(s).last().push(c)));
    }
}

/// A relative path starts with its first piece, whatever it is.
proof fn lemma_first_piece(s: Seq<char>)
    requires
        s.len() > 0,
        !absolute(s),
    ensures
        pieces(s)[0].len() > 0,
        components(s) == seq![pieces(s)[0]] + counted(pieces(s).skip(1)),
{
    text::lemma_index_of(s, '/');
    lemma_pieces_nonempty(s);
    let ps = pieces(s);
    let first = seq![ps[0]];
    assert(ps =~= first + ps.skip(1));
    lemma_counted_add(first, ps.skip(1));
    lemma_no_piece();
    lemma_counted_push(Seq::empty(), ps[0]);
    assert(Seq::<Seq<char>>::empty().push(ps[0]) =~= first);
    assert(components(s) =~= first + counted(ps.skip(1)));
}

/// A path without a slash is one component.
proof fn lemma_one_piece(s: Seq<char>)
    requires
        s.len() > 0,
        pieces(s).len() == 1,
    ensures
        components(s).len() == 1,
{
    text::lemma_index_of(s, '/');
    let i = text::index_of(s, '/') as int;
    if i < s.len() {
        lemma_pieces_nonempty(s.skip(i + 1));
    }
    lemma_first_piece(s);
    lemma_no_piece();
    assert(pieces(s).skip(1) =~= Seq::<Seq<char>>::empty());
}

/// A slash at the end of a path adds no component.
proof fn lemma_slash_added(p: Seq<char>)
    requires
        p.len() > 0,
    ensures
        components(p.push('/')) == components(p),
{
    let s = p.push('/');
    let e = Seq::<char>::empty();
    lemma_pieces_nonempty(p);
    assert(s =~= p + seq!['/'] + e);
    lemma_pieces_join(p, e);
    assert(pieces(e) =~= seq![e]);
    assert(pieces(p) + seq![e] =~= pieces(p).push(e));
    lemma_counted_push(pieces(p), e);
    assert(s[0] == p[0]);
}

/// The components of a path with a slash, by its last piece.
proof fn lemma_last_piece(s: Seq<char>, q: Seq<Seq<char>>, l: Seq<char>)
    requires
        pieces(s) == q.push(l),
    ensures
        components(s) == if counts(l) {
            (head(s) + counted(q)).push(l)
        } else {
            head(s) + counted(q)
        },
{
    lemma_counted_push(q, l);
    if counts(l) {
        assert(head(s) + counted(q).push(l) =~= (head(s) + counted(q)).push(l));
    }
}

/// What a last character may add to a path: nothing, a part of the last component, or a
/// component.
spec fn adds_little(cs: Seq<Seq<char>>, before: Seq<Seq<char>>) -> bool {
    ||| cs == before
    ||| cs.len() > 0 && cs.drop_last() == before
    ||| cs.len() > 0 && before.len() > 0 && cs.drop_last() == before.drop_last()
}

proof fn lemma_char_added(p: Seq<char>, c: char)
    requires
        p.len() > 0,
        c != '/',
    ensures
        adds_little(components(p.push(c)), components(p)),
{
    let s = p.push(c);
    lemma_pieces_nonempty(p);
    lemma_pieces_push(p, c);
    let q = pieces(p).drop_last();
    let l = pieces(p).last();
    let m = l.push(c);
    assert(pieces(p) =~= q.push(l));
    assert(s[0] == p[0]);
    if q.len() > 0 {
        assert(pieces(s)[0] == q[0] && pieces(p)[0] == q[0]);
        let front = head(s) + counted(q);
        lemma_last_piece(p, q, l);
        lemma_last_piece(s, q, m);
        assert(front.push(l).drop_last() =~= front);
        assert(front.push(m).drop_last() =~= front);
        if !counts(m) {
            assert(m.len() == 1);
        }
    } else {
        lemma_one_piece(p);
        lemma_one_piece(s);
        assert(components(s).drop_last() =~= components(p).drop_last());
    }
}

proof fn lemma_last_char(s: Seq<char>)
    requires
        s.len() > 0,
    ensures
        adds_little(components(s), components(s.drop_last())),
{
    let p = s.drop_last();
    let c = s.last();
    assert(s =~= p.push(c));
    if p.len() == 0 {
        let e = Seq::<char>::empty();
        lemma_empty_path();
        assert(p =~= e);
        if c == '/' {
            lemma_root();
            assert(s =~= seq!['/']);
        } else {
            lemma_pieces_push(p, c);
            assert(pieces(p) =~= seq![e]);
            lemma_one_piece(s);
        }
        assert(components(s).drop_last() =~= components(p));
    } else if c == '/' {
        lemma_slash_added(p);
    } else {
        lemma_char_added(p, c);
    }
}

/// Every path has a beginning that lacks just its last component.
proof fn lemma_parent_exists(s: Seq<char>) -> (k: int)
    requires
        components(s).len() > 0,
    ensures
        0 <= k <= s.len(),
        components(s.take(k)) == components(s).drop_last(),
    decreases s.len(),
{
    if s.len() == 0 {
        lemma_empty_path();
        assert(s =~= Seq::<char>::empty());
        0
    } else {
        lemma_last_char(s);
        let p = s.drop_last();
        if components(s).drop_last() == components(p) {
            assert(s.take(s.len() - 1) =~= p);
            s.len() - 1
        } else {
            let k = lemma_parent_exists(p);
            assert(p.take(k) =~= s.take(k));
            k
        }
    }
}

/// The parent of a path has all its components but the last.
pub proof fn law_parent_drops_the_last(s: Seq<char>)
    requires
        parent(s) is Some,
    ensures
        components(parent(s)->0) == components(s).drop_last(),
        inside(s, parent(s)->0),
{
    let cs = components(s);
    let k = lemma_parent_exists(s);
    lemma_beginning(s, cs.drop_last(), 0, k);
    assert(cs.drop_last() =~= cs.subrange(0, cs.len() - 1));
}

/// The components of what follows a slash.
proof fn lemma_after_slash(r: Seq<char>)
    ensures
        ({
            let cs = components(seq!['/'] + r);
            let rest = components(r);
            &&& cs.len() > 0
            &&& cs.skip(1) == rest || (rest.len() > 0 && cs.skip(1) == rest.skip(1))
        }),
{
    let e = Seq::<char>::empty();
    let s = seq!['/'] + r;
    assert(s =~= e + seq!['/'] + r);
    lemma_pieces_join(e, r);
    assert(pieces(e) =~= seq![e]);
    lemma_no_piece();
    lemma_counted_push(Seq::empty(), e);
    assert(Seq::<Seq<char>>::empty().push(e) =~= seq![e]);
    lemma_counted_add(seq![e], pieces(r));
    let all = counted(pieces(r));
    assert(components(s) =~= seq![seq!['/']] + all);
    assert(components(s).skip(1) =~= all);
    if head(r).len() == 0 {
        assert(components(r) =~= all);
    } else {
        assert(components(r).skip(1) =~= all);
    }
}

/// The pieces of a path without its first character, where that is no slash.
proof fn lemma_pieces_skip(s: Seq<char>)
    requires
        s.len() > 0,
        s[0] != '/',
    ensures
        pieces(s.skip(1)) == seq![pieces(s)[0].skip(1)] + pieces(s).skip(1),
{
    let r = s.skip(1);
    text::lemma_index_of(s, '/');
    let i = text::index_of(s, '/') as int;
    assert forall|j: int| 0 <= j < i - 1 implies r[j] != '/' by {
        assert(r[j] == s[j + 1]);
    }
    if i < s.len() {
        assert(r[i - 1] == s[i]);
        text::lemma_index_of_unique(r, '/', i - 1);
        assert(r.skip(i - 1 + 1) =~= s.skip(i + 1));
        assert(pieces(s).skip(1) =~= pieces(s.skip(i + 1)));
        assert(r.take(i - 1) =~= s.take(i).skip(1));
    } else {
        text::lemma_index_of_unique(r, '/', i - 1);
        assert(pieces(s).skip(1) =~= Seq::<Seq<char>>::empty());
        assert(seq![r] =~= seq![r] + pieces(s).skip(1));
    }
}

/// What the first character of a path takes with it: at most its first component.
proof fn lemma_first_char(s: Seq<char>)
    requires
        s.len() > 0,
    ensures
        ({
            let cs = components(s);
            let rest = components(s.skip(1));
            &&& cs.len() > 0
            &&& cs.skip(1) == rest || (rest.len() > 0 && cs.skip(1) == rest.skip(1))
        }),
{
    let r = s.skip(1);
    if s[0] == '/' {
        assert(s =~= seq!['/'] + r);
        lemma_after_slash(r);
    } else {
        lemma_first_piece(s);
        lemma_pieces_skip(s);
        lemma_pieces_nonempty(s);
        let tail = pieces(s).skip(1);
        assert(components(s).skip(1) =~= counted(tail));
        assert(pieces(r).skip(1) =~= tail);
        let e = Seq::<char>::empty();
        if r.len() == 0 {
            assert(r =~= e);
            lemma_empty_path();
            lemma_no_piece();
            assert(pieces(r) =~= seq![e]);
            assert(tail =~= Seq::<Seq<char>>::empty());
        } else if absolute(r) {
            let t = r.skip(1);
            assert(r =~= e + seq!['/'] + t);
            lemma_pieces_join(e, t);
            assert(pieces(e) =~= seq![e]);
            assert(pieces(r).skip(1) =~= pieces(t));
            lemma_no_piece();
            lemma_counted_push(Seq::empty(), e);
            assert(Seq::<Seq<char>>::empty().push(e) =~= seq![e]);
            lemma_counted_add(seq![e], tail);
            assert(components(r).skip(1) =~= counted(tail));
        } else {
            lemma_first_piece(r);
            assert(components(r).skip(1) =~= counted(tail));
        }
    }
}

/// Every path has an ending that lacks just its first `n` components.
proof fn lemma_below_exists(s: Seq<char>, n: int) -> (k: int)
    requires
        0 <= n <= components(s).len(),
    ensures
        0 <= k <= s.len(),
        components(s.skip(s.len() - k)) == components(s).skip(n),
    decreases s.len(),
{
    let cs = components(s);
    if n == 0 {
        assert(s.skip(0) =~= s);
        assert(cs.skip(0) =~= cs);
        s.len() as int
    } else {
        if s.len() == 0 {
            lemma_empty_path();
            assert(s =~= Seq::<char>::empty());
        }
        lemma_first_char(s);
        let r = s.skip(1);
        let rest = components(r);
        let m = if cs.skip(1) == rest {
            n - 1
        } else {
            n
        };
        assert(cs.skip(1).len() == cs.len() - 1);
        assert(rest.skip(1).len() == rest.len() - 1 || rest.len() == 0);
        let k = lemma_below_exists(r, m);
        assert(s.skip(s.len() - k) =~= r.skip(r.len() - k));
        assert(cs.skip(n) =~= cs.skip(1).skip(n - 1));
        if m == n {
            assert(rest.skip(n) =~= rest.skip(1).skip(n - 1));
        }
        k
    }
}

/// What remains of a path below a directory has the components that follow those of the
/// directory.
pub proof fn law_below_drops_the_base(path: Seq<char>, base: Seq<char>)
    requires
        under(path, base),
    ensures
        below(path, base) is Some,
        components(base) + components(below(path, base)->0) == components(path),
{
    let cs = components(path);
    let n = components(base).len() as int;
    let trimmed = beginning(path, cs, 0);
    assert(path.take(path.len() as int) =~= path);
    lemma_beginning(path, cs, 0, path.len() as int);
    assert(cs =~= components(base) + cs.skip(n));
    if n == 0 {
        assert(cs.skip(0) =~= cs);
    } else {
        let k = lemma_below_exists(trimmed, n);
        lemma_ending(trimmed, cs.skip(n), 0, k);
    }
}

/// Normalising a normalised path changes nothing.
pub proof fn law_normalise_idempotent(s: Seq<char>)
    ensures
        normal(normal(s)) == normal(s),
{
    lemma_normal_components(s);
    let cs = components(s);
    assert forall|i: int| #![trigger cs[i]] 0 <= i < cs.len() implies is_name(cs[i]) || (i == 0
        && (cs[i] == seq!['/'] || cs[i] == seq!['.'])) by {
        lemma_components_shape(s, i);
    }
    lemma_resolved_plain(cs);
    lemma_resolved_fixed(resolved(cs));
}

proof fn lemma_resolved_fixed(cs: Seq<Seq<char>>)
    requires
        plain(cs),
        forall|i: int| #![trigger cs[i]] 0 <= i < cs.len() ==> cs[i] != seq!['.', '.'],
    ensures
        resolved(cs) == cs,
    decreases cs.len(),
{
    if cs.len() > 0 {
        let front = cs.drop_last();
        assert forall|i: int| #![trigger front[i]] 0 <= i < front.len() implies (is_name(front[i])
            || (i == 0 && front[i] == seq!['/'])) && front[i] != seq!['.', '.'] by {
            assert(front[i] == cs[i]);
        }
        lemma_resolved_fixed(front);
        assert(cs.last() == cs[cs.len() - 1]);
        assert(seq!['/'][0] == '/');
        assert(seq!['.'][0] == '.');
        assert(cs =~= front.push(cs.last()));
    } else {
        assert(cs =~= Seq::<Seq<char>>::empty());
    }
}

/// A normalised path holds no `.` and no `..`.
pub proof fn law_normalise_removes_dots(s: Seq<char>)
    ensures
        !components(normal(s)).contains(seq!['.', '.']),
        !components(normal(s)).contains(seq!['.']),
{
    lemma_normal_components(s);
    let cs = components(s);
    assert forall|i: int| #![trigger cs[i]] 0 <= i < cs.len() implies is_name(cs[i]) || (i == 0
        && (cs[i] == seq!['/'] || cs[i] == seq!['.'])) by {
        lemma_components_shape(s, i);
    }
    lemma_resolved_plain(cs);
    let out = resolved(cs);
    assert forall|i: int| 0 <= i < out.len() implies out[i] != seq!['.'] by {
        assert(is_name(out[i]) || out[i] == seq!['/']);
        if out[i] == seq!['.'] {
            assert(seq!['/'][0] == '/');
            assert(seq!['.'][0] == '.');
        }
    }
}

} // verus!
