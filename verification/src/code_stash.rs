//! Putting code aside while the prose around it is rewritten.
//!
//! Every code block of a text gives way to a token that no rewriting touches, and
//! comes back in its place afterwards. Tokens are told from the rest of a text by their
//! NUL characters, so those that the text itself has give way to a token first.

use vstd::prelude::*;
use vstd::string::*;

use crate::number;
use crate::number::count_text;
use crate::pattern;
use crate::pattern::{find_fenced, find_inline, Findings, Match, Pattern};
use crate::text;
use crate::text::{occurs_at, replace_all, replaced};

verus! {

// ---------------------------------------------------------------- tokens

/// The token that stands for block `i`; `name` tells apart who put it aside.
pub open spec fn token(name: Seq<char>, i: int) -> Seq<char> {
    seq!['\0'] + name + seq!['\0', 'B', 'L', 'O', 'C', 'K', '\0'] + number::decimal(i) + seq!['\0']
}

fn token_of(name: &str, i: usize) -> (r: String)
    ensures
        r@ == token(name@, i as int),
{
    let mut r = String::new();
    r.push('\0');
    r.append(name);
    r.push('\0');
    r.append("BLOCK");
    r.push('\0');
    r.append(count_text(i).as_str());
    r.push('\0');
    proof {
        reveal_strlit("BLOCK");
    }
    assert(r@ =~= token(name@, i as int));
    r
}

/// Tokens for the blocks from `base` on.
pub open spec fn tokens(name: Seq<char>, base: int, n: nat) -> Seq<Seq<char>> {
    Seq::new(n, |i: int| token(name, base + i))
}

// ---------------------------------------------------------------- putting aside

/// The pieces of a text with `between` put between them: the first `n` of them and
/// the piece behind.
pub open spec fn interleave(
    pieces: Seq<Seq<char>>,
    between: Seq<Seq<char>>,
    n: nat,
) -> Seq<char>
    decreases n,
{
    if n == 0 {
        pieces[0]
    } else {
        interleave(pieces, between, (n - 1) as nat) + between[n - 1] + pieces[n as int]
    }
}

/// A text with each match replaced.
pub open spec fn spliced(s: Seq<char>, ms: Seq<Match>, between: Seq<Seq<char>>) -> Seq<char> {
    interleave(pattern::gaps(s, ms), between, ms.len())
}

/// The texts of the matches.
pub open spec fn wholes(s: Seq<char>, ms: Seq<Match>) -> Seq<Seq<char>> {
    Seq::new(ms.len(), |i: int| s.subrange(ms[i].start, ms[i].end))
}

/// Puts `between` between the pieces.
pub fn interleaved(pieces: &Vec<String>, between: &Vec<String>) -> (r: String)
    requires
        pieces@.len() == between@.len() + 1,
    ensures
        r@ == interleave(text::views(pieces@), text::views(between@), between@.len()),
{
    let mut r = pieces[0].clone();
    let mut i: usize = 0;
    while i < between.len()
        invariant
            i <= between@.len(),
            pieces@.len() == between@.len() + 1,
            r@ == interleave(text::views(pieces@), text::views(between@), i as nat),
        decreases between@.len() - i,
    {
        r.append(between[i].as_str());
        r.append(pieces[i + 1].as_str());
        assert(text::views(between@)[i as int] == between@[i as int]@);
        assert(text::views(pieces@)[i + 1] == pieces@[i + 1]@);
        i = i + 1;
    }
    r
}

/// A text without its code, and the code.
pub struct StashView {
    pub text: Seq<char>,
    pub blocks: Seq<Seq<char>>,
}

/// A text with the matches of `p` put aside; the first block has number `base`.
pub open spec fn set_aside(name: Seq<char>, p: Pattern, s: Seq<char>, base: nat) -> StashView {
    let ms = pattern::matches_of(p, s);
    StashView { text: spliced(s, ms, tokens(name, base as int, ms.len())), blocks: wholes(s, ms) }
}

/// A NUL, as a text.
pub open spec fn nul() -> Seq<char> {
    seq!['\0']
}

/// A text with the first token in place of each NUL.
pub open spec fn hidden(name: Seq<char>, s: Seq<char>) -> Seq<char> {
    replace_all(s, nul(), token(name, 0))
}

/// A text with its NULs, then its fenced blocks, then its inline code put aside. All
/// NULs are one block, the first.
pub open spec fn stash(name: Seq<char>, s: Seq<char>) -> StashView {
    let fenced = set_aside(name, Pattern::Fenced, hidden(name, s), 1);
    let inline = set_aside(name, Pattern::Inline, fenced.text, 1 + fenced.blocks.len());
    StashView { text: inline.text, blocks: seq![nul()] + fenced.blocks + inline.blocks }
}

/// A text with the first `n` blocks put back, the last one first: a block that was
/// put aside late may hold the tokens of earlier ones.
pub open spec fn restore(
    name: Seq<char>,
    s: Seq<char>,
    blocks: Seq<Seq<char>>,
    n: nat,
) -> Seq<char>
    decreases n,
{
    if n == 0 {
        s
    } else {
        restore(
            name,
            replace_all(s, token(name, n - 1), blocks[n - 1]),
            blocks,
            (n - 1) as nat,
        )
    }
}

/// A text without its code, and the code.
pub struct Stash {
    pub text: String,
    pub blocks: Vec<String>,
}

impl View for Stash {
    type V = StashView;

    open spec fn view(&self) -> StashView {
        StashView { text: self.text@, blocks: text::views(self.blocks@) }
    }
}

fn put_aside(
    name: &str,
    found: Findings,
    blocks: &mut Vec<String>,
    Ghost(p): Ghost<Pattern>,
    Ghost(s): Ghost<Seq<char>>,
) -> (r: String)
    requires
        found.are(p, s),
    ensures
        r@ == set_aside(name@, p, s, old(blocks)@.len()).text,
        text::views(final(blocks)@) == text::views(old(blocks)@) + set_aside(
            name@,
            p,
            s,
            old(blocks)@.len(),
        ).blocks,
{
    let ghost ms = pattern::matches_of(p, s);
    let ghost base = blocks@.len();
    let ghost before = text::views(blocks@);
    proof {
        pattern::lemma_scan(p, s, 0);
        assert(pattern::all_captured(found.captures@).len() == ms.len());
        assert(text::views(found.pieces@).len() == ms.len() + 1);
    }
    let mut marks: Vec<String> = Vec::new();
    let mut i: usize = 0;
    while i < found.captures.len()
        invariant
            i <= found.captures@.len(),
            found.captures@.len() == ms.len(),
            pattern::all_captured(found.captures@) == pattern::all_groups(s, ms),
            pattern::in_order(p, s, ms, 0),
            marks@.len() == i,
            before.len() == base,
            blocks@.len() == base + i,
            forall|j: int| 0 <= j < i ==> (#[trigger] marks@[j])@ == token(name@, base + j),
            forall|j: int| 0 <= j < base ==> (#[trigger] blocks@[j])@ == before[j],
            forall|j: int|
                base <= j < base + i ==> (#[trigger] blocks@[j])@ == s.subrange(
                    ms[j - base].start,
                    ms[j - base].end,
                ),
        decreases found.captures@.len() - i,
    {
        proof {
            assert(pattern::all_captured(found.captures@)[i as int] == pattern::captured(
                found.captures@[i as int]@,
            ));
            assert(pattern::all_groups(s, ms)[i as int] == pattern::groups_of(s, ms[i as int]));
            pattern::lemma_match_bounds(p, s, ms[i as int]);
            let cs = pattern::captured(found.captures@[i as int]@);
            assert(cs == pattern::groups_of(s, ms[i as int]));
            assert(cs.len() > 0);
            assert(cs[0] == Some(s.subrange(ms[i as int].start, ms[i as int].end)));
        }
        marks.push(token_of(name, blocks.len()));
        match &found.captures[i][0] {
            Some(whole) => blocks.push(whole.clone()),
            None => blocks.push(String::new()),
        }
        i = i + 1;
    }
    let text = interleaved(&found.pieces, &marks);
    assert(text::views(marks@) =~= tokens(name@, base as int, ms.len()));
    assert(text::views(blocks@) =~= before + wholes(s, ms));
    text
}

/// Puts the code of a text aside.
pub fn stash_code(name: &str, s: &str) -> (r: Stash)
    ensures
        r@ == stash(name@, s@),
{
    let mut blocks: Vec<String> = Vec::new();
    let mut zero = String::new();
    zero.push('\0');
    assert(zero@ =~= nul());
    let plain = replaced(s, zero.as_str(), token_of(name, 0).as_str());
    blocks.push(zero);
    assert(text::views(blocks@) =~= seq![nul()]);
    let fenced = put_aside(
        name,
        find_fenced(plain.as_str()),
        &mut blocks,
        Ghost(Pattern::Fenced),
        Ghost(plain@),
    );
    assert(text::views(blocks@).len() == blocks@.len());
    let text = put_aside(
        name,
        find_inline(fenced.as_str()),
        &mut blocks,
        Ghost(Pattern::Inline),
        Ghost(fenced@),
    );
    Stash { text, blocks }
}

/// Puts the code back into a text.
pub fn restore_code(name: &str, s: &str, blocks: &Vec<String>) -> (r: String)
    ensures
        r@ == restore(name@, s@, text::views(blocks@), blocks@.len()),
{
    let ghost bs = text::views(blocks@);
    let mut r = String::from_str(s);
    let mut n: usize = blocks.len();
    while n > 0
        invariant
            n <= blocks@.len(),
            bs == text::views(blocks@),
            restore(name@, s@, bs, blocks@.len()) == restore(name@, r@, bs, n as nat),
        decreases n,
    {
        let mark = token_of(name, n - 1);
        assert(bs[n - 1] == blocks@[n - 1]@);
        r = replaced(r.as_str(), mark.as_str(), blocks[n - 1].as_str());
        n = n - 1;
    }
    r
}

/// Texts with their code put back.
pub open spec fn all_restored(
    name: Seq<char>,
    vs: Seq<Seq<char>>,
    blocks: Seq<Seq<char>>,
) -> Seq<Seq<char>> {
    Seq::new(vs.len(), |i: int| restore(name, vs[i], blocks, blocks.len()))
}

/// Puts the code back into each of some texts.
pub fn restore_each(name: &str, texts: &Vec<String>, blocks: &Vec<String>) -> (r: Vec<String>)
    ensures
        text::views(r@) == all_restored(name@, text::views(texts@), text::views(blocks@)),
{
    let mut r: Vec<String> = Vec::new();
    let mut i: usize = 0;
    while i < texts.len()
        invariant
            i <= texts@.len(),
            r@.len() == i,
            forall|j: int|
                0 <= j < i ==> (#[trigger] r@[j])@ == restore(
                    name@,
                    texts@[j]@,
                    text::views(blocks@),
                    blocks@.len(),
                ),
        decreases texts@.len() - i,
    {
        r.push(restore_code(name, texts[i].as_str(), blocks));
        i = i + 1;
    }
    assert(text::views(r@) =~= all_restored(name@, text::views(texts@), text::views(blocks@)));
    r
}

// ---------------------------------------------------------------- tokened texts

/// Whether a name can tell tokens apart: it starts with a `K` and is made of the
/// letters that the library uses for it.
pub open spec fn is_mark(name: Seq<char>) -> bool {
    name.len() > 0 && name[0] == 'K' && forall|i: int|
        0 <= i < name.len() ==> 'A' <= #[trigger] name[i] <= 'Z'
}

/// Whether a character never stands in a token.
pub open spec fn outside(c: char) -> bool {
    c != '\0' && !('A' <= c <= 'Z') && !('0' <= c <= '9')
}

/// Whether a text is made of tokens for the first `m` blocks and characters other
/// than NUL.
#[verifier::opaque]
pub open spec fn tokened(name: Seq<char>, s: Seq<char>, m: nat) -> bool
    decreases s.len(),
{
    ||| s.len() == 0
    ||| s[0] != '\0' && tokened(name, s.skip(1), m)
    ||| exists|i: int| 0 <= i < m && #[trigger] leads(name, s, i) && tokened(
        name,
        s.skip(token(name, i).len() as int),
        m,
    )
}

/// Whether a text starts with token `i`.
pub open spec fn leads(name: Seq<char>, s: Seq<char>, i: int) -> bool {
    occurs_at(s, token(name, i), 0)
}

/// What stands where in a token.
pub proof fn lemma_token(name: Seq<char>, i: int)
    requires
        is_mark(name),
        0 <= i,
    ensures
        ({
            let t = token(name, i);
            let n = name.len() as int;
            &&& t.len() >= n + 10
            &&& t[0] == '\0'
            &&& t[1] == 'K'
            &&& forall|j: int| 1 <= j <= n ==> #[trigger] t[j] == name[j - 1]
            &&& t[n + 1] == '\0'
            &&& t[n + 2] == 'B'
            &&& t[n + 7] == '\0'
            &&& t[t.len() - 1] == '\0'
            &&& forall|j: int| n + 8 <= j < t.len() - 1 ==> '0' <= #[trigger] t[j] <= '9'
            &&& forall|j: int| 0 <= j < t.len() ==> !outside(#[trigger] t[j])
            &&& forall|j: int|
                0 <= j < t.len() ==> (#[trigger] t[j] == '\0' ==> j == 0 || j == n + 1 || j == n + 7
                    || j == t.len() - 1)
            &&& t.subrange(n + 8, t.len() - 1) == number::decimal(i)
        }),
{
    let t = token(name, i);
    let n = name.len() as int;
    number::lemma_numeral_digits(i as nat);
    let d = number::decimal(i);
    assert(forall|j: int| 0 <= j < d.len() ==> number::is_digit(#[trigger] d[j]));
    assert(t.len() == n + 9 + d.len());
    assert forall|j: int| n + 8 <= j < t.len() - 1 implies '0' <= #[trigger] t[j] <= '9' by {
        assert(t[j] == d[j - n - 8]);
    }
    assert(t.subrange(n + 8, t.len() - 1) =~= d);
}

/// Tokens of different numbers do not stand in one place.
proof fn lemma_tokens_differ(name: Seq<char>, s: Seq<char>, i: int, j: int)
    requires
        is_mark(name),
        0 <= i,
        0 <= j,
        leads(name, s, i),
        leads(name, s, j),
    ensures
        i == j,
{
    lemma_token(name, i);
    lemma_token(name, j);
    let a = token(name, i);
    let b = token(name, j);
    let n = name.len() as int;
    assert forall|k: int| 0 <= k < a.len() implies s[k] == #[trigger] a[k] by {
        assert(s.subrange(0, a.len() as int)[k] == a[k]);
    }
    assert forall|k: int| 0 <= k < b.len() implies s[k] == #[trigger] b[k] by {
        assert(s.subrange(0, b.len() as int)[k] == b[k]);
    }
    if a.len() < b.len() {
        assert(s[a.len() - 1] == b[a.len() - 1]);
    } else if b.len() < a.len() {
        assert(s[b.len() - 1] == a[b.len() - 1]);
    }
    assert(a =~= b);
    number::law_decimal_round_trip(i);
    number::law_decimal_round_trip(j);
}

/// In a tokened text the first NUL is followed by the name of a token.
proof fn lemma_first_nul(name: Seq<char>, s: Seq<char>, m: nat, p: int)
    requires
        is_mark(name),
        tokened(name, s, m),
        0 <= p < s.len(),
        s[p] == '\0',
        forall|j: int| 0 <= j < p ==> #[trigger] s[j] != '\0',
    ensures
        p + 1 < s.len(),
        s[p + 1] == 'K',
    decreases s.len(),
{
    reveal(tokened);
    if s[0] != '\0' && tokened(name, s.skip(1), m) {
        lemma_first_nul(name, s.skip(1), m, p - 1);
    } else {
        let i = choose|i: int|
            0 <= i < m && #[trigger] leads(name, s, i) && tokened(
                name,
                s.skip(token(name, i).len() as int),
                m,
            );
        lemma_token(name, i);
        let t = token(name, i);
        assert(s.subrange(0, t.len() as int)[0] == t[0]);
        assert(s.subrange(0, t.len() as int)[1] == t[1]);
    }
}

/// No token stands in a text at a place inside another token.
proof fn lemma_no_token_inside(name: Seq<char>, s: Seq<char>, m: nat, i: int, j: int, q: int)
    requires
        is_mark(name),
        0 <= i,
        0 <= j,
        leads(name, s, i),
        tokened(name, s.skip(token(name, i).len() as int), m),
        0 < q < token(name, i).len(),
    ensures
        !occurs_at(s, token(name, j), q),
{
    let a = token(name, i);
    let b = token(name, j);
    let n = name.len() as int;
    lemma_token(name, i);
    lemma_token(name, j);
    if occurs_at(s, b, q) {
        assert forall|k: int| 0 <= k < a.len() implies s[k] == #[trigger] a[k] by {
            assert(s.subrange(0, a.len() as int)[k] == a[k]);
        }
        assert forall|k: int| 0 <= k < b.len() implies s[q + k] == #[trigger] b[k] by {
            assert(s.subrange(q, q + b.len())[k] == b[k]);
        }
        assert(a[q] == b[0]);
        assert(s[q + 1] == b[1]);
        if q < a.len() - 1 {
            assert(s[q + 1] == a[q + 1]);
        } else {
            let rest = s.skip(a.len() as int);
            assert forall|k: int| 0 <= k < n implies #[trigger] rest[k] != '\0' by {
                assert(rest[k] == s[q + (k + 1)]);
                assert(b[k + 1] == name[k]);
            }
            assert(rest[n] == s[q + (n + 1)]);
            assert(b[n + 1] == '\0');
            lemma_first_nul(name, rest, m, n);
            assert(rest[n + 1] == s[q + (n + 2)]);
            assert(b[n + 2] == 'B');
        }
    }
}

proof fn lemma_tokened_step(name: Seq<char>, s: Seq<char>, m: nat, i: int)
    requires
        0 <= i < m,
        leads(name, s, i),
        tokened(name, s.skip(token(name, i).len() as int), m),
    ensures
        tokened(name, s, m),
{
    reveal(tokened);
}

/// A tokened text behind a tokened text is a tokened text.
proof fn lemma_tokened_add(name: Seq<char>, a: Seq<char>, b: Seq<char>, m: nat)
    requires
        tokened(name, a, m),
        tokened(name, b, m),
    ensures
        tokened(name, a + b, m),
    decreases a.len(),
{
    reveal(tokened);
    if a.len() == 0 {
        assert(a + b =~= b);
    } else if a[0] != '\0' && tokened(name, a.skip(1), m) {
        lemma_tokened_add(name, a.skip(1), b, m);
        assert((a + b).skip(1) =~= a.skip(1) + b);
    } else {
        let i = choose|i: int|
            0 <= i < m && #[trigger] leads(name, a, i) && tokened(
                name,
                a.skip(token(name, i).len() as int),
                m,
            );
        let n = token(name, i).len() as int;
        lemma_tokened_add(name, a.skip(n), b, m);
        assert((a + b).skip(n) =~= a.skip(n) + b);
        assert((a + b).subrange(0, n) =~= a.subrange(0, n));
        lemma_tokened_step(name, a + b, m, i);
    }
}

proof fn lemma_tokened_more(name: Seq<char>, a: Seq<char>, m: nat, k: nat)
    requires
        tokened(name, a, m),
        m <= k,
    ensures
        tokened(name, a, k),
    decreases a.len(),
{
    reveal(tokened);
    if a.len() == 0 {
    } else if a[0] != '\0' && tokened(name, a.skip(1), m) {
        lemma_tokened_more(name, a.skip(1), m, k);
    } else {
        let i = choose|i: int|
            0 <= i < m && #[trigger] leads(name, a, i) && tokened(
                name,
                a.skip(token(name, i).len() as int),
                m,
            );
        lemma_tokened_more(name, a.skip(token(name, i).len() as int), m, k);
        lemma_tokened_step(name, a, k, i);
    }
}

/// A text without NUL is a tokened text.
pub proof fn lemma_plain_tokened(name: Seq<char>, s: Seq<char>, m: nat)
    requires
        forall|j: int| 0 <= j < s.len() ==> #[trigger] s[j] != '\0',
    ensures
        tokened(name, s, m),
    decreases s.len(),
{
    reveal(tokened);
    if s.len() > 0 {
        assert forall|j: int| 0 <= j < s.skip(1).len() implies #[trigger] s.skip(1)[j] != '\0' by {
            assert(s.skip(1)[j] == s[j + 1]);
        }
        lemma_plain_tokened(name, s.skip(1), m);
    }
}

proof fn lemma_token_tokened(name: Seq<char>, i: int, m: nat)
    requires
        is_mark(name),
        0 <= i < m,
    ensures
        tokened(name, token(name, i), m),
{
    reveal(tokened);
    let t = token(name, i);
    assert(t.subrange(0, t.len() as int) =~= t);
    assert(t.skip(t.len() as int).len() == 0);
    lemma_tokened_step(name, t, m, i);
}

/// A tokened text may be cut before a character that stands in no token.
pub proof fn lemma_tokened_cut(name: Seq<char>, s: Seq<char>, m: nat, p: int)
    requires
        is_mark(name),
        tokened(name, s, m),
        0 <= p < s.len(),
        outside(s[p]),
    ensures
        tokened(name, s.take(p), m),
        tokened(name, s.skip(p), m),
        tokened(name, s.skip(p + 1), m),
    decreases s.len(),
{
    reveal(tokened);
    if p == 0 {
        assert(s.take(0).len() == 0);
        assert(s.skip(0) =~= s);
        if !tokened(name, s.skip(1), m) {
            let i = choose|i: int|
                0 <= i < m && #[trigger] leads(name, s, i) && tokened(
                    name,
                    s.skip(token(name, i).len() as int),
                    m,
                );
            lemma_token(name, i);
            assert(s.subrange(0, token(name, i).len() as int)[0] == token(name, i)[0]);
        }
    } else if s[0] != '\0' && tokened(name, s.skip(1), m) {
        lemma_tokened_cut(name, s.skip(1), m, p - 1);
        assert(s.skip(1).take(p - 1) =~= s.take(p).skip(1));
        assert(s.skip(1).skip(p - 1) =~= s.skip(p));
        assert(s.skip(1).skip(p) =~= s.skip(p + 1));
    } else {
        let i = choose|i: int|
            0 <= i < m && #[trigger] leads(name, s, i) && tokened(
                name,
                s.skip(token(name, i).len() as int),
                m,
            );
        lemma_token(name, i);
        let n = token(name, i).len() as int;
        if p < n {
            assert(s.subrange(0, n)[p] == token(name, i)[p]);
        }
        lemma_tokened_cut(name, s.skip(n), m, p - n);
        assert(s.skip(n).take(p - n) =~= s.take(p).skip(n));
        assert(s.skip(n).skip(p - n) =~= s.skip(p));
        assert(s.skip(n).skip(p - n + 1) =~= s.skip(p + 1));
        assert(s.take(p).subrange(0, n) =~= s.subrange(0, n));
        lemma_tokened_step(name, s.take(p), m, i);
    }
}

// ---------------------------------------------------------------- replacing tokens

proof fn lemma_replace_skip(s: Seq<char>, pat: Seq<char>, with: Seq<char>, k: int)
    requires
        0 <= k <= s.len(),
        pat.len() > 0,
        forall|q: int| 0 <= q < k ==> !#[trigger] occurs_at(s, pat, q),
    ensures
        replace_all(s, pat, with) == s.take(k) + replace_all(s.skip(k), pat, with),
    decreases k,
{
    if k == 0 {
        assert(s.take(0) + replace_all(s.skip(0), pat, with) =~= replace_all(s.skip(0), pat, with));
        assert(s.skip(0) =~= s);
    } else {
        let u = s.skip(1);
        assert forall|q: int| 0 <= q < k - 1 implies !#[trigger] occurs_at(u, pat, q) by {
            if occurs_at(u, pat, q) {
                assert(u.subrange(q, q + pat.len()) =~= s.subrange(q + 1, q + 1 + pat.len()));
                assert(occurs_at(s, pat, q + 1));
            }
        }
        lemma_replace_skip(u, pat, with, k - 1);
        assert(u.skip(k - 1) =~= s.skip(k));
        assert(!occurs_at(s, pat, 0));
        assert(seq![s[0]] + (u.take(k - 1) + replace_all(s.skip(k), pat, with)) =~= s.take(k)
            + replace_all(s.skip(k), pat, with));
    }
}

/// A token other than the one looked for is passed over.
proof fn lemma_replace_other(name: Seq<char>, s: Seq<char>, m: nat, i: int, j: int, w: Seq<char>)
    requires
        is_mark(name),
        0 <= i,
        0 <= j,
        i != j,
        leads(name, s, i),
        tokened(name, s.skip(token(name, i).len() as int), m),
    ensures
        replace_all(s, token(name, j), w) == token(name, i) + replace_all(
            s.skip(token(name, i).len() as int),
            token(name, j),
            w,
        ),
{
    let n = token(name, i).len() as int;
    lemma_token(name, j);
    assert forall|q: int| 0 <= q < n implies !#[trigger] occurs_at(s, token(name, j), q) by {
        if q == 0 {
            if leads(name, s, j) {
                lemma_tokens_differ(name, s, i, j);
            }
        } else {
            lemma_no_token_inside(name, s, m, i, j, q);
        }
    }
    lemma_replace_skip(s, token(name, j), w, n);
    assert(s.take(n) =~= s.subrange(0, n));
}

/// A character other than NUL is passed over.
proof fn lemma_replace_char(name: Seq<char>, s: Seq<char>, j: int, w: Seq<char>)
    requires
        is_mark(name),
        0 <= j,
        s.len() > 0,
        s[0] != '\0',
    ensures
        replace_all(s, token(name, j), w) == seq![s[0]] + replace_all(
            s.skip(1),
            token(name, j),
            w,
        ),
{
    let t = token(name, j);
    lemma_token(name, j);
    if occurs_at(s, t, 0) {
        assert(s.subrange(0, t.len() as int)[0] == t[0]);
    }
}

/// The token looked for is replaced.
proof fn lemma_replace_hit(name: Seq<char>, s: Seq<char>, j: int, w: Seq<char>)
    requires
        leads(name, s, j),
    ensures
        replace_all(s, token(name, j), w) == w + replace_all(
            s.skip(token(name, j).len() as int),
            token(name, j),
            w,
        ),
{
}

/// Replacing a token goes piece by piece.
proof fn lemma_replace_add(
    name: Seq<char>,
    a: Seq<char>,
    b: Seq<char>,
    m: nat,
    j: int,
    w: Seq<char>,
)
    requires
        is_mark(name),
        tokened(name, a, m),
        tokened(name, b, m),
        0 <= j,
    ensures
        replace_all(a + b, token(name, j), w) == replace_all(a, token(name, j), w) + replace_all(
            b,
            token(name, j),
            w,
        ),
    decreases a.len(),
{
    reveal(tokened);
    let t = token(name, j);
    let rb = replace_all(b, t, w);
    if a.len() == 0 {
        assert(a + b =~= b);
        assert(replace_all(a, t, w) =~= a);
        assert(a + rb =~= rb);
    } else if a[0] != '\0' && tokened(name, a.skip(1), m) {
        lemma_replace_add(name, a.skip(1), b, m, j, w);
        lemma_replace_char(name, a, j, w);
        lemma_replace_char(name, a + b, j, w);
        assert((a + b).skip(1) =~= a.skip(1) + b);
        let ra = replace_all(a.skip(1), t, w);
        assert(seq![a[0]] + (ra + rb) =~= (seq![a[0]] + ra) + rb);
    } else {
        let i = choose|i: int|
            0 <= i < m && #[trigger] leads(name, a, i) && tokened(
                name,
                a.skip(token(name, i).len() as int),
                m,
            );
        let n = token(name, i).len() as int;
        lemma_replace_add(name, a.skip(n), b, m, j, w);
        lemma_tokened_add(name, a.skip(n), b, m);
        assert((a + b).skip(n) =~= a.skip(n) + b);
        assert((a + b).subrange(0, n) =~= a.subrange(0, n));
        let ra = replace_all(a.skip(n), t, w);
        if i == j {
            lemma_replace_hit(name, a, j, w);
            lemma_replace_hit(name, a + b, j, w);
            assert(w + (ra + rb) =~= (w + ra) + rb);
        } else {
            lemma_replace_other(name, a, m, i, j, w);
            lemma_replace_other(name, a + b, m, i, j, w);
            assert(token(name, i) + (ra + rb) =~= (token(name, i) + ra) + rb);
        }
    }
}

/// A token that is not there is not replaced.
proof fn lemma_replace_none(name: Seq<char>, a: Seq<char>, m: nat, j: int, w: Seq<char>)
    requires
        is_mark(name),
        tokened(name, a, m),
        m <= j,
    ensures
        replace_all(a, token(name, j), w) == a,
    decreases a.len(),
{
    reveal(tokened);
    if a.len() == 0 {
    } else if a[0] != '\0' && tokened(name, a.skip(1), m) {
        lemma_replace_none(name, a.skip(1), m, j, w);
        lemma_replace_char(name, a, j, w);
        assert(seq![a[0]] + a.skip(1) =~= a);
    } else {
        let i = choose|i: int|
            0 <= i < m && #[trigger] leads(name, a, i) && tokened(
                name,
                a.skip(token(name, i).len() as int),
                m,
            );
        let n = token(name, i).len() as int;
        lemma_replace_none(name, a.skip(n), m, j, w);
        lemma_replace_other(name, a, m, i, j, w);
        assert(a.subrange(0, n) + a.skip(n) =~= a);
    }
}

/// Replacing the last token by a text with fewer leaves a text with fewer.
proof fn lemma_replace_tokened(name: Seq<char>, a: Seq<char>, j: nat, w: Seq<char>)
    requires
        is_mark(name),
        tokened(name, a, j + 1),
        tokened(name, w, j),
    ensures
        tokened(name, replace_all(a, token(name, j as int), w), j),
    decreases a.len(),
{
    reveal(tokened);
    let m = j + 1;
    let t = token(name, j as int);
    if a.len() == 0 {
    } else if a[0] != '\0' && tokened(name, a.skip(1), m) {
        lemma_replace_tokened(name, a.skip(1), j, w);
        lemma_replace_char(name, a, j as int, w);
        let r = replace_all(a, t, w);
        assert(r.skip(1) =~= replace_all(a.skip(1), t, w));
    } else {
        let i = choose|i: int|
            0 <= i < m && #[trigger] leads(name, a, i) && tokened(
                name,
                a.skip(token(name, i).len() as int),
                m,
            );
        let n = token(name, i).len() as int;
        lemma_replace_tokened(name, a.skip(n), j, w);
        if i == j {
            lemma_replace_hit(name, a, j as int, w);
            lemma_tokened_add(name, w, replace_all(a.skip(n), t, w), j);
        } else {
            lemma_replace_other(name, a, m, i, j as int, w);
            lemma_token_tokened(name, i, j);
            lemma_tokened_add(name, token(name, i), replace_all(a.skip(n), t, w), j);
        }
    }
}

// ---------------------------------------------------------------- putting back

/// Whether each block behind the first holds only tokens of earlier ones.
pub open spec fn nested(name: Seq<char>, blocks: Seq<Seq<char>>) -> bool {
    forall|j: int| 0 < j < blocks.len() ==> tokened(name, #[trigger] blocks[j], j as nat)
}

/// Putting back goes piece by piece.
pub proof fn lemma_restore_add(
    name: Seq<char>,
    a: Seq<char>,
    b: Seq<char>,
    blocks: Seq<Seq<char>>,
    n: nat,
)
    requires
        is_mark(name),
        tokened(name, a, n),
        tokened(name, b, n),
        nested(name, blocks),
        n <= blocks.len(),
    ensures
        restore(name, a + b, blocks, n) == restore(name, a, blocks, n) + restore(
            name,
            b,
            blocks,
            n,
        ),
    decreases n,
{
    if n > 0 {
        let j = (n - 1) as nat;
        let t = token(name, j as int);
        let w = blocks[j as int];
        reveal_with_fuel(restore, 2);
        lemma_replace_add(name, a, b, n, j as int, w);
        if j > 0 {
            lemma_replace_tokened(name, a, j, w);
            lemma_replace_tokened(name, b, j, w);
            lemma_restore_add(name, replace_all(a, t, w), replace_all(b, t, w), blocks, j);
        }
    }
}

/// Whether matches stand in order and each starts and ends with a backtick.
spec fn backticked(s: Seq<char>, ms: Seq<Match>) -> bool {
    &&& pattern::spread(s, ms)
    &&& forall|i: int|
        0 <= i < ms.len() ==> s[(#[trigger] ms[i]).start] == '`' && s[ms[i].end - 1] == '`'
            && ms[i].start < ms[i].end - 1
}

proof fn lemma_code_ends(p: Pattern, s: Seq<char>, m: Match)
    requires
        p is Fenced || p is Inline,
        pattern::match_at(p, s, m),
    ensures
        0 <= m.start < m.end - 1 < s.len(),
        s[m.start] == '`',
        s[m.end - 1] == '`',
{
    if p is Fenced {
        assert(s.subrange(m.start, m.start + 3)[0] == '`');
        assert(s.subrange(m.end - 3, m.end)[2] == '`');
    }
}

/// The code that the patterns find starts and ends with a backtick.
proof fn lemma_backticked(p: Pattern, s: Seq<char>)
    requires
        p is Fenced || p is Inline,
    ensures
        backticked(s, pattern::matches_of(p, s)),
{
    let ms = pattern::matches_of(p, s);
    pattern::lemma_scan(p, s, 0);
    assert forall|i: int| 0 <= i < ms.len() implies s[(#[trigger] ms[i]).start] == '`'
        && s[ms[i].end - 1] == '`' && ms[i].start < ms[i].end - 1 by {
        lemma_code_ends(p, s, ms[i]);
    }
}

/// The pieces into which code cuts a tokened text are tokened texts.
proof fn lemma_cut_pieces(name: Seq<char>, s: Seq<char>, ms: Seq<Match>, base: nat, i: int)
    requires
        is_mark(name),
        backticked(s, ms),
        tokened(name, s, base),
        0 <= i <= ms.len(),
    ensures
        tokened(name, s.skip(pattern::gap_start(ms, i)), base),
        tokened(name, pattern::gap(s, ms, i), base),
        i < ms.len() ==> tokened(name, wholes(s, ms)[i], base),
        0 <= pattern::gap_start(ms, i) <= s.len(),
{
    let g = pattern::gap_start(ms, i);
    let n = s.len() as int;
    if i > 0 {
        assert(outside(s[ms[i - 1].end - 1]));
    }
    lemma_tokened_between(name, s, base, g, n);
    assert(s.subrange(g, n) =~= s.skip(g));
    if i < ms.len() {
        let m = ms[i];
        assert(outside(s[m.start]));
        lemma_tokened_between(name, s, base, g, m.start);
        lemma_tokened_inclusive(name, s, base, m.start, m.end);
    }
}

/// A tokened text may be cut out together with the characters at its ends, where
/// these stand in no token.
pub proof fn lemma_tokened_inclusive(name: Seq<char>, s: Seq<char>, m: nat, i: int, j: int)
    requires
        is_mark(name),
        tokened(name, s, m),
        0 <= i < j <= s.len(),
        outside(s[i]),
        outside(s[j - 1]),
    ensures
        tokened(name, s.subrange(i, j), m),
{
    lemma_tokened_cut(name, s, m, i);
    let u = s.skip(i);
    let k = j - 1 - i;
    assert(u[k] == s[j - 1]);
    lemma_tokened_cut(name, u, m, k);
    let last = seq![s[j - 1]];
    lemma_plain_tokened(name, last, m);
    lemma_tokened_add(name, u.take(k), last, m);
    assert(u.take(k) + last =~= s.subrange(i, j));
}

/// A text with its first `n` matches put aside.
spec fn half_done(name: Seq<char>, s: Seq<char>, ms: Seq<Match>, base: nat, n: nat) -> Seq<char> {
    let ts = tokens(name, base as int, ms.len());
    (if n == 0 {
        Seq::empty()
    } else {
        interleave(pattern::gaps(s, ms), ts, (n - 1) as nat) + ts[n - 1]
    }) + s.skip(pattern::gap_start(ms, n as int))
}

proof fn lemma_interleave_tokened(name: Seq<char>, s: Seq<char>, ms: Seq<Match>, base: nat, n: nat)
    requires
        is_mark(name),
        backticked(s, ms),
        tokened(name, s, base),
        n <= ms.len(),
    ensures
        tokened(
            name,
            interleave(
                pattern::gaps(s, ms),
                tokens(name, base as int, ms.len()),
                n,
            ),
            base + n,
        ),
    decreases n,
{
    let gs = pattern::gaps(s, ms);
    let ts = tokens(name, base as int, ms.len());
    lemma_cut_pieces(name, s, ms, base, n as int);
    lemma_tokened_more(name, gs[n as int], base, base + n);
    if n > 0 {
        let k = (n - 1) as nat;
        lemma_interleave_tokened(name, s, ms, base, k);
        let x = interleave(gs, ts, k);
        lemma_tokened_more(name, x, base + k, base + n);
        lemma_token_tokened(name, (base + k) as int, base + n);
        lemma_tokened_add(name, x, ts[n - 1], base + n);
        lemma_tokened_add(name, x + ts[n - 1], gs[n as int], base + n);
    }
}

/// Putting back the last block that was put aside undoes that step.
proof fn lemma_undo_step(name: Seq<char>, s: Seq<char>, ms: Seq<Match>, base: nat, n: nat)
    requires
        is_mark(name),
        backticked(s, ms),
        tokened(name, s, base),
        0 < n <= ms.len(),
    ensures
        replace_all(
            half_done(name, s, ms, base, n),
            token(name, base + n - 1),
            wholes(s, ms)[n - 1],
        ) == half_done(name, s, ms, base, (n - 1) as nat),
{
    let gs = pattern::gaps(s, ms);
    let ts = tokens(name, base as int, ms.len());
    let k = (n - 1) as nat;
    let j = base + k;
    let w = wholes(s, ms)[k as int];
    let t = token(name, j as int);
    let x = interleave(gs, ts, k);
    let tail = s.skip(pattern::gap_start(ms, n as int));
    lemma_interleave_tokened(name, s, ms, base, k);
    lemma_cut_pieces(name, s, ms, base, n as int);
    lemma_cut_pieces(name, s, ms, base, k as int);
    lemma_tokened_more(name, x, j, j + 1);
    lemma_token_tokened(name, j as int, j + 1);
    lemma_tokened_more(name, tail, base, j + 1);
    lemma_tokened_add(name, t, tail, j + 1);
    assert(ts[k as int] == t);
    assert(half_done(name, s, ms, base, n) =~= x + (t + tail));
    lemma_replace_add(name, x, t + tail, j + 1, j as int, w);
    lemma_replace_none(name, x, j, j as int, w);
    lemma_tokened_more(name, tail, base, j);
    lemma_replace_none(name, tail, j, j as int, w);
    assert((t + tail).subrange(0, t.len() as int) =~= t);
    lemma_replace_hit(name, t + tail, j as int, w);
    assert((t + tail).skip(t.len() as int) =~= tail);
    let from = pattern::gap_start(ms, k as int);
    let m = ms[k as int];
    assert(s.skip(from) =~= gs[k as int] + w + tail);
    if k == 0 {
        assert(x == gs[0]);
        assert(x + (w + tail) =~= half_done(name, s, ms, base, k));
    } else {
        let y = interleave(gs, ts, (k - 1) as nat) + ts[k - 1];
        assert(x == y + gs[k as int]);
        assert(x + (w + tail) =~= y + (gs[k as int] + w + tail));
    }
}

/// Putting back all blocks of one kind undoes putting them aside.
proof fn lemma_undo(
    name: Seq<char>,
    s: Seq<char>,
    ms: Seq<Match>,
    base: nat,
    n: nat,
    blocks: Seq<Seq<char>>,
)
    requires
        is_mark(name),
        backticked(s, ms),
        tokened(name, s, base),
        n <= ms.len(),
        base + ms.len() <= blocks.len(),
        forall|i: int|
            0 <= i < ms.len() ==> #[trigger] blocks[base + i] == wholes(
                s,
                ms,
            )[i],
    ensures
        restore(
            name,
            half_done(name, s, ms, base, n),
            blocks,
            base + n,
        ) == restore(name, s, blocks, base),
    decreases n,
{
    if n == 0 {
        assert(half_done(name, s, ms, base, 0) =~= s);
    } else {
        let k = (n - 1) as nat;
        lemma_undo_step(name, s, ms, base, n);
        lemma_undo(name, s, ms, base, k, blocks);
        assert(blocks[(base + k) as int] == wholes(s, ms)[k as int]);
    }
}

/// What putting code aside leaves, and that putting it back undoes it.
proof fn lemma_set_aside(
    name: Seq<char>,
    p: Pattern,
    s: Seq<char>,
    base: nat,
    blocks: Seq<Seq<char>>,
)
    requires
        is_mark(name),
        p is Fenced || p is Inline,
        tokened(name, s, base),
        base + pattern::matches_of(p, s).len() <= blocks.len(),
        forall|i: int|
            0 <= i < pattern::matches_of(p, s).len() ==> #[trigger] blocks[base + i] == wholes(
                s,
                pattern::matches_of(p, s),
            )[i],
    ensures
        ({
            let st = set_aside(name, p, s, base);
            &&& tokened(name, st.text, base + st.blocks.len())
            &&& forall|i: int|
                0 <= i < st.blocks.len() ==> tokened(name, #[trigger] st.blocks[i], base)
            &&& restore(name, st.text, blocks, base + st.blocks.len()) == restore(
                name,
                s,
                blocks,
                base,
            )
        }),
{
    let ms = pattern::matches_of(p, s);
    let st = set_aside(name, p, s, base);
    let n = ms.len();
    let gs = pattern::gaps(s, ms);
    let ts = tokens(name, base as int, n);
    lemma_backticked(p, s);
    lemma_interleave_tokened(name, s, ms, base, n);
    assert forall|i: int| 0 <= i < st.blocks.len() implies tokened(
        name,
        #[trigger] st.blocks[i],
        base,
    ) by {
        lemma_cut_pieces(name, s, ms, base, i);
    }
    lemma_undo(name, s, ms, base, n, blocks);
    lemma_cut_pieces(name, s, ms, base, n as int);
    assert(gs[n as int] =~= s.skip(pattern::gap_start(ms, n as int)));
    if n == 0 {
        assert(half_done(name, s, ms, base, n) =~= st.text);
    } else {
        assert(half_done(name, s, ms, base, n) =~= st.text);
    }
}

// ---------------------------------------------------------------- NULs

/// Putting NULs aside goes character by character.
pub proof fn lemma_hidden_first(name: Seq<char>, s: Seq<char>)
    requires
        s.len() > 0,
    ensures
        hidden(name, s) == (if s[0] == '\0' {
            token(name, 0)
        } else {
            seq![s[0]]
        }) + hidden(name, s.skip(1)),
{
    if s[0] == '\0' {
        assert(s.subrange(0, 1) =~= nul());
    } else if occurs_at(s, nul(), 0) {
        assert(s.subrange(0, 1)[0] == s[0]);
    }
}

/// Putting NULs aside goes piece by piece.
pub proof fn lemma_hidden_add(name: Seq<char>, a: Seq<char>, b: Seq<char>)
    ensures
        hidden(name, a + b) == hidden(name, a) + hidden(name, b),
    decreases a.len(),
{
    if a.len() == 0 {
        assert(a + b =~= b);
        assert(hidden(name, a) + hidden(name, b) =~= hidden(name, b));
    } else {
        lemma_hidden_first(name, a);
        lemma_hidden_first(name, a + b);
        lemma_hidden_add(name, a.skip(1), b);
        assert((a + b).skip(1) =~= a.skip(1) + b);
        let first = if a[0] == '\0' {
            token(name, 0)
        } else {
            seq![a[0]]
        };
        assert(first + (hidden(name, a.skip(1)) + hidden(name, b)) =~= (first + hidden(
            name,
            a.skip(1),
        )) + hidden(name, b));
    }
}

/// Without its NULs a text is a tokened text, and putting them back undoes it.
pub proof fn lemma_hidden(name: Seq<char>, s: Seq<char>)
    requires
        is_mark(name),
    ensures
        tokened(name, hidden(name, s), 1),
        replace_all(hidden(name, s), token(name, 0), nul()) == s,
    decreases s.len(),
{
    if s.len() == 0 {
        lemma_plain_tokened(name, s, 1);
    } else {
        let t = token(name, 0);
        let h = hidden(name, s);
        let u = hidden(name, s.skip(1));
        lemma_hidden_first(name, s);
        lemma_hidden(name, s.skip(1));
        if s[0] == '\0' {
            lemma_token_tokened(name, 0, 1);
            lemma_tokened_add(name, t, u, 1);
            assert(h.subrange(0, t.len() as int) =~= t);
            assert(h.skip(t.len() as int) =~= u);
            lemma_replace_hit(name, h, 0, nul());
            assert(nul() + s.skip(1) =~= s);
        } else {
            lemma_plain_tokened(name, seq![s[0]], 1);
            lemma_tokened_add(name, seq![s[0]], u, 1);
            assert(h.skip(1) =~= u);
            lemma_replace_char(name, h, 0, nul());
            assert(seq![s[0]] + s.skip(1) =~= s);
        }
    }
}

/// Putting the NULs back and aside again gives the text without them.
pub proof fn lemma_hidden_again(name: Seq<char>, s: Seq<char>)
    requires
        is_mark(name),
        tokened(name, s, 1),
    ensures
        hidden(name, replace_all(s, token(name, 0), nul())) == s,
    decreases s.len(),
{
    reveal(tokened);
    let t = token(name, 0);
    let r = replace_all(s, t, nul());
    if s.len() == 0 {
    } else if s[0] != '\0' && tokened(name, s.skip(1), 1) {
        lemma_hidden_again(name, s.skip(1));
        lemma_replace_char(name, s, 0, nul());
        lemma_hidden_first(name, r);
        assert(r.skip(1) =~= replace_all(s.skip(1), t, nul()));
        assert(seq![s[0]] + s.skip(1) =~= s);
    } else {
        let n = t.len() as int;
        assert(leads(name, s, 0));
        lemma_token(name, 0);
        lemma_hidden_again(name, s.skip(n));
        lemma_replace_hit(name, s, 0, nul());
        lemma_hidden_first(name, r);
        assert(r.skip(1) =~= replace_all(s.skip(n), t, nul()));
        assert(s.subrange(0, n) + s.skip(n) =~= s);
    }
}

/// Putting the code of a text aside and back gives the text, and what was put aside
/// is tokened text.
pub proof fn law_stash_restores(name: Seq<char>, s: Seq<char>)
    requires
        is_mark(name),
    ensures
        restore(name, stash(name, s).text, stash(name, s).blocks, stash(name, s).blocks.len())
            == s,
        tokened(name, stash(name, s).text, stash(name, s).blocks.len()),
        nested(name, stash(name, s).blocks),
{
    let h = hidden(name, s);
    let fenced = set_aside(name, Pattern::Fenced, h, 1);
    let n = 1 + fenced.blocks.len();
    let inline = set_aside(name, Pattern::Inline, fenced.text, n);
    let all = stash(name, s).blocks;
    lemma_hidden(name, s);
    assert forall|i: int| 0 <= i < fenced.blocks.len() implies #[trigger] all[1 + i] == wholes(
        h,
        pattern::matches_of(Pattern::Fenced, h),
    )[i] by {}
    lemma_set_aside(name, Pattern::Fenced, h, 1, all);
    assert forall|i: int| 0 <= i < inline.blocks.len() implies #[trigger] all[n + i] == wholes(
        fenced.text,
        pattern::matches_of(Pattern::Inline, fenced.text),
    )[i] by {}
    lemma_set_aside(name, Pattern::Inline, fenced.text, n, all);
    reveal_with_fuel(restore, 2);
    assert(all[0] == nul());
    assert forall|j: int| 0 < j < all.len() implies tokened(
        name,
        #[trigger] all[j],
        j as nat,
    ) by {
        if j < n {
            assert(all[j] == fenced.blocks[j - 1]);
            lemma_tokened_more(name, all[j], 1, j as nat);
        } else {
            assert(all[j] == inline.blocks[j - n]);
            lemma_tokened_more(name, all[j], n, j as nat);
        }
    }
}

/// A tokened text may be cut out between characters that stand in no token.
pub proof fn lemma_tokened_between(name: Seq<char>, s: Seq<char>, m: nat, i: int, j: int)
    requires
        is_mark(name),
        tokened(name, s, m),
        0 <= i <= j <= s.len(),
        i == 0 || outside(s[i - 1]),
        j == s.len() || outside(s[j]),
    ensures
        tokened(name, s.subrange(i, j), m),
{
    if i > 0 {
        lemma_tokened_cut(name, s, m, i - 1);
    } else {
        assert(s.skip(0) =~= s);
    }
    let u = s.skip(i);
    if j < s.len() {
        assert(u[j - i] == s[j]);
        lemma_tokened_cut(name, u, m, j - i);
        assert(u.take(j - i) =~= s.subrange(i, j));
    } else {
        assert(u =~= s.subrange(i, j));
    }
}

/// A tokened text without the white space around it is a tokened text.
pub proof fn lemma_tokened_trim(name: Seq<char>, s: Seq<char>, m: nat)
    requires
        is_mark(name),
        tokened(name, s, m),
    ensures
        tokened(name, text::trim(s), m),
{
    lemma_tokened_trim_start(name, s, m);
    lemma_tokened_trim_end(name, text::trim_start(s), m);
}

proof fn lemma_tokened_trim_start(name: Seq<char>, s: Seq<char>, m: nat)
    requires
        is_mark(name),
        tokened(name, s, m),
    ensures
        tokened(name, text::trim_start(s), m),
    decreases s.len(),
{
    if s.len() > 0 && text::white(s[0]) {
        lemma_tokened_cut(name, s, m, 0);
        lemma_tokened_trim_start(name, s.skip(1), m);
    }
}

proof fn lemma_tokened_trim_end(name: Seq<char>, s: Seq<char>, m: nat)
    requires
        is_mark(name),
        tokened(name, s, m),
    ensures
        tokened(name, text::trim_end(s), m),
    decreases s.len(),
{
    if s.len() > 0 && text::white(s.last()) {
        lemma_tokened_cut(name, s, m, s.len() - 1);
        assert(s.take(s.len() - 1) =~= s.drop_last());
        lemma_tokened_trim_end(name, s.drop_last(), m);
    }
}

/// Tokened texts put together are a tokened text.
pub proof fn lemma_tokened_join(name: Seq<char>, a: Seq<char>, b: Seq<char>, m: nat)
    requires
        tokened(name, a, m),
        tokened(name, b, m),
    ensures
        tokened(name, a + b, m),
{
    lemma_tokened_add(name, a, b, m);
}

/// Whether all of `vs` are tokened texts.
pub open spec fn all_tokened(name: Seq<char>, vs: Seq<Seq<char>>, m: nat) -> bool {
    forall|i: int| 0 <= i < vs.len() ==> tokened(name, #[trigger] vs[i], m)
}

/// Putting code back into interleaved texts is interleaving the texts with their
/// code put back.
pub proof fn lemma_restore_interleaved(
    name: Seq<char>,
    pieces: Seq<Seq<char>>,
    between: Seq<Seq<char>>,
    blocks: Seq<Seq<char>>,
    n: nat,
)
    requires
        is_mark(name),
        nested(name, blocks),
        all_tokened(name, pieces, blocks.len()),
        all_tokened(name, between, blocks.len()),
        n <= between.len(),
        n < pieces.len(),
    ensures
        tokened(name, interleave(pieces, between, n), blocks.len()),
        restore(name, interleave(pieces, between, n), blocks, blocks.len()) == interleave(
            all_restored(name, pieces, blocks),
            all_restored(name, between, blocks),
            n,
        ),
    decreases n,
{
    let m = blocks.len();
    assert(tokened(name, pieces[n as int], m));
    if n > 0 {
        let k = (n - 1) as nat;
        lemma_restore_interleaved(name, pieces, between, blocks, k);
        let x = interleave(pieces, between, k);
        assert(tokened(name, between[n - 1], m));
        lemma_tokened_add(name, x, between[n - 1], m);
        lemma_tokened_add(name, x + between[n - 1], pieces[n as int], m);
        lemma_restore_add(name, x, between[n - 1], blocks, m);
        lemma_restore_add(name, x + between[n - 1], pieces[n as int], blocks, m);
    }
}

/// Putting every match back where it was gives the text.
pub proof fn lemma_spliced_wholes(p: Pattern, s: Seq<char>)
    ensures
        spliced(s, pattern::matches_of(p, s), wholes(s, pattern::matches_of(p, s))) == s,
{
    let ms = pattern::matches_of(p, s);
    pattern::lemma_scan(p, s, 0);
    lemma_refilled(s, ms, ms.len());
    assert(pattern::gaps(s, ms)[ms.len() as int] == pattern::gap(s, ms, ms.len() as int));
}

proof fn lemma_refilled(s: Seq<char>, ms: Seq<Match>, n: nat)
    requires
        n <= ms.len(),
        pattern::spread(s, ms),
    ensures
        interleave(pattern::gaps(s, ms), wholes(s, ms), n) == s.take(
            if n < ms.len() {
                ms[n as int].start
            } else {
                s.len() as int
            },
        ),
    decreases n,
{
    let gs = pattern::gaps(s, ms);
    let to = if n < ms.len() {
        ms[n as int].start
    } else {
        s.len() as int
    };
    assert(gs[n as int] == pattern::gap(s, ms, n as int));
    if n == 0 {
        assert(gs[0] =~= s.take(to));
    } else {
        let k = (n - 1) as nat;
        lemma_refilled(s, ms, k);
        let m = ms[k as int];
        assert(m.end <= to);
        assert(s.take(m.start) + s.subrange(m.start, m.end) + gs[n as int] =~= s.take(to));
    }
}

} // verus!
