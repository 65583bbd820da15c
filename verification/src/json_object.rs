//! The members of a JSON object as they are written: where each one begins and ends in
//! the text. Whether a text is JSON at all, and what a name or a value says, is left to
//! the parser.

use vstd::prelude::*;
use vstd::string::*;

use crate::text;
use crate::text::{chars_of, string_between, trimmed, views};

verus! {

/// What is open at a place of a JSON text: so many brackets, perhaps a string, and in a
/// string perhaps an escape.
pub struct Lexed {
    pub depth: int,
    pub quoted: bool,
    pub escaped: bool,
}

/// What is open behind a character.
pub open spec fn stepped(l: Lexed, c: char) -> Lexed {
    if l.quoted {
        if l.escaped {
            Lexed { depth: l.depth, quoted: true, escaped: false }
        } else {
            Lexed { depth: l.depth, quoted: c != '"', escaped: c == '\\' }
        }
    } else if c == '{' || c == '[' {
        Lexed { depth: l.depth + 1, quoted: false, escaped: false }
    } else if c == '}' || c == ']' {
        Lexed { depth: l.depth - 1, quoted: false, escaped: false }
    } else {
        Lexed { depth: l.depth, quoted: c == '"', escaped: false }
    }
}

/// What is open behind the first `i` characters.
pub open spec fn lexed(s: Seq<char>, i: int) -> Lexed
    decreases i,
{
    if i <= 0 {
        Lexed { depth: 0, quoted: false, escaped: false }
    } else {
        stepped(lexed(s, i - 1), s[i - 1])
    }
}

/// Where the first `c` stands, from index `from` on, that is in no string and no
/// bracket; the length of `s` where there is none.
pub open spec fn cut(s: Seq<char>, c: char, from: int) -> int
    decreases s.len() - from,
{
    if from >= s.len() {
        s.len() as int
    } else if s[from] == c && lexed(s, from).depth == 0 && !lexed(s, from).quoted {
        from
    } else {
        cut(s, c, from + 1)
    }
}

/// What stands between the `c` that are in no string and no bracket, from index `start`
/// on.
pub open spec fn parts(s: Seq<char>, c: char, start: int) -> Seq<Seq<char>>
    decreases s.len() - start,
{
    let i = cut(s, c, start);
    if start <= i < s.len() {
        seq![s.subrange(start, i)] + parts(s, c, i + 1)
    } else {
        seq![s.skip(start)]
    }
}

/// The name and the value of a member, as they are written.
pub open spec fn named_value(m: Seq<char>) -> (Seq<char>, Seq<char>) {
    let i = cut(m, ':', 0);
    if i < m.len() {
        (m.take(i), m.skip(i + 1))
    } else {
        (m, Seq::empty())
    }
}

/// What stands between the braces of an object.
pub open spec fn inner(s: Seq<char>) -> Seq<char> {
    if s.len() >= 2 {
        s.subrange(1, s.len() - 1)
    } else {
        Seq::empty()
    }
}

/// The names and the values of the members of an object, as they are written.
pub open spec fn members(s: Seq<char>) -> Seq<(Seq<char>, Seq<char>)> {
    let ms = parts(inner(s), ',', 0);
    if text::trim(inner(s)).len() == 0 {
        Seq::empty()
    } else {
        Seq::new(ms.len(), |i: int| named_value(ms[i]))
    }
}

proof fn lemma_cut(s: Seq<char>, c: char, from: int)
    requires
        0 <= from <= s.len(),
    ensures
        from <= cut(s, c, from) <= s.len(),
    decreases s.len() - from,
{
    if from < s.len() {
        lemma_cut(s, c, from + 1);
    }
}

/// The place of the first `c` from index `from` on that is in no string and no bracket.
fn find_cut(v: &Vec<char>, c: char, from: usize) -> (r: usize)
    requires
        from <= v@.len(),
    ensures
        r == cut(v@, c, from as int),
        from <= r <= v@.len(),
{
    let mut depth: i128 = 0;
    let mut quoted: bool = false;
    let mut escaped: bool = false;
    let mut i: usize = 0;
    proof {
        lemma_cut(v@, c, from as int);
    }
    while i < v.len()
        invariant
            from <= v@.len(),
            i <= v@.len(),
            -i <= depth <= i,
            lexed(v@, i as int) == (Lexed { depth: depth as int, quoted, escaped }),
            from <= cut(v@, c, from as int) <= v@.len(),
            i >= from ==> cut(v@, c, from as int) == cut(v@, c, i as int),
        decreases v@.len() - i,
    {
        let x: char = v[i];
        if i >= from && x == c && depth == 0 && !quoted {
            return i;
        }
        if quoted {
            if escaped {
                escaped = false;
            } else {
                quoted = x != '"';
                escaped = x == '\\';
            }
        } else {
            if x == '{' || x == '[' {
                depth = depth + 1;
            } else if x == '}' || x == ']' {
                depth = depth - 1;
            } else {
                quoted = x == '"';
            }
            escaped = false;
        }
        i = i + 1;
    }
    i
}

fn parts_of(s: &str, c: char) -> (r: Vec<String>)
    ensures
        views(r@) == parts(s@, c, 0),
{
    let v = chars_of(s);
    let mut r: Vec<String> = Vec::new();
    let mut start: usize = 0;
    let ghost all = parts(s@, c, 0);
    assert(views(r@) + all =~= all);
    loop
        invariant
            v@ == s@,
            start <= v@.len(),
            all == views(r@) + parts(s@, c, start as int),
            all == parts(s@, c, 0),
        decreases v@.len() - start,
    {
        let i: usize = find_cut(&v, c, start);
        let piece = string_between(&v, start, i);
        let ghost before = views(r@);
        r.push(piece);
        assert(views(r@) =~= before.push(piece@));
        if i == v.len() {
            assert(piece@ =~= s@.skip(start as int));
            assert(before + seq![piece@] =~= before.push(piece@));
            return r;
        }
        assert(before + (seq![piece@] + parts(s@, c, i + 1)) =~= before.push(piece@) + parts(
            s@,
            c,
            i + 1,
        ));
        start = i + 1;
    }
}

/// A member of an object.
#[derive(Debug, Clone)]
pub struct ObjectMember {
    pub name: String,
    pub value: String,
}

impl View for ObjectMember {
    type V = (Seq<char>, Seq<char>);

    open spec fn view(&self) -> (Seq<char>, Seq<char>) {
        (self.name@, self.value@)
    }
}

/// Members, over texts.
pub open spec fn member_views(ms: Seq<ObjectMember>) -> Seq<(Seq<char>, Seq<char>)> {
    ms.map_values(|m: ObjectMember| m@)
}

fn named_value_of(m: &str) -> (r: ObjectMember)
    ensures
        r@ == named_value(m@),
{
    let v = chars_of(m);
    let i: usize = find_cut(&v, ':', 0);
    if i < v.len() {
        let name = string_between(&v, 0, i);
        let value = string_between(&v, i + 1, v.len());
        assert(name@ =~= m@.take(i as int));
        assert(value@ =~= m@.skip(i + 1));
        ObjectMember { name, value }
    } else {
        ObjectMember { name: String::from_str(m), value: String::new() }
    }
}

/// The members of an object, as they are written. The text is a JSON object, with
/// nothing before its first brace and nothing behind its last.
pub fn members_of(s: &str) -> (r: Vec<ObjectMember>)
    ensures
        member_views(r@) == members(s@),
{
    let v = chars_of(s);
    let n: usize = v.len();
    let within = if n >= 2 {
        string_between(&v, 1, n - 1)
    } else {
        String::new()
    };
    assert(within@ =~= inner(s@));
    let mut r: Vec<ObjectMember> = Vec::new();
    if trimmed(within.as_str()).unicode_len() == 0 {
        assert(member_views(r@) =~= members(s@));
        return r;
    }
    let ps = parts_of(within.as_str(), ',');
    let mut i: usize = 0;
    assert(views(ps@).len() == ps@.len());
    while i < ps.len()
        invariant
            i <= ps@.len(),
            views(ps@) == parts(inner(s@), ',', 0),
            member_views(r@) =~= Seq::new(i as nat, |j: int| named_value(views(ps@)[j])),
        decreases ps@.len() - i,
    {
        let m = named_value_of(ps[i].as_str());
        let ghost before = member_views(r@);
        r.push(m);
        assert(member_views(r@) =~= before.push(m@));
        i = i + 1;
    }
    assert(member_views(r@) =~= members(s@));
    r
}

} // verus!
