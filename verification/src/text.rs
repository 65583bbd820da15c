//! Text as sequences of characters: the string operations that the rest of the
//! library is written with, each with an exact meaning over `Seq<char>`.

use vstd::prelude::*;
use vstd::string::*;

verus! {

/// `String::push` appends one character to the end of the string.
pub assume_specification[ String::push ](s: &mut String, c: char)
    ensures
        final(s)@ == old(s)@.push(c),
;

// ---------------------------------------------------------------- building

/// The views of a sequence of strings.
pub open spec fn views(v: Seq<String>) -> Seq<Seq<char>> {
    Seq::new(v.len(), |i: int| v[i]@)
}

/// The characters of `s`, in order.
pub fn chars_of(s: &str) -> (v: Vec<char>)
    ensures
        v@ == s@,
{
    let mut v: Vec<char> = Vec::new();
    for c in it: s.chars()
        invariant
            it.seq() == s@,
            v@ == s@.take(it.index() as int),
    {
        v.push(c);
        assert(s@.take(it.index() + 1) =~= s@.take(it.index() as int).push(c));
    }
    assert(s@.take(s@.len() as int) =~= s@);
    v
}

/// The string that holds `v[from..to]`.
pub fn string_between(v: &Vec<char>, from: usize, to: usize) -> (s: String)
    requires
        from <= to <= v@.len(),
    ensures
        s@ == v@.subrange(from as int, to as int),
{
    let mut s: String = String::new();
    let mut i: usize = from;
    while i < to
        invariant
            from <= i <= to <= v@.len(),
            s@ == v@.subrange(from as int, i as int),
        decreases to - i,
    {
        s.push(v[i]);
        i = i + 1;
        assert(v@.subrange(from as int, i as int) =~= v@.subrange(from as int, i - 1).push(
            v@[i - 1],
        ));
    }
    s
}

/// The string that holds exactly the characters of `v`.
pub fn string_of(v: &Vec<char>) -> (s: String)
    ensures
        s@ == v@,
{
    let s = string_between(v, 0, v.len());
    assert(v@.subrange(0, v@.len() as int) =~= v@);
    s
}

/// Whether two texts hold the same characters.
pub fn same_text(a: &str, b: &str) -> (r: bool)
    ensures
        r == (a@ == b@),
{
    let x = chars_of(a);
    let y = chars_of(b);
    if x.len() != y.len() {
        return false;
    }
    let mut i: usize = 0;
    while i < x.len()
        invariant
            x@ == a@,
            y@ == b@,
            x@.len() == y@.len(),
            i <= x@.len(),
            forall|j: int| 0 <= j < i ==> x@[j] == y@[j],
        decreases x@.len() - i,
    {
        if x[i] != y[i] {
            assert(x@[i as int] != y@[i as int]);
            return false;
        }
        i = i + 1;
    }
    assert(a@ =~= b@);
    true
}

// ---------------------------------------------------------------- trimming

/// Characters with the Unicode `White_Space` property.
pub open spec fn white(c: char) -> bool {
    ||| '\u{9}' <= c <= '\u{d}'
    ||| c == ' '
    ||| c == '\u{85}'
    ||| c == '\u{a0}'
    ||| c == '\u{1680}'
    ||| '\u{2000}' <= c <= '\u{200a}'
    ||| c == '\u{2028}'
    ||| c == '\u{2029}'
    ||| c == '\u{202f}'
    ||| c == '\u{205f}'
    ||| c == '\u{3000}'
}

/// Whether `c` is white space.
pub fn is_white(c: char) -> (b: bool)
    ensures
        b == white(c),
{
    ('\u{9}' <= c && c <= '\u{d}') || c == ' ' || c == '\u{85}' || c == '\u{a0}' || c
        == '\u{1680}' || ('\u{2000}' <= c && c <= '\u{200a}') || c == '\u{2028}' || c
        == '\u{2029}' || c == '\u{202f}' || c == '\u{205f}' || c == '\u{3000}'
}

/// `s` without its leading white space.
pub open spec fn trim_start(s: Seq<char>) -> Seq<char>
    decreases s.len(),
{
    if s.len() > 0 && white(s[0]) {
        trim_start(s.skip(1))
    } else {
        s
    }
}

/// `s` without its trailing white space.
pub open spec fn trim_end(s: Seq<char>) -> Seq<char>
    decreases s.len(),
{
    if s.len() > 0 && white(s.last()) {
        trim_end(s.drop_last())
    } else {
        s
    }
}

/// `s` without leading and trailing white space.
pub open spec fn trim(s: Seq<char>) -> Seq<char> {
    trim_end(trim_start(s))
}

/// The text without its leading white space.
pub fn trimmed_start(s: &str) -> (r: &str)
    ensures
        r@ == trim_start(s@),
{
    let v = chars_of(s);
    let n: usize = v.len();
    let mut i: usize = 0;
    assert(s@.skip(0) =~= s@);
    while i < n && is_white(v[i])
        invariant
            v@ == s@,
            n == s@.len(),
            i <= n,
            trim_start(s@) == trim_start(s@.skip(i as int)),
        decreases n - i,
    {
        assert(s@.skip(i as int).skip(1) =~= s@.skip(i + 1));
        i = i + 1;
    }
    assert(s@.skip(i as int) =~= s@.subrange(i as int, n as int));
    s.substring_char(i, n)
}

/// The text without its trailing white space.
pub fn trimmed_end(s: &str) -> (r: &str)
    ensures
        r@ == trim_end(s@),
{
    let v = chars_of(s);
    let mut j: usize = v.len();
    assert(s@.take(j as int) =~= s@);
    while j > 0 && is_white(v[j - 1])
        invariant
            v@ == s@,
            j <= s@.len(),
            trim_end(s@) == trim_end(s@.take(j as int)),
        decreases j,
    {
        assert(s@.take(j as int).drop_last() =~= s@.take(j - 1));
        j = j - 1;
    }
    assert(s@.take(j as int) =~= s@.subrange(0, j as int));
    s.substring_char(0, j)
}

/// The text without leading and trailing white space.
pub fn trimmed(s: &str) -> (r: &str)
    ensures
        r@ == trim(s@),
{
    trimmed_end(trimmed_start(s))
}

// ---------------------------------------------------------------- searching

/// The index of the first `c` in `s`, or the length of `s` where there is none.
pub open spec fn index_of(s: Seq<char>, c: char) -> nat
    decreases s.len(),
{
    if s.len() == 0 || s[0] == c {
        0
    } else {
        1 + index_of(s.skip(1), c)
    }
}

pub proof fn lemma_index_of(s: Seq<char>, c: char)
    ensures
        index_of(s, c) <= s.len(),
        index_of(s, c) < s.len() ==> s[index_of(s, c) as int] == c,
        forall|j: int| 0 <= j < index_of(s, c) ==> s[j] != c,
    decreases s.len(),
{
    if s.len() > 0 && s[0] != c {
        lemma_index_of(s.skip(1), c);
        assert forall|j: int| 0 <= j < index_of(s, c) implies s[j] != c by {
            if j > 0 {
                assert(s[j] == s.skip(1)[j - 1]);
            }
        }
    }
}

/// The first index is the only one with `c` there and none before it.
pub proof fn lemma_index_of_unique(s: Seq<char>, c: char, i: int)
    requires
        0 <= i <= s.len(),
        forall|j: int| 0 <= j < i ==> s[j] != c,
        i < s.len() ==> s[i] == c,
    ensures
        index_of(s, c) == i,
{
    lemma_index_of(s, c);
}

/// The index of the first `c` in `v`, or the length of `v`.
pub fn position_of(v: &Vec<char>, c: char) -> (i: usize)
    ensures
        i == index_of(v@, c),
        i <= v@.len(),
{
    let mut i: usize = 0;
    while i < v.len() && v[i] != c
        invariant
            i <= v@.len(),
            forall|j: int| 0 <= j < i ==> v@[j] != c,
        decreases v@.len() - i,
    {
        i = i + 1;
    }
    proof {
        lemma_index_of_unique(v@, c, i as int);
    }
    i
}

/// The text before and after the first `c`, where there is one.
pub open spec fn split_once(s: Seq<char>, c: char) -> Option<(Seq<char>, Seq<char>)> {
    let i = index_of(s, c) as int;
    if i < s.len() {
        Some((s.take(i), s.skip(i + 1)))
    } else {
        None
    }
}

/// Splits `s` at the first `c`.
pub fn split_at_first<'a>(s: &'a str, c: char) -> (r: Option<(&'a str, &'a str)>)
    ensures
        match r {
            Some((a, b)) => split_once(s@, c) == Some((a@, b@)),
            None => split_once(s@, c) is None,
        },
{
    let v = chars_of(s);
    let i: usize = position_of(&v, c);
    if i < v.len() {
        assert(s@.take(i as int) =~= s@.subrange(0, i as int));
        assert(s@.skip(i + 1) =~= s@.subrange(i + 1, s@.len() as int));
        Some((s.substring_char(0, i), s.substring_char(i + 1, v.len())))
    } else {
        None
    }
}

/// Whether `pat` stands in `s` at index `i`.
pub open spec fn occurs_at(s: Seq<char>, pat: Seq<char>, i: int) -> bool {
    0 <= i && i + pat.len() <= s.len() && s.subrange(i, i + pat.len()) == pat
}

/// Whether `pat` occurs in `s`.
pub open spec fn contains(s: Seq<char>, pat: Seq<char>) -> bool {
    exists|i: int| occurs_at(s, pat, i)
}

/// Whether `pat` stands in `v` at index `i`.
pub fn stands_at(v: &Vec<char>, pat: &Vec<char>, i: usize) -> (b: bool)
    requires
        i <= v@.len(),
    ensures
        b == occurs_at(v@, pat@, i as int),
{
    if pat.len() > v.len() - i {
        return false;
    }
    let mut k: usize = 0;
    while k < pat.len()
        invariant
            i + pat@.len() <= v.len(),
            k <= pat@.len(),
            forall|j: int| 0 <= j < k ==> v@[i + j] == pat@[j],
        decreases pat@.len() - k,
    {
        if v[i + k] != pat[k] {
            assert(v@.subrange(i as int, i + pat@.len())[k as int] == v@[i + k]);
            return false;
        }
        k = k + 1;
    }
    assert(v@.subrange(i as int, i + pat@.len()) =~= pat@);
    true
}

/// The least index at or after `from` at which `pat` stands in `v`.
pub fn find_text(v: &Vec<char>, pat: &Vec<char>, from: usize) -> (r: Option<usize>)
    requires
        from <= v@.len(),
    ensures
        match r {
            Some(i) => from <= i <= v@.len() && occurs_at(v@, pat@, i as int) && forall|j: int|
                from <= j < i ==> !occurs_at(v@, pat@, j),
            None => forall|j: int| from <= j ==> !occurs_at(v@, pat@, j),
        },
{
    let mut i: usize = from;
    loop
        invariant
            from <= i <= v@.len(),
            forall|j: int| from <= j < i ==> !occurs_at(v@, pat@, j),
        decreases v@.len() - i,
    {
        if stands_at(v, pat, i) {
            return Some(i);
        }
        if i == v.len() {
            return None;
        }
        i = i + 1;
    }
}

/// Whether `pat` occurs in `s`.
pub fn has_text(s: &str, pat: &str) -> (b: bool)
    ensures
        b == contains(s@, pat@),
{
    let v = chars_of(s);
    let p = chars_of(pat);
    match find_text(&v, &p, 0) {
        Some(_) => true,
        None => {
            assert(forall|j: int| !occurs_at(s@, pat@, j));
            false
        },
    }
}

/// Whether `s` begins with `pat`.
pub open spec fn starts_with(s: Seq<char>, pat: Seq<char>) -> bool {
    occurs_at(s, pat, 0)
}

/// Whether `s` ends with `pat`.
pub open spec fn ends_with(s: Seq<char>, pat: Seq<char>) -> bool {
    occurs_at(s, pat, s.len() - pat.len())
}

/// Whether `s` begins with `pat`.
pub fn has_prefix(s: &str, pat: &str) -> (b: bool)
    ensures
        b == starts_with(s@, pat@),
{
    let v = chars_of(s);
    let p = chars_of(pat);
    stands_at(&v, &p, 0)
}

/// Whether `s` ends with `pat`.
pub fn has_suffix(s: &str, pat: &str) -> (b: bool)
    ensures
        b == ends_with(s@, pat@),
{
    let v = chars_of(s);
    let p = chars_of(pat);
    if p.len() > v.len() {
        false
    } else {
        stands_at(&v, &p, v.len() - p.len())
    }
}

/// `s` without the prefix `pat`, where it has it.
pub fn strip_front<'a>(s: &'a str, pat: &str) -> (r: Option<&'a str>)
    ensures
        match r {
            Some(rest) => starts_with(s@, pat@) && s@ == pat@ + rest@ && rest@ == s@.skip(
                pat@.len() as int,
            ),
            None => !starts_with(s@, pat@),
        },
{
    let v = chars_of(s);
    let p = chars_of(pat);
    if stands_at(&v, &p, 0) {
        let rest = s.substring_char(p.len(), v.len());
        assert(s@ =~= s@.subrange(0, p@.len() as int) + rest@);
        assert(rest@ =~= s@.skip(p@.len() as int));
        Some(rest)
    } else {
        None
    }
}

/// `s` without the suffix `pat`, where it has it.
pub fn strip_back<'a>(s: &'a str, pat: &str) -> (r: Option<&'a str>)
    ensures
        match r {
            Some(rest) => ends_with(s@, pat@) && s@ == rest@ + pat@ && rest@ == s@.take(
                s@.len() - pat@.len(),
            ),
            None => !ends_with(s@, pat@),
        },
{
    if has_suffix(s, pat) {
        let n: usize = s.unicode_len() - pat.unicode_len();
        let rest = s.substring_char(0, n);
        assert(s@ =~= rest@ + s@.subrange(n as int, s@.len() as int));
        assert(rest@ =~= s@.take(n as int));
        Some(rest)
    } else {
        None
    }
}

// ---------------------------------------------------------------- replacing

/// `s` with every occurrence of a non-empty `pat`, taken from left to right
/// without overlap, replaced by `with`.
pub open spec fn replace_all(s: Seq<char>, pat: Seq<char>, with: Seq<char>) -> Seq<char>
    decreases s.len(),
{
    if s.len() == 0 || pat.len() == 0 {
        s
    } else if occurs_at(s, pat, 0) {
        with + replace_all(s.skip(pat.len() as int), pat, with)
    } else {
        seq![s[0]] + replace_all(s.skip(1), pat, with)
    }
}

/// `s` with every occurrence of `pat` replaced by `with`.
pub fn replaced(s: &str, pat: &str, with: &str) -> (r: String)
    ensures
        r@ == replace_all(s@, pat@, with@),
{
    let v = chars_of(s);
    let p = chars_of(pat);
    let mut out: String = String::new();
    if p.len() == 0 {
        out.append(s);
        assert(out@ =~= s@);
        return out;
    }
    let mut i: usize = 0;
    assert(s@.skip(0) =~= s@);
    while i < v.len()
        invariant
            v@ == s@,
            p@ == pat@,
            p@.len() > 0,
            i <= v@.len(),
            replace_all(s@, pat@, with@) == out@ + replace_all(s@.skip(i as int), pat@, with@),
        decreases v@.len() - i,
    {
        let ghost rest = s@.skip(i as int);
        if stands_at(&v, &p, i) {
            proof {
                assert(rest.subrange(0, p@.len() as int) =~= s@.subrange(i as int, i + p@.len()));
                assert(occurs_at(rest, pat@, 0));
                assert(rest.skip(p@.len() as int) =~= s@.skip(i + p@.len()));
                assert(out@ + (with@ + replace_all(s@.skip(i + p@.len()), pat@, with@)) =~= (out@
                    + with@) + replace_all(s@.skip(i + p@.len()), pat@, with@));
            }
            out.append(with);
            i = i + p.len();
        } else {
            proof {
                if occurs_at(rest, pat@, 0) {
                    assert(rest.subrange(0, p@.len() as int) =~= s@.subrange(
                        i as int,
                        i + p@.len(),
                    ));
                    assert(false);
                }
                assert(rest.skip(1) =~= s@.skip(i + 1));
                assert(out@ + (seq![rest[0]] + replace_all(s@.skip(i + 1), pat@, with@))
                    =~= out@.push(rest[0]) + replace_all(s@.skip(i + 1), pat@, with@));
            }
            out.push(v[i]);
            i = i + 1;
        }
    }
    assert(s@.skip(i as int) =~= Seq::<char>::empty());
    assert(out@ + Seq::<char>::empty() =~= out@);
    out
}

// ---------------------------------------------------------------- joining

/// `parts` in order, with `sep` between each two.
pub open spec fn join(parts: Seq<Seq<char>>, sep: Seq<char>) -> Seq<char>
    decreases parts.len(),
{
    if parts.len() == 0 {
        Seq::empty()
    } else if parts.len() == 1 {
        parts[0]
    } else {
        join(parts.drop_last(), sep) + sep + parts.last()
    }
}

/// The strings of `parts` in order, with `sep` between each two.
pub fn joined(parts: &Vec<String>, sep: &str) -> (r: String)
    ensures
        r@ == join(views(parts@), sep@),
{
    let mut out: String = String::new();
    let mut i: usize = 0;
    assert(views(parts@).take(0) =~= Seq::empty());
    while i < parts.len()
        invariant
            i <= parts@.len(),
            out@ == join(views(parts@).take(i as int), sep@),
        decreases parts@.len() - i,
    {
        let ghost before = out@;
        if i > 0 {
            out.append(sep);
        }
        out.append(parts[i].as_str());
        proof {
            let ghost now = views(parts@).take(i + 1);
            assert(now.drop_last() =~= views(parts@).take(i as int));
            assert(now.last() == parts@[i as int]@);
            if i == 0 {
                assert(out@ =~= now[0]);
            }
        }
        i = i + 1;
    }
    assert(views(parts@).take(i as int) =~= views(parts@));
    out
}

/// Splits text into lines: a line ends at `\n` or `\r\n`, the last line needs no
/// ending, and the endings belong to no line.
pub open spec fn lines(s: Seq<char>) -> Seq<Seq<char>>
    decreases s.len(),
{
    if s.len() == 0 {
        Seq::empty()
    } else {
        let i = index_of(s, '\n') as int;
        if i < s.len() {
            seq![without_cr(s.take(i))] + lines(s.skip(i + 1))
        } else {
            seq![s]
        }
    }
}

/// A line without the `\r` that its `\r\n` ending left.
pub open spec fn without_cr(s: Seq<char>) -> Seq<char> {
    if s.len() > 0 && s.last() == '\r' {
        s.drop_last()
    } else {
        s
    }
}

/// The lines of `s`, in order.
pub fn lines_of(s: &str) -> (r: Vec<String>)
    ensures
        views(r@) == lines(s@),
{
    let v = chars_of(s);
    let n: usize = v.len();
    let mut out: Vec<String> = Vec::new();
    let mut start: usize = 0;
    assert(s@.skip(0) =~= s@);
    while start < n
        invariant
            v@ == s@,
            n == s@.len(),
            start <= n,
            lines(s@) == views(out@) + lines(s@.skip(start as int)),
        decreases n - start,
    {
        let ghost rest = s@.skip(start as int);
        let mut end: usize = start;
        while end < n && v[end] != '\n'
            invariant
                v@ == s@,
                n == s@.len(),
                start <= end <= n,
                forall|j: int| start <= j < end ==> v@[j] != '\n',
            decreases n - end,
        {
            end = end + 1;
        }
        proof {
            assert forall|j: int| 0 <= j < end - start implies rest[j] != '\n' by {
                assert(rest[j] == v@[start + j]);
            }
            lemma_index_of_unique(rest, '\n', end - start);
        }
        let ghost before = views(out@);
        if end == n {
            let line = string_between(&v, start, n);
            assert(line@ =~= rest);
            out.push(line);
            proof {
                assert(lines(rest) == seq![rest]);
                assert(views(out@) =~= before + seq![rest]);
                assert(s@.skip(n as int) =~= Seq::<char>::empty());
                assert(lines(s@.skip(n as int)) =~= Seq::<Seq<char>>::empty());
                assert(before + seq![rest] =~= views(out@) + lines(s@.skip(n as int)));
            }
            start = n;
        } else {
            let stop: usize = if end > start && v[end - 1] == '\r' {
                end - 1
            } else {
                end
            };
            let line = string_between(&v, start, stop);
            out.push(line);
            proof {
                let i = end - start;
                assert(rest.take(i) =~= v@.subrange(start as int, end as int));
                assert(without_cr(rest.take(i)) =~= line@);
                assert(rest.skip(i + 1) =~= s@.skip(end + 1));
                assert(views(out@) =~= before + seq![line@]);
                assert(before + (seq![line@] + lines(s@.skip(end + 1))) =~= views(out@) + lines(
                    s@.skip(end + 1),
                ));
            }
            start = end + 1;
        }
    }
    assert(s@.skip(start as int) =~= Seq::<char>::empty());
    assert(views(out@) + Seq::<Seq<char>>::empty() =~= views(out@));
    out
}

// ---------------------------------------------------------------- letter case

/// `c` with an ASCII capital turned into its small letter.
pub open spec fn ascii_lower(c: char) -> char {
    if 'A' <= c <= 'Z' {
        (c as u32 + 32) as char
    } else {
        c
    }
}

/// `s` with its ASCII capitals turned into small letters.
pub open spec fn lower_ascii(s: Seq<char>) -> Seq<char> {
    Seq::new(s.len(), |i: int| ascii_lower(s[i]))
}

fn lower_char(c: char) -> (r: char)
    ensures
        r == ascii_lower(c),
{
    if 'A' <= c && c <= 'Z' {
        ((c as u8) + 32u8) as char
    } else {
        c
    }
}

/// `s` with its ASCII capitals turned into small letters.
pub fn lowered(s: &str) -> (r: String)
    ensures
        r@ == lower_ascii(s@),
{
    let v = chars_of(s);
    let mut out: String = String::new();
    let mut i: usize = 0;
    while i < v.len()
        invariant
            v@ == s@,
            i <= v@.len(),
            out@ == lower_ascii(s@).take(i as int),
        decreases v@.len() - i,
    {
        out.push(lower_char(v[i]));
        i = i + 1;
        assert(lower_ascii(s@).take(i as int) =~= lower_ascii(s@).take(i - 1).push(
            lower_ascii(s@)[i - 1],
        ));
    }
    assert(lower_ascii(s@).take(i as int) =~= lower_ascii(s@));
    out
}

/// Whether two texts are equal but for the case of ASCII letters.
pub fn same_ignoring_case(a: &str, b: &str) -> (r: bool)
    ensures
        r == (lower_ascii(a@) == lower_ascii(b@)),
{
    let x = lowered(a);
    let y = lowered(b);
    same_text(x.as_str(), y.as_str())
}

/// The lower-case form of a text under the full Unicode mapping of
/// `str::to_lowercase`.
pub uninterp spec fn unicode_lower(s: Seq<char>) -> Seq<char>;

/// `str::to_lowercase`: the lower-case form of `s`, a function of its characters
/// alone.
#[verifier::external_body]
pub(crate) fn lowercase(s: &str) -> (r: String)
    ensures
        r@ == unicode_lower(s@),
{
    s.to_lowercase()
}

/// The upper-case form of a text under the full Unicode mapping of
/// `str::to_uppercase`.
pub uninterp spec fn unicode_upper(s: Seq<char>) -> Seq<char>;

/// `str::to_uppercase`: the upper-case form of `s`, a function of its characters
/// alone.
#[verifier::external_body]
pub(crate) fn uppercase(s: &str) -> (r: String)
    ensures
        r@ == unicode_upper(s@),
{
    s.to_uppercase()
}

/// The quoted and escaped form of a text that the `{:?}` formatter writes.
pub uninterp spec fn quoted(s: Seq<char>) -> Seq<char>;

/// `format!` with `{:?}` on a `str`: the text in double quotes with its special
/// characters escaped, a function of its characters alone.
#[verifier::external_body]
pub(crate) fn quote(s: &str) -> (r: String)
    ensures
        r@ == quoted(s@),
{
    format!("{s:?}")
}

// ---------------------------------------------------------------- order

/// Dictionary order by character code.
pub open spec fn text_lt(a: Seq<char>, b: Seq<char>) -> bool
    decreases a.len(),
{
    if b.len() == 0 {
        false
    } else if a.len() == 0 {
        true
    } else if a[0] != b[0] {
        a[0] < b[0]
    } else {
        text_lt(a.skip(1), b.skip(1))
    }
}

/// Whether `a` comes strictly before `b` in dictionary order.
pub fn text_before(a: &str, b: &str) -> (r: bool)
    ensures
        r == text_lt(a@, b@),
{
    let x = chars_of(a);
    let y = chars_of(b);
    let mut i: usize = 0;
    assert(a@.skip(0) =~= a@);
    assert(b@.skip(0) =~= b@);
    while i < x.len() && i < y.len() && x[i] == y[i]
        invariant
            x@ == a@,
            y@ == b@,
            i <= x@.len(),
            i <= y@.len(),
            text_lt(a@, b@) == text_lt(a@.skip(i as int), b@.skip(i as int)),
        decreases x@.len() - i,
    {
        assert(a@.skip(i as int).skip(1) =~= a@.skip(i + 1));
        assert(b@.skip(i as int).skip(1) =~= b@.skip(i + 1));
        i = i + 1;
    }
    if i == y.len() {
        false
    } else if i == x.len() {
        true
    } else {
        x[i] < y[i]
    }
}

pub proof fn lemma_text_lt_irreflexive(a: Seq<char>)
    ensures
        !text_lt(a, a),
    decreases a.len(),
{
    if a.len() > 0 {
        lemma_text_lt_irreflexive(a.skip(1));
    }
}

pub proof fn lemma_text_lt_transitive(a: Seq<char>, b: Seq<char>, c: Seq<char>)
    requires
        text_lt(a, b),
        text_lt(b, c),
    ensures
        text_lt(a, c),
    decreases a.len(),
{
    if a.len() > 0 && a[0] == b[0] && b[0] == c[0] {
        lemma_text_lt_transitive(a.skip(1), b.skip(1), c.skip(1));
    }
}

pub proof fn lemma_text_lt_total(a: Seq<char>, b: Seq<char>)
    ensures
        a == b || text_lt(a, b) || text_lt(b, a),
    decreases a.len(),
{
    if a.len() == 0 {
        if b.len() == 0 {
            assert(a =~= b);
        }
    } else if b.len() > 0 && a[0] == b[0] {
        lemma_text_lt_total(a.skip(1), b.skip(1));
        if a.skip(1) == b.skip(1) {
            assert(a =~= seq![a[0]] + a.skip(1));
            assert(b =~= seq![b[0]] + b.skip(1));
        }
    }
}

// ---------------------------------------------------------------- columns

/// `n` copies of `c`.
pub open spec fn repeat(c: char, n: int) -> Seq<char> {
    Seq::new(
        if n < 0 {
            0
        } else {
            n as nat
        },
        |i: int| c,
    )
}

/// `s` followed by blanks up to `width` characters.
pub open spec fn pad_right(s: Seq<char>, width: int) -> Seq<char> {
    s + repeat(' ', width - s.len())
}

/// `s` preceded by blanks up to `width` characters.
pub open spec fn pad_left(s: Seq<char>, width: int) -> Seq<char> {
    repeat(' ', width - s.len()) + s
}

/// `n` copies of `c`.
pub fn repeated(c: char, n: usize) -> (r: String)
    ensures
        r@ == repeat(c, n as int),
{
    let mut r: String = String::new();
    let mut i: usize = 0;
    while i < n
        invariant
            i <= n,
            r@ == repeat(c, i as int),
        decreases n - i,
    {
        r.push(c);
        i = i + 1;
        assert(repeat(c, i as int) =~= repeat(c, i - 1).push(c));
    }
    r
}

/// `s` followed by blanks up to `width` characters.
pub fn padded_right(s: &str, width: usize) -> (r: String)
    ensures
        r@ == pad_right(s@, width as int),
{
    let n: usize = s.unicode_len();
    let mut r = String::from_str(s);
    let fill = repeated(
        ' ',
        if n < width {
            width - n
        } else {
            0
        },
    );
    r.append(fill.as_str());
    assert(r@ =~= pad_right(s@, width as int));
    r
}

/// `s` preceded by blanks up to `width` characters.
pub fn padded_left(s: &str, width: usize) -> (r: String)
    ensures
        r@ == pad_left(s@, width as int),
{
    let n: usize = s.unicode_len();
    let mut r = repeated(
        ' ',
        if n < width {
            width - n
        } else {
            0
        },
    );
    r.append(s);
    assert(r@ =~= pad_left(s@, width as int));
    r
}

// ---------------------------------------------------------------- bytes

/// How many bytes a character takes in UTF-8.
pub open spec fn width(c: char) -> nat {
    if c <= '\u{7f}' {
        1
    } else if c <= '\u{7ff}' {
        2
    } else if c <= '\u{ffff}' {
        3
    } else {
        4
    }
}

/// How many bytes a character takes in UTF-8.
pub fn width_of(c: char) -> (n: usize)
    ensures
        n == width(c),
        1 <= n <= 4,
{
    if c <= '\u{7f}' {
        1
    } else if c <= '\u{7ff}' {
        2
    } else if c <= '\u{ffff}' {
        3
    } else {
        4
    }
}

/// How many bytes a text takes in UTF-8.
pub open spec fn byte_len(s: Seq<char>) -> nat
    decreases s.len(),
{
    if s.len() == 0 {
        0
    } else {
        byte_len(s.drop_last()) + width(s.last())
    }
}

/// The longest prefix that takes at most `n` bytes.
pub open spec fn clip(s: Seq<char>, n: int) -> Seq<char>
    decreases s.len(),
{
    if s.len() == 0 || width(s[0]) > n {
        Seq::empty()
    } else {
        seq![s[0]] + clip(s.skip(1), n - width(s[0]))
    }
}

/// The longest prefix that takes at most `n` bytes.
pub fn clipped(s: &str, n: usize) -> (r: String)
    ensures
        r@ == clip(s@, n as int),
{
    let v = chars_of(s);
    let mut i: usize = 0;
    let mut left: usize = n;
    assert(s@.take(0) + clip(s@.skip(0), n as int) =~= clip(s@, n as int)) by {
        assert(s@.skip(0) =~= s@);
    }
    while i < v.len() && width_of(v[i]) <= left
        invariant
            v@ == s@,
            i <= v@.len(),
            clip(s@, n as int) == s@.take(i as int) + clip(s@.skip(i as int), left as int),
        decreases v@.len() - i,
    {
        proof {
            let u = s@.skip(i as int);
            assert(u[0] == v@[i as int]);
            assert(u.skip(1) =~= s@.skip(i + 1));
            assert(s@.take(i + 1) =~= s@.take(i as int) + seq![u[0]]);
            assert(s@.take(i as int) + (seq![u[0]] + clip(u.skip(1), left - width(u[0])))
                =~= s@.take(i + 1) + clip(s@.skip(i + 1), left - width(u[0])));
        }
        left = left - width_of(v[i]);
        i = i + 1;
    }
    assert(clip(s@.skip(i as int), left as int) =~= Seq::empty()) by {
        if i < v.len() {
            assert(s@.skip(i as int)[0] == v@[i as int]);
        }
    }
    assert(clip(s@, n as int) =~= s@.subrange(0, i as int));
    string_between(&v, 0, i)
}

// ---------------------------------------------------------------- lists

/// The views of a sequence of literals.
pub open spec fn literals(v: Seq<&str>) -> Seq<Seq<char>> {
    Seq::new(v.len(), |i: int| v[i]@)
}

/// Whether `s` is one of `names`.
pub fn is_listed(s: &str, names: &Vec<&'static str>) -> (b: bool)
    ensures
        b == literals(names@).contains(s@),
{
    let ghost vs = literals(names@);
    let mut i: usize = 0;
    while i < names.len()
        invariant
            vs == literals(names@),
            i <= names@.len(),
            forall|j: int| 0 <= j < i ==> vs[j] != s@,
        decreases names@.len() - i,
    {
        if same_text(names[i], s) {
            assert(vs[i as int] == s@);
            return true;
        }
        i = i + 1;
    }
    false
}

/// The literals of `parts` in order, with `sep` between each two.
pub fn joined_literals(parts: &Vec<&'static str>, sep: &str) -> (r: String)
    ensures
        r@ == join(literals(parts@), sep@),
{
    let mut owned: Vec<String> = Vec::new();
    let mut i: usize = 0;
    while i < parts.len()
        invariant
            i <= parts@.len(),
            views(owned@) == literals(parts@).take(i as int),
        decreases parts@.len() - i,
    {
        let ghost before = views(owned@);
        owned.push(String::from_str(parts[i]));
        assert(views(owned@) =~= before.push(parts@[i as int]@));
        assert(literals(parts@).take(i + 1) =~= literals(parts@).take(i as int).push(
            literals(parts@)[i as int],
        ));
        i = i + 1;
    }
    assert(literals(parts@).take(i as int) =~= literals(parts@));
    joined(&owned, sep)
}

/// A copy of `v` from index `from` on.
pub fn copied(v: &Vec<String>, from: usize) -> (r: Vec<String>)
    requires
        from <= v@.len(),
    ensures
        views(r@) == views(v@).skip(from as int),
{
    let ghost vs = views(v@);
    let mut r: Vec<String> = Vec::new();
    let mut i: usize = from;
    assert(views(r@) =~= vs.subrange(from as int, from as int));
    while i < v.len()
        invariant
            vs == views(v@),
            from <= i <= v@.len(),
            views(r@) == vs.subrange(from as int, i as int),
        decreases v@.len() - i,
    {
        let ghost before = views(r@);
        r.push(v[i].clone());
        assert(views(r@) =~= before.push(vs[i as int]));
        assert(vs.subrange(from as int, i + 1) =~= vs.subrange(from as int, i as int).push(
            vs[i as int],
        ));
        i = i + 1;
    }
    assert(vs.subrange(from as int, i as int) =~= vs.skip(from as int));
    r
}

/// Adding two parts to a report one by one is adding both.
pub proof fn lemma_grow(before: Seq<Seq<char>>, said: Seq<Seq<char>>, part: Seq<Seq<char>>)
    ensures
        before + said + part == before + (said + part),
        part.len() == 0 ==> before + part == before,
{
    assert(before + said + part =~= before + (said + part));
    if part.len() == 0 {
        assert(before + part =~= before);
    }
}

/// Adds a line to a report.
pub fn add_line(out: &mut Vec<String>, line: String)
    ensures
        views(final(out)@) == views(old(out)@) + seq![line@],
{
    let ghost before = views(out@);
    out.push(line);
    assert(views(out@) =~= before + seq![line@]);
}

/// Adds a fixed line to a report.
pub fn add_fixed(out: &mut Vec<String>, line: &str)
    ensures
        views(final(out)@) == views(old(out)@) + seq![line@],
{
    add_line(out, String::from_str(line));
}

} // verus!
