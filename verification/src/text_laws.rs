//! What the operations on texts and numerals are for.

use vstd::prelude::*;

use crate::number;
use crate::number::{decimal, octal};
use crate::text::{
    byte_len, clip, contains, ends_with, join, lemma_index_of, lemma_index_of_unique, lines,
    lower_ascii, occurs_at, pad_left, pad_right, replace_all, split_once, starts_with, trim,
    trim_end, trim_start, white, width,
};

verus! {

// ---------------------------------------------------------------- white space

/// Blanks, tabs and line ends are white; letters, digits and the other visible ASCII
/// characters are not.
pub proof fn law_white(c: char)
    ensures
        c == ' ' || c == '\t' || c == '\n' || c == '\r' ==> white(c),
        '!' <= c <= '~' ==> !white(c),
{
}

proof fn lemma_trim_start(pre: Seq<char>, t: Seq<char>)
    requires
        forall|i: int| 0 <= i < pre.len() ==> white(#[trigger] pre[i]),
        t.len() == 0 || !white(t[0]),
    ensures
        trim_start(pre + t) == t,
    decreases pre.len(),
{
    let s = pre + t;
    if pre.len() == 0 {
        assert(s =~= t);
    } else {
        assert(s[0] == pre[0]);
        assert(s.skip(1) =~= pre.skip(1) + t);
        lemma_trim_start(pre.skip(1), t);
    }
}

proof fn lemma_trim_end(t: Seq<char>, post: Seq<char>)
    requires
        forall|i: int| 0 <= i < post.len() ==> white(#[trigger] post[i]),
        t.len() == 0 || !white(t.last()),
    ensures
        trim_end(t + post) == t,
    decreases post.len(),
{
    let s = t + post;
    if post.len() == 0 {
        assert(s =~= t);
    } else {
        assert(s.last() == post.last());
        assert(s.drop_last() =~= t + post.drop_last());
        lemma_trim_end(t, post.drop_last());
    }
}

/// Trimming takes away the white space at both ends and nothing else.
pub proof fn law_trim(pre: Seq<char>, t: Seq<char>, post: Seq<char>)
    requires
        forall|i: int| 0 <= i < pre.len() ==> white(#[trigger] pre[i]),
        forall|i: int| 0 <= i < post.len() ==> white(#[trigger] post[i]),
        t.len() == 0 || (!white(t[0]) && !white(t.last())),
    ensures
        trim(pre + t + post) == t,
{
    if t.len() == 0 {
        let all = pre + t + post;
        assert forall|i: int| 0 <= i < all.len() implies white(#[trigger] all[i]) by {
            if i >= pre.len() {
                assert(all[i] == post[i - pre.len()]);
            }
        }
        lemma_trim_start(all, t);
        assert(all + t =~= all);
        assert(trim_end(t) == t);
    } else {
        assert(pre + t + post =~= pre + (t + post));
        lemma_trim_start(pre, t + post);
        lemma_trim_end(t, post);
    }
}

// ---------------------------------------------------------------- taking apart

/// A text is split at the first place of a character.
pub proof fn law_split_once(a: Seq<char>, c: char, b: Seq<char>)
    requires
        !a.contains(c),
    ensures
        split_once(a + seq![c] + b, c) == Some((a, b)),
        split_once(a, c) is None,
{
    let s = a + seq![c] + b;
    let i = a.len() as int;
    assert forall|j: int| 0 <= j < i implies s[j] != c by {
        assert(s[j] == a[j]);
    }
    lemma_index_of_unique(s, c, i);
    assert(s.take(i) =~= a);
    assert(s.skip(i + 1) =~= b);
    lemma_index_of(a, c);
}

/// Lines end at line ends, which belong to no line; nothing else ends a line.
pub proof fn law_lines(l: Seq<char>, rest: Seq<char>)
    requires
        !l.contains('\n'),
    ensures
        lines(Seq::<char>::empty()).len() == 0,
        l.len() > 0 ==> lines(l) == seq![l],
        l.len() > 0 && l.last() == '\r' ==> lines(l + seq!['\n'] + rest) == seq![l.drop_last()]
            + lines(rest),
        l.len() == 0 || l.last() != '\r' ==> lines(l + seq!['\n'] + rest) == seq![l] + lines(rest),
{
    lemma_index_of(l, '\n');
    let s = l + seq!['\n'] + rest;
    let i = l.len() as int;
    assert forall|j: int| 0 <= j < i implies s[j] != '\n' by {
        assert(s[j] == l[j]);
    }
    lemma_index_of_unique(s, '\n', i);
    assert(s.take(i) =~= l);
    assert(s.skip(i + 1) =~= rest);
}

/// A text begins with what it was begun with, ends with what it was ended with, and
/// holds what was put into it; and nothing else.
pub proof fn law_parts_are_found(a: Seq<char>, p: Seq<char>, b: Seq<char>)
    ensures
        starts_with(p + b, p),
        ends_with(a + p, p),
        contains(a + p + b, p),
{
    assert(occurs_at(p + b, p, 0)) by {
        assert((p + b).subrange(0, p.len() as int) =~= p);
    }
    assert((a + p).subrange((a + p).len() - p.len(), (a + p).len() - p.len() + p.len()) =~= p);
    let s = a + p + b;
    assert(s.subrange(a.len() as int, a.len() as int + p.len()) =~= p);
    assert(occurs_at(s, p, a.len() as int));
}

/// What a text begins with, ends with or holds is a part of it.
pub proof fn law_found_is_a_part(s: Seq<char>, p: Seq<char>)
    ensures
        starts_with(s, p) ==> p.len() <= s.len() && s == p + s.skip(p.len() as int),
        ends_with(s, p) ==> p.len() <= s.len() && s == s.take(s.len() - p.len()) + p,
        contains(s, p) ==> exists|i: int|
            0 <= i <= s.len() - p.len() && s == s.take(i) + p + #[trigger] s.skip(i + p.len()),
{
    if starts_with(s, p) {
        assert(s =~= s.subrange(0, p.len() as int) + s.skip(p.len() as int));
    }
    if ends_with(s, p) {
        let n = s.len() - p.len();
        assert(s =~= s.take(n) + s.subrange(n, n + p.len()));
    }
    if contains(s, p) {
        let i = choose|i: int| occurs_at(s, p, i);
        assert(s =~= s.take(i) + s.subrange(i, i + p.len()) + s.skip(i + p.len()));
    }
}

/// What a text holds, a longer text holds too.
pub proof fn law_contains_grows(s: Seq<char>, t: Seq<char>, p: Seq<char>)
    requires
        contains(s, p),
    ensures
        contains(s + t, p),
        contains(t + s, p),
{
    let i = choose|i: int| occurs_at(s, p, i);
    assert((s + t).subrange(i, i + p.len()) =~= s.subrange(i, i + p.len()));
    assert(occurs_at(s + t, p, i));
    let j = t.len() + i;
    assert((t + s).subrange(j, j + p.len()) =~= s.subrange(i, i + p.len()));
    assert(occurs_at(t + s, p, j));
}

/// What a text was put together from, it holds.
pub proof fn law_contains_sum(a: Seq<char>, b: Seq<char>)
    ensures
        contains(a + b, a),
        contains(a + b, b),
{
    assert((a + b).subrange(0, a.len() as int) =~= a);
    assert(occurs_at(a + b, a, 0));
    let j = a.len() as int;
    assert((a + b).subrange(j, j + b.len()) =~= b);
    assert(occurs_at(a + b, b, j));
}

/// Texts are joined in order, with the separator between each two.
pub proof fn law_join(parts: Seq<Seq<char>>, p: Seq<char>, sep: Seq<char>)
    ensures
        join(Seq::empty(), sep).len() == 0,
        join(seq![p], sep) == p,
        parts.len() > 0 ==> join(parts.push(p), sep) == join(parts, sep) + sep + p,
{
    assert(parts.push(p).drop_last() =~= parts);
}

/// Replacing a text that does not occur changes nothing.
pub proof fn law_replace_absent(s: Seq<char>, pat: Seq<char>, with: Seq<char>)
    requires
        !contains(s, pat),
    ensures
        replace_all(s, pat, with) == s,
    decreases s.len(),
{
    if s.len() > 0 && pat.len() > 0 {
        assert(!occurs_at(s, pat, 0));
        let rest = s.skip(1);
        if contains(rest, pat) {
            let i = choose|i: int| occurs_at(rest, pat, i);
            assert(s.subrange(i + 1, i + 1 + pat.len()) =~= rest.subrange(i, i + pat.len()));
            assert(occurs_at(s, pat, i + 1));
        }
        law_replace_absent(rest, pat, with);
        assert(s =~= seq![s[0]] + rest);
    }
}

/// Where the text to replace begins a text, what replaces it begins the result, and the
/// rest is replaced as it would be alone.
pub proof fn law_replace_first(pat: Seq<char>, rest: Seq<char>, with: Seq<char>)
    requires
        pat.len() > 0,
    ensures
        replace_all(pat + rest, pat, with) == with + replace_all(rest, pat, with),
{
    let s = pat + rest;
    assert(s.subrange(0, pat.len() as int) =~= pat);
    assert(s.skip(pat.len() as int) =~= rest);
}

// ---------------------------------------------------------------- letters and widths

/// Capitals become small letters of the same name; every other character stays.
pub proof fn law_lower_ascii(s: Seq<char>, i: int)
    requires
        0 <= i < s.len(),
    ensures
        lower_ascii(s).len() == s.len(),
        'A' <= s[i] <= 'Z' ==> lower_ascii(s)[i] as int == s[i] as int - 65 + 97,
        !('A' <= s[i] <= 'Z') ==> lower_ascii(s)[i] == s[i],
{
}

/// A padded text is the text and blanks, in at least the width that was asked for, and
/// no wider than the wider of the two.
pub proof fn law_pad(s: Seq<char>, w: int)
    ensures
        pad_right(s, w).len() == if s.len() >= w { s.len() as int } else { w },
        pad_left(s, w).len() == pad_right(s, w).len(),
        pad_right(s, w).take(s.len() as int) == s,
        pad_left(s, w).skip(pad_left(s, w).len() - s.len()) == s,
        forall|i: int| s.len() <= i < pad_right(s, w).len() ==> pad_right(s, w)[i] == ' ',
        forall|i: int| 0 <= i < pad_left(s, w).len() - s.len() ==> pad_left(s, w)[i] == ' ',
{
    assert(pad_right(s, w).take(s.len() as int) =~= s);
    assert(pad_left(s, w).skip(pad_left(s, w).len() - s.len()) =~= s);
}

proof fn lemma_bytes_add(a: Seq<char>, b: Seq<char>)
    ensures
        byte_len(a + b) == byte_len(a) + byte_len(b),
    decreases b.len(),
{
    if b.len() == 0 {
        assert(a + b =~= a);
    } else {
        assert((a + b).drop_last() =~= a + b.drop_last());
        lemma_bytes_add(a, b.drop_last());
    }
}

/// A clipped text is a beginning of the text that takes no more than `n` bytes, and a
/// longer beginning takes more.
pub proof fn law_clip(s: Seq<char>, n: int)
    requires
        n >= 0,
    ensures
        clip(s, n).len() <= s.len(),
        clip(s, n) == s.take(clip(s, n).len() as int),
        byte_len(clip(s, n)) <= n,
        clip(s, n).len() < s.len() ==> byte_len(s.take(clip(s, n).len() as int + 1)) > n,
    decreases s.len(),
{
    let r = clip(s, n);
    if s.len() == 0 || width(s[0]) > n {
        assert(r =~= s.take(0));
        if s.len() > 0 {
            assert(s.take(1).drop_last() =~= Seq::<char>::empty());
            assert(byte_len(s.take(1)) == byte_len(Seq::<char>::empty()) + width(s[0]));
        }
    } else {
        let rest = s.skip(1);
        let m = n - width(s[0]);
        law_clip(rest, m);
        let k = clip(rest, m).len() as int;
        assert(r =~= s.take(r.len() as int));
        lemma_bytes_add(seq![s[0]], clip(rest, m));
        assert(seq![s[0]].drop_last() =~= Seq::<char>::empty());
        assert(byte_len(seq![s[0]]) == width(s[0])) by {
            reveal_with_fuel(byte_len, 2);
        }
        if r.len() < s.len() {
            assert(s.take(k + 2) =~= seq![s[0]] + rest.take(k + 1));
            lemma_bytes_add(seq![s[0]], rest.take(k + 1));
        }
    }
}

/// ASCII characters take one byte, and no character takes more than four.
pub proof fn law_width(c: char)
    ensures
        c <= '\u{7f}' ==> width(c) == 1,
        '\u{80}' <= c <= '\u{7ff}' ==> width(c) == 2,
        '\u{800}' <= c <= '\u{ffff}' ==> width(c) == 3,
        '\u{10000}' <= c ==> width(c) == 4,
{
}

// ---------------------------------------------------------------- numerals

/// The last digit of an octal numeral is the remainder by eight, and what stands before
/// it is the numeral of the quotient.
pub proof fn law_octal(n: nat, d: nat)
    requires
        d < 8,
    ensures
        octal(d).len() == 1,
        octal(d)[0] as int == '0' as int + d,
        n > 0 ==> octal(8 * n + d) == octal(n) + octal(d),
{
    if n > 0 {
        assert((8 * n + d) / 8 == n);
        assert((8 * n + d) % 8 == d);
        assert(octal(n) + octal(d) =~= octal(n).push(octal(d)[0]));
    }
}

/// The last digit of a decimal numeral is the remainder by ten, what stands before it is
/// the numeral of the quotient, and a negative number has a dash in front.
pub proof fn law_decimal(n: int, d: int)
    requires
        0 <= d < 10,
        n > 0,
    ensures
        decimal(d).len() == 1,
        decimal(d)[0] as int == '0' as int + d,
        decimal(10 * n + d) == decimal(n) + decimal(d),
        decimal(-n) == seq!['-'] + decimal(n),
{
    assert((10 * n + d) / 10 == n);
    assert((10 * n + d) % 10 == d);
    assert(number::numeral((10 * n + d) as nat) == number::numeral(n as nat).push(
        number::digit_char(d),
    ));
    assert(decimal(n) + decimal(d) =~= decimal(n).push(decimal(d)[0]));
}

} // verus!
