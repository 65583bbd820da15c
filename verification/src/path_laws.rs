//! What paths, names and places are made of.

use vstd::prelude::*;
use vstd::string::*;

use crate::paths;
use crate::paths::{
    components, extension, file_name, inside, is_name, join, last_index_of, lemma_join_name,
    misplaced, name_extension, name_stem, resolved, under, well_placed, Located, PathError,
};
use crate::text;

verus! {

/// A name that is joined to a path is its last component, behind the components of the
/// path; the root is one component, and the empty path has none.
pub proof fn law_joined_name(base: Seq<char>, name: Seq<char>)
    requires
        is_name(name),
    ensures
        components(join(base, name)) == components(base).push(name),
        components(seq!['/']) == seq![seq!['/']],
        components(Seq::<char>::empty()).len() == 0,
        under(join(base, name), base),
        inside(join(base, name), base),
        !under(base, join(base, name)),
{
    lemma_join_name(base, name);
    paths::lemma_plain_starts();
    let cs = components(base);
    assert(cs.push(name).subrange(0, cs.len() as int) =~= cs);
    if under(base, join(base, name)) {
        assert(cs.push(name).len() <= cs.len());
    }
}

/// A name counts where it is neither empty nor a dot and holds no slash.
pub proof fn law_name(c: Seq<char>)
    ensures
        is_name(c) <==> c.len() > 0 && c != seq!['.'] && !c.contains('/'),
{
}

/// A path is joined behind a slash, unless one stands there already; an absolute path
/// stands for itself.
pub proof fn law_join_path(base: Seq<char>, rel: Seq<char>)
    ensures
        rel.len() > 0 && rel[0] == '/' ==> join(base, rel) == rel,
        !(rel.len() > 0 && rel[0] == '/') && base.len() > 0 && base.last() != '/' ==> join(base, rel)
            == base + seq!['/'] + rel,
        !(rel.len() > 0 && rel[0] == '/') && base.len() > 0 && base.last() == '/' ==> join(base, rel)
            == base + rel,
        !(rel.len() > 0 && rel[0] == '/') && base.len() == 0 ==> join(base, rel) == rel,
{
    if base.len() == 0 {
        assert(base + rel =~= rel);
    }
}

/// A path lies at or below a directory just where its components begin with those of the
/// directory.
pub proof fn law_under(path: Seq<char>, base: Seq<char>)
    ensures
        under(path, base) <==> components(base).len() <= components(path).len() && forall|i: int|
            0 <= i < components(base).len() ==> #[trigger] components(base)[i] == components(
                path,
            )[i],
        inside(path, base) <==> under(path, base) && components(base).len() < components(path).len(),
{
    let p = components(path);
    let b = components(base);
    if under(path, base) {
        assert(b == p.subrange(0, b.len() as int));
        if b.len() == p.len() {
            assert(p.subrange(0, b.len() as int) =~= p);
        }
    }
    if b.len() <= p.len() && forall|i: int| 0 <= i < b.len() ==> #[trigger] b[i] == p[i] {
        assert(b =~= p.subrange(0, b.len() as int));
    }
}

proof fn lemma_last_index(a: Seq<char>, c: char, b: Seq<char>)
    requires
        !b.contains(c),
    ensures
        last_index_of(a + seq![c] + b, c) == a.len(),
        last_index_of(b, c) == -1,
    decreases b.len(),
{
    let s = a + seq![c] + b;
    if b.len() == 0 {
        assert(s.last() == c);
    } else {
        assert(s.last() == b.last());
        assert(b.contains(b.last()));
        assert(s.drop_last() =~= a + seq![c] + b.drop_last());
        assert forall|i: int| 0 <= i < b.drop_last().len() implies b.drop_last()[i] != c by {
            assert(b.contains(b[i]));
        }
        lemma_last_index(a, c, b.drop_last());
    }
}

/// The extension of a name is what follows its last dot, its stem what stands before that
/// dot. A dot that is the first character of a name starts no extension.
pub proof fn law_name_parts(stem: Seq<char>, ext: Seq<char>)
    requires
        !ext.contains('.'),
    ensures
        stem.len() > 0 ==> name_extension(stem + seq!['.'] + ext) == Some(ext),
        stem.len() > 0 ==> name_stem(stem + seq!['.'] + ext) == stem,
        name_extension(ext) is None,
        name_stem(ext) == ext,
        name_extension(seq!['.'] + ext) is None,
        name_stem(seq!['.'] + ext) == seq!['.'] + ext,
{
    let n = stem + seq!['.'] + ext;
    lemma_last_index(stem, '.', ext);
    assert(n.skip(stem.len() as int + 1) =~= ext);
    assert(n.take(stem.len() as int) =~= stem);
    let e = Seq::<char>::empty();
    lemma_last_index(e, '.', ext);
    assert(e + seq!['.'] + ext =~= seq!['.'] + ext);
}

/// The file name of a path is the name that was joined last, and its extension is that of
/// the name.
pub proof fn law_file_name(dir: Seq<char>, name: Seq<char>)
    requires
        is_name(name),
        name != seq!['.', '.'],
    ensures
        file_name(join(dir, name)) == Some(name),
        extension(join(dir, name)) == name_extension(name),
{
    lemma_join_name(dir, name);
    if name == seq!['/'] {
        assert(name[0] == '/');
    }
}

/// A name stays, a name and the way back out of it cancel each other, and at the root
/// there is no way out.
pub proof fn law_resolved(cs: Seq<Seq<char>>, name: Seq<char>)
    requires
        is_name(name),
        name != seq!['.', '.'],
    ensures
        resolved(cs.push(name)) == resolved(cs).push(name),
        resolved(cs.push(name).push(seq!['.', '.'])) == resolved(cs),
        resolved(seq![seq!['/']].push(seq!['.', '.'])) == seq![seq!['/']],
        resolved(cs.push(seq!['.'])) == resolved(cs),
{
    let up = seq!['.', '.'];
    let root = seq!['/'];
    assert(cs.push(name).drop_last() =~= cs);
    assert(cs.push(name).push(up).drop_last() =~= cs.push(name));
    assert(resolved(cs).push(name).drop_last() =~= resolved(cs));
    assert(name != root) by {
        if name == root {
            assert(name[0] == '/');
        }
    }
    assert(cs.push(name).last() == name);
    assert(resolved(cs.push(name)) == resolved(cs).push(name));
    assert(cs.push(name).push(up).last() == up);
    assert(resolved(cs).push(name).last() == name);
    assert(resolved(cs.push(name).push(up)) == resolved(cs.push(name)).drop_last());
    assert(root != up && root != seq!['.']) by {
        assert(root[0] == '/' && up[0] == '.');
        assert(seq!['.'][0] == '.');
    }
    assert(seq![root].drop_last() =~= Seq::<Seq<char>>::empty());
    assert(resolved(seq![root]) =~= seq![root]) by {
        reveal_with_fuel(resolved, 2);
    }
    assert(seq![root].push(up).drop_last() =~= seq![root]);
    assert(cs.push(seq!['.']).drop_last() =~= cs);
    assert(seq!['.'] != up) by {
        assert(seq!['.'].len() == 1 && up.len() == 2);
    }
}

/// An output may stand where a regular file is, inside the vault and not inside the
/// sources; and each complaint comes only where it is true, in this order: that there is
/// nothing, that it is no file, that it is outside the vault, that it is in the sources.
pub proof fn law_output_place(
    e: PathError,
    output_path: Seq<char>,
    found: Result<Located, String>,
    vault_root: Seq<char>,
    sources_dir: Seq<char>,
)
    ensures
        found matches Ok(l) ==> (well_placed(l, vault_root, sources_dir) <==> l.is_file
            && components(vault_root).is_prefix_of(components(l.canonical@)) && !components(
            sources_dir,
        ).is_prefix_of(components(l.canonical@))),
        misplaced(e, output_path, found, vault_root, sources_dir) ==> {
            &&& e is Canonicalize <==> found is Err
            &&& e is NotAFile <==> (found matches Ok(l) && !l.is_file)
            &&& e is OutsideVault <==> (found matches Ok(l) && l.is_file && !components(
                vault_root,
            ).is_prefix_of(components(l.canonical@)))
            &&& e is InsideSources <==> (found matches Ok(l) && l.is_file && components(
                vault_root,
            ).is_prefix_of(components(l.canonical@)) && components(sources_dir).is_prefix_of(
                components(l.canonical@),
            ))
        },
{
}

/// A path that begins with a slash begins at the root, and one that begins with a dot and
/// a slash where it is read.
pub proof fn law_path_start(rest: Seq<char>)
    ensures
        components(seq!['/'] + rest)[0] == seq!['/'],
        components(seq!['.', '/'] + rest)[0] == seq!['.'],
        components(seq!['.']) == seq![seq!['.']],
{
    let a = seq!['/'] + rest;
    assert(a[0] == '/');
    let s = seq!['.', '/'] + rest;
    assert(s[0] == '.' && s[1] == '/');
    text::lemma_index_of_unique(s, '/', 1);
    assert(s.take(1) =~= seq!['.']);
    assert(paths::pieces(s)[0] == s.take(1));
    assert(paths::head(s) == seq![seq!['.']]);
    assert(components(s)[0] == paths::head(s)[0]);
    let d = seq!['.'];
    text::lemma_index_of(d, '/');
    assert(paths::pieces(d) =~= seq![d]);
    assert(!paths::counts(d));
    assert(paths::counted(seq![d]).len() == 0) by {
        reveal(Seq::filter);
        reveal_with_fuel(Seq::filter, 2);
        assert(seq![d].drop_last() =~= Seq::<Seq<char>>::empty());
    }
    assert(components(d) =~= seq![d]);
}

} // verus!
