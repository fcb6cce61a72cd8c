//! File paths taken by the letter: components, base name, extension,
//! removal of `.` and `..`, and containment of one path in another.
//!
//! A path is text with `/` between its components. Nothing here looks at a
//! file system.

use vstd::prelude::*;
use vstd::slice::{slice_subrange, slice_to_vec};

use crate::text::{
    find, first_match, last_index_of, lemma_first_match_is, lemma_first_match_none,
    lemma_last_index_is, lemma_occurs_single, matches_at, occurs_at, rfind_char,
};

verus! {

/// The component that stands for the root directory.
pub open spec fn root() -> Seq<char> {
    seq!['/']
}

/// The component that stands for the current directory.
pub open spec fn current() -> Seq<char> {
    seq!['.']
}

/// The component that stands for the parent directory.
pub open spec fn parent() -> Seq<char> {
    seq!['.', '.']
}

/// The pieces of `s` between the occurrences of `sep`, empty ones included.
pub open spec fn split_on(s: Seq<char>, sep: char) -> Seq<Seq<char>>
    decreases s.len(),
{
    match first_match(s, seq![sep]) {
        Some(i) => if 0 <= i < s.len() {
            seq![s.take(i)] + split_on(s.skip(i + 1), sep)
        } else {
            seq![s]
        },
        None => seq![s],
    }
}

/// The views of a sequence of character vectors.
pub open spec fn views(v: Seq<Vec<char>>) -> Seq<Seq<char>> {
    v.map_values(|x: Vec<char>| x@)
}

/// The segments that count as components: all but the empty ones and `.`.
pub open spec fn names(segments: Seq<Seq<char>>) -> Seq<Seq<char>>
    decreases segments.len(),
{
    if segments.len() == 0 {
        Seq::empty()
    } else {
        let before = names(segments.drop_last());
        let segment = segments.last();
        if segment.len() == 0 || segment == current() {
            before
        } else {
            before.push(segment)
        }
    }
}

/// The component that a path begins with before its names: the root for a
/// path that starts with `/`, the current directory for one that starts
/// with `.` as a segment of its own, else none.
pub open spec fn lead(p: Seq<char>) -> Seq<Seq<char>> {
    if p.len() > 0 && p[0] == '/' {
        seq![root()]
    } else if p.len() > 0 && p[0] == '.' && (p.len() == 1 || p[1] == '/') {
        seq![current()]
    } else {
        Seq::empty()
    }
}

/// The components of a path.
pub open spec fn components(p: Seq<char>) -> Seq<Seq<char>> {
    lead(p) + names(split_on(p, '/'))
}

/// The base name of a path: its last name, unless that is `..`.
pub open spec fn file_name(p: Seq<char>) -> Option<Seq<char>> {
    let all = names(split_on(p, '/'));
    if all.len() > 0 && all.last() != parent() {
        Some(all.last())
    } else {
        None
    }
}

/// The extension of a base name: what follows its last `.`, provided
/// something stands before that `.`.
pub open spec fn name_extension(name: Seq<char>) -> Option<Seq<char>> {
    match last_index_of(name, '.') {
        Some(i) => if i > 0 {
            Some(name.skip(i + 1))
        } else {
            None
        },
        None => None,
    }
}

/// The extension of a path: that of its base name.
pub open spec fn extension(p: Seq<char>) -> Option<Seq<char>> {
    match file_name(p) {
        Some(name) => name_extension(name),
        None => None,
    }
}

/// A component list without its last name; an empty list and the bare root
/// stay as they are.
pub open spec fn popped(parts: Seq<Seq<char>>) -> Seq<Seq<char>> {
    if parts.len() == 0 || parts.last() == root() {
        parts
    } else {
        parts.drop_last()
    }
}

/// The components that are left when `.` is dropped and each `..` removes
/// the component before it.
pub open spec fn normalized(parts: Seq<Seq<char>>) -> Seq<Seq<char>>
    decreases parts.len(),
{
    if parts.len() == 0 {
        Seq::empty()
    } else {
        let before = normalized(parts.drop_last());
        let part = parts.last();
        if part == parent() {
            popped(before)
        } else if part == current() {
            before
        } else if part == root() {
            seq![root()]
        } else {
            before.push(part)
        }
    }
}

/// The text of a component list: the components with `/` between them, and
/// none after the root.
pub open spec fn path_text(parts: Seq<Seq<char>>) -> Seq<char>
    decreases parts.len(),
{
    if parts.len() == 0 {
        Seq::empty()
    } else {
        let before = path_text(parts.drop_last());
        if before.len() == 0 || before.last() == '/' {
            before + parts.last()
        } else {
            before + seq!['/'] + parts.last()
        }
    }
}

/// Whether the component list `path` begins with the whole of `base`.
pub open spec fn begins_with(path: Seq<Seq<char>>, base: Seq<Seq<char>>) -> bool {
    base.len() <= path.len() && path.take(base.len() as int) == base
}

/// `name` appended to the directory `base`; a `name` that starts at the
/// root stands alone.
pub open spec fn joined(base: Seq<char>, name: Seq<char>) -> Seq<char> {
    if name.len() > 0 && name[0] == '/' {
        name
    } else if base.len() == 0 || base.last() == '/' {
        base + name
    } else {
        base + seq!['/'] + name
    }
}

/// Tests two character slices for equality.
pub fn same(a: &[char], b: &[char]) -> (r: bool)
    ensures
        r == (a@ == b@),
{
    if a.len() != b.len() {
        return false;
    }
    let r = matches_at(a, b, 0);
    proof {
        assert(a@.subrange(0, a@.len() as int) =~= a@);
    }
    r
}

/// Tests whether a segment is `.`.
pub fn is_current(segment: &[char]) -> (r: bool)
    ensures
        r == (segment@ == current()),
{
    let r = segment.len() == 1 && segment[0] == '.';
    proof {
        if r {
            assert(segment@ =~= current());
        } else if segment@.len() == 1 {
            assert(current()[0] == '.');
        }
    }
    r
}

/// Tests whether a segment is `..`.
pub fn is_parent(segment: &[char]) -> (r: bool)
    ensures
        r == (segment@ == parent()),
{
    let r = segment.len() == 2 && segment[0] == '.' && segment[1] == '.';
    proof {
        if r {
            assert(segment@ =~= parent());
        } else if segment@.len() == 2 {
            assert(parent()[0] == '.' && parent()[1] == '.');
        }
    }
    r
}

/// Tests whether a component is the root.
pub fn is_root(segment: &[char]) -> (r: bool)
    ensures
        r == (segment@ == root()),
{
    let r = segment.len() == 1 && segment[0] == '/';
    proof {
        if r {
            assert(segment@ =~= root());
        } else if segment@.len() == 1 {
            assert(root()[0] == '/');
        }
    }
    r
}

/// Cuts `s` at every occurrence of `sep`.
pub fn split(s: &[char], sep: char) -> (out: Vec<Vec<char>>)
    ensures
        views(out@) == split_on(s@, sep),
{
    let pat: Vec<char> = vec![sep];
    assert(pat@ =~= seq![sep]);
    let mut out: Vec<Vec<char>> = Vec::new();
    let mut rest: &[char] = s;
    assert(views(out@) + split_on(rest@, sep) =~= split_on(s@, sep));
    loop
        invariant_except_break
            views(out@) + split_on(rest@, sep) == split_on(s@, sep),
        invariant
            pat@ == seq![sep],
        ensures
            views(out@) == split_on(s@, sep),
        decreases rest@.len(),
    {
        let n = rest.len();
        match find(rest, pat.as_slice()) {
            Some(i) => {
                let piece = slice_to_vec(slice_subrange(rest, 0, i));
                let ghost before = views(out@);
                let ghost old_rest = rest@;
                out.push(piece);
                rest = slice_subrange(rest, i + 1, n);
                proof {
                    assert(views(out@) =~= before + seq![old_rest.take(i as int)]);
                    assert(rest@ =~= old_rest.skip(i + 1));
                    assert(views(out@) + split_on(rest@, sep) =~= before + split_on(old_rest, sep));
                }
            },
            None => {
                let piece = slice_to_vec(rest);
                let ghost before = views(out@);
                out.push(piece);
                proof {
                    assert(views(out@) =~= before + seq![rest@]);
                }
                break ;
            },
        }
    }
    out
}

/// Keeps the segments that count as components.
pub fn names_of(segments: &Vec<Vec<char>>) -> (out: Vec<Vec<char>>)
    ensures
        views(out@) == names(views(segments@)),
{
    let mut out: Vec<Vec<char>> = Vec::new();
    let mut i: usize = 0;
    assert(views(segments@).take(0) =~= Seq::<Seq<char>>::empty());
    assert(views(out@) =~= Seq::<Seq<char>>::empty());
    while i < segments.len()
        invariant
            i <= segments.len(),
            views(out@) == names(views(segments@).take(i as int)),
        decreases segments.len() - i,
    {
        let segment = &segments[i];
        let ghost before = views(out@);
        proof {
            let upto = views(segments@).take(i + 1);
            assert(upto.drop_last() =~= views(segments@).take(i as int));
            assert(upto.last() == segment@);
        }
        if segment.len() != 0 && !is_current(segment.as_slice()) {
            out.push(segment.clone());
            proof {
                assert(out@.last()@ == segment@);
                assert(views(out@) =~= before.push(segment@));
            }
        }
        i += 1;
    }
    proof {
        assert(views(segments@).take(i as int) =~= views(segments@));
    }
    out
}

/// Cuts a path into its components.
pub fn components_of(p: &[char]) -> (out: Vec<Vec<char>>)
    ensures
        views(out@) == components(p@),
{
    let segments = split(p, '/');
    let mut kept = names_of(&segments);
    let mut out: Vec<Vec<char>> = Vec::new();
    if p.len() > 0 && p[0] == '/' {
        let lead: Vec<char> = vec!['/'];
        assert(lead@ =~= root());
        out.push(lead);
    } else if p.len() > 0 && p[0] == '.' && (p.len() == 1 || p[1] == '/') {
        let lead: Vec<char> = vec!['.'];
        assert(lead@ =~= current());
        out.push(lead);
    }
    assert(views(out@) =~= lead(p@));
    let ghost first = out@;
    let ghost rest = kept@;
    out.append(&mut kept);
    assert(views(out@) =~= views(first) + views(rest));
    out
}

/// The base name of a path.
pub fn file_name_of(p: &[char]) -> (r: Option<Vec<char>>)
    ensures
        match r {
            Some(name) => file_name(p@) == Some(name@),
            None => file_name(p@) is None,
        },
{
    let segments = split(p, '/');
    let kept = names_of(&segments);
    if kept.len() == 0 {
        return None;
    }
    let last = &kept[kept.len() - 1];
    assert(views(kept@).last() == last@);
    if is_parent(last.as_slice()) {
        None
    } else {
        Some(last.clone())
    }
}

/// The extension of a path.
pub fn extension_of(p: &[char]) -> (r: Option<Vec<char>>)
    ensures
        match r {
            Some(ext) => extension(p@) == Some(ext@),
            None => extension(p@) is None,
        },
{
    let Some(name) = file_name_of(p) else {
        return None;
    };
    let n = name.len();
    match rfind_char(name.as_slice(), '.') {
        Some(i) => if i > 0 {
            Some(slice_to_vec(slice_subrange(name.as_slice(), i + 1, n)))
        } else {
            None
        },
        None => None,
    }
}

/// Drops `.` and lets each `..` remove the component before it.
pub fn normalize(parts: &Vec<Vec<char>>) -> (out: Vec<Vec<char>>)
    ensures
        views(out@) == normalized(views(parts@)),
{
    let mut out: Vec<Vec<char>> = Vec::new();
    let mut i: usize = 0;
    assert(views(parts@).take(0) =~= Seq::<Seq<char>>::empty());
    assert(views(out@) =~= Seq::<Seq<char>>::empty());
    while i < parts.len()
        invariant
            i <= parts.len(),
            views(out@) == normalized(views(parts@).take(i as int)),
        decreases parts.len() - i,
    {
        let part = &parts[i];
        let ghost before = views(out@);
        proof {
            let upto = views(parts@).take(i + 1);
            assert(upto.drop_last() =~= views(parts@).take(i as int));
            assert(upto.last() == part@);
        }
        if is_parent(part.as_slice()) {
            if out.len() > 0 {
                assert(before.last() == out@.last()@);
                if !is_root(out[out.len() - 1].as_slice()) {
                    out.pop();
                    assert(views(out@) =~= before.drop_last());
                }
            }
        } else if is_current(part.as_slice()) {
        } else if is_root(part.as_slice()) {
            out.clear();
            out.push(part.clone());
            assert(views(out@) =~= seq![root()]);
        } else {
            out.push(part.clone());
            assert(views(out@) =~= before.push(part@));
        }
        i += 1;
    }
    proof {
        assert(views(parts@).take(i as int) =~= views(parts@));
    }
    out
}

/// Writes a component list out as text.
pub fn render(parts: &Vec<Vec<char>>) -> (out: Vec<char>)
    ensures
        out@ == path_text(views(parts@)),
{
    let mut out: Vec<char> = Vec::new();
    let mut i: usize = 0;
    assert(views(parts@).take(0) =~= Seq::<Seq<char>>::empty());
    while i < parts.len()
        invariant
            i <= parts.len(),
            out@ == path_text(views(parts@).take(i as int)),
        decreases parts.len() - i,
    {
        let part = &parts[i];
        let ghost before = out@;
        proof {
            let upto = views(parts@).take(i + 1);
            assert(upto.drop_last() =~= views(parts@).take(i as int));
            assert(upto.last() == part@);
        }
        if out.len() > 0 && out[out.len() - 1] != '/' {
            out.push('/');
        }
        out.extend_from_slice(part.as_slice());
        proof {
            if before.len() == 0 || before.last() == '/' {
                assert(out@ =~= before + part@);
            } else {
                assert(out@ =~= before + seq!['/'] + part@);
            }
        }
        i += 1;
    }
    proof {
        assert(views(parts@).take(i as int) =~= views(parts@));
    }
    out
}

/// Tests whether the component list `path` begins with the whole of `base`.
pub fn has_prefix(path: &Vec<Vec<char>>, base: &Vec<Vec<char>>) -> (r: bool)
    ensures
        r == begins_with(views(path@), views(base@)),
{
    if base.len() > path.len() {
        return false;
    }
    let mut i: usize = 0;
    while i < base.len()
        invariant
            i <= base.len() <= path.len(),
            forall|j: int| 0 <= j < i ==> path@[j]@ == base@[j]@,
        decreases base.len() - i,
    {
        if !same(path[i].as_slice(), base[i].as_slice()) {
            proof {
                assert(views(path@).take(base@.len() as int)[i as int] == path@[i as int]@);
                assert(views(base@)[i as int] == base@[i as int]@);
            }
            return false;
        }
        i += 1;
    }
    proof {
        assert(views(path@).take(base@.len() as int) =~= views(base@));
    }
    true
}

/// Appends `name` to the directory `base`.
pub fn join(base: &[char], name: &[char]) -> (out: Vec<char>)
    ensures
        out@ == joined(base@, name@),
{
    let mut out: Vec<char> = Vec::new();
    if name.len() > 0 && name[0] == '/' {
        out.extend_from_slice(name);
        assert(out@ =~= name@);
        return out;
    }
    out.extend_from_slice(base);
    if base.len() > 0 && base[base.len() - 1] != '/' {
        out.push('/');
    }
    out.extend_from_slice(name);
    proof {
        if base@.len() == 0 || base@.last() == '/' {
            assert(out@ =~= base@ + name@);
        } else {
            assert(out@ =~= base@ + seq!['/'] + name@);
        }
    }
    out
}

/// Whether a text can be the name of one file in a directory: it is not
/// empty, holds no `/`, and is neither `.` nor `..`.
pub open spec fn is_plain_name(name: Seq<char>) -> bool {
    &&& name.len() > 0
    &&& forall|i: int| 0 <= i < name.len() ==> #[trigger] name[i] != '/'
    &&& name != current()
    &&& name != parent()
}

/// A text without `/` is one piece.
pub proof fn lemma_split_without_separator(s: Seq<char>, sep: char)
    requires
        forall|i: int| 0 <= i < s.len() ==> #[trigger] s[i] != sep,
    ensures
        split_on(s, sep) == seq![s],
{
    assert forall|j: int| 0 <= j implies !occurs_at(s, seq![sep], j) by {
        lemma_occurs_single(s, sep, j);
    }
    lemma_first_match_none(s, seq![sep], 0);
}

/// A text is cut at its first `sep`: the piece before it, then the
/// pieces of what follows.
pub proof fn lemma_split_at_separator(before: Seq<char>, sep: char, after: Seq<char>)
    requires
        forall|i: int| 0 <= i < before.len() ==> #[trigger] before[i] != sep,
    ensures
        split_on(before + seq![sep] + after, sep) == seq![before] + split_on(after, sep),
{
    let s = before + seq![sep] + after;
    let n = before.len() as int;
    assert(s[n] == sep);
    lemma_occurs_single(s, sep, n);
    assert forall|j: int| 0 <= j < n implies !occurs_at(s, seq![sep], j) by {
        lemma_occurs_single(s, sep, j);
        assert(s[j] == before[j]);
    }
    lemma_first_match_is(s, seq![sep], 0, n);
    assert(s.take(n) =~= before);
    assert(s.skip(n + 1) =~= after);
}

/// A plain name is its own base name, and its one component.
pub proof fn lemma_plain_name_is_file_name(name: Seq<char>)
    requires
        is_plain_name(name),
    ensures
        file_name(name) == Some(name),
        components(name) == seq![name],
        names(split_on(name, '/')) == seq![name],
{
    lemma_split_without_separator(name, '/');
    lemma_names_of_one(name);
    assert(name[0] != '/');
    if name.len() == 1 && name[0] == '.' {
        assert(name =~= current());
    }
    if name.len() >= 2 {
        assert(name[1] != '/');
    }
    assert(lead(name) =~= Seq::<Seq<char>>::empty());
    assert(components(name) =~= seq![name]);
}

/// A name made of a stem, a `.` and an ending without `.` has that ending
/// as its extension.
pub proof fn lemma_extension_of_name(stem: Seq<char>, ending: Seq<char>)
    requires
        stem.len() > 0,
        forall|i: int| 0 <= i < ending.len() ==> #[trigger] ending[i] != '.',
    ensures
        name_extension(stem + seq!['.'] + ending) == Some(ending),
{
    let name = stem + seq!['.'] + ending;
    let n = stem.len() as int;
    assert(name[n] == '.');
    assert forall|j: int| n < j < name.len() implies name[j] != '.' by {
        assert(name[j] == ending[j - n - 1]);
    }
    lemma_last_index_is(name, '.', n);
    assert(name.skip(n + 1) =~= ending);
}

/// A plain name joined to a directory of one plain name gives a path of
/// two components, which `.` and `..` do not change, and whose base name
/// is the name.
pub proof fn lemma_join_plain_names(dir: Seq<char>, name: Seq<char>)
    requires
        is_plain_name(dir),
        is_plain_name(name),
    ensures
        joined(dir, name) == dir + seq!['/'] + name,
        components(joined(dir, name)) == seq![dir, name],
        normalized(components(joined(dir, name))) == seq![dir, name],
        file_name(joined(dir, name)) == Some(name),
        components(dir + seq!['/']) == seq![dir],
        begins_with(normalized(components(joined(dir, name))), components(dir + seq!['/'])),
{
    let path = dir + seq!['/'] + name;
    assert(name[0] != '/');
    assert(dir.last() != '/');
    assert(joined(dir, name) =~= path);
    lemma_split_at_separator(dir, '/', name);
    lemma_split_without_separator(name, '/');
    let segments = seq![dir, name];
    assert(split_on(path, '/') =~= segments);
    lemma_names_of_two(dir, name);
    assert(path[0] == dir[0] && dir[0] != '/');
    if dir.len() == 1 {
        assert(dir[0] != '.') by {
            if dir[0] == '.' {
                assert(dir =~= current());
            }
        }
    } else {
        assert(path[1] == dir[1] && dir[1] != '/');
    }
    assert(lead(path) =~= Seq::<Seq<char>>::empty());
    assert(components(path) =~= segments);
    lemma_normalized_of_names(segments);
    // the directory with a `/` after it
    let slashed = dir + seq!['/'];
    assert(slashed =~= dir + seq!['/'] + Seq::<char>::empty());
    lemma_split_at_separator(dir, '/', Seq::<char>::empty());
    lemma_split_without_separator(Seq::<char>::empty(), '/');
    let pieces = seq![dir, Seq::<char>::empty()];
    assert(split_on(slashed, '/') =~= pieces);
    assert(pieces.drop_last() =~= seq![dir]);
    assert(pieces.last().len() == 0);
    lemma_names_of_one(dir);
    assert(names(pieces) =~= seq![dir]);
    assert(slashed[0] == dir[0]);
    if dir.len() >= 2 {
        assert(slashed[1] == dir[1]);
    }
    assert(lead(slashed) =~= Seq::<Seq<char>>::empty());
    assert(components(slashed) =~= seq![dir]);
    assert(segments.take(1) =~= seq![dir]);
}

/// Two plain names are both kept as components.
proof fn lemma_names_of_two(a: Seq<char>, b: Seq<char>)
    requires
        is_plain_name(a),
        is_plain_name(b),
    ensures
        names(seq![a, b]) == seq![a, b],
{
    let two = seq![a, b];
    assert(two.drop_last() =~= seq![a]);
    assert(two.last() == b);
    lemma_names_of_one(a);
    assert(names(two) =~= seq![a, b]);
}

/// A plain name is kept as a component.
proof fn lemma_names_of_one(a: Seq<char>)
    requires
        is_plain_name(a),
    ensures
        names(seq![a]) == seq![a],
{
    let one = seq![a];
    assert(one.drop_last() =~= Seq::<Seq<char>>::empty());
    assert(names(one.drop_last()) =~= Seq::<Seq<char>>::empty());
    assert(one.last() == a);
    assert(names(one) =~= seq![a]);
}

/// Plain names stay as they are when `.` and `..` are taken out.
proof fn lemma_normalized_of_names(parts: Seq<Seq<char>>)
    requires
        forall|i: int| 0 <= i < parts.len() ==> is_plain_name(#[trigger] parts[i]),
    ensures
        normalized(parts) == parts,
    decreases parts.len(),
{
    if parts.len() > 0 {
        let front = parts.drop_last();
        assert forall|i: int| 0 <= i < front.len() implies is_plain_name(#[trigger] front[i]) by {
            assert(front[i] == parts[i]);
        }
        lemma_normalized_of_names(front);
        let part = parts.last();
        assert(is_plain_name(parts[parts.len() - 1]));
        assert(part != root()) by {
            if part == root() {
                assert(part[0] == '/');
            }
        }
        assert(normalized(parts) =~= parts);
    } else {
        assert(normalized(parts) =~= parts);
    }
}

} // verus!
