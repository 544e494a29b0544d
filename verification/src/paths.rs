//! File paths as text, with `/` between the components.

use crate::text::{chars_are, chars_of, slice_of, split, split_at_char, texts};
use vstd::prelude::*;

verus! {

/// The index of the last `/` of `p`, or -1.
pub open spec fn last_slash(p: Seq<char>) -> int
    decreases p.len(),
{
    if p.len() == 0 {
        -1
    } else if p.last() == '/' {
        p.len() - 1
    } else {
        last_slash(p.drop_last())
    }
}

/// The final component of a path. Slashes at the end and components `.` do not count; a path
/// that ends in `..`, or has no component, has none.
pub open spec fn file_name(p: Seq<char>) -> Option<Seq<char>>
    decreases p.len(),
{
    let cut = last_slash(p);
    let part = p.skip(cut + 1);
    if part.len() == 0 || part == seq!['.'] {
        if 0 <= cut < p.len() {
            file_name(p.take(cut))
        } else {
            None
        }
    } else if part == seq!['.', '.'] {
        None
    } else {
        Some(part)
    }
}

proof fn lemma_last_slash(p: Seq<char>, i: int)
    requires
        -1 <= i < p.len(),
        i >= 0 ==> p[i] == '/',
        forall|k: int| i < k < p.len() ==> p[k] != '/',
    ensures
        last_slash(p) == i,
    decreases p.len(),
{
    if p.len() > 0 && i < p.len() - 1 {
        lemma_last_slash(p.drop_last(), i);
    }
}

/// The final component of a path, if it has one.
pub fn file_name_of(p: &[char]) -> (r: Option<Vec<char>>)
    ensures
        match r {
            Some(name) => file_name(p@) == Some(name@),
            None => file_name(p@) is None,
        },
{
    let mut end: usize = p.len();
    assert(p@.take(p@.len() as int) =~= p@);
    loop
        invariant
            end <= p@.len(),
            file_name(p@) == file_name(p@.take(end as int)),
        decreases end,
    {
        let ghost head = p@.take(end as int);
        let mut start: usize = end;
        while start > 0 && p[start - 1] != '/'
            invariant
                start <= end <= p@.len(),
                forall|k: int| start <= k < end ==> p@[k] != '/',
            decreases start,
        {
            start -= 1;
        }
        let ghost part = head.skip(start as int);
        proof {
            lemma_last_slash(head, start - 1);
            assert(part.len() == end - start);
            if part.len() == 1 {
                assert(part == seq!['.'] <==> part[0] == '.') by {
                    if part[0] == '.' {
                        assert(part =~= seq!['.']);
                    }
                }
            }
            if part.len() == 2 {
                assert(part == seq!['.', '.'] <==> part[0] == '.' && part[1] == '.') by {
                    if part[0] == '.' && part[1] == '.' {
                        assert(part =~= seq!['.', '.']);
                    }
                }
            }
        }
        let n: usize = end - start;
        if n == 0 || (n == 1 && p[start] == '.') {
            if start == 0 {
                return None;
            }
            assert(head.take(start - 1) =~= p@.take(start - 1));
            end = start - 1;
        } else if n == 2 && p[start] == '.' && p[start + 1] == '.' {
            return None;
        } else {
            assert(part =~= p@.subrange(start as int, end as int));
            return Some(slice_of(p, start, end));
        }
    }
}

/// The index of the last `.` of `p`, or -1.
pub open spec fn last_dot(p: Seq<char>) -> int
    decreases p.len(),
{
    if p.len() == 0 {
        -1
    } else if p.last() == '.' {
        p.len() - 1
    } else {
        last_dot(p.drop_last())
    }
}

/// The extension of a path: what stands behind the last dot of its final component, unless that
/// dot is the component's first character.
pub open spec fn extension(p: Seq<char>) -> Option<Seq<char>> {
    match file_name(p) {
        Some(name) => if last_dot(name) > 0 {
            Some(name.skip(last_dot(name) + 1))
        } else {
            None
        },
        None => None,
    }
}

/// The extension of a path, if it has one.
pub fn extension_of(p: &[char]) -> (r: Option<Vec<char>>)
    ensures
        match r {
            Some(ext) => extension(p@) == Some(ext@),
            None => extension(p@) is None,
        },
{
    let name = match file_name_of(p) {
        Some(name) => name,
        None => {
            return None;
        },
    };
    let mut n: usize = name.len();
    assert(name@.take(n as int) =~= name@);
    while n > 0 && name[n - 1] != '.'
        invariant
            n <= name@.len(),
            last_dot(name@) == last_dot(name@.take(n as int)),
        decreases n,
    {
        assert(name@.take(n as int).drop_last() =~= name@.take(n - 1));
        assert(name@.take(n as int).last() == name@[n - 1]);
        n -= 1;
    }
    proof {
        if n > 0 {
            assert(name@.take(n as int).last() == name@[n - 1]);
        }
        assert(last_dot(name@) == n - 1);
    }
    if n > 1 {
        let ext = slice_of(name.as_slice(), n, name.len());
        assert(ext@ =~= name@.skip(n as int));
        Some(ext)
    } else {
        None
    }
}

/// The components among the first `n` pieces of a path: an empty piece is none, and neither is a `.`
/// that the path does not start with.
pub open spec fn components(pieces: Seq<Seq<char>>, n: nat) -> Seq<Seq<char>>
    decreases n,
{
    if n == 0 || n > pieces.len() {
        Seq::empty()
    } else {
        let before = components(pieces, (n - 1) as nat);
        let piece = pieces[n - 1];
        if piece.len() == 0 || (piece == "."@ && n > 1) {
            before
        } else {
            before.push(piece)
        }
    }
}

/// Whether a path starts at the root, and its components.
pub open spec fn parsed_path(p: Seq<char>) -> (bool, Seq<Seq<char>>) {
    (p.len() > 0 && p[0] == '/', components(split(p, '/', 0), split(p, '/', 0).len()))
}

/// Whether two paths are the same by their components: slashes that are repeated or stand at the
/// end do not matter, nor does a `.` further in.
pub open spec fn same_place(a: Seq<char>, b: Seq<char>) -> bool {
    parsed_path(a) == parsed_path(b)
}

fn components_of(p: &[char]) -> (r: Vec<Vec<char>>)
    ensures
        texts(r@) == parsed_path(p@).1,
{
    let pieces = split_at_char(p, '/');
    let mut r: Vec<Vec<char>> = Vec::new();
    let mut i: usize = 0;
    assert(texts(r@) =~= Seq::empty());
    while i < pieces.len()
        invariant
            i <= pieces@.len(),
            texts(r@) == components(texts(pieces@), i as nat),
        decreases pieces@.len() - i,
    {
        let ghost before = texts(r@);
        assert(texts(pieces@)[i as int] == pieces@[i as int]@);
        if pieces[i].len() != 0 && !(i > 0 && chars_are(pieces[i].as_slice(), ".")) {
            let n = pieces[i].len();
            let piece = slice_of(pieces[i].as_slice(), 0, n);
            assert(piece@ =~= pieces@[i as int]@);
            r.push(piece);
            assert(texts(r@) =~= before.push(pieces@[i as int]@));
        }
        i += 1;
    }
    r
}

/// Whether two paths are the same by their components.
pub fn same_path(a: &str, b: &str) -> (r: bool)
    ensures
        r == same_place(a@, b@),
{
    let p = chars_of(a);
    let q = chars_of(b);
    let x = components_of(p.as_slice());
    let y = components_of(q.as_slice());
    let rooted = p.len() > 0 && p[0] == '/';
    if rooted != (q.len() > 0 && q[0] == '/') || x.len() != y.len() {
        assert(texts(x@).len() == x@.len() && texts(y@).len() == y@.len());
        return false;
    }
    let mut i: usize = 0;
    while i < x.len()
        invariant
            i <= x@.len(),
            x@.len() == y@.len(),
            texts(x@) == parsed_path(a@).1,
            texts(y@) == parsed_path(b@).1,
            forall|k: int| 0 <= k < i ==> (#[trigger] texts(x@)[k]) == texts(y@)[k],
        decreases x@.len() - i,
    {
        assert(texts(x@)[i as int] == x@[i as int]@);
        assert(texts(y@)[i as int] == y@[i as int]@);
        if !same_chars(x[i].as_slice(), y[i].as_slice()) {
            return false;
        }
        i += 1;
    }
    assert(texts(x@) =~= texts(y@));
    true
}

/// A path is the same as itself, in whichever order two of them are compared, and along a chain.
pub proof fn law_same_place_is_an_equivalence(a: Seq<char>, b: Seq<char>, c: Seq<char>)
    ensures
        same_place(a, a),
        same_place(a, b) == same_place(b, a),
        same_place(a, b) && same_place(b, c) ==> same_place(a, c),
{
}

fn same_chars(a: &[char], b: &[char]) -> (r: bool)
    ensures
        r == (a@ == b@),
{
    if a.len() != b.len() {
        return false;
    }
    let mut i: usize = 0;
    while i < a.len()
        invariant
            i <= a@.len(),
            a@.len() == b@.len(),
            forall|k: int| 0 <= k < i ==> a@[k] == b@[k],
        decreases a@.len() - i,
    {
        if a[i] != b[i] {
            return false;
        }
        i += 1;
    }
    assert(a@ =~= b@);
    true
}

/// The final component of a path is what stands behind its last slash, and a slash at the end does
/// not count.
pub proof fn law_file_name_is_the_last_part(dir: Seq<char>, name: Seq<char>)
    requires
        name.len() > 0,
        forall|k: int| 0 <= k < name.len() ==> #[trigger] name[k] != '/',
        name != seq!['.'],
        name != seq!['.', '.'],
    ensures
        file_name(name) == Some(name),
        file_name(dir + seq!['/'] + name) == Some(name),
        file_name(dir + seq!['/'] + name + seq!['/']) == Some(name),
{
    lemma_last_slash(name, -1);
    assert(name.skip(0) =~= name);
    let p = dir + seq!['/'] + name;
    let n = dir.len() as int;
    assert(p[n] == '/');
    assert forall|k: int| n < k < p.len() implies p[k] != '/' by {
        assert(p[k] == name[k - n - 1]);
    }
    lemma_last_slash(p, n);
    assert(p.skip(n + 1) =~= name);
    let q = p + seq!['/'];
    assert(q.last() == '/');
    lemma_last_slash(q, p.len() as int);
    assert(q.skip(q.len() as int) =~= Seq::<char>::empty());
    assert(q.take(p.len() as int) =~= p);
}

proof fn lemma_last_dot(p: Seq<char>, i: int)
    requires
        -1 <= i < p.len(),
        i >= 0 ==> p[i] == '.',
        forall|k: int| i < k < p.len() ==> p[k] != '.',
    ensures
        last_dot(p) == i,
    decreases p.len(),
{
    if p.len() > 0 && i < p.len() - 1 {
        lemma_last_dot(p.drop_last(), i);
    }
}

/// The extension is what stands behind the last dot of the final component. A name without a dot has
/// none, nor has one whose only dot comes first.
pub proof fn law_extension_is_behind_the_last_dot(p: Seq<char>, stem: Seq<char>, ext: Seq<char>)
    requires
        forall|k: int| 0 <= k < ext.len() ==> #[trigger] ext[k] != '.',
    ensures
        file_name(p) == Some(stem + seq!['.'] + ext) && stem.len() > 0 ==> extension(p) == Some(ext),
        file_name(p) == Some(seq!['.'] + ext) ==> extension(p) is None,
        file_name(p) == Some(ext) ==> extension(p) is None,
        file_name(p) is None ==> extension(p) is None,
{
    let a = stem + seq!['.'] + ext;
    let n = stem.len() as int;
    assert(a[n] == '.');
    assert forall|k: int| n < k < a.len() implies a[k] != '.' by {
        assert(a[k] == ext[k - n - 1]);
    }
    lemma_last_dot(a, n);
    assert(a.skip(n + 1) =~= ext);
    let b = seq!['.'] + ext;
    assert(b[0] == '.');
    assert forall|k: int| 0 < k < b.len() implies b[k] != '.' by {
        assert(b[k] == ext[k - 1]);
    }
    lemma_last_dot(b, 0);
    lemma_last_dot(ext, -1);
}

} // verus!
