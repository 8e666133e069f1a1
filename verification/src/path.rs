//! A lexical model of Unix paths: how a path string splits into
//! components (as `std::path::Path::components` documents it, each component
//! rendered as its OS string), how a relative path is joined onto a base
//! (as `PathBuf::push` documents it), and the normalization that removes `.`
//! and resolves `..` without touching the filesystem.
use vstd::prelude::*;

verus! {

/// The pieces of `s` between occurrences of `sep` (always at least one piece).
pub open spec fn split_on(s: Seq<char>, sep: char) -> Seq<Seq<char>>
    decreases s.len(),
{
    if s.len() == 0 {
        seq![Seq::<char>::empty()]
    } else {
        let prev = split_on(s.drop_last(), sep);
        if s.last() == sep {
            prev.push(Seq::<char>::empty())
        } else {
            prev.update(prev.len() - 1, prev.last().push(s.last()))
        }
    }
}

pub proof fn lemma_split_on_nonempty(s: Seq<char>, sep: char)
    ensures
        split_on(s, sep).len() >= 1,
    decreases s.len(),
{
    if s.len() > 0 {
        lemma_split_on_nonempty(s.drop_last(), sep);
    }
}

/// The root component, rendered as `/`.
pub open spec fn root_dir() -> Seq<char> {
    seq!['/']
}

/// The current-directory component `.`.
pub open spec fn cur_dir() -> Seq<char> {
    seq!['.']
}

/// The parent-directory component `..`.
pub open spec fn parent_dir() -> Seq<char> {
    seq!['.', '.']
}

/// Whether `s` is a path with a root (on Unix: it begins with `/`).
pub open spec fn spec_is_absolute(s: Seq<char>) -> bool {
    s.len() > 0 && s[0] == '/'
}

/// The pieces between separators that name a component: empty pieces
/// (repeated or trailing separators) and `.` pieces are dropped.
pub open spec fn named_pieces(ps: Seq<Seq<char>>) -> Seq<Seq<char>>
    decreases ps.len(),
{
    if ps.len() == 0 {
        Seq::empty()
    } else {
        let prev = named_pieces(ps.drop_last());
        if ps.last().len() == 0 || ps.last() == cur_dir() {
            prev
        } else {
            prev.push(ps.last())
        }
    }
}

/// The components of a Unix path: a leading `/` for a path with a root,
/// a leading `.` for a relative path whose first piece is `.`, then every
/// non-empty piece other than `.` (`..` is kept).
pub open spec fn spec_components(p: Seq<char>) -> Seq<Seq<char>> {
    let pieces = split_on(p, '/');
    let head = if spec_is_absolute(p) {
        seq![root_dir()]
    } else if pieces[0] == cur_dir() {
        seq![cur_dir()]
    } else {
        Seq::empty()
    };
    head + named_pieces(pieces)
}

/// `base` joined with `p`: `p` itself when it has a root, otherwise `p`
/// appended to `base` with a `/` in between when `base` does not end in one.
pub open spec fn spec_join(base: Seq<char>, p: Seq<char>) -> Seq<char> {
    if spec_is_absolute(p) {
        p
    } else if base.len() > 0 && base.last() != '/' {
        base + seq!['/'] + p
    } else {
        base + p
    }
}

/// One step of lexical normalization: `..` removes the last named component
/// (never the root), `.` is skipped, anything else is appended.
pub open spec fn normalize_step(out: Seq<Seq<char>>, c: Seq<char>) -> Seq<Seq<char>> {
    if c == parent_dir() {
        if out.len() > 0 && out.last() != root_dir() {
            out.drop_last()
        } else {
            out
        }
    } else if c == cur_dir() {
        out
    } else {
        out.push(c)
    }
}

/// Lexical normalization of a component list, left to right.
pub open spec fn spec_normalize(cs: Seq<Seq<char>>) -> Seq<Seq<char>>
    decreases cs.len(),
{
    if cs.len() == 0 {
        Seq::empty()
    } else {
        normalize_step(spec_normalize(cs.drop_last()), cs.last())
    }
}

/// Whether the component list `base` is a prefix of `path`
/// (what `Path::starts_with` compares).
pub open spec fn spec_starts_with(path: Seq<Seq<char>>, base: Seq<Seq<char>>) -> bool {
    base.len() <= path.len() && path.take(base.len() as int) == base
}

/// The view of a list of character vectors.
pub open spec fn chars_list_view(v: Seq<Vec<char>>) -> Seq<Seq<char>> {
    v.map_values(|x: Vec<char>| x@)
}

/// Whether `p` has a root.
pub fn is_absolute(p: &Vec<char>) -> (r: bool)
    ensures
        r == spec_is_absolute(p@),
{
    p.len() > 0 && p[0] == '/'
}

fn is_cur_dir(c: &Vec<char>) -> (r: bool)
    ensures
        r == (c@ == cur_dir()),
{
    let r = c.len() == 1 && c[0] == '.';
    proof {
        if r {
            assert(c@ =~= cur_dir());
        }
    }
    r
}

fn is_parent_dir(c: &Vec<char>) -> (r: bool)
    ensures
        r == (c@ == parent_dir()),
{
    let r = c.len() == 2 && c[0] == '.' && c[1] == '.';
    proof {
        if r {
            assert(c@ =~= parent_dir());
        }
    }
    r
}

fn is_root_dir(c: &Vec<char>) -> (r: bool)
    ensures
        r == (c@ == root_dir()),
{
    let r = c.len() == 1 && c[0] == '/';
    proof {
        if r {
            assert(c@ =~= root_dir());
        }
    }
    r
}

/// Splits `s` at every `sep`.
pub fn split_chars(s: &Vec<char>, sep: char) -> (r: Vec<Vec<char>>)
    ensures
        chars_list_view(r@) == split_on(s@, sep),
{
    let mut done: Vec<Vec<char>> = Vec::new();
    let mut cur: Vec<char> = Vec::new();
    let mut i: usize = 0;
    assert(s@.take(0) =~= Seq::<char>::empty());
    while i < s.len()
        invariant
            i <= s.len(),
            split_on(s@.take(i as int), sep) == chars_list_view(done@).push(cur@),
        decreases s.len() - i,
    {
        let c = s[i];
        proof {
            let t = s@.take(i as int + 1);
            assert(t.drop_last() =~= s@.take(i as int));
            assert(t.last() == c);
        }
        if c == sep {
            let old_done = Ghost(chars_list_view(done@));
            let old_cur = Ghost(cur@);
            done.push(cur);
            cur = Vec::new();
            proof {
                assert(chars_list_view(done@) =~= old_done@.push(old_cur@));
                assert(chars_list_view(done@).push(cur@) =~= old_done@.push(old_cur@).push(
                    Seq::empty(),
                ));
            }
        } else {
            let ghost before = chars_list_view(done@).push(cur@);
            cur.push(c);
            proof {
                assert(chars_list_view(done@).push(cur@) =~= before.update(
                    before.len() - 1,
                    before.last().push(c),
                ));
            }
        }
        i = i + 1;
    }
    assert(s@.take(s.len() as int) =~= s@);
    let ghost before = chars_list_view(done@);
    done.push(cur);
    assert(chars_list_view(done@) =~= before.push(cur@));
    done
}

/// The components of the path `p` (see `spec_components`).
pub fn components(p: &Vec<char>) -> (r: Vec<Vec<char>>)
    ensures
        chars_list_view(r@) == spec_components(p@),
{
    let pieces = split_chars(p, '/');
    proof {
        lemma_split_on_nonempty(p@, '/');
    }
    let mut r: Vec<Vec<char>> = Vec::new();
    if is_absolute(p) {
        let root = vec!['/'];
        assert(root@ =~= root_dir());
        r.push(root);
        proof {
            assert(chars_list_view(r@) =~= seq![root_dir()]);
        }
    } else {
        proof {
            assert(chars_list_view(pieces@)[0] == pieces@[0]@);
        }
        if is_cur_dir(&pieces[0]) {
            let cur = vec!['.'];
            assert(cur@ =~= cur_dir());
            r.push(cur);
            proof {
                assert(chars_list_view(r@) =~= seq![cur_dir()]);
            }
        } else {
            proof {
                assert(chars_list_view(r@) =~= Seq::<Seq<char>>::empty());
            }
        }
    }
    let ghost head = chars_list_view(r@);
    let mut i: usize = 0;
    assert(chars_list_view(pieces@).take(0) =~= Seq::<Seq<char>>::empty());
    assert(head + named_pieces(Seq::empty()) =~= head);
    while i < pieces.len()
        invariant
            i <= pieces.len(),
            chars_list_view(r@) == head + named_pieces(chars_list_view(pieces@).take(i as int)),
        decreases pieces.len() - i,
    {
        let ghost ps = chars_list_view(pieces@);
        proof {
            let t = ps.take(i as int + 1);
            assert(t.drop_last() =~= ps.take(i as int));
            assert(t.last() == pieces@[i as int]@);
        }
        let ghost before = chars_list_view(r@);
        if pieces[i].len() == 0 || is_cur_dir(&pieces[i]) {
        } else {
            r.push(pieces[i].clone());
            proof {
                assert(chars_list_view(r@) =~= before.push(pieces@[i as int]@));
            }
        }
        i = i + 1;
    }
    assert(chars_list_view(pieces@).take(pieces.len() as int) =~= chars_list_view(pieces@));
    r
}

/// `base` joined with `p` (see `spec_join`).
pub fn join(base: &Vec<char>, p: &Vec<char>) -> (r: Vec<char>)
    ensures
        r@ == spec_join(base@, p@),
{
    if is_absolute(p) {
        return p.clone();
    }
    let mut r = base.clone();
    if base.len() > 0 && base[base.len() - 1] != '/' {
        r.push('/');
    }
    let ghost before = r@;
    let mut i: usize = 0;
    while i < p.len()
        invariant
            i <= p.len(),
            r@ == before + p@.take(i as int),
        decreases p.len() - i,
    {
        r.push(p[i]);
        i = i + 1;
        assert(r@ =~= before + p@.take(i as int));
    }
    assert(p@.take(p.len() as int) =~= p@);
    r
}

/// Removes `.` components and resolves `..` against the components before
/// it, without touching the filesystem.
pub fn normalize(cs: &Vec<Vec<char>>) -> (r: Vec<Vec<char>>)
    ensures
        chars_list_view(r@) == spec_normalize(chars_list_view(cs@)),
{
    let mut out: Vec<Vec<char>> = Vec::new();
    let mut i: usize = 0;
    assert(chars_list_view(cs@).take(0) =~= Seq::<Seq<char>>::empty());
    assert(chars_list_view(out@) =~= Seq::<Seq<char>>::empty());
    while i < cs.len()
        invariant
            i <= cs.len(),
            chars_list_view(out@) == spec_normalize(chars_list_view(cs@).take(i as int)),
        decreases cs.len() - i,
    {
        let ghost v = chars_list_view(cs@);
        let ghost before = chars_list_view(out@);
        proof {
            let t = v.take(i as int + 1);
            assert(t.drop_last() =~= v.take(i as int));
            assert(t.last() == cs@[i as int]@);
        }
        if is_parent_dir(&cs[i]) {
            if out.len() > 0 && !is_root_dir(&out[out.len() - 1]) {
                out.pop();
                proof {
                    assert(chars_list_view(out@) =~= before.drop_last());
                }
            }
        } else if is_cur_dir(&cs[i]) {
        } else {
            out.push(cs[i].clone());
            proof {
                assert(chars_list_view(out@) =~= before.push(cs@[i as int]@));
            }
        }
        i = i + 1;
    }
    assert(chars_list_view(cs@).take(cs.len() as int) =~= chars_list_view(cs@));
    out
}

/// Whether the component list `base` is a prefix of `path`.
pub fn starts_with(path: &Vec<Vec<char>>, base: &Vec<Vec<char>>) -> (r: bool)
    ensures
        r == spec_starts_with(chars_list_view(path@), chars_list_view(base@)),
{
    if base.len() > path.len() {
        return false;
    }
    let mut i: usize = 0;
    while i < base.len()
        invariant
            base.len() <= path.len(),
            i <= base.len(),
            forall|j: int| 0 <= j < i ==> path@[j]@ == base@[j]@,
        decreases base.len() - i,
    {
        if !crate::text::chars_eq(&path[i], &base[i]) {
            proof {
                let pv = chars_list_view(path@).take(base.len() as int);
                assert(pv[i as int] == path@[i as int]@);
            }
            return false;
        }
        i = i + 1;
    }
    assert(chars_list_view(path@).take(base.len() as int) =~= chars_list_view(base@));
    true
}

/// No component of `cs` is `.` or `..`.
pub open spec fn no_dot_components(cs: Seq<Seq<char>>) -> bool {
    forall|i: int| 0 <= i < cs.len() ==> #[trigger] cs[i] != cur_dir() && cs[i] != parent_dir()
}

/// Normalization leaves a list without `.` and `..` components unchanged.
pub proof fn lemma_normalize_keeps_clean(cs: Seq<Seq<char>>)
    requires
        no_dot_components(cs),
    ensures
        spec_normalize(cs) == cs,
    decreases cs.len(),
{
    if cs.len() > 0 {
        assert(no_dot_components(cs.drop_last()));
        lemma_normalize_keeps_clean(cs.drop_last());
        assert(cs.drop_last().push(cs.last()) =~= cs);
    }
}

/// A normalized path has no `.` or `..` component, and normalizing it again
/// changes nothing.
pub proof fn law_normalize_idempotent(cs: Seq<Seq<char>>)
    ensures
        no_dot_components(spec_normalize(cs)),
        spec_normalize(spec_normalize(cs)) == spec_normalize(cs),
    decreases cs.len(),
{
    if cs.len() > 0 {
        law_normalize_idempotent(cs.drop_last());
        let prev = spec_normalize(cs.drop_last());
        let c = cs.last();
        if c == parent_dir() {
            if prev.len() > 0 && prev.last() != root_dir() {
                assert forall|i: int| 0 <= i < prev.drop_last().len() implies #[trigger] prev.drop_last()[i]
                    != cur_dir() && prev.drop_last()[i] != parent_dir() by {
                    assert(prev.drop_last()[i] == prev[i]);
                }
            }
        } else if c != cur_dir() {
            assert forall|i: int| 0 <= i < prev.push(c).len() implies #[trigger] prev.push(c)[i]
                != cur_dir() && prev.push(c)[i] != parent_dir() by {
                if i < prev.len() {
                    assert(prev.push(c)[i] == prev[i]);
                }
            }
        }
    }
    lemma_normalize_keeps_clean(spec_normalize(cs));
}

} // verus!
