//! Paths as text. A path is a sequence of characters in which `/` separates
//! components; nothing here touches a file system.

use vstd::prelude::*;
use vstd::string::*;

use crate::text::{chars_of, same_text};

verus! {

/// The separator between the components of a path.
pub open spec fn is_separator(c: char) -> bool {
    c == '/'
}

/// A path is absolute when it starts at the root, that is with a separator.
pub open spec fn is_absolute(p: Seq<char>) -> bool {
    p.len() > 0 && is_separator(p[0])
}

/// `p`, closed by a separator unless it already ends with one.
pub open spec fn with_tail_slash(p: Seq<char>) -> Seq<char> {
    if p.len() > 0 && is_separator(p.last()) {
        p
    } else {
        p.push('/')
    }
}

/// `closed` with the component `open` added, if there is anything in it.
pub open spec fn close(closed: Seq<Seq<char>>, open: Seq<char>) -> Seq<Seq<char>> {
    if open.len() > 0 {
        closed.push(open)
    } else {
        closed
    }
}

/// Reads `p` from left to right: the components that a separator has closed
/// so far, and the characters read since the last separator.
pub open spec fn scan(p: Seq<char>) -> (Seq<Seq<char>>, Seq<char>)
    decreases p.len(),
{
    if p.len() == 0 {
        (Seq::empty(), Seq::empty())
    } else {
        let (closed, open) = scan(p.drop_last());
        if is_separator(p.last()) {
            (close(closed, open), Seq::empty())
        } else {
            (closed, open.push(p.last()))
        }
    }
}

/// The components of a path: its maximal runs of characters other than the
/// separator, from left to right. Repeated, leading and trailing separators
/// add no component.
pub open spec fn components(p: Seq<char>) -> Seq<Seq<char>> {
    close(scan(p).0, scan(p).1)
}

/// A name is what can stand as one component of a path: at least one
/// character, none of them the separator.
pub open spec fn is_name(c: Seq<char>) -> bool {
    c.len() > 0 && forall|i: int| 0 <= i < c.len() ==> !is_separator(#[trigger] c[i])
}

/// The components `cs` written as one relative path, a single separator
/// between neighbours.
pub open spec fn join_components(cs: Seq<Seq<char>>) -> Seq<char>
    decreases cs.len(),
{
    if cs.len() == 0 {
        Seq::empty()
    } else if cs.len() == 1 {
        cs[0]
    } else {
        join_components(cs.drop_last()).push('/') + cs.last()
    }
}

/// A path that is written as its own components with single separators
/// between them: relative, and without repeated or trailing separators.
pub open spec fn is_plain_relative(p: Seq<char>) -> bool {
    p == join_components(components(p))
}

/// `path` lies at or below `base`: both start at the root or neither does,
/// and the components of `base` are the first components of `path`.
pub open spec fn is_under(path: Seq<char>, base: Seq<char>) -> bool {
    &&& is_absolute(path) == is_absolute(base)
    &&& components(base).is_prefix_of(components(path))
}

/// The components `cs` without the last of them.
pub open spec fn all_but_last(cs: Seq<Seq<char>>) -> Seq<Seq<char>> {
    if cs.len() > 0 {
        cs.drop_last()
    } else {
        cs
    }
}

/// What is left of `path` once the components of `base` are taken from its
/// front, as a relative path; `None` when `path` does not lie under `base`.
pub open spec fn relative_to(path: Seq<char>, base: Seq<char>) -> Option<Seq<char>> {
    if is_under(path, base) {
        Some(join_components(components(path).skip(components(base).len() as int)))
    } else {
        None
    }
}

/// The directory in which `path` lies under `base`, as a relative path: what
/// `relative_to` gives, without its last component. `None` when `path` does
/// not lie under `base`.
pub open spec fn relative_dir_to(path: Seq<char>, base: Seq<char>) -> Option<Seq<char>> {
    if is_under(path, base) {
        Some(join_components(all_but_last(components(path).skip(components(base).len() as int))))
    } else {
        None
    }
}

/// `rel` appended to the directory `dir`. An absolute `rel` replaces `dir`,
/// and an empty `dir` adds nothing.
pub open spec fn joined(dir: Seq<char>, rel: Seq<char>) -> Seq<char> {
    if is_absolute(rel) || dir.len() == 0 {
        rel
    } else {
        with_tail_slash(dir) + rel
    }
}

/// The text `/` for an absolute path and the empty text for a relative one.
pub open spec fn root_of(p: Seq<char>) -> Seq<char> {
    if is_absolute(p) {
        seq!['/']
    } else {
        Seq::empty()
    }
}

/// The directory made of the first `k` components of `p`, with the root in
/// front where `p` has one.
pub open spec fn ancestor(p: Seq<char>, k: int) -> Seq<char> {
    root_of(p) + join_components(components(p).take(k))
}

/// The directories above `p`, the nearest first: its parent, then the
/// parent's parent, down to the root (or, for a relative path, the empty
/// path). A path without components has none.
pub open spec fn ancestors(p: Seq<char>) -> Seq<Seq<char>> {
    Seq::new(components(p).len(), |i: int| ancestor(p, components(p).len() - 1 - i))
}

/// The last component of `p`, or `p` itself where it has no component.
pub open spec fn file_name(p: Seq<char>) -> Seq<char> {
    if components(p).len() > 0 {
        components(p).last()
    } else {
        p
    }
}

/// The texts that the ranges `rs` cut out of `p`.
pub open spec fn range_texts(p: Seq<char>, rs: Seq<(usize, usize)>) -> Seq<Seq<char>> {
    Seq::new(rs.len(), |i: int| p.subrange(rs[i].0 as int, rs[i].1 as int))
}

/// Every range of `rs` is a non-empty range of positions below `n`.
pub open spec fn ranges_within(rs: Seq<(usize, usize)>, n: int) -> bool {
    forall|i: int| 0 <= i < rs.len() ==> (#[trigger] rs[i]).0 < rs[i].1 <= n
}

/// Where the components of `p` stand in it: for each component, in order,
/// the position of its first character and the position after its last.
pub fn component_ranges(p: &Vec<char>) -> (rs: Vec<(usize, usize)>)
    ensures
        ranges_within(rs@, p@.len() as int),
        range_texts(p@, rs@) == components(p@),
{
    let mut rs: Vec<(usize, usize)> = Vec::new();
    let mut start: usize = 0;
    let mut i: usize = 0;
    while i < p.len()
        invariant
            start <= i <= p@.len(),
            ranges_within(rs@, i as int),
            range_texts(p@, rs@) == scan(p@.take(i as int)).0,
            p@.subrange(start as int, i as int) == scan(p@.take(i as int)).1,
        decreases p@.len() - i,
    {
        proof {
            assert(p@.take(i + 1).drop_last() == p@.take(i as int));
            assert(p@.take(i + 1).last() == p@[i as int]);
        }
        if p[i] == '/' {
            if start < i {
                rs.push((start, i));
                assert(range_texts(p@, rs@) == scan(p@.take(i + 1)).0);
            }
            start = i + 1;
            assert(p@.subrange(start as int, i + 1) == Seq::<char>::empty());
        } else {
            assert(p@.subrange(start as int, i + 1) == p@.subrange(start as int, i as int).push(
                p@[i as int],
            ));
        }
        i += 1;
    }
    assert(p@.take(i as int) == p@);
    if start < i {
        rs.push((start, i));
    }
    assert(range_texts(p@, rs@) == components(p@));
    rs
}

/// The components of `s` that stand at the ranges `rs[from..to]`, written as
/// one relative path.
fn join_ranges(s: &str, rs: &Vec<(usize, usize)>, from: usize, to: usize) -> (r: String)
    requires
        ranges_within(rs@, s@.len() as int),
        from <= to <= rs@.len(),
    ensures
        r@ == join_components(range_texts(s@, rs@).subrange(from as int, to as int)),
{
    let ghost texts = range_texts(s@, rs@);
    let mut r = String::new();
    let mut k: usize = from;
    assert(texts.subrange(from as int, from as int) =~= Seq::<Seq<char>>::empty());
    while k < to
        invariant
            from <= k <= to <= rs@.len(),
            ranges_within(rs@, s@.len() as int),
            texts == range_texts(s@, rs@),
            r@ == join_components(texts.subrange(from as int, k as int)),
        decreases to - k,
    {
        if k > from {
            r.append("/");
            proof {
                reveal_strlit("/");
                assert("/"@ =~= seq!['/']);
            }
        }
        let range = rs[k];
        let piece = s.substring_char(range.0, range.1);
        r.append(piece);
        proof {
            let before = texts.subrange(from as int, k as int);
            let after = texts.subrange(from as int, k + 1);
            assert(after.drop_last() =~= before);
            assert(after.last() == piece@);
            if k > from {
                assert(r@ =~= join_components(before).push('/') + piece@);
            } else {
                assert(r@ =~= piece@);
                assert(after.len() == 1);
            }
        }
        k += 1;
    }
    r
}

/// Takes the directory `base` from the front of `path`, and hands out what
/// is left twice: first without its last component, then whole.
pub fn strip_prefix_split(path: &str, base: &str) -> (r: Option<(String, String)>)
    ensures
        r is Some <==> is_under(path@, base@),
        r matches Some(parts) ==> {
            &&& relative_dir_to(path@, base@) == Some(parts.0@)
            &&& relative_to(path@, base@) == Some(parts.1@)
        },
{
    let pc = chars_of(path);
    let bc = chars_of(base);
    let path_absolute = pc.len() > 0 && pc[0] == '/';
    let base_absolute = bc.len() > 0 && bc[0] == '/';
    if path_absolute != base_absolute {
        return None;
    }
    let pr = component_ranges(&pc);
    let br = component_ranges(&bc);
    if br.len() > pr.len() {
        return None;
    }
    let ghost pt = components(path@);
    let ghost bt = components(base@);
    let mut i: usize = 0;
    while i < br.len()
        invariant
            i <= br@.len() <= pr@.len(),
            pc@ == path@,
            bc@ == base@,
            ranges_within(pr@, path@.len() as int),
            ranges_within(br@, base@.len() as int),
            pt == range_texts(path@, pr@),
            bt == range_texts(base@, br@),
            pt == components(path@),
            bt == components(base@),
            forall|j: int| 0 <= j < i ==> bt[j] == pt[j],
        decreases br@.len() - i,
    {
        if !same_text(&bc, br[i], &pc, pr[i]) {
            assert(bt[i as int] != pt[i as int]);
            assert(bt[i as int] != pt.subrange(0, bt.len() as int)[i as int]);
            return None;
        }
        i += 1;
    }
    assert(bt =~= pt.subrange(0, bt.len() as int));
    let rel = join_ranges(path, &pr, br.len(), pr.len());
    let stop: usize = if br.len() < pr.len() {
        pr.len() - 1
    } else {
        pr.len()
    };
    let dir = join_ranges(path, &pr, br.len(), stop);
    proof {
        let rest = pt.skip(bt.len() as int);
        assert(rest =~= pt.subrange(bt.len() as int, pt.len() as int));
        assert(all_but_last(rest) =~= pt.subrange(bt.len() as int, stop as int));
    }
    Some((dir, rel))
}

/// Takes the directory `base` from the front of `path`. The result is the
/// rest of `path` as a relative path with single separators, and `None` when
/// `path` does not lie under `base`.
pub fn strip_prefix(path: &str, base: &str) -> (r: Option<String>)
    ensures
        r is Some <==> is_under(path@, base@),
        r matches Some(rel) ==> relative_to(path@, base@) == Some(rel@),
{
    match strip_prefix_split(path, base) {
        Some(parts) => Some(parts.1),
        None => None,
    }
}

/// Appends the relative path `rel` to the directory `dir`.
pub fn join(dir: &str, rel: &str) -> (r: String)
    ensures
        r@ == joined(dir@, rel@),
{
    let rel_len: usize = rel.unicode_len();
    let dir_len: usize = dir.unicode_len();
    if dir_len == 0 || (rel_len > 0 && rel.get_char(0) == '/') {
        return String::from_str(rel);
    }
    let mut r = dir_path_with_tail_slash(dir);
    r.append(rel);
    r
}

/// The directories above `path`, the nearest first.
pub fn list_ancestors(path: &str) -> (r: Vec<String>)
    ensures
        r@.len() == ancestors(path@).len(),
        forall|i: int| 0 <= i < r@.len() ==> (#[trigger] r@[i])@ == ancestors(path@)[i],
{
    let pc = chars_of(path);
    let absolute = pc.len() > 0 && pc[0] == '/';
    let rs = component_ranges(&pc);
    let n: usize = rs.len();
    let mut r: Vec<String> = Vec::new();
    let mut i: usize = 0;
    while i < n
        invariant
            i <= n,
            n == rs@.len(),
            n == components(path@).len(),
            absolute == is_absolute(path@),
            ranges_within(rs@, path@.len() as int),
            range_texts(path@, rs@) == components(path@),
            r@.len() == i,
            forall|j: int| 0 <= j < i ==> (#[trigger] r@[j])@ == ancestors(path@)[j],
        decreases n - i,
    {
        let k: usize = n - 1 - i;
        let tail = join_ranges(path, &rs, 0, k);
        let mut text = String::new();
        if absolute {
            text.append("/");
            proof {
                reveal_strlit("/");
                assert("/"@ =~= seq!['/']);
            }
        }
        text.append(tail.as_str());
        proof {
            assert(components(path@).take(k as int) == components(path@).subrange(0, k as int));
            assert(text@ =~= ancestor(path@, k as int));
        }
        r.push(text);
        i += 1;
    }
    r
}

/// The name of the entry at `path`: its last component.
pub fn base_name(path: &str) -> (r: String)
    ensures
        r@ == file_name(path@),
{
    let pc = chars_of(path);
    let rs = component_ranges(&pc);
    if rs.len() == 0 {
        return String::from_str(path);
    }
    let last = rs[rs.len() - 1];
    String::from_str(path.substring_char(last.0, last.1))
}

/// Turns a directory path into the form that names the directory's contents:
/// the same text with one separator appended, unless it ends with one.
pub fn dir_path_with_tail_slash(dir: &str) -> (r: String)
    ensures
        r@ == with_tail_slash(dir@),
{
    let n: usize = dir.unicode_len();
    let mut r = String::from_str(dir);
    if n == 0 || dir.get_char(n - 1) != '/' {
        r.append("/");
        proof {
            reveal_strlit("/");
            assert("/"@ =~= seq!['/']);
            assert(r@ =~= dir@.push('/'));
        }
    }
    r
}

/// While a path is read, what has been closed are names, and what is open
/// holds no separator.
proof fn lemma_scan_names(p: Seq<char>)
    ensures
        forall|i: int| 0 <= i < scan(p).0.len() ==> is_name(#[trigger] scan(p).0[i]),
        forall|i: int| 0 <= i < scan(p).1.len() ==> !is_separator(#[trigger] scan(p).1[i]),
    decreases p.len(),
{
    if p.len() > 0 {
        let (closed, open) = scan(p.drop_last());
        lemma_scan_names(p.drop_last());
        if is_separator(p.last()) {
            assert forall|i: int| 0 <= i < scan(p).0.len() implies is_name(
                #[trigger] scan(p).0[i],
            ) by {
                if i < closed.len() {
                    assert(scan(p).0[i] == closed[i]);
                } else {
                    assert(scan(p).0[i] == open);
                    assert forall|j: int| 0 <= j < open.len() implies !is_separator(
                        #[trigger] open[j],
                    ) by {
                        assert(open[j] == scan(p.drop_last()).1[j]);
                    }
                }
            }
        } else {
            assert forall|i: int| 0 <= i < scan(p).1.len() implies !is_separator(
                #[trigger] scan(p).1[i],
            ) by {
                if i < open.len() {
                    assert(scan(p).1[i] == open[i]);
                    assert(open[i] == scan(p.drop_last()).1[i]);
                }
            }
            assert forall|i: int| 0 <= i < scan(p).0.len() implies is_name(
                #[trigger] scan(p).0[i],
            ) by {
                assert(scan(p).0[i] == scan(p.drop_last()).0[i]);
            }
        }
    }
}

/// Every component of a path is a name.
pub proof fn lemma_components_are_names(p: Seq<char>)
    ensures
        forall|i: int| 0 <= i < components(p).len() ==> is_name(#[trigger] components(p)[i]),
{
    lemma_scan_names(p);
}

/// Characters other than the separator, read after `p`, lengthen the open
/// component and close nothing.
proof fn lemma_scan_append_open(p: Seq<char>, t: Seq<char>)
    requires
        forall|i: int| 0 <= i < t.len() ==> !is_separator(#[trigger] t[i]),
    ensures
        scan(p + t) == (scan(p).0, scan(p).1 + t),
    decreases t.len(),
{
    if t.len() == 0 {
        assert(p + t =~= p);
        assert(scan(p).1 + t =~= scan(p).1);
    } else {
        let init = t.drop_last();
        lemma_scan_append_open(p, init);
        assert((p + t).drop_last() =~= p + init);
        assert((p + t).last() == t.last());
        assert((scan(p).1 + init).push(t.last()) =~= scan(p).1 + t);
    }
}

/// After a path with nothing left open, a second path is read as if it stood
/// alone.
proof fn lemma_scan_after_closed(p: Seq<char>, q: Seq<char>)
    requires
        scan(p).1.len() == 0,
    ensures
        scan(p + q) == (scan(p).0 + scan(q).0, scan(q).1),
    decreases q.len(),
{
    if q.len() == 0 {
        assert(p + q =~= p);
        assert(scan(p).0 + scan(q).0 =~= scan(p).0);
        assert(scan(p).1 =~= scan(q).1);
    } else {
        let init = q.drop_last();
        lemma_scan_after_closed(p, init);
        assert((p + q).drop_last() =~= p + init);
        assert((p + q).last() == q.last());
        if is_separator(q.last()) {
            assert(close(scan(p).0 + scan(init).0, scan(init).1) =~= scan(p).0 + close(
                scan(init).0,
                scan(init).1,
            ));
        }
    }
}

/// A separator at the end of a path adds no component and leaves nothing
/// open.
pub proof fn lemma_components_with_tail_slash(p: Seq<char>)
    ensures
        components(with_tail_slash(p)) == components(p),
        p.len() > 0 ==> scan(with_tail_slash(p)).1.len() == 0,
        p.len() > 0 ==> is_absolute(with_tail_slash(p)) == is_absolute(p),
{
    if p.len() > 0 && is_separator(p.last()) {
    } else {
        assert(p.push('/').drop_last() =~= p);
        if p.len() == 0 {
            assert(p.push('/').drop_last().len() == 0);
        }
    }
}

/// A path that ends with a separator, followed by a second path, has the
/// components of the first and then those of the second.
pub proof fn lemma_components_concat(p: Seq<char>, q: Seq<char>)
    requires
        p.len() == 0 || is_separator(p.last()),
    ensures
        components(p + q) == components(p) + components(q),
{
    lemma_scan_after_closed(p, q);
    assert(close(scan(p).0 + scan(q).0, scan(q).1) =~= scan(p).0 + close(scan(q).0, scan(q).1));
}

/// Names joined into a path are again its components, and the path is
/// relative.
pub proof fn lemma_components_of_join(cs: Seq<Seq<char>>)
    requires
        forall|i: int| 0 <= i < cs.len() ==> is_name(#[trigger] cs[i]),
    ensures
        components(join_components(cs)) == cs,
        !is_absolute(join_components(cs)),
        cs.len() > 0 ==> join_components(cs).len() > 0,
    decreases cs.len(),
{
    let empty = Seq::<char>::empty();
    if cs.len() == 0 {
        assert(components(join_components(cs)) =~= cs);
    } else if cs.len() == 1 {
        assert(is_name(cs[0]));
        lemma_scan_append_open(empty, cs[0]);
        assert(empty + cs[0] =~= cs[0]);
        assert(scan(cs[0]) == (Seq::<Seq<char>>::empty(), cs[0]));
        assert(Seq::<Seq<char>>::empty().push(cs[0]) =~= cs);
    } else {
        let init = cs.drop_last();
        let last = cs.last();
        assert(is_name(last));
        assert forall|i: int| 0 <= i < init.len() implies is_name(#[trigger] init[i]) by {
            assert(init[i] == cs[i]);
        }
        lemma_components_of_join(init);
        let head = join_components(init).push('/');
        assert(head.drop_last() =~= join_components(init));
        assert(scan(head) == (init, empty));
        lemma_scan_append_open(head, last);
        assert(empty + last =~= last);
        assert(init.push(last) =~= cs);
        assert(head[0] == join_components(init)[0]);
        assert((head + last)[0] == head[0]);
    }
}

/// The law of stripping what was joined: a plain relative path appended to a
/// directory lies under that directory, and taking the directory away gives
/// the relative path back.
pub proof fn lemma_strip_prefix_of_join(dir: Seq<char>, rel: Seq<char>)
    requires
        is_plain_relative(rel),
    ensures
        is_under(joined(dir, rel), dir),
        relative_to(joined(dir, rel), dir) == Some(rel),
{
    let cs = components(rel);
    lemma_components_are_names(rel);
    lemma_components_of_join(cs);
    assert(!is_absolute(rel));
    if dir.len() == 0 {
        assert(components(dir) =~= Seq::<Seq<char>>::empty());
        assert(cs.skip(0) =~= cs);
        assert(components(dir) =~= cs.subrange(0, 0));
    } else {
        let head = with_tail_slash(dir);
        lemma_components_with_tail_slash(dir);
        lemma_components_concat(head, rel);
        let all = components(dir) + cs;
        assert(all.subrange(0, components(dir).len() as int) =~= components(dir));
        assert(all.skip(components(dir).len() as int) =~= cs);
        assert((head + rel)[0] == head[0]);
    }
}

/// A path lies under each of the directories above it.
pub proof fn lemma_under_each_ancestor(p: Seq<char>, i: int)
    requires
        0 <= i < ancestors(p).len(),
    ensures
        is_under(p, ancestors(p)[i]),
        components(ancestors(p)[i]) == components(p).take(components(p).len() - 1 - i),
{
    let cs = components(p);
    let k = cs.len() - 1 - i;
    let first = cs.take(k);
    let tail = join_components(first);
    lemma_components_are_names(p);
    assert forall|j: int| 0 <= j < first.len() implies is_name(#[trigger] first[j]) by {
        assert(first[j] == cs[j]);
    }
    lemma_components_of_join(first);
    assert(first =~= cs.subrange(0, first.len() as int));
    if is_absolute(p) {
        let root = seq!['/'];
        lemma_components_with_tail_slash(Seq::<char>::empty());
        assert(with_tail_slash(Seq::<char>::empty()) =~= root);
        assert(components(Seq::<char>::empty()) =~= Seq::<Seq<char>>::empty());
        lemma_components_concat(root, tail);
        assert(components(root) + first =~= first);
        assert((root + tail)[0] == '/');
    } else {
        assert(Seq::<char>::empty() + tail =~= tail);
    }
}

/// The law of joining what was stripped: a directory with the rest of a path
/// under it appended names the path again, component for component.
pub proof fn lemma_join_of_strip_prefix(path: Seq<char>, base: Seq<char>)
    requires
        is_under(path, base),
    ensures
        components(joined(base, relative_to(path, base)->Some_0)) == components(path),
        is_absolute(joined(base, relative_to(path, base)->Some_0)) == is_absolute(path),
{
    let cs = components(path);
    let n = components(base).len() as int;
    let rest = cs.skip(n);
    let rel = join_components(rest);
    lemma_components_are_names(path);
    assert forall|j: int| 0 <= j < rest.len() implies is_name(#[trigger] rest[j]) by {
        assert(rest[j] == cs[j + n]);
    }
    lemma_components_of_join(rest);
    assert(components(base) =~= cs.subrange(0, n));
    if base.len() == 0 {
        assert(components(base) =~= Seq::<Seq<char>>::empty());
        assert(rest =~= cs);
    } else {
        let head = with_tail_slash(base);
        lemma_components_with_tail_slash(base);
        lemma_components_concat(head, rel);
        assert(cs.subrange(0, n) + rest =~= cs);
        assert((head + rel)[0] == head[0]);
    }
}

} // verus!
