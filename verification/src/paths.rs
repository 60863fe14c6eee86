//! Paths as bytes: splitting at a separator, dropping empty pieces, and
//! joining names again.

use vstd::prelude::*;

verus! {

/// The byte that separates the components of a path.
pub const SLASH: u8 = 47;

/// The byte that separates the entries of a search path.
pub const COLON: u8 = 58;

/// The byte of which the components `.` and `..` are made.
pub const DOT: u8 = 46;

/// The pieces of `s` between occurrences of `sep`.  There is always at
/// least one piece; a separator at either end gives an empty piece there.
pub open spec fn split(s: Seq<u8>, sep: u8) -> Seq<Seq<u8>>
    decreases s.len(),
{
    if s.len() == 0 {
        seq![Seq::<u8>::empty()]
    } else if s.last() == sep {
        split(s.drop_last(), sep).push(Seq::<u8>::empty())
    } else {
        let front = split(s.drop_last(), sep);
        front.drop_last().push(front.last().push(s.last()))
    }
}

/// The pieces that are not empty, in their order.
pub open spec fn names(pieces: Seq<Seq<u8>>) -> Seq<Seq<u8>>
    decreases pieces.len(),
{
    if pieces.len() == 0 {
        pieces
    } else if pieces.last().len() == 0 {
        names(pieces.drop_last())
    } else {
        names(pieces.drop_last()).push(pieces.last())
    }
}

/// The names written one after the other with `sep` between them.
pub open spec fn join(names: Seq<Seq<u8>>, sep: u8) -> Seq<u8>
    decreases names.len(),
{
    if names.len() == 0 {
        Seq::<u8>::empty()
    } else if names.len() == 1 {
        names[0]
    } else {
        join(names.drop_last(), sep) + seq![sep] + names.last()
    }
}

/// The contents of each vector of a list.
pub open spec fn bytes_view(list: Seq<Vec<u8>>) -> Seq<Seq<u8>> {
    Seq::new(list.len(), |i: int| list[i]@)
}

/// A split has at least one piece.
pub proof fn lemma_split_nonempty(s: Seq<u8>, sep: u8)
    ensures
        split(s, sep).len() >= 1,
    decreases s.len(),
{
    if s.len() > 0 {
        lemma_split_nonempty(s.drop_last(), sep);
    }
}

/// No byte of `s` is `sep`.
pub open spec fn free_of(s: Seq<u8>, sep: u8) -> bool {
    forall|j: int| 0 <= j < s.len() ==> s[j] != sep
}

/// No piece of a split holds the separator.
pub proof fn lemma_split_pieces_free(s: Seq<u8>, sep: u8)
    ensures
        forall|i: int| 0 <= i < split(s, sep).len() ==> free_of(#[trigger] split(s, sep)[i], sep),
    decreases s.len(),
{
    if s.len() > 0 {
        lemma_split_pieces_free(s.drop_last(), sep);
        lemma_split_nonempty(s.drop_last(), sep);
        let front = split(s.drop_last(), sep);
        assert forall|i: int| 0 <= i < split(s, sep).len() implies free_of(
            #[trigger] split(s, sep)[i],
            sep,
        ) by {
            if i < front.len() - 1 {
                assert(split(s, sep)[i] == front[i]);
            } else if s.last() != sep {
                assert(free_of(front[front.len() - 1], sep));
            }
        }
    }
}

/// A path that starts with the separator splits into an empty first piece.
pub proof fn lemma_split_leading(s: Seq<u8>, sep: u8)
    requires
        s.len() > 0,
        s[0] == sep,
    ensures
        split(s, sep).len() >= 2,
        split(s, sep)[0].len() == 0,
    decreases s.len(),
{
    if s.len() == 1 {
        assert(s.drop_last() =~= Seq::<u8>::empty());
        assert(split(s.drop_last(), sep) =~= seq![Seq::<u8>::empty()]);
    } else {
        lemma_split_leading(s.drop_last(), sep);
    }
}

/// Appending bytes without a separator extends the last piece.
pub proof fn lemma_split_append(a: Seq<u8>, b: Seq<u8>, sep: u8)
    requires
        free_of(b, sep),
    ensures
        split(a + b, sep) == split(a, sep).drop_last().push(split(a, sep).last() + b),
    decreases b.len(),
{
    lemma_split_nonempty(a, sep);
    let pieces = split(a, sep);
    if b.len() == 0 {
        assert(a + b =~= a);
        assert(pieces.last() + b =~= pieces.last());
        assert(pieces.drop_last().push(pieces.last()) =~= pieces);
    } else {
        let front = b.drop_last();
        assert(free_of(front, sep)) by {
            assert forall|j: int| 0 <= j < front.len() implies front[j] != sep by {
                assert(front[j] == b[j]);
            }
        }
        lemma_split_append(a, front, sep);
        assert((a + b).drop_last() =~= a + front);
        assert((a + b).last() == b.last());
        assert(b.last() == b[b.len() - 1]);
        let mid = split(a + front, sep);
        assert(mid.drop_last() =~= pieces.drop_last());
        assert(mid.last() == pieces.last() + front);
        assert((pieces.last() + front).push(b.last()) =~= pieces.last() + b);
    }
}

/// Splitting undoes joining, for at least one name and names without the
/// separator.
pub proof fn lemma_split_join(list: Seq<Seq<u8>>, sep: u8)
    requires
        list.len() >= 1,
        forall|i: int| 0 <= i < list.len() ==> free_of(#[trigger] list[i], sep),
    ensures
        split(join(list, sep), sep) == list,
    decreases list.len(),
{
    if list.len() == 1 {
        let empty = Seq::<u8>::empty();
        lemma_split_append(empty, list[0], sep);
        assert(empty + list[0] =~= list[0]);
        assert(split(empty, sep) =~= seq![empty]);
        assert(seq![empty].drop_last().push(seq![empty].last() + list[0]) =~= list);
    } else {
        let front = list.drop_last();
        assert forall|i: int| 0 <= i < front.len() implies free_of(#[trigger] front[i], sep) by {
            assert(front[i] == list[i]);
        }
        lemma_split_join(front, sep);
        let head = join(front, sep) + seq![sep];
        assert(head.drop_last() =~= join(front, sep));
        assert(head.last() == sep);
        assert(split(head, sep) == front.push(Seq::<u8>::empty()));
        assert(free_of(list.last(), sep)) by {
            assert(list.last() == list[list.len() - 1]);
        }
        lemma_split_append(head, list.last(), sep);
        assert(Seq::<u8>::empty() + list.last() =~= list.last());
        assert(front.push(Seq::<u8>::empty()).drop_last() =~= front);
        assert(front.push(list.last()) =~= list);
    }
}

/// Every name is a piece, and none is empty.
pub proof fn lemma_names_are_pieces(pieces: Seq<Seq<u8>>)
    ensures
        forall|k: int|
            0 <= k < names(pieces).len() ==> (#[trigger] names(pieces)[k]).len() > 0
                && pieces.contains(names(pieces)[k]),
    decreases pieces.len(),
{
    if pieces.len() > 0 {
        let front = pieces.drop_last();
        lemma_names_are_pieces(front);
        assert forall|k: int| 0 <= k < names(pieces).len() implies (#[trigger] names(
            pieces,
        )[k]).len() > 0 && pieces.contains(names(pieces)[k]) by {
            if k < names(front).len() {
                assert(names(pieces)[k] == names(front)[k]);
                let i = choose|i: int| 0 <= i < front.len() && front[i] == names(front)[k];
                assert(pieces[i] == front[i]);
            } else {
                assert(names(pieces)[k] == pieces[pieces.len() - 1]);
            }
        }
    }
}

/// Appends the bytes of `piece` to `out`.
pub fn append_bytes(out: &mut Vec<u8>, piece: &Vec<u8>)
    ensures
        final(out)@ == old(out)@ + piece@,
{
    let mut i: usize = 0;
    while i < piece.len()
        invariant
            i <= piece@.len(),
            out@ == old(out)@ + piece@.take(i as int),
        decreases piece@.len() - i,
    {
        out.push(piece[i]);
        assert(piece@.take(i as int + 1) =~= piece@.take(i as int).push(piece@[i as int]));
        i += 1;
    }
    assert(piece@.take(piece@.len() as int) =~= piece@);
}

/// Whether two byte strings are the same.
pub fn bytes_equal(a: &Vec<u8>, b: &Vec<u8>) -> (same: bool)
    ensures
        same == (a@ == b@),
{
    if a.len() != b.len() {
        return false;
    }
    let mut i: usize = 0;
    while i < a.len()
        invariant
            i <= a@.len(),
            a@.len() == b@.len(),
            a@.take(i as int) == b@.take(i as int),
        decreases a@.len() - i,
    {
        if a[i] != b[i] {
            assert(a@[i as int] != b@[i as int]);
            return false;
        }
        assert(a@.take(i as int + 1) =~= a@.take(i as int).push(a@[i as int]));
        assert(b@.take(i as int + 1) =~= b@.take(i as int).push(b@[i as int]));
        i += 1;
    }
    assert(a@.take(a@.len() as int) =~= a@);
    assert(b@.take(b@.len() as int) =~= b@);
    true
}

/// Splits `s` at every occurrence of `sep`.
pub fn split_bytes(s: &Vec<u8>, sep: u8) -> (pieces: Vec<Vec<u8>>)
    ensures
        bytes_view(pieces@) == split(s@, sep),
{
    let mut pieces: Vec<Vec<u8>> = Vec::new();
    let mut current: Vec<u8> = Vec::new();
    let mut i: usize = 0;
    assert(bytes_view(pieces@).push(current@) =~= split(s@.take(0), sep));
    while i < s.len()
        invariant
            i <= s@.len(),
            bytes_view(pieces@).push(current@) == split(s@.take(i as int), sep),
        decreases s@.len() - i,
    {
        let ghost done = bytes_view(pieces@);
        let ghost open = current@;
        let b = s[i];
        proof {
            let next = s@.take(i as int + 1);
            assert(next.drop_last() =~= s@.take(i as int));
            assert(next.last() == b);
            assert(done.push(open).drop_last() =~= done);
        }
        if b == sep {
            pieces.push(current);
            current = Vec::new();
            assert(bytes_view(pieces@) =~= done.push(open));
        } else {
            current.push(b);
        }
        i += 1;
    }
    assert(s@.take(s@.len() as int) =~= s@);
    let ghost done = bytes_view(pieces@);
    let ghost open = current@;
    pieces.push(current);
    assert(bytes_view(pieces@) =~= done.push(open));
    pieces
}


/// Whether `path` starts at the root.
pub open spec fn has_root(path: Seq<u8>) -> bool {
    path.len() > 0 && path[0] == SLASH
}

/// `part` appended to `base` as a further component.  A `part` that starts
/// at the root replaces `base`; otherwise a separator is put between the
/// two unless `base` is empty or already ends in one.
pub open spec fn join_path(base: Seq<u8>, part: Seq<u8>) -> Seq<u8> {
    if has_root(part) {
        part
    } else if base.len() == 0 || base.last() == SLASH {
        base + part
    } else {
        base + seq![SLASH] + part
    }
}

/// Two paths are the same when both or neither start at the root and their
/// components are the same; repeated and trailing separators do not count.
pub open spec fn same_path(a: Seq<u8>, b: Seq<u8>) -> bool {
    has_root(a) == has_root(b) && names(split(a, SLASH)) == names(split(b, SLASH))
}

/// Whether `dir` is one of the entries of `search_path`, which are
/// separated by colons.
pub open spec fn on_search_path(search_path: Seq<u8>, dir: Seq<u8>) -> bool {
    exists|i: int|
        0 <= i < split(search_path, COLON).len() && same_path(
            #[trigger] split(search_path, COLON)[i],
            dir,
        )
}

/// Appends `part` to `base` as a further component.
pub fn push_component(base: &Vec<u8>, part: &Vec<u8>) -> (joined: Vec<u8>)
    ensures
        joined@ == join_path(base@, part@),
{
    let mut joined: Vec<u8> = Vec::new();
    if part.len() > 0 && part[0] == SLASH {
        append_bytes(&mut joined, part);
        assert(joined@ =~= part@);
        return joined;
    }
    append_bytes(&mut joined, base);
    if base.len() > 0 && base[base.len() - 1] != SLASH {
        joined.push(SLASH);
    }
    append_bytes(&mut joined, part);
    assert(joined@ =~= join_path(base@, part@));
    joined
}

/// The components of `path`: its pieces between separators that are not
/// empty.
pub fn components(path: &Vec<u8>) -> (list: Vec<Vec<u8>>)
    ensures
        bytes_view(list@) == names(split(path@, SLASH)),
{
    let pieces = split_bytes(path, SLASH);
    let ghost all = bytes_view(pieces@);
    let mut list: Vec<Vec<u8>> = Vec::new();
    let mut i: usize = 0;
    assert(all.take(0) =~= Seq::<Seq<u8>>::empty());
    assert(bytes_view(list@) =~= names(all.take(0)));
    while i < pieces.len()
        invariant
            i <= pieces@.len(),
            all == bytes_view(pieces@),
            bytes_view(list@) == names(all.take(i as int)),
        decreases pieces@.len() - i,
    {
        proof {
            assert(all.take(i as int + 1).drop_last() =~= all.take(i as int));
            assert(all.take(i as int + 1).last() == pieces@[i as int]@);
        }
        if pieces[i].len() > 0 {
            let ghost before = bytes_view(list@);
            list.push(pieces[i].clone());
            assert(bytes_view(list@) =~= before.push(pieces@[i as int]@));
        }
        i += 1;
    }
    assert(all.take(pieces@.len() as int) =~= all);
    list
}

/// Whether two paths are the same.
pub fn paths_match(a: &Vec<u8>, b: &Vec<u8>) -> (same: bool)
    ensures
        same == same_path(a@, b@),
{
    let a_root = a.len() > 0 && a[0] == SLASH;
    let b_root = b.len() > 0 && b[0] == SLASH;
    if a_root != b_root {
        return false;
    }
    let a_names = components(a);
    let b_names = components(b);
    if a_names.len() != b_names.len() {
        assert(bytes_view(a_names@).len() != bytes_view(b_names@).len());
        return false;
    }
    let mut i: usize = 0;
    while i < a_names.len()
        invariant
            i <= a_names@.len(),
            a_names@.len() == b_names@.len(),
            bytes_view(a_names@) == names(split(a@, SLASH)),
            bytes_view(b_names@) == names(split(b@, SLASH)),
            forall|j: int| 0 <= j < i ==> (#[trigger] a_names@[j])@ == b_names@[j]@,
        decreases a_names@.len() - i,
    {
        if !bytes_equal(&a_names[i], &b_names[i]) {
            assert(bytes_view(a_names@)[i as int] == a_names@[i as int]@);
            assert(bytes_view(b_names@)[i as int] == b_names@[i as int]@);
            return false;
        }
        i += 1;
    }
    assert(bytes_view(a_names@) =~= bytes_view(b_names@));
    true
}

/// Whether `dir` is one of the entries of the colon-separated
/// `search_path`.
pub fn search_path_holds(search_path: &Vec<u8>, dir: &Vec<u8>) -> (found: bool)
    ensures
        found == on_search_path(search_path@, dir@),
{
    let entries = split_bytes(search_path, COLON);
    let mut i: usize = 0;
    while i < entries.len()
        invariant
            i <= entries@.len(),
            bytes_view(entries@) == split(search_path@, COLON),
            forall|j: int|
                0 <= j < i ==> !same_path(#[trigger] split(search_path@, COLON)[j], dir@),
        decreases entries@.len() - i,
    {
        assert(bytes_view(entries@)[i as int] == entries@[i as int]@);
        if paths_match(&entries[i], dir) {
            return true;
        }
        i += 1;
    }
    false
}

} // verus!
