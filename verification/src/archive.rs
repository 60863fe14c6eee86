//! Reading a downloaded archive and deciding where each of its entries may
//! be unpacked.
//!
//! The archive is a gzip-compressed tar file with one top-level directory.
//! That directory is stripped, and an entry is accepted only if its path is
//! a plain relative path.

use crate::error::EngineError;
use crate::paths::{
    append_bytes, bytes_view, free_of, join, lemma_names_are_pieces, lemma_split_join,
    lemma_split_leading, lemma_split_pieces_free, names, split, split_bytes, DOT, SLASH,
};
use std::io::Read;
use vstd::prelude::*;

verus! {

/// Whether `piece` is the component `.` or the component `..`.
pub open spec fn is_dots(piece: Seq<u8>) -> bool {
    (piece.len() == 1 && piece[0] == DOT) || (piece.len() == 2 && piece[0] == DOT && piece[1]
        == DOT)
}

/// Whether `path` is a plain relative path: it does not start at the root
/// and none of its components is `.` or `..`.
pub open spec fn is_plain(path: Seq<u8>) -> bool {
    &&& !(path.len() > 0 && path[0] == SLASH)
    &&& forall|i: int| 0 <= i < split(path, SLASH).len() ==> !is_dots(#[trigger] split(path, SLASH)[i])
}

/// The names without the first, which is the archive's top-level
/// directory.
pub open spec fn below_top(names: Seq<Seq<u8>>) -> Seq<Seq<u8>> {
    if names.len() == 0 {
        names
    } else {
        names.skip(1)
    }
}

/// The path of an entry below the install directory: its components
/// without the first, joined again.
pub open spec fn entry_target(path: Seq<u8>) -> Seq<u8> {
    join(below_top(names(split(path, SLASH))), SLASH)
}

/// The targets of all entries, or the refusal of the archive because one of
/// its entries is not plain.
pub open spec fn entry_targets(paths: Seq<Seq<u8>>) -> Result<Seq<Seq<u8>>, EngineError> {
    if forall|i: int| 0 <= i < paths.len() ==> is_plain(#[trigger] paths[i]) {
        Ok(Seq::new(paths.len(), |i: int| entry_target(paths[i])))
    } else {
        Err(EngineError::UnsafeArchiveEntry)
    }
}

/// The contents of a list of targets, or the error in its place.
pub open spec fn targets_view(r: Result<Vec<Vec<u8>>, EngineError>) -> Result<
    Seq<Seq<u8>>,
    EngineError,
> {
    match r {
        Ok(targets) => Ok(bytes_view(targets@)),
        Err(e) => Err(e),
    }
}

/// Whether `piece` is `.` or `..`.
fn piece_is_dots(piece: &Vec<u8>) -> (dots: bool)
    ensures
        dots == is_dots(piece@),
{
    (piece.len() == 1 && piece[0] == DOT) || (piece.len() == 2 && piece[0] == DOT && piece[1]
        == DOT)
}

/// Where the entry with this path goes, relative to the install directory.
///
/// The first component, the archive's top-level directory, is dropped.  A
/// path that starts at the root or has a component `.` or `..` is refused
/// with `UnsafeArchiveEntry`.
pub fn archive_entry_target(path: &Vec<u8>) -> (r: Result<Vec<u8>, EngineError>)
    ensures
        match r {
            Ok(target) => is_plain(path@) && target@ == entry_target(path@),
            Err(e) => !is_plain(path@) && e == EngineError::UnsafeArchiveEntry,
        },
{
    if path.len() > 0 && path[0] == SLASH {
        return Err(EngineError::UnsafeArchiveEntry);
    }
    let pieces = split_bytes(path, SLASH);
    let ghost all = bytes_view(pieces@);
    let mut target: Vec<u8> = Vec::new();
    let mut seen_top = false;
    let mut wrote = false;
    let mut i: usize = 0;
    assert(all.take(0) =~= Seq::<Seq<u8>>::empty());
    assert(below_top(names(all.take(0))) =~= Seq::<Seq<u8>>::empty());
    while i < pieces.len()
        invariant
            i <= pieces@.len(),
            all == bytes_view(pieces@),
            all == split(path@, SLASH),
            forall|j: int| 0 <= j < i ==> !is_dots(#[trigger] all[j]),
            seen_top == (names(all.take(i as int)).len() >= 1),
            wrote == (names(all.take(i as int)).len() >= 2),
            target@ == join(below_top(names(all.take(i as int))), SLASH),
        decreases pieces@.len() - i,
    {
        let piece = &pieces[i];
        assert(piece@ == all[i as int]);
        if piece_is_dots(piece) {
            return Err(EngineError::UnsafeArchiveEntry);
        }
        proof {
            assert(all.take(i as int + 1).drop_last() =~= all.take(i as int));
            assert(all.take(i as int + 1).last() == piece@);
        }
        let ghost before = names(all.take(i as int));
        if piece.len() > 0 {
            if seen_top {
                if wrote {
                    target.push(SLASH);
                }
                append_bytes(&mut target, piece);
                proof {
                    let rest = below_top(before.push(piece@));
                    assert(rest =~= below_top(before).push(piece@));
                    assert(rest.drop_last() =~= below_top(before));
                    assert(rest.last() == piece@);
                    if !wrote {
                        assert(rest.len() == 1);
                        assert(target@ =~= piece@);
                    } else {
                        assert(target@ =~= join(below_top(before), SLASH) + seq![SLASH] + piece@);
                    }
                }
                wrote = true;
            } else {
                seen_top = true;
                assert(below_top(before.push(piece@)) =~= below_top(before));
            }
        }
        i += 1;
    }
    assert(all.take(pieces@.len() as int) =~= all);
    Ok(target)
}

/// Where each entry of an archive goes, given the paths of its entries in
/// order.  One entry that is not plain refuses the whole archive.
pub fn plan_entries(paths: &Vec<Vec<u8>>) -> (r: Result<Vec<Vec<u8>>, EngineError>)
    ensures
        targets_view(r) == entry_targets(bytes_view(paths@)),
{
    let ghost all = bytes_view(paths@);
    let mut targets: Vec<Vec<u8>> = Vec::new();
    let mut i: usize = 0;
    while i < paths.len()
        invariant
            i <= paths@.len(),
            all == bytes_view(paths@),
            targets@.len() == i,
            forall|j: int| 0 <= j < i ==> is_plain(#[trigger] all[j]),
            forall|j: int| 0 <= j < i ==> (#[trigger] targets@[j])@ == entry_target(all[j]),
        decreases paths@.len() - i,
    {
        assert(all[i as int] == paths@[i as int]@);
        match archive_entry_target(&paths[i]) {
            Ok(target) => {
                targets.push(target);
            },
            Err(e) => {
                return Err(e);
            },
        }
        i += 1;
    }
    assert(bytes_view(targets@) =~= Seq::new(all.len(), |i: int| entry_target(all[i])));
    Ok(targets)
}


/// A path with a component `..` is not plain, so its entry is refused.
pub proof fn lemma_traversal_refused(path: Seq<u8>)
    requires
        split(path, SLASH).contains(seq![DOT, DOT]),
    ensures
        !is_plain(path),
{
    let i = choose|i: int| 0 <= i < split(path, SLASH).len() && split(path, SLASH)[i] == seq![
        DOT,
        DOT,
    ];
    assert(is_dots(split(path, SLASH)[i]));
}

/// One entry that is not plain refuses the whole archive with
/// `UnsafeArchiveEntry`, so that nothing of it is unpacked.
pub proof fn lemma_unsafe_entry_refuses_archive(paths: Seq<Seq<u8>>, i: int)
    requires
        0 <= i < paths.len(),
        !is_plain(paths[i]),
    ensures
        entry_targets(paths) == Err::<Seq<Seq<u8>>, EngineError>(EngineError::UnsafeArchiveEntry),
{
}

/// The target of a plain path stays below the install directory: it is a
/// plain relative path itself, and it is made of components of the path.
pub proof fn lemma_target_inside(path: Seq<u8>)
    requires
        is_plain(path),
    ensures
        is_plain(entry_target(path)),
        forall|i: int|
            0 <= i < split(entry_target(path), SLASH).len() && entry_target(path).len() > 0
                ==> split(path, SLASH).contains(#[trigger] split(entry_target(path), SLASH)[i]),
{
    let pieces = split(path, SLASH);
    let all = names(pieces);
    let rest = below_top(all);
    let target = entry_target(path);
    lemma_split_pieces_free(path, SLASH);
    lemma_names_are_pieces(pieces);
    if rest.len() == 0 {
        assert(target =~= Seq::<u8>::empty());
        assert(split(target, SLASH) =~= seq![Seq::<u8>::empty()]);
    } else {
        assert forall|k: int| 0 <= k < rest.len() implies free_of(#[trigger] rest[k], SLASH)
            && rest[k].len() > 0 && pieces.contains(rest[k]) && !is_dots(rest[k]) by {
            assert(rest[k] == all[k + 1]);
            let i = choose|i: int| 0 <= i < pieces.len() && pieces[i] == all[k + 1];
            assert(free_of(pieces[i], SLASH));
            assert(!is_dots(pieces[i]));
        }
        lemma_split_join(rest, SLASH);
        assert(split(target, SLASH) == rest);
        if target.len() > 0 && target[0] == SLASH {
            lemma_split_leading(target, SLASH);
            assert(rest[0].len() > 0);
        }
    }
}

/// What a gzip stream decompresses to; `None` where the bytes are not one.
pub uninterp spec fn gzip_payload(bytes: Seq<u8>) -> Option<Seq<u8>>;

/// The paths of the entries of a tar archive, in the order of the archive;
/// `None` where the bytes cannot be read as one.
pub uninterp spec fn tar_paths(bytes: Seq<u8>) -> Option<Seq<Seq<u8>>>;

/// The contents of an optional byte vector.
pub open spec fn payload_view(r: Option<Vec<u8>>) -> Option<Seq<u8>> {
    match r {
        Some(bytes) => Some(bytes@),
        None => None,
    }
}

/// The contents of an optional list of byte vectors.
pub open spec fn paths_view(r: Option<Vec<Vec<u8>>>) -> Option<Seq<Seq<u8>>> {
    match r {
        Some(paths) => Some(bytes_view(paths@)),
        None => None,
    }
}

/// Decompresses a gzip stream with `flate2::read::GzDecoder`, read to its
/// end.  The contract only names the result: the same bytes always
/// decompress to the same payload, and a read error gives `None`.
#[verifier::external_body]
fn gunzip(bytes: &Vec<u8>) -> (r: Option<Vec<u8>>)
    ensures
        payload_view(r) == gzip_payload(bytes@),
{
    let mut payload = Vec::new();
    match flate2::read::GzDecoder::new(bytes.as_slice()).read_to_end(&mut payload) {
        Ok(_) => Some(payload),
        Err(_) => None,
    }
}

/// Lists the entries of a tar archive with `tar::Archive::entries` and takes
/// the path of each with `tar::Entry::path_bytes`.  The contract only names
/// the result: the same bytes always list the same paths, and an archive
/// that fails to read at any entry gives `None`.
#[verifier::external_body]
fn tar_entry_paths(bytes: &Vec<u8>) -> (r: Option<Vec<Vec<u8>>>)
    ensures
        paths_view(r) == tar_paths(bytes@),
{
    let mut archive = tar::Archive::new(bytes.as_slice());
    let entries = archive.entries().ok()?;
    let paths = entries.map(|entry| entry.ok().map(|e| e.path_bytes().into_owned())).collect();
    paths
}

/// Where the entries of a downloaded archive go: the archive is
/// decompressed, its entries are listed, and each path is checked and
/// stripped of its first component.  An archive that cannot be read is a
/// `FileSystemError`.
pub open spec fn archive_targets(archive: Seq<u8>) -> Result<Seq<Seq<u8>>, EngineError> {
    match gzip_payload(archive) {
        None => Err(EngineError::FileSystemError),
        Some(payload) => match tar_paths(payload) {
            None => Err(EngineError::FileSystemError),
            Some(paths) => entry_targets(paths),
        },
    }
}

/// Decides where each entry of a downloaded archive is unpacked, relative
/// to the install directory and without the archive's top-level directory.
///
/// The result has one target for each entry, in the order of the archive.
/// Nothing is written here: the caller unpacks entry by entry, and only
/// after the whole archive was accepted.
pub fn unpack_sans_parent(archive: &Vec<u8>) -> (r: Result<Vec<Vec<u8>>, EngineError>)
    ensures
        targets_view(r) == archive_targets(archive@),
{
    let payload = match gunzip(archive) {
        Some(payload) => payload,
        None => {
            return Err(EngineError::FileSystemError);
        },
    };
    match tar_entry_paths(&payload) {
        Some(paths) => plan_entries(&paths),
        None => Err(EngineError::FileSystemError),
    }
}

} // verus!
