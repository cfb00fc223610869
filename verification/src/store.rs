use vstd::prelude::*;
use vstd::string::StringSliceAdditionalSpecFns;

use vstd::utf8::{decode_utf8, encode_utf8, valid_utf8};

use crate::identity::{age_decrypt, age_decrypt_result, age_encrypt, Identity};
use crate::paths::{join_path, joined, slash};

verus! {

pub open spec fn dot() -> u8 {
    46u8
}

pub open spec fn backslash() -> u8 {
    92u8
}

/// The pieces of `s` between the slashes, as `str::split('/')` yields them
/// (so there is always at least one, and an empty piece stands for two
/// adjacent slashes or a slash at either end).
pub open spec fn segments(s: Seq<u8>) -> Seq<Seq<u8>>
    decreases s.len(),
{
    if s.len() == 0 {
        seq![Seq::empty()]
    } else if s.last() == slash() {
        segments(s.drop_last()).push(Seq::empty())
    } else {
        let prev = segments(s.drop_last());
        prev.update(prev.len() - 1, prev.last().push(s.last()))
    }
}

/// A piece of an entry name that may stand between two slashes: not empty,
/// not `.` or `..`, and without a backslash.
pub open spec fn is_valid_segment(seg: Seq<u8>) -> bool {
    &&& seg.len() > 0
    &&& seg != seq![dot()]
    &&& seg != seq![dot(), dot()]
    &&& !seg.contains(backslash())
}

/// An entry name is valid when every piece between its slashes is.
pub open spec fn is_valid_entry_name(name: Seq<u8>) -> bool {
    forall|k: int| 0 <= k < segments(name).len() ==> is_valid_segment(#[trigger] segments(name)[k])
}

/// The extension that entry files carry, with its dot.
pub open spec fn entry_suffix() -> Seq<u8> {
    seq![46u8, 97u8, 103u8, 101u8]
}

/// The file of entry `name` under `store_dir`: `<store_dir>/<name>.age`,
/// each piece of the name a directory below the store but the last, which
/// names the file.
pub open spec fn entry_path(store_dir: Seq<u8>, name: Seq<u8>) -> Seq<u8> {
    joined(store_dir, name) + entry_suffix()
}

/// Why a store operation failed.
#[derive(Debug)]
pub enum StoreError {
    /// The entry name is empty, or one of its pieces between slashes is
    /// empty, `.`, `..`, or holds a backslash.
    InvalidName,
    /// age could not decrypt the entry.
    Decrypt(age::DecryptError),
    /// The decrypted entry is not UTF-8.
    NotUtf8(std::string::FromUtf8Error),
}

#[verifier::external_type_specification]
#[verifier::external_body]
pub struct ExFromUtf8Error(std::string::FromUtf8Error);

/// Calls `String::from_utf8`.  Trusted, as std documents it: `Ok` exactly
/// when the bytes are valid UTF-8, and then the string they encode.
#[verifier::external_body]
fn string_from_utf8(bytes: Vec<u8>) -> (r: Result<String, std::string::FromUtf8Error>)
    ensures
        r is Ok <==> valid_utf8(bytes@),
        r matches Ok(s) ==> s@ == decode_utf8(bytes@),
{
    String::from_utf8(bytes)
}

/// The password that `ciphertext` holds for the identity `identity`: what age
/// decrypts it to, read as UTF-8.
pub open spec fn entry_plaintext(identity: Seq<char>, ciphertext: Seq<u8>) -> Option<Seq<char>> {
    match age_decrypt_result(identity, ciphertext) {
        Some(p) => if valid_utf8(p) {
            Some(decode_utf8(p))
        } else {
            None
        },
        None => None,
    }
}

/// Encrypts the password of an entry to the public key of `identity`.  What
/// comes back decrypts under `identity` to the password's UTF-8 bytes.
pub fn encrypt_entry(identity: &Identity, password: &str) -> (ciphertext: Vec<u8>)
    ensures
        age_decrypt_result(identity@, ciphertext@) == Some(encode_utf8(password@)),
{
    match age_encrypt(identity.as_str(), password.as_bytes()) {
        Ok(c) => c,
        Err(_) => unreached(),
    }
}

/// Decrypts an entry with `identity` and reads the plaintext as UTF-8.
pub fn decrypt_entry(identity: &Identity, ciphertext: &[u8]) -> (r: Result<String, StoreError>)
    ensures
        r is Ok <==> entry_plaintext(identity@, ciphertext@) is Some,
        r matches Ok(s) ==> entry_plaintext(identity@, ciphertext@) == Some(s@),
        r matches Err(e) ==> (e is Decrypt <==> age_decrypt_result(identity@, ciphertext@) is None),
        r matches Err(e) ==> (e is Decrypt || e is NotUtf8),
{
    match age_decrypt(identity.as_str(), ciphertext) {
        Ok(p) => match string_from_utf8(p) {
            Ok(s) => Ok(s),
            Err(e) => Err(StoreError::NotUtf8(e)),
        },
        Err(e) => Err(StoreError::Decrypt(e)),
    }
}

/// What is encrypted for an entry decrypts back to the same password: when
/// age gives back the UTF-8 bytes of `password`, the entry reads as
/// `password`.
pub proof fn lemma_decrypt_after_encrypt(identity: Seq<char>, password: Seq<char>, ciphertext: Seq<u8>)
    requires
        age_decrypt_result(identity, ciphertext) == Some(encode_utf8(password)),
    ensures
        entry_plaintext(identity, ciphertext) == Some(password),
{
    vstd::utf8::encode_utf8_valid_utf8(password);
    vstd::utf8::encode_utf8_decode_utf8(password);
}

/// Checks one piece of a name, `name[start..end]`.
fn segment_is_valid(name: &[u8], start: usize, end: usize) -> (ok: bool)
    requires
        start <= end <= name@.len(),
    ensures
        ok == is_valid_segment(name@.subrange(start as int, end as int)),
{
    let ghost seg = name@.subrange(start as int, end as int);
    if start == end {
        return false;
    }
    if end - start == 1 && name[start] == 46u8 {
        assert(seg =~= seq![dot()]);
        return false;
    }
    if end - start == 2 && name[start] == 46u8 && name[start + 1] == 46u8 {
        assert(seg =~= seq![dot(), dot()]);
        return false;
    }
    assert(seg != seq![dot()]) by {
        if end - start == 1 {
            assert(seg[0] != dot());
        }
    }
    assert(seg != seq![dot(), dot()]) by {
        if end - start == 2 {
            assert(seg[0] != dot() || seg[1] != dot());
        }
    }
    let mut i = start;
    while i < end
        invariant
            start <= i <= end <= name@.len(),
            seg == name@.subrange(start as int, end as int),
            forall|j: int| start <= j < i ==> name@[j] != backslash(),
        decreases end - i,
    {
        if name[i] == 92u8 {
            assert(seg[i - start] == backslash());
            return false;
        }
        i = i + 1;
    }
    assert(!seg.contains(backslash())) by {
        assert forall|j: int| 0 <= j < seg.len() implies seg[j] != backslash() by {
            assert(seg[j] == name@[start + j]);
        }
    }
    true
}

/// Whether `name` is a valid entry name.
pub fn check_entry_name(name: &[u8]) -> (ok: bool)
    ensures
        ok == is_valid_entry_name(name@),
{
    let ghost n = name@;
    let len = name.len();
    let mut ok = true;
    let mut seg_start: usize = 0;
    let mut i: usize = 0;
    while i < len
        invariant
            len == n.len(),
            n == name@,
            i <= len,
            seg_start <= i,
            segments(n.take(i as int)).len() >= 1,
            segments(n.take(i as int)).last() == n.subrange(seg_start as int, i as int),
            ok <==> forall|k: int|
                0 <= k < segments(n.take(i as int)).len() - 1 ==> is_valid_segment(
                    #[trigger] segments(n.take(i as int))[k],
                ),
        decreases len - i,
    {
        let ghost before = n.take(i as int);
        let ghost after = n.take(i + 1);
        assert(after.drop_last() == before);
        assert(after.last() == n[i as int]);
        let b = name[i];
        if b == 47u8 {
            let seg_ok = segment_is_valid(name, seg_start, i);
            assert(segments(after) == segments(before).push(Seq::empty()));
            assert forall|k: int| 0 <= k < segments(after).len() - 1 implies
                #[trigger] segments(after)[k] == segments(before)[k] by {}
            assert(segments(after)[segments(after).len() - 2] == segments(before).last());
            assert((ok && seg_ok) <==> forall|k: int|
                0 <= k < segments(after).len() - 1 ==> is_valid_segment(
                    #[trigger] segments(after)[k],
                )) by {
                if ok && seg_ok {
                    assert forall|k: int| 0 <= k < segments(after).len() - 1 implies
                        is_valid_segment(#[trigger] segments(after)[k]) by {
                        if k < segments(before).len() - 1 {
                            assert(segments(after)[k] == segments(before)[k]);
                        }
                    }
                }
                if !ok {
                    let k = choose|k: int| 0 <= k < segments(before).len() - 1
                        && !is_valid_segment(#[trigger] segments(before)[k]);
                    assert(segments(after)[k] == segments(before)[k]);
                }
                if !seg_ok {
                    assert(!is_valid_segment(segments(after)[segments(after).len() - 2]));
                }
            }
            ok = ok && seg_ok;
            seg_start = i + 1;
            assert(segments(after).last() =~= n.subrange(seg_start as int, i + 1));
        } else {
            let ghost prev = segments(before);
            assert(segments(after) == prev.update(prev.len() - 1, prev.last().push(b)));
            assert(segments(after).last() =~= n.subrange(seg_start as int, i + 1));
            assert forall|k: int| 0 <= k < segments(after).len() - 1 implies
                #[trigger] segments(after)[k] == segments(before)[k] by {}
            assert(ok <==> forall|k: int|
                0 <= k < segments(after).len() - 1 ==> is_valid_segment(
                    #[trigger] segments(after)[k],
                )) by {
                if !ok {
                    let k = choose|k: int| 0 <= k < segments(before).len() - 1
                        && !is_valid_segment(#[trigger] segments(before)[k]);
                    assert(segments(after)[k] == segments(before)[k]);
                }
            }
        }
        i = i + 1;
    }
    assert(n.take(len as int) == n);
    let last_ok = segment_is_valid(name, seg_start, len);
    ok && last_ok
}

/// The file that holds entry `name` under `store_dir`: `Ok` exactly when the
/// name is valid, and then `<store_dir>/<name>.age`.
pub fn build_entry_path(store_dir: &[u8], name: &str) -> (r: Result<Vec<u8>, StoreError>)
    ensures
        is_valid_entry_name(name.spec_bytes()) <==> r is Ok,
        r matches Ok(path) ==> path@ == entry_path(store_dir@, name.spec_bytes()),
        r matches Err(e) ==> e is InvalidName,
{
    let bytes = name.as_bytes();
    if !check_entry_name(bytes) {
        return Err(StoreError::InvalidName);
    }
    let mut path = join_path(store_dir, bytes);
    path.push(46u8);
    path.push(97u8);
    path.push(103u8);
    path.push(101u8);
    assert(path@ =~= entry_path(store_dir@, bytes@));
    Ok(path)
}

} // verus!

verus! {

/// Distinct names never share a file: two names of one store get the same
/// file exactly when they are the same name.
pub proof fn lemma_entry_paths_distinct(store_dir: Seq<u8>, a: Seq<u8>, b: Seq<u8>)
    ensures
        entry_path(store_dir, a) == entry_path(store_dir, b) <==> a == b,
{
    if entry_path(store_dir, a) == entry_path(store_dir, b) {
        let pa = entry_path(store_dir, a);
        let pb = entry_path(store_dir, b);
        let ja = joined(store_dir, a);
        let jb = joined(store_dir, b);
        assert(ja =~= pa.take(pa.len() - 4));
        assert(jb =~= pb.take(pb.len() - 4));
        let prefix = if store_dir.len() == 0 || store_dir.last() == slash() {
            store_dir
        } else {
            store_dir.push(slash())
        };
        assert(ja == prefix + a);
        assert(jb == prefix + b);
        assert(a =~= ja.skip(prefix.len() as int));
        assert(b =~= jb.skip(prefix.len() as int));
    }
}

} // verus!

verus! {

/// The entry that a file of the store names, given the file's path below
/// the store directory: the path without its `.age` extension, when that is
/// UTF-8 and a valid entry name.
pub open spec fn entry_name_of(relative: Seq<u8>) -> Option<Seq<char>> {
    let n = relative.len() - 4;
    if relative.len() >= 4 && relative.skip(n) == entry_suffix() && valid_utf8(relative.take(n))
        && is_valid_entry_name(relative.take(n)) {
        Some(decode_utf8(relative.take(n)))
    } else {
        None
    }
}

/// The entry named by the file at `relative` below the store directory, or
/// `None` for a file that is no entry of the store.
pub fn entry_name_from_path(relative: &[u8]) -> (r: Option<String>)
    ensures
        r is Some <==> entry_name_of(relative@) is Some,
        r matches Some(name) ==> entry_name_of(relative@) == Some(name@),
{
    let len = relative.len();
    if len < 4 {
        return None;
    }
    let n = len - 4;
    if !(relative[n] == 46u8 && relative[n + 1] == 97u8 && relative[n + 2] == 103u8
        && relative[n + 3] == 101u8) {
        assert(relative@.skip(n as int) != entry_suffix()) by {
            if relative@.skip(n as int) == entry_suffix() {
                assert(relative@.skip(n as int)[0] == relative@[n as int]);
                assert(relative@.skip(n as int)[1] == relative@[n + 1]);
                assert(relative@.skip(n as int)[2] == relative@[n + 2]);
                assert(relative@.skip(n as int)[3] == relative@[n + 3]);
            }
        }
        return None;
    }
    assert(relative@.skip(n as int) =~= entry_suffix());
    let stem = vstd::slice::slice_subrange(relative, 0, n);
    assert(stem@ =~= relative@.take(n as int));
    if !check_entry_name(stem) {
        return None;
    }
    let mut bytes: Vec<u8> = Vec::new();
    crate::paths::extend_bytes(&mut bytes, stem);
    assert(bytes@ =~= stem@);
    match string_from_utf8(bytes) {
        Ok(name) => Some(name),
        Err(_) => None,
    }
}

/// The file of a valid entry lies at `<name>.age` below the store directory,
/// and that file names the entry again: listing the store gives back the
/// names that were written.
pub proof fn lemma_entry_file_names_entry(store_dir: Seq<u8>, name: Seq<char>)
    requires
        is_valid_entry_name(encode_utf8(name)),
    ensures
        entry_path(store_dir, encode_utf8(name)) == joined(store_dir, encode_utf8(name) + entry_suffix()),
        entry_name_of(encode_utf8(name) + entry_suffix()) == Some(name),
{
    let b = encode_utf8(name);
    let rel = b + entry_suffix();
    assert(rel.skip(rel.len() - 4) =~= entry_suffix());
    assert(rel.take(rel.len() - 4) =~= b);
    vstd::utf8::encode_utf8_valid_utf8(name);
    vstd::utf8::encode_utf8_decode_utf8(name);
    if store_dir.len() == 0 || store_dir.last() == slash() {
        assert(joined(store_dir, rel) =~= joined(store_dir, b) + entry_suffix());
    } else {
        assert(joined(store_dir, rel) =~= joined(store_dir, b) + entry_suffix());
    }
}

/// The prefixes of `s` that end just before one of its slashes, longest
/// first.  For an entry name these are the groups that hold it, innermost
/// first.
pub open spec fn parent_prefixes(s: Seq<u8>) -> Seq<Seq<u8>>
    decreases s.len(),
{
    if s.len() == 0 {
        seq![]
    } else if s.last() == slash() {
        seq![s.drop_last()] + parent_prefixes(s.drop_last())
    } else {
        parent_prefixes(s.drop_last())
    }
}

/// The directories below the store that hold the entry (or group) `name`,
/// innermost first and without the store directory itself: those that may
/// be left empty once it is removed.
pub fn entry_parent_dirs(store_dir: &[u8], name: &str) -> (dirs: Vec<Vec<u8>>)
    ensures
        dirs@.len() == parent_prefixes(name.spec_bytes()).len(),
        forall|i: int|
            0 <= i < dirs@.len() ==> #[trigger] dirs@[i]@ == joined(
                store_dir@,
                parent_prefixes(name.spec_bytes())[i],
            ),
{
    let bytes = name.as_bytes();
    let ghost n = bytes@;
    let mut dirs: Vec<Vec<u8>> = Vec::new();
    let ghost mut found: Seq<Seq<u8>> = seq![];
    let mut j = bytes.len();
    assert(n.take(j as int) == n);
    while j > 0
        invariant
            n == bytes@,
            j <= n.len(),
            dirs@.len() == found.len(),
            forall|i: int| 0 <= i < dirs@.len() ==> #[trigger] dirs@[i]@ == joined(store_dir@, found[i]),
            parent_prefixes(n) == found + parent_prefixes(n.take(j as int)),
        decreases j,
    {
        let ghost t = n.take(j as int);
        assert(t.drop_last() == n.take(j - 1));
        assert(t.last() == n[j - 1]);
        if bytes[j - 1] == 47u8 {
            let prefix = vstd::slice::slice_subrange(bytes, 0, j - 1);
            assert(prefix@ == n.take(j - 1));
            let dir = join_path(store_dir, prefix);
            dirs.push(dir);
            proof {
                assert(parent_prefixes(t) == seq![n.take(j - 1)] + parent_prefixes(n.take(j - 1)));
                assert(found + parent_prefixes(t) =~= found.push(n.take(j - 1)) + parent_prefixes(n.take(j - 1)));
                found = found.push(n.take(j - 1));
            }
        } else {
            assert(parent_prefixes(t) == parent_prefixes(n.take(j - 1)));
        }
        j = j - 1;
    }
    assert(parent_prefixes(n.take(0)) == Seq::<Seq<u8>>::empty());
    assert(found + Seq::<Seq<u8>>::empty() =~= found);
    dirs
}

} // verus!

verus! {

/// The pieces joined back together with a slash between each two.
pub open spec fn join_with_slashes(pieces: Seq<Seq<u8>>) -> Seq<u8>
    decreases pieces.len(),
{
    if pieces.len() == 0 {
        Seq::empty()
    } else if pieces.len() == 1 {
        pieces[0]
    } else {
        join_with_slashes(pieces.drop_last()) + seq![47u8] + pieces.last()
    }
}

/// `segments` splits at every slash: no piece holds a slash, there is at
/// least one piece, and joining the pieces with slashes gives the text back.
pub proof fn lemma_segments_split(s: Seq<u8>)
    ensures
        segments(s).len() >= 1,
        forall|k: int, j: int|
            0 <= k < segments(s).len() && 0 <= j < segments(s)[k].len() ==> #[trigger] segments(
                s,
            )[k][j] != 47u8,
        join_with_slashes(segments(s)) == s,
    decreases s.len(),
{
    if s.len() == 0 {
        assert(segments(s) == seq![Seq::<u8>::empty()]);
        assert(join_with_slashes(segments(s)) == Seq::<u8>::empty());
        assert(s =~= Seq::<u8>::empty());
    } else {
        let t = s.drop_last();
        lemma_segments_split(t);
        let p = segments(t);
        if s.last() == slash() {
            let q = p.push(Seq::empty());
            assert(segments(s) == q);
            assert(q.drop_last() =~= p);
            assert forall|k: int, j: int|
                0 <= k < q.len() && 0 <= j < q[k].len() implies #[trigger] q[k][j] != 47u8 by {
                assert(q[k] == p[k]);
            }
            assert(join_with_slashes(q) == join_with_slashes(p) + seq![47u8] + Seq::<u8>::empty());
            assert(s =~= t + seq![47u8] + Seq::<u8>::empty());
        } else {
            let q = p.update(p.len() - 1, p.last().push(s.last()));
            assert(segments(s) == q);
            assert forall|k: int, j: int|
                0 <= k < q.len() && 0 <= j < q[k].len() implies #[trigger] q[k][j] != 47u8 by {
                if k < p.len() - 1 {
                    assert(q[k] == p[k]);
                } else if j < p.last().len() {
                    assert(q[k][j] == p.last()[j]);
                } else {
                    assert(q[k][j] == s.last());
                }
            }
            if p.len() == 1 {
                assert(join_with_slashes(q) == q[0]);
                assert(join_with_slashes(p) == p[0]);
                assert(s =~= t.push(s.last()));
            } else {
                assert(q.drop_last() =~= p.drop_last());
                assert(join_with_slashes(q) == join_with_slashes(p.drop_last()) + seq![47u8]
                    + p.last().push(s.last()));
                assert(join_with_slashes(p) == join_with_slashes(p.drop_last()) + seq![47u8]
                    + p.last());
                assert(s =~= t.push(s.last()));
                assert(join_with_slashes(q) =~= join_with_slashes(p).push(s.last()));
            }
        }
    }
}

/// Which names are valid, spelled out: a name is valid exactly when each of
/// the pieces that `split('/')` gives is non-empty, is neither `.` nor `..`,
/// and holds no backslash.  Nothing else about a piece (its case, its other
/// bytes) matters.
pub proof fn lemma_valid_entry_name(name: Seq<u8>)
    ensures
        is_valid_entry_name(name) <==> forall|k: int|
            0 <= k < segments(name).len() ==> {
                let piece = #[trigger] segments(name)[k];
                &&& piece.len() > 0
                &&& piece != seq![46u8]
                &&& piece != seq![46u8, 46u8]
                &&& forall|j: int| 0 <= j < piece.len() ==> piece[j] != 92u8
            },
{
    assert forall|piece: Seq<u8>| is_valid_segment(piece) <==> {
        &&& piece.len() > 0
        &&& piece != seq![46u8]
        &&& piece != seq![46u8, 46u8]
        &&& forall|j: int| 0 <= j < piece.len() ==> piece[j] != 92u8
    } by {
        if piece.contains(92u8) {
            let j = choose|j: int| 0 <= j < piece.len() && piece[j] == 92u8;
        }
    }
}

} // verus!
