//! Stored objects: how they are addressed, decoded and classified.

use vstd::prelude::*;
use vstd::std_specs::cmp::PartialEqSpec;
use vstd::utf8::valid_utf8;
use crate::filesystem::{content_at, kind_at, FileSystem, Kind, RecordView};
use crate::repository::{control_dir, file_outcome, repo_file_existing, Repository};
use crate::scan::{lemma_run_length, lemma_run_length_bounds, run_length};

verus! {

/// The views of the vectors of `s`, one for one.
pub open spec fn pieces<T>(s: Seq<Vec<T>>) -> Seq<Seq<T>> {
    Seq::new(s.len(), |i: int| s[i]@)
}

/// `s` cut at every separator. The separators themselves are dropped, so a
/// sequence with `n` separators gives `n + 1` pieces, some of them possibly
/// empty.
pub open spec fn split_at_each<T>(s: Seq<T>, sep: spec_fn(T) -> bool) -> Seq<Seq<T>>
    decreases s.len(),
{
    let k = run_length(s, sep);
    if 0 <= k < s.len() {
        seq![s.take(k)] + split_at_each(s.skip(k + 1), sep)
    } else {
        seq![s]
    }
}

/// The first piece of a split is what stands before the first separator,
/// and a second piece exists exactly where a separator does.
pub proof fn lemma_split_first<T>(s: Seq<T>, sep: spec_fn(T) -> bool)
    ensures
        split_at_each(s, sep).len() >= 1,
        split_at_each(s, sep)[0] == s.take(run_length(s, sep)),
        split_at_each(s, sep).len() >= 2 <==> run_length(s, sep) < s.len(),
    decreases s.len(),
{
    lemma_run_length_bounds(s, sep);
    let k = run_length(s, sep);
    if k < s.len() {
        lemma_split_first(s.skip(k + 1), sep);
    } else {
        assert(s.take(k) == s);
    }
}

/// The test that an item compares equal to `elem`.
pub open spec fn equals<T: PartialEq>(elem: T) -> spec_fn(T) -> bool {
    |x: T| x.eq_spec(&elem)
}

/// Cuts `vec` at every item equal to `elem`, as a string is split on a
/// character: the pieces between the separators, in order. This holds for
/// every type whose `==` is the one that its specification states.
pub fn split_like_string<T: Copy + PartialEq>(vec: &Vec<T>, elem: T) -> (out: Vec<Vec<T>>)
    ensures
        T::obeys_eq_spec() ==> pieces(out@) == split_at_each(vec@, equals(elem)),
{
    let ghost sep = equals(elem);
    let mut v: Vec<Vec<T>> = Vec::new();
    let mut cursor: Vec<T> = Vec::new();
    let ghost mut start: int = 0;
    let mut i: usize = 0;
    proof {
        assert(vec@.skip(0) == vec@);
        assert(pieces(v@) + split_at_each(vec@, sep) == split_at_each(vec@, sep));
    }
    while i < vec.len()
        invariant
            0 <= start <= i <= vec.len(),
            sep == equals(elem),
            cursor@ == vec@.subrange(start, i as int),
            T::obeys_eq_spec() ==> forall|j: int| start <= j < i ==> !sep(#[trigger] vec@[j]),
            T::obeys_eq_spec() ==> split_at_each(vec@, sep) == pieces(v@) + split_at_each(
                vec@.skip(start),
                sep,
            ),
        decreases vec.len() - i,
    {
        let e = vec[i];
        if e == elem {
            proof {
                if T::obeys_eq_spec() {
                    let rest = vec@.skip(start);
                    assert forall|j: int| 0 <= j < i - start implies !sep(#[trigger] rest[j]) by {
                        assert(rest[j] == vec@[start + j]);
                    }
                    assert(sep(rest[i - start]));
                    lemma_run_length(rest, sep, i - start);
                    assert(rest.take(i - start) == cursor@);
                    assert(rest.skip(i - start + 1) == vec@.skip(i + 1));
                    assert(pieces(v@.push(cursor)) == pieces(v@) + seq![cursor@]);
                }
            }
            v.push(cursor);
            cursor = Vec::new();
            proof {
                start = i + 1;
            }
        } else {
            cursor.push(e);
        }
        i += 1;
    }
    proof {
        if T::obeys_eq_spec() {
            let rest = vec@.skip(start);
            assert forall|j: int| 0 <= j < rest.len() implies !sep(#[trigger] rest[j]) by {
                assert(rest[j] == vec@[start + j]);
            }
            lemma_run_length(rest, sep, rest.len() as int);
            assert(rest == cursor@);
            assert(pieces(v@.push(cursor)) == pieces(v@) + seq![cursor@]);
        }
    }
    v.push(cursor);
    v
}

/// What a stored object is.
#[derive(Debug, Clone, Copy, PartialEq, Eq, Structural)]
pub enum Object {
    Commit,
    Tree,
    Tag,
    Blob,
}

/// Why an object could not be read.
#[derive(Debug, Clone, Copy, PartialEq, Eq, Structural)]
pub enum ObjectError {
    /// The hash does not split into a two-character prefix and a non-empty
    /// remainder.
    MalformedSha,
    /// The file does not decompress, or what it holds has no header.
    MalformedObject,
    /// The header names a type that the store does not know.
    UnknownType,
    /// No file is stored under the hash.
    NotFound,
    /// Something stands under the hash that cannot be read as a file.
    Io,
}

/// The byte that ends the type word of an object's header.
pub const SPACE: u8 = 32;

/// The bytes of `commit`.
pub open spec fn commit_word() -> Seq<u8> {
    seq![99u8, 111u8, 109u8, 109u8, 105u8, 116u8]
}

/// The bytes of `tree`.
pub open spec fn tree_word() -> Seq<u8> {
    seq![116u8, 114u8, 101u8, 101u8]
}

/// The bytes of `tag`.
pub open spec fn tag_word() -> Seq<u8> {
    seq![116u8, 97u8, 103u8]
}

/// The bytes of `blob`.
pub open spec fn blob_word() -> Seq<u8> {
    seq![98u8, 108u8, 111u8, 98u8]
}

/// The object kind that a type word names. A word that is no text at all is
/// a malformed header; a word that is text but none of the four names is an
/// unknown type.
pub open spec fn kind_of_word(word: Seq<u8>) -> Result<Object, ObjectError> {
    if !valid_utf8(word) {
        Err(ObjectError::MalformedObject)
    } else if word == commit_word() {
        Ok(Object::Commit)
    } else if word == tree_word() {
        Ok(Object::Tree)
    } else if word == tag_word() {
        Ok(Object::Tag)
    } else if word == blob_word() {
        Ok(Object::Blob)
    } else {
        Err(ObjectError::UnknownType)
    }
}

/// The kind of the object whose decompressed bytes are `data`: the bytes
/// before the first space name it, and without a space there is no header.
pub open spec fn classify(data: Seq<u8>) -> Result<Object, ObjectError> {
    let k = run_length(data, |b: u8| b == SPACE);
    if 0 <= k < data.len() {
        kind_of_word(data.take(k))
    } else {
        Err(ObjectError::MalformedObject)
    }
}

/// A header whose type word is text but none of the four names is an
/// unknown type, and never a malformed object.
pub proof fn lemma_unknown_type(data: Seq<u8>, k: int)
    requires
        0 <= k < data.len(),
        data[k] == SPACE,
        forall|j: int| 0 <= j < k ==> data[j] != SPACE,
        valid_utf8(data.take(k)),
        data.take(k) != commit_word(),
        data.take(k) != tree_word(),
        data.take(k) != tag_word(),
        data.take(k) != blob_word(),
    ensures
        classify(data) == Err::<Object, ObjectError>(ObjectError::UnknownType),
{
    lemma_run_length(data, |b: u8| b == SPACE, k);
}

/// `std::str::from_utf8`: it accepts exactly the byte strings that are
/// well-formed UTF-8.
#[verifier::external_body]
fn is_text(bytes: &[u8]) -> (ok: bool)
    ensures
        ok == valid_utf8(bytes@),
{
    match std::str::from_utf8(bytes) {
        Ok(_) => true,
        Err(_) => false,
    }
}

/// What `flate2`'s `ZlibDecoder` reads out of the given bytes to their
/// end, or nothing where it reports an error.
pub uninterp spec fn zlib_decoded(data: Seq<u8>) -> Option<Seq<u8>>;

/// `flate2::read::ZlibDecoder` over `data`, read to its end: the bytes of
/// the decompressed stream, or nothing where the decoder fails.
#[verifier::external_body]
fn zlib_decode(data: &[u8]) -> (out: Option<Vec<u8>>)
    ensures
        match out {
            Some(bytes) => zlib_decoded(data@) == Some(bytes@),
            None => zlib_decoded(data@) is None,
        },
{
    let mut decoder = flate2::read::ZlibDecoder::new(data);
    let mut decoded: Vec<u8> = Vec::new();
    match std::io::Read::read_to_end(&mut decoder, &mut decoded) {
        Ok(_) => Some(decoded),
        Err(_) => None,
    }
}

/// `String::from_iter` over characters: the string that holds them in
/// order.
#[verifier::external_body]
fn string_of(chars: &[char]) -> (text: String)
    ensures
        text@ == chars@,
{
    String::from_iter(chars)
}

/// The names below the control directory under which the object with hash
/// `sha` is stored: `objects`, the first two characters of the hash and the
/// rest of it.
pub open spec fn object_names(sha: Seq<char>) -> Seq<Seq<char>> {
    seq!["objects"@, sha.take(2), sha.skip(2)]
}

/// What reading the object with hash `sha` from the control directory
/// `gitdir` gives.
pub open spec fn read_outcome(log: Seq<RecordView>, gitdir: Seq<Seq<char>>, sha: Seq<char>) -> Result<
    Object,
    ObjectError,
> {
    if sha.len() < 3 {
        Err(ObjectError::MalformedSha)
    } else {
        match file_outcome(log, gitdir, object_names(sha), false) {
            Err(_) => Err(ObjectError::Io),
            Ok(None) => Err(ObjectError::NotFound),
            Ok(Some(path)) => match kind_at(log, path) {
                Kind::Missing => Err(ObjectError::NotFound),
                Kind::Dir => Err(ObjectError::Io),
                Kind::File => match zlib_decoded(content_at(log, path).unwrap()) {
                    None => Err(ObjectError::MalformedObject),
                    Some(data) => classify(data),
                },
            },
        }
    }
}

/// A stored file that does not decompress is a malformed object, whatever
/// else holds of it.
pub proof fn lemma_undecodable(log: Seq<RecordView>, gitdir: Seq<Seq<char>>, sha: Seq<char>)
    requires
        sha.len() >= 3,
        file_outcome(log, gitdir, object_names(sha), false) matches Ok(Some(path))
            && content_at(log, path) matches Some(bytes) && zlib_decoded(bytes) is None,
    ensures
        read_outcome(log, gitdir, sha) == Err::<Object, ObjectError>(ObjectError::MalformedObject),
{
}

/// A hash of fewer than three characters is malformed, whatever the
/// repository holds.
pub proof fn lemma_malformed_sha(log: Seq<RecordView>, gitdir: Seq<Seq<char>>, sha: Seq<char>)
    requires
        sha.len() < 3,
    ensures
        read_outcome(log, gitdir, sha) == Err::<Object, ObjectError>(ObjectError::MalformedSha),
{
}

fn same_bytes(a: &Vec<u8>, b: &Vec<u8>) -> (same: bool)
    ensures
        same == (a@ == b@),
{
    if a.len() != b.len() {
        return false;
    }
    let mut i: usize = 0;
    while i < a.len()
        invariant
            a.len() == b.len(),
            0 <= i <= a.len(),
            a@.take(i as int) == b@.take(i as int),
        decreases a.len() - i,
    {
        if a[i] != b[i] {
            return false;
        }
        proof {
            assert(a@.take(i + 1) == a@.take(i as int).push(a@[i as int]));
            assert(b@.take(i + 1) == b@.take(i as int).push(b@[i as int]));
        }
        i += 1;
    }
    proof {
        assert(a@.take(a.len() as int) == a@);
        assert(b@.take(b.len() as int) == b@);
    }
    true
}

impl Object {
    /// Reads the object with hash `sha` from the repository `repo` and
    /// classifies it.
    pub fn read(fs: &FileSystem, repo: &Repository, sha: Vec<char>) -> (kind: Result<
        Object,
        ObjectError,
    >)
        ensures
            kind == read_outcome(fs@, control_dir(repo@.worktree), sha@),
            sha@.len() < 3 ==> kind == Err::<Object, ObjectError>(ObjectError::MalformedSha),
    {
        if sha.len() < 3 {
            return Err(ObjectError::MalformedSha);
        }
        let (dir, file_name) = sha.as_slice().split_at(2);
        let mut names: Vec<String> = Vec::new();
        names.push("objects".to_owned());
        names.push(string_of(dir));
        names.push(string_of(file_name));
        proof {
            assert(sha@.subrange(0, 2) == sha@.take(2));
            assert(sha@.subrange(2, sha@.len() as int) == sha@.skip(2));
            assert(names.deep_view() =~= object_names(sha@));
        }
        let path = match repo_file_existing(fs, repo, &names) {
            Err(_) => {
                return Err(ObjectError::Io);
            },
            Ok(None) => {
                return Err(ObjectError::NotFound);
            },
            Ok(Some(path)) => path,
        };
        match fs.read(&path) {
            None => match fs.kind(&path) {
                Kind::Missing => Err(ObjectError::NotFound),
                _ => Err(ObjectError::Io),
            },
            Some(bytes) => match zlib_decode(bytes.as_slice()) {
                None => Err(ObjectError::MalformedObject),
                Some(data) => Object::parse(&data),
            },
        }
    }

    /// Classifies an object by the header of its decompressed bytes.
    pub fn parse(data: &Vec<u8>) -> (kind: Result<Object, ObjectError>)
        ensures
            kind == classify(data@),
    {
        let split = split_like_string(data, SPACE);
        proof {
            let by_value = |b: u8| b == SPACE;
            assert(equals(SPACE) == by_value);
            lemma_split_first(data@, by_value);
        }
        if split.len() < 2 {
            return Err(ObjectError::MalformedObject);
        }
        let word = &split[0];
        assert(word@ == pieces(split@)[0]);
        if !is_text(word.as_slice()) {
            return Err(ObjectError::MalformedObject);
        }
        if same_bytes(word, &vec![99u8, 111u8, 109u8, 109u8, 105u8, 116u8]) {
            Ok(Object::Commit)
        } else if same_bytes(word, &vec![116u8, 114u8, 101u8, 101u8]) {
            Ok(Object::Tree)
        } else if same_bytes(word, &vec![116u8, 97u8, 103u8]) {
            Ok(Object::Tag)
        } else if same_bytes(word, &vec![98u8, 108u8, 111u8, 98u8]) {
            Ok(Object::Blob)
        } else {
            Err(ObjectError::UnknownType)
        }
    }
}

} // verus!
