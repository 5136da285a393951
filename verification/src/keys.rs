//! The keys that RAGFS caches under.
//!
//! A key is `ragfs:v2:` followed by a namespace, a kind and the hash of a path, with colons
//! between them.

use crate::text;
use vstd::prelude::*;
use vstd::string::{StrSliceExecFns, StringExecFns};
use vstd::utf8;

verus! {

/// FNV-1a over 64 bits.
pub open spec fn fnv1a(bytes: Seq<u8>) -> u64
    decreases bytes.len(),
{
    if bytes.len() == 0 {
        0xcbf2_9ce4_8422_2325
    } else {
        (fnv1a(bytes.drop_last()) ^ bytes.last() as u64).wrapping_mul(0x100_0000_01b3)
    }
}

/// A hash of `bytes` that is the same in every process.
pub fn stable_hash(bytes: &[u8]) -> (hash: u64)
    ensures
        hash == fnv1a(bytes@),
{
    let mut hash: u64 = 0xcbf2_9ce4_8422_2325;
    let mut index: usize = 0;
    while index < bytes.len()
        invariant
            index <= bytes@.len(),
            hash == fnv1a(bytes@.take(index as int)),
        decreases bytes@.len() - index,
    {
        hash = (hash ^ bytes[index] as u64).wrapping_mul(0x100_0000_01b3);
        assert(bytes@.take(index + 1).drop_last() =~= bytes@.take(index as int));
        index = index + 1;
    }
    assert(bytes@.take(index as int) =~= bytes@);
    hash
}

/// `path` without the slashes at its front.
pub open spec fn trim_front(path: Seq<char>) -> Seq<char>
    decreases path.len(),
{
    if path.len() > 0 && path[0] == '/' {
        trim_front(path.drop_first())
    } else {
        path
    }
}

/// `path` without the slashes at its end.
pub open spec fn trim_back(path: Seq<char>) -> Seq<char>
    decreases path.len(),
{
    if path.len() > 0 && path.last() == '/' {
        trim_back(path.drop_last())
    } else {
        path
    }
}

/// `path` with exactly one slash in front and none at its end.
pub open spec fn normalized(path: Seq<char>) -> Seq<char> {
    "/"@ + trim_back(trim_front(path))
}

/// The key for a path.
pub open spec fn key_of(namespace: Seq<char>, kind: Seq<char>, path: Seq<char>) -> Seq<char> {
    "ragfs:v2:"@ + namespace + ":"@ + kind + ":"@ + text::hex_number(
        fnv1a(utf8::encode_utf8(normalized(path))) as nat,
        16,
    )
}

/// `path` without the slashes at either end.
fn trim_slashes(path: &str) -> (trimmed: &str)
    ensures
        trimmed@ == trim_back(trim_front(path@)),
{
    let chars = text::chars_of(path);
    let mut start: usize = 0;
    assert(chars@.skip(0) =~= path@);
    while start < chars.len() && chars[start] == '/'
        invariant
            start <= chars@.len(),
            chars@ == path@,
            trim_front(chars@.skip(start as int)) == trim_front(path@),
        decreases chars@.len() - start,
    {
        assert(chars@.skip(start as int).drop_first() =~= chars@.skip(start + 1));
        start = start + 1;
    }
    assert(trim_front(path@) == chars@.skip(start as int));
    let mut end: usize = chars.len();
    assert(chars@.subrange(start as int, end as int) =~= chars@.skip(start as int));
    while end > start && chars[end - 1] == '/'
        invariant
            start <= end <= chars@.len(),
            chars@ == path@,
            trim_back(chars@.subrange(start as int, end as int)) == trim_back(trim_front(path@)),
        decreases end,
    {
        assert(chars@.subrange(start as int, end as int).drop_last() =~= chars@.subrange(
            start as int,
            end - 1,
        ));
        end = end - 1;
    }
    path.substring_char(start, end)
}

/// The key for a path.
pub fn cache_key(namespace: &str, kind: &str, path: &str) -> (key: String)
    ensures
        key@ == key_of(namespace@, kind@, path@),
{
    let mut normalized = "/".to_owned();
    normalized.append(trim_slashes(path));
    let mut key = "ragfs:v2:".to_owned();
    key.append(namespace);
    key.append(":");
    key.append(kind);
    key.append(":");
    text::push_hex_number(&mut key, stable_hash(normalized.as_str().as_bytes()), 16);
    key
}

/// Whether `key` is `prefix:dir:hash`, where `hash` has no colon and `prefix` starts with
/// `ragfs:v2:`.
pub open spec fn names_directory(key: Seq<char>, prefix: Seq<char>, hash: Seq<char>) -> bool {
    &&& key == prefix + ":dir:"@ + hash
    &&& !hash.contains(':')
    &&& "ragfs:v2:"@.is_prefix_of(prefix)
}

/// Whether `key` is the key of a directory listing.
pub open spec fn is_directory_key(key: Seq<char>) -> bool {
    exists|prefix: Seq<char>, hash: Seq<char>| names_directory(key, prefix, hash)
}

/// Whether `part` stands in `chars` at `at`.
fn stands_at(chars: &Vec<char>, at: usize, part: &str) -> (stands: bool)
    requires
        at <= chars@.len(),
    ensures
        stands == (at + part@.len() <= chars@.len() && chars@.subrange(at as int, at + part@.len())
            == part@),
{
    let wanted = text::chars_of(part);
    if wanted.len() > chars.len() - at {
        return false;
    }
    let mut index: usize = 0;
    while index < wanted.len()
        invariant
            wanted@ == part@,
            at + wanted@.len() <= chars.len(),
            index <= wanted@.len(),
            forall|i: int| 0 <= i < index ==> chars@[at + i] == wanted@[i],
        decreases wanted@.len() - index,
    {
        if chars[at + index] != wanted[index] {
            assert(chars@.subrange(at as int, at + part@.len())[index as int]
                != part@[index as int]);
            return false;
        }
        index = index + 1;
    }
    assert(chars@.subrange(at as int, at + part@.len()) =~= part@);
    true
}

/// Where the last colon stands, if there is one.
fn last_colon(chars: &Vec<char>) -> (found: Option<usize>)
    ensures
        match found {
            Some(at) => {
                &&& at < chars@.len()
                &&& chars@[at as int] == ':'
                &&& forall|i: int| at < i < chars@.len() ==> chars@[i] != ':'
            },
            None => forall|i: int| 0 <= i < chars@.len() ==> chars@[i] != ':',
        },
{
    let mut end: usize = chars.len();
    while end > 0
        invariant
            end <= chars@.len(),
            forall|i: int| end <= i < chars@.len() ==> chars@[i] != ':',
        decreases end,
    {
        if chars[end - 1] == ':' {
            return Some(end - 1);
        }
        end = end - 1;
    }
    None
}

/// Whether `key` is the key of a directory listing.
pub fn is_ragfs_directory_key(key: &str) -> (directory: bool)
    ensures
        directory == is_directory_key(key@),
{
    proof {
        reveal_strlit(":dir:");
        reveal_strlit("ragfs:v2:");
    }
    let chars = text::chars_of(key);
    let colon: usize = match last_colon(&chars) {
        Some(colon) => colon,
        None => {
            proof {
                if is_directory_key(key@) {
                    let (prefix, hash) = choose|prefix: Seq<char>, hash: Seq<char>|
                        names_directory(key@, prefix, hash);
                    assert(key@[prefix.len() as int] == ':');
                }
            }
            return false;
        },
    };
    proof {
        if is_directory_key(key@) {
            let (prefix, hash) = choose|prefix: Seq<char>, hash: Seq<char>|
                names_directory(key@, prefix, hash);
            let last = prefix.len() + 4;
            assert(key@[last as int] == ':');
            if colon > last {
                assert(hash[colon - last - 1] == ':');
            }
            assert(colon == last);
            assert(key@.subrange(colon - 4, colon + 1) =~= ":dir:"@);
            assert(key@.subrange(0, 9) =~= prefix.subrange(0, 9));
            assert(prefix.subrange(0, 9) =~= "ragfs:v2:"@);
        }
    }
    if colon < 13 {
        return false;
    }
    let directory = stands_at(&chars, colon - 4, ":dir:") && stands_at(&chars, 0, "ragfs:v2:");
    proof {
        if directory {
            let prefix = key@.take(colon - 4);
            let hash = key@.skip(colon + 1);
            assert(key@ =~= prefix + ":dir:"@ + hash) by {
                assert(key@ =~= prefix + key@.subrange(colon - 4, colon + 1) + hash);
            }
            assert(prefix.subrange(0, 9) =~= key@.subrange(0, 9));
            assert(prefix.take(9) =~= "ragfs:v2:"@);
            assert(names_directory(key@, prefix, hash));
        }
    }
    directory
}

// Laws.

proof fn hex_has_no_colon(value: nat, width: nat)
    ensures
        !text::hex_number(value, width).contains(':'),
    decreases width,
{
    if width > 0 {
        hex_has_no_colon(value / 16, (width - 1) as nat);
        let front = text::hex_number(value / 16, (width - 1) as nat);
        let whole = text::hex_number(value, width);
        assert(text::hex_digit((value % 16) as int) != ':');
        assert forall|i: int| 0 <= i < whole.len() implies whole[i] != ':' by {
            if i < front.len() {
                assert(whole[i] == front[i]);
            }
        }
    }
}

/// Of the keys that are built for paths, exactly those of kind `dir` count as directory keys.
pub proof fn directory_keys_are_those_of_kind_dir(
    namespace: Seq<char>,
    kind: Seq<char>,
    path: Seq<char>,
)
    requires
        !kind.contains(':'),
    ensures
        is_directory_key(key_of(namespace, kind, path)) <==> kind == "dir"@,
{
    let key = key_of(namespace, kind, path);
    let hash = text::hex_number(fnv1a(utf8::encode_utf8(normalized(path))) as nat, 16);
    let prefix = "ragfs:v2:"@ + namespace;
    reveal_strlit("ragfs:v2:");
    reveal_strlit(":dir:");
    reveal_strlit("dir");
    reveal_strlit(":");
    hex_has_no_colon(fnv1a(utf8::encode_utf8(normalized(path))) as nat, 16);
    if kind == "dir"@ {
        assert(key =~= prefix + ":dir:"@ + hash);
        assert(prefix.take(9) =~= "ragfs:v2:"@);
        assert(names_directory(key, prefix, hash));
    }
    if is_directory_key(key) {
        let (other, tail) = choose|other: Seq<char>, tail: Seq<char>|
            names_directory(key, other, tail);
        assert(key =~= prefix.push(':') + kind.push(':') + hash);
        assert(key =~= other.push(':') + "dir"@.push(':') + tail);
        assert(key =~= (prefix.push(':') + kind).push(':') + hash);
        assert(key =~= (other.push(':') + "dir"@).push(':') + tail);
        split_at_last_colon(prefix.push(':') + kind, hash, other.push(':') + "dir"@, tail);
        assert(!"dir"@.contains(':'));
        split_at_last_colon(prefix, kind, other, "dir"@);
    }
}

proof fn split_at_last_colon(
    left: Seq<char>,
    left_rest: Seq<char>,
    right: Seq<char>,
    right_rest: Seq<char>,
)
    requires
        left.push(':') + left_rest == right.push(':') + right_rest,
        !left_rest.contains(':'),
        !right_rest.contains(':'),
    ensures
        left == right,
        left_rest == right_rest,
{
    let key = left.push(':') + left_rest;
    let other = right.push(':') + right_rest;
    assert(key.len() == left.len() + 1 + left_rest.len());
    assert(other.len() == right.len() + 1 + right_rest.len());
    assert(key[left.len() as int] == ':');
    assert(other[right.len() as int] == ':');
    if left.len() < right.len() {
        let at = right.len() - left.len() - 1;
        assert(key[right.len() as int] == left_rest[at]);
        assert(left_rest.contains(left_rest[at]));
    }
    if right.len() < left.len() {
        let at = left.len() - right.len() - 1;
        assert(other[left.len() as int] == right_rest[at]);
        assert(right_rest.contains(right_rest[at]));
    }
    assert(left =~= key.take(left.len() as int));
    assert(right =~= key.take(left.len() as int));
    assert(left_rest =~= key.skip(left.len() + 1int));
    assert(right_rest =~= key.skip(left.len() + 1int));
}

/// Slashes around a path do not change its key.
pub proof fn outer_slashes_do_not_matter(namespace: Seq<char>, kind: Seq<char>, path: Seq<char>)
    ensures
        key_of(namespace, kind, "/"@ + path) == key_of(namespace, kind, path),
        key_of(namespace, kind, path + "/"@) == key_of(namespace, kind, path),
{
    reveal_strlit("/");
    let front = "/"@ + path;
    assert(front.drop_first() =~= path);
    assert(trim_front(front) == trim_front(path));
    trailing_slash(path);
}

proof fn trailing_slash(path: Seq<char>)
    ensures
        trim_back(trim_front(path + "/"@)) == trim_back(trim_front(path)),
    decreases path.len(),
{
    reveal_strlit("/");
    let longer = path + "/"@;
    if path.len() > 0 && path[0] == '/' {
        assert(longer.drop_first() =~= path.drop_first() + "/"@);
        trailing_slash(path.drop_first());
    } else if path.len() > 0 {
        assert(longer.drop_last() =~= path);
    } else {
        assert(longer.drop_first() =~= Seq::empty());
        assert(path =~= Seq::empty());
    }
}

/// The hash starts from the offset basis of FNV-1a and takes in one byte after the other.
pub proof fn the_hash_takes_in_every_byte(bytes: Seq<u8>, byte: u8)
    ensures
        fnv1a(Seq::empty()) == 14695981039346656037,
        fnv1a(bytes.push(byte)) == (fnv1a(bytes) ^ byte as u64).wrapping_mul(1099511628211),
{
    assert(bytes.push(byte).drop_last() =~= bytes);
}

/// The key of a path without slashes at its ends is made of the namespace, the kind and the 16
/// hexadecimal digits of the hash of the whole path with one slash in front.
pub proof fn a_key_hashes_the_whole_path(namespace: Seq<char>, kind: Seq<char>, path: Seq<char>)
    requires
        path.len() > 0 ==> path[0] != '/' && path.last() != '/',
    ensures
        key_of(namespace, kind, path) == "ragfs:v2:"@ + namespace + ":"@ + kind + ":"@
            + text::hex_number(fnv1a(utf8::encode_utf8("/"@ + path)) as nat, 16),
{
}

/// Of paths whose hashes differ, and of different namespaces or kinds without colons, the keys
/// differ.
pub proof fn keys_keep_apart(
    namespace: Seq<char>,
    kind: Seq<char>,
    path: Seq<char>,
    other_namespace: Seq<char>,
    other_kind: Seq<char>,
    other_path: Seq<char>,
)
    requires
        !kind.contains(':'),
        !other_kind.contains(':'),
        key_of(namespace, kind, path) == key_of(other_namespace, other_kind, other_path),
    ensures
        namespace == other_namespace,
        kind == other_kind,
        fnv1a(utf8::encode_utf8(normalized(path))) == fnv1a(
            utf8::encode_utf8(normalized(other_path)),
        ),
{
    let value = fnv1a(utf8::encode_utf8(normalized(path))) as nat;
    let other_value = fnv1a(utf8::encode_utf8(normalized(other_path))) as nat;
    let hash = text::hex_number(value, 16);
    let other_hash = text::hex_number(other_value, 16);
    let prefix = "ragfs:v2:"@ + namespace;
    let other_prefix = "ragfs:v2:"@ + other_namespace;
    let key = key_of(namespace, kind, path);
    reveal_strlit("ragfs:v2:");
    reveal_strlit(":");
    hex_has_no_colon(value, 16);
    hex_has_no_colon(other_value, 16);
    assert(key =~= (prefix.push(':') + kind).push(':') + hash);
    assert(key =~= (other_prefix.push(':') + other_kind).push(':') + other_hash);
    split_at_last_colon(
        prefix.push(':') + kind,
        hash,
        other_prefix.push(':') + other_kind,
        other_hash,
    );
    split_at_last_colon(prefix, kind, other_prefix, other_kind);
    assert(prefix.skip(9) =~= namespace);
    assert(other_prefix.skip(9) =~= other_namespace);
    vstd::arithmetic::power::lemma_pow_adds(16, 8, 8);
    assert(vstd::arithmetic::power::pow(16, 8) == 4294967296) by {
        reveal_with_fuel(vstd::arithmetic::power::pow, 9);
    }
    same_digits(value, other_value, 16);
}

proof fn same_digits(left: nat, right: nat, width: nat)
    requires
        text::hex_number(left, width) == text::hex_number(right, width),
        left < vstd::arithmetic::power::pow(16, width),
        right < vstd::arithmetic::power::pow(16, width),
    ensures
        left == right,
    decreases width,
{
    reveal(vstd::arithmetic::power::pow);
    if width > 0 {
        text::hex_number_writes_every_digit(left, width);
        text::hex_number_writes_every_digit(right, width);
        same_digits(left / 16, right / 16, (width - 1) as nat);
    }
}

/// A key counts as that of a directory exactly where it is something that starts with `ragfs:v2:`,
/// `:dir:`, and something without a colon.
pub proof fn directory_keys_are_recognized_by_their_parts(
    key: Seq<char>,
    prefix: Seq<char>,
    hash: Seq<char>,
)
    requires
        key == prefix + ":dir:"@ + hash,
        !hash.contains(':'),
    ensures
        is_directory_key(key) <==> prefix.len() >= 9 && prefix.take(9) == "ragfs:v2:"@,
{
    reveal_strlit("ragfs:v2:");
    reveal_strlit(":dir:");
    if prefix.len() >= 9 && prefix.take(9) == "ragfs:v2:"@ {
        assert(names_directory(key, prefix, hash));
    }
    if is_directory_key(key) {
        let (other, tail) = choose|other: Seq<char>, tail: Seq<char>|
            names_directory(key, other, tail);
        let body = ":dir"@;
        reveal_strlit(":dir");
        assert(key =~= (prefix + body).push(':') + hash);
        assert(key =~= (other + body).push(':') + tail);
        split_at_last_colon(prefix + body, hash, other + body, tail);
        assert(prefix =~= (prefix + body).take((prefix + body).len() - 4));
        assert(other =~= (other + body).take((other + body).len() - 4));
        assert(other.take(9) =~= "ragfs:v2:"@);
    }
}

} // verus!
