//! The key codec: how a block is named in the remote store and in the
//! local block directory.
//!
//! A remote object is `gs://<bucket>/<network>-<height>-<hash>.json`, a local
//! file `<network>-<height>-<hash>.json`. The fields are never empty. A
//! bucket holds no `/`, a network no `-` and no `/`, a hash no `-`, no `.`
//! and no `/`, so that a name can be taken apart in one way only. A height
//! is read as the standard library reads a `u32`: a `+` may stand before
//! its digits, and zeros may lead them. It is written without either.

use vstd::prelude::*;
use vstd::string::*;
use crate::decimal::{
    decimal_text, height_digits, height_value, is_canonical, is_digit, is_height_text,
    lemma_canonical_is_decimal_text, lemma_decimal_text_is_height_text, lemma_decimal_text_value,
    read_height, render_height,
};
use crate::text::{
    chars_of, find_char, first_index_of, free_of, has_prefix, has_suffix, holds_at,
    lemma_first_index_of, lemma_first_index_of_bounds, line_bounds, split_lines,
    stretch_free_of, string_of,
};

verus! {

/// The ending of every block file and object name.
pub open spec fn json_suffix() -> Seq<char> {
    seq!['.', 'j', 's', 'o', 'n']
}

/// The scheme that every remote key begins with.
pub open spec fn scheme_prefix() -> Seq<char> {
    seq!['g', 's', ':', '/', '/']
}

/// `s` can be the name of a bucket.
pub open spec fn is_bucket(s: Seq<char>) -> bool {
    s.len() > 0 && free_of(s, '/')
}

/// `s` can be the name of a network.
pub open spec fn is_network(s: Seq<char>) -> bool {
    s.len() > 0 && free_of(s, '-') && free_of(s, '/')
}

/// `s` can be the hash of a block.
pub open spec fn is_hash(s: Seq<char>) -> bool {
    s.len() > 0 && free_of(s, '-') && free_of(s, '.') && free_of(s, '/')
}

/// The file name made of a network, the text of a height and a hash.
pub open spec fn local_name(network: Seq<char>, height_text: Seq<char>, hash: Seq<char>) -> Seq<
    char,
> {
    network + seq!['-'] + height_text + seq!['-'] + hash + json_suffix()
}

/// The remote key made of a bucket and the three parts of a file name.
pub open spec fn remote_key(
    bucket: Seq<char>,
    network: Seq<char>,
    height_text: Seq<char>,
    hash: Seq<char>,
) -> Seq<char> {
    scheme_prefix() + bucket + seq!['/'] + local_name(network, height_text, hash)
}

/// The pattern that matches every object of `network` in `bucket` at
/// `height`, whatever its hash: the key with `*` in the place of the hash.
pub open spec fn remote_pattern(bucket: Seq<char>, network: Seq<char>, height: nat) -> Seq<char> {
    remote_key(bucket, network, decimal_text(height), seq!['*'])
}

/// The pattern that matches every object of `network` in `bucket`: the key
/// with `*` in the places of the height and of the hash.
pub open spec fn catalog_pattern(bucket: Seq<char>, network: Seq<char>) -> Seq<char> {
    remote_key(bucket, network, seq!['*'], seq!['*'])
}

/// The text of a key: the remote key of its fields, the height in decimal.
pub open spec fn key_text(key: KeyFields) -> Seq<char> {
    remote_key(key.bucket, key.network, decimal_text(key.height), key.hash)
}

/// What a file name says of a block.
pub ghost struct NameFields {
    pub network: Seq<char>,
    pub height: nat,
    pub hash: Seq<char>,
}

/// What a remote key says of a block.
pub ghost struct KeyFields {
    pub bucket: Seq<char>,
    pub network: Seq<char>,
    pub height: nat,
    pub hash: Seq<char>,
}

/// Why a name was refused.
#[derive(Debug, Clone, Copy, PartialEq, Eq)]
pub enum ParseError {
    /// The string has not the shape of a block file name.
    MalformedName,
    /// The string has not the shape of a remote key.
    MalformedKey,
}

/// One object of the remote store.
#[derive(Debug, PartialEq, Eq)]
pub struct BlockKey {
    pub bucket: String,
    pub network: String,
    pub height: u32,
    pub hash: String,
}

impl View for BlockKey {
    type V = KeyFields;

    open spec fn view(&self) -> KeyFields {
        KeyFields {
            bucket: self.bucket@,
            network: self.network@,
            height: self.height as nat,
            hash: self.hash@,
        }
    }
}

impl Clone for BlockKey {
    fn clone(&self) -> (r: Self)
        ensures
            r == *self,
    {
        BlockKey {
            bucket: self.bucket.clone(),
            network: self.network.clone(),
            height: self.height,
            hash: self.hash.clone(),
        }
    }
}

impl BlockKey {
    /// The fields are such as a remote key can hold.
    pub open spec fn wf(&self) -> bool {
        is_bucket(self.bucket@) && is_network(self.network@) && is_hash(self.hash@)
    }
}

/// What is known of one file of the local block directory.
pub ghost struct FileFields {
    pub network: Seq<char>,
    pub height: nat,
    pub hash: Seq<char>,
    pub path: Seq<char>,
    pub created_at: nat,
}

/// One block file of the local block directory: what its name says, its
/// path below that directory, and when it was created, in seconds since the
/// epoch.
#[derive(Debug, Clone, PartialEq, Eq)]
pub struct LocalBlockFile {
    pub network: String,
    pub height: u32,
    pub hash: String,
    pub path: String,
    pub created_at: u64,
}

impl View for LocalBlockFile {
    type V = FileFields;

    open spec fn view(&self) -> FileFields {
        FileFields {
            network: self.network@,
            height: self.height as nat,
            hash: self.hash@,
            path: self.path@,
            created_at: self.created_at as nat,
        }
    }
}

impl LocalBlockFile {
    /// The fields are such as a file name can hold.
    pub open spec fn wf(&self) -> bool {
        is_network(self.network@) && is_hash(self.hash@)
    }
}

/// `s` is a file name of the block of `network` at `height` with `hash`:
/// the three fields are well formed, and `s` is made of them with some
/// text of the height.
pub open spec fn names_block(s: Seq<char>, network: Seq<char>, height: nat, hash: Seq<char>) -> bool {
    &&& is_network(network)
    &&& is_hash(hash)
    &&& exists|t: Seq<char>|
        is_height_text(t) && height_value(t) == height && s == #[trigger] local_name(
            network,
            t,
            hash,
        )
}

/// `s` is the remote key of the block in `bucket` that the other three
/// fields name.
pub open spec fn keys_block(
    s: Seq<char>,
    bucket: Seq<char>,
    network: Seq<char>,
    height: nat,
    hash: Seq<char>,
) -> bool {
    &&& is_bucket(bucket)
    &&& exists|name: Seq<char>|
        #[trigger] names_block(name, network, height, hash) && s == scheme_prefix() + bucket
            + seq!['/'] + name
}

/// `s` has the shape of a block file name.
pub open spec fn is_local_name(s: Seq<char>) -> bool {
    exists|network: Seq<char>, height: nat, hash: Seq<char>|
        names_block(s, network, height, hash)
}

/// `s` has the shape of a remote key.
pub open spec fn is_remote_key(s: Seq<char>) -> bool {
    exists|bucket: Seq<char>, network: Seq<char>, height: nat, hash: Seq<char>|
        keys_block(s, bucket, network, height, hash)
}

/// Takes a file name apart: the network ends at the first `-`, the height
/// at the second, the hash before the ending. `None` where `s` has not the
/// shape of a block file name.
pub open spec fn parse_local(s: Seq<char>) -> Option<NameFields> {
    let i = first_index_of(s, '-', 0);
    let j = first_index_of(s, '-', i + 1);
    let e = s.len() - json_suffix().len();
    let network = s.subrange(0, i);
    let text = s.subrange(i + 1, j);
    let hash = s.subrange(j + 1, e);
    if i < j && j < e && has_suffix(s, json_suffix()) && is_network(network) && is_height_text(text)
        && is_hash(hash) {
        Some(NameFields { network, height: height_value(text), hash })
    } else {
        None
    }
}

/// Takes a remote key apart: the scheme, the bucket up to the first `/`
/// after it, then a file name. `None` where `s` has not the shape of a
/// remote key.
pub open spec fn parse_remote(s: Seq<char>) -> Option<KeyFields> {
    let b = scheme_prefix().len() as int;
    let k = first_index_of(s, '/', b);
    let bucket = s.subrange(b, k);
    let name = s.subrange(k + 1, s.len() as int);
    if has_prefix(s, scheme_prefix()) && b < k && k < s.len() {
        match parse_local(name) {
            Some(f) => Some(
                KeyFields { bucket, network: f.network, height: f.height, hash: f.hash },
            ),
            None => None,
        }
    } else {
        None
    }
}

/// Takes the file name `name` apart into network, height and hash.
pub fn read_name(name: &str) -> (r: Option<(String, u32, String)>)
    ensures
        match r {
            Some((network, height, hash)) => parse_local(name@) == Some(
                NameFields { network: network@, height: height as nat, hash: hash@ },
            ),
            None => parse_local(name@) is None,
        },
{
    let text = chars_of(name);
    let len = text.len();
    let i = find_char(&text, '-', 0);
    if i >= len {
        return None;
    }
    let j = find_char(&text, '-', i + 1);
    if len < 5 || j >= len - 5 {
        return None;
    }
    let e = len - 5;
    proof {
        reveal_strlit(".json");
    }
    let ending = chars_of(".json");
    assert(ending@ =~= json_suffix());
    if !holds_at(&text, e, &ending) {
        return None;
    }
    if i == 0 || !stretch_free_of(&text, '/', 0, i) {
        return None;
    }
    assert(free_of(text@.subrange(0, i as int), '-')) by {
        assert forall|k: int| 0 <= k < i implies #[trigger] text@.subrange(0, i as int)[k]
            != '-' by {
            assert(text[k] != '-');
        }
    }
    let height = match read_height(&text, i + 1, j) {
        Some(height) => height,
        None => {
            return None;
        },
    };
    if j + 1 >= e || !stretch_free_of(&text, '-', j + 1, e) || !stretch_free_of(
        &text,
        '.',
        j + 1,
        e,
    ) || !stretch_free_of(&text, '/', j + 1, e) {
        return None;
    }
    let network = string_of(&text, 0, i);
    let hash = string_of(&text, j + 1, e);
    Some((network, height, hash))
}

/// Reads the name of a file of the block directory.
///
/// `Ok` for exactly the names of the shape `<network>-<height>-<hash>.json`,
/// with the block that the name names, the name as the path, and
/// `created_at` as given. Every other string is a `MalformedName`.
pub fn parse_local_filename(name: &str, created_at: u64) -> (r: Result<LocalBlockFile, ParseError>)
    ensures
        r is Ok <==> is_local_name(name@),
        match r {
            Ok(file) => {
                &&& names_block(name@, file.network@, file.height as nat, file.hash@)
                &&& parse_local(name@) == Some(
                    NameFields {
                        network: file.network@,
                        height: file.height as nat,
                        hash: file.hash@,
                    },
                )
                &&& file.path@ == name@
                &&& file.created_at == created_at
                &&& file.wf()
            },
            Err(e) => e == ParseError::MalformedName && parse_local(name@) is None,
        },
{
    proof {
        lemma_parse_local_decides(name@);
    }
    match read_name(name) {
        Some((network, height, hash)) => {
            proof {
                lemma_parse_local_sound(name@);
            }
            Ok(LocalBlockFile { network, height, hash, path: String::from_str(name), created_at })
        },
        None => Err(ParseError::MalformedName),
    }
}

/// Reads a remote key.
///
/// `Ok` for exactly the strings of the shape
/// `gs://<bucket>/<network>-<height>-<hash>.json`, with the block that the
/// key is the key of. Every other string is a `MalformedKey`.
pub fn parse_remote_key(uri: &str) -> (r: Result<BlockKey, ParseError>)
    ensures
        r is Ok <==> is_remote_key(uri@),
        match r {
            Ok(key) => {
                &&& keys_block(uri@, key.bucket@, key.network@, key.height as nat, key.hash@)
                &&& parse_remote(uri@) == Some(key@)
                &&& key.wf()
            },
            Err(e) => e == ParseError::MalformedKey && parse_remote(uri@) is None,
        },
{
    proof {
        lemma_parse_remote_decides(uri@);
        if parse_remote(uri@) is Some {
            lemma_parse_remote_sound(uri@);
        }
        reveal_strlit("gs://");
    }
    let text = chars_of(uri);
    let len = text.len();
    let scheme = chars_of("gs://");
    assert(scheme@ =~= scheme_prefix());
    if !holds_at(&text, 0, &scheme) {
        return Err(ParseError::MalformedKey);
    }
    let k = find_char(&text, '/', 5);
    if k == 5 || k >= len {
        return Err(ParseError::MalformedKey);
    }
    let name = string_of(&text, k + 1, len);
    match read_name(name.as_str()) {
        Some((network, height, hash)) => {
            let bucket = string_of(&text, 5, k);
            Ok(BlockKey { bucket, network, height, hash })
        },
        None => Err(ParseError::MalformedKey),
    }
}

/// The fields of a sequence of keys, in their order.
pub open spec fn key_fields(keys: Seq<BlockKey>) -> Seq<KeyFields> {
    Seq::new(keys.len(), |i: int| keys[i]@)
}

/// The keys that the lines of a listing hold, in their order; a line that
/// is no key holds none.
pub open spec fn listed_keys(lines: Seq<Seq<char>>) -> Seq<KeyFields>
    decreases lines.len(),
{
    if lines.len() == 0 {
        Seq::empty()
    } else {
        let before = listed_keys(lines.drop_last());
        match parse_remote(lines.last()) {
            Some(key) => before.push(key),
            None => before,
        }
    }
}

/// Reads a listing of the remote store: one key to a line.
///
/// Every line that is a remote key gives its key, in the order of the
/// listing; every other line is passed over.
pub fn parse_catalog(listing: &str) -> (keys: Vec<BlockKey>)
    ensures
        key_fields(keys@) == listed_keys(split_lines(listing@)),
        forall|i: int| 0 <= i < keys@.len() ==> (#[trigger] keys@[i]).wf(),
{
    let text = chars_of(listing);
    let bounds = line_bounds(&text);
    let ghost lines = split_lines(text@);
    let mut keys: Vec<BlockKey> = Vec::new();
    let mut i: usize = 0;
    proof {
        assert(lines.take(0) =~= Seq::<Seq<char>>::empty());
        assert(key_fields(keys@) =~= listed_keys(lines.take(0)));
    }
    while i < bounds.len()
        invariant
            i <= bounds.len(),
            lines == split_lines(text@),
            bounds@.len() == lines.len(),
            forall|k: int|
                0 <= k < bounds@.len() ==> (#[trigger] bounds@[k]).0 <= bounds@[k].1 <= text.len(),
            forall|k: int|
                0 <= k < bounds@.len() ==> lines[k] == text@.subrange(
                    (#[trigger] bounds@[k]).0 as int,
                    bounds@[k].1 as int,
                ),
            key_fields(keys@) == listed_keys(lines.take(i as int)),
            forall|k: int| 0 <= k < keys@.len() ==> (#[trigger] keys@[k]).wf(),
        decreases bounds.len() - i,
    {
        let (start, end) = bounds[i];
        let ghost before = lines.take(i as int);
        let ghost after = lines.take(i + 1);
        proof {
            assert(after.drop_last() =~= before);
            assert(after.last() == lines[i as int]);
        }
        let line = string_of(&text, start, end);
        match parse_remote_key(line.as_str()) {
            Ok(key) => {
                let ghost old_keys = keys@;
                keys.push(key);
                proof {
                    assert(key_fields(old_keys).len() == old_keys.len());
                    assert forall|k: int| 0 <= k < keys@.len() implies key_fields(keys@)[k]
                        == listed_keys(before).push(key@)[k] by {
                        if k < old_keys.len() {
                            assert(key_fields(old_keys)[k] == listed_keys(before)[k]);
                        }
                    }
                    assert(key_fields(keys@) =~= listed_keys(before).push(key@));
                }
            },
            Err(_) => {},
        }
        i = i + 1;
    }
    assert(lines.take(i as int) =~= lines);
    keys
}

/// Writes the remote key made of a bucket and the three parts of a file
/// name.
fn join_key(bucket: &str, network: &str, height_text: &str, hash: &str) -> (r: String)
    ensures
        r@ == remote_key(bucket@, network@, height_text@, hash@),
{
    proof {
        reveal_strlit("gs://");
        reveal_strlit("/");
    }
    let mut r = String::from_str("gs://");
    r.append(bucket);
    r.append("/");
    let name = join_name(network, height_text, hash);
    r.append(name.as_str());
    assert(r@ =~= remote_key(bucket@, network@, height_text@, hash@));
    r
}

/// Writes the file name made of the three parts.
fn join_name(network: &str, height_text: &str, hash: &str) -> (r: String)
    ensures
        r@ == local_name(network@, height_text@, hash@),
{
    proof {
        reveal_strlit("-");
        reveal_strlit(".json");
    }
    let mut r = String::from_str(network);
    r.append("-");
    r.append(height_text);
    r.append("-");
    r.append(hash);
    r.append(".json");
    assert(r@ =~= local_name(network@, height_text@, hash@));
    r
}

/// The pattern `gs://<bucket>/<network>-<height>-*.json`, which matches
/// every object at `height`, whatever its hash.
pub fn format_remote_pattern(bucket: &str, network: &str, height: u64) -> (r: String)
    ensures
        r@ == remote_pattern(bucket@, network@, height as nat),
{
    proof {
        reveal_strlit("*");
    }
    let text = render_height(height);
    assert("*"@ =~= seq!['*']);
    join_key(bucket, network, text.as_str(), "*")
}

/// The pattern `gs://<bucket>/<network>-*-*.json`, which matches every
/// object of the network.
pub fn format_catalog_pattern(bucket: &str, network: &str) -> (r: String)
    ensures
        r@ == catalog_pattern(bucket@, network@),
{
    proof {
        reveal_strlit("*");
    }
    assert("*"@ =~= seq!['*']);
    join_key(bucket, network, "*", "*")
}

/// The key of `key` as text, the height in decimal: what `parse_remote_key`
/// reads back as `key`.
pub fn render_key(key: &BlockKey) -> (r: String)
    ensures
        r@ == key_text(key@),
        key.wf() ==> keys_block(r@, key.bucket@, key.network@, key.height as nat, key.hash@),
        key.wf() ==> parse_remote(r@) == Some(key@),
{
    let text = render_height(key.height as u64);
    let r = join_key(key.bucket.as_str(), key.network.as_str(), text.as_str(), key.hash.as_str());
    proof {
        if key.wf() {
            lemma_render_names_block(key.network@, key.height as nat, key.hash@);
            lemma_parse_remote_complete(
                r@,
                key.bucket@,
                key.network@,
                key.height as nat,
                key.hash@,
            );
        }
    }
    r
}

/// The name of `file` as text, the height in decimal: what
/// `parse_local_filename` reads back as the same block.
pub fn render_local_name(file: &LocalBlockFile) -> (r: String)
    ensures
        r@ == local_name(file.network@, decimal_text(file.height as nat), file.hash@),
        file.wf() ==> names_block(r@, file.network@, file.height as nat, file.hash@),
        file.wf() ==> parse_local(r@) == Some(
            NameFields { network: file.network@, height: file.height as nat, hash: file.hash@ },
        ),
{
    let text = render_height(file.height as u64);
    let r = join_name(file.network.as_str(), text.as_str(), file.hash.as_str());
    proof {
        if file.wf() {
            lemma_render_names_block(file.network@, file.height as nat, file.hash@);
            lemma_parse_local_complete(r@, file.network@, file.height as nat, file.hash@);
        }
    }
    r
}

/// The name written from well-formed fields, the height in decimal, names
/// the block of those fields.
pub proof fn lemma_render_names_block(network: Seq<char>, height: nat, hash: Seq<char>)
    requires
        is_network(network),
        is_hash(hash),
        height <= u32::MAX,
    ensures
        names_block(local_name(network, decimal_text(height), hash), network, height, hash),
{
    lemma_decimal_text_is_height_text(height);
}

/// The text of a height holds no `-`, no `/` and no `.`.
pub proof fn lemma_height_text_chars(t: Seq<char>)
    requires
        is_height_text(t),
    ensures
        t.len() > 0,
        free_of(t, '-'),
        free_of(t, '/'),
        free_of(t, '.'),
{
    let d = height_digits(t);
    assert forall|i: int| 0 <= i < t.len() implies t[i] == '+' || is_digit(#[trigger] t[i]) by {
        if t[0] == '+' {
            if i > 0 {
                assert(t[i] == d[i - 1]);
            }
        } else {
            assert(t[i] == d[i]);
        }
    }
}

/// What `parse_local` finds in `s` is a block that `s` names.
pub proof fn lemma_parse_local_sound(s: Seq<char>)
    requires
        parse_local(s) is Some,
    ensures
        names_block(
            s,
            parse_local(s).unwrap().network,
            parse_local(s).unwrap().height,
            parse_local(s).unwrap().hash,
        ),
{
    let i = first_index_of(s, '-', 0);
    lemma_first_index_of_bounds(s, '-', 0);
    lemma_first_index_of_bounds(s, '-', i + 1);
    let j = first_index_of(s, '-', i + 1);
    let e = s.len() - json_suffix().len();
    let network = s.subrange(0, i);
    let text = s.subrange(i + 1, j);
    let hash = s.subrange(j + 1, e);
    assert(s.subrange(e, s.len() as int) == json_suffix());
    assert(s =~= local_name(network, text, hash)) by {
        assert forall|k: int| e <= k < s.len() implies s[k] == json_suffix()[k - e] by {
            assert(s.subrange(e, s.len() as int)[k - e] == s[k]);
        }
    }
}

/// Where `s` names a block, `parse_local` finds that block in it.
pub proof fn lemma_parse_local_complete(
    s: Seq<char>,
    network: Seq<char>,
    height: nat,
    hash: Seq<char>,
)
    requires
        names_block(s, network, height, hash),
    ensures
        parse_local(s) == Some(NameFields { network, height, hash }),
{
    let t = choose|t: Seq<char>|
        is_height_text(t) && height_value(t) == height && s == #[trigger] local_name(
            network,
            t,
            hash,
        );
    lemma_height_text_chars(t);
    let i = network.len() as int;
    let j = i + 1 + t.len();
    let e = j + 1 + hash.len();
    assert(s.len() == e + 5);
    assert forall|k: int| 0 <= k < i implies #[trigger] s[k] != '-' by {
        assert(s[k] == network[k]);
    }
    assert(s[i] == '-');
    lemma_first_index_of(s, '-', 0, i);
    assert forall|k: int| i + 1 <= k < j implies #[trigger] s[k] != '-' by {
        assert(s[k] == t[k - i - 1]);
    }
    assert(s[j] == '-');
    lemma_first_index_of(s, '-', i + 1, j);
    assert(s.subrange(0, i) =~= network);
    assert(s.subrange(i + 1, j) =~= t);
    assert(s.subrange(j + 1, e) =~= hash);
    assert(s.subrange(e, s.len() as int) =~= json_suffix());
}

/// A file name names one block only.
pub proof fn lemma_local_name_unique(
    s: Seq<char>,
    network1: Seq<char>,
    height1: nat,
    hash1: Seq<char>,
    network2: Seq<char>,
    height2: nat,
    hash2: Seq<char>,
)
    requires
        names_block(s, network1, height1, hash1),
        names_block(s, network2, height2, hash2),
    ensures
        network1 == network2,
        height1 == height2,
        hash1 == hash2,
{
    lemma_parse_local_complete(s, network1, height1, hash1);
    lemma_parse_local_complete(s, network2, height2, hash2);
}

/// `parse_local` finds a block in exactly the strings that have the shape
/// of a block file name.
pub proof fn lemma_parse_local_decides(s: Seq<char>)
    ensures
        parse_local(s) is Some <==> is_local_name(s),
{
    if parse_local(s) is Some {
        lemma_parse_local_sound(s);
    }
    if is_local_name(s) {
        let (network, height, hash) = choose|network: Seq<char>, height: nat, hash: Seq<char>|
            names_block(s, network, height, hash);
        lemma_parse_local_complete(s, network, height, hash);
    }
}

/// What `parse_remote` finds in `s` is a block that `s` is the key of.
pub proof fn lemma_parse_remote_sound(s: Seq<char>)
    requires
        parse_remote(s) is Some,
    ensures
        keys_block(
            s,
            parse_remote(s).unwrap().bucket,
            parse_remote(s).unwrap().network,
            parse_remote(s).unwrap().height,
            parse_remote(s).unwrap().hash,
        ),
{
    let b = scheme_prefix().len() as int;
    lemma_first_index_of_bounds(s, '/', b);
    let k = first_index_of(s, '/', b);
    let bucket = s.subrange(b, k);
    let name = s.subrange(k + 1, s.len() as int);
    lemma_parse_local_sound(name);
    let f = parse_local(name).unwrap();
    assert(names_block(name, f.network, f.height, f.hash));
    assert(s =~= scheme_prefix() + bucket + seq!['/'] + name) by {
        assert forall|i: int| 0 <= i < b implies s[i] == scheme_prefix()[i] by {
            assert(s.subrange(0, b)[i] == s[i]);
        }
    }
}

/// Where `s` is the key of a block, `parse_remote` finds that block in it.
pub proof fn lemma_parse_remote_complete(
    s: Seq<char>,
    bucket: Seq<char>,
    network: Seq<char>,
    height: nat,
    hash: Seq<char>,
)
    requires
        keys_block(s, bucket, network, height, hash),
    ensures
        parse_remote(s) == Some(KeyFields { bucket, network, height, hash }),
{
    let name = choose|name: Seq<char>|
        #[trigger] names_block(name, network, height, hash) && s == scheme_prefix() + bucket
            + seq!['/'] + name;
    let b = scheme_prefix().len() as int;
    let k = b + bucket.len();
    assert forall|i: int| b <= i < k implies #[trigger] s[i] != '/' by {
        assert(s[i] == bucket[i - b]);
    }
    assert(s[k] == '/');
    lemma_first_index_of(s, '/', b, k);
    assert(s.subrange(0, b) =~= scheme_prefix());
    assert(s.subrange(b, k) =~= bucket);
    assert(s.subrange(k + 1, s.len() as int) =~= name);
    lemma_parse_local_complete(name, network, height, hash);
}

/// A remote key is the key of one block only.
pub proof fn lemma_remote_key_unique(s: Seq<char>, first: KeyFields, second: KeyFields)
    requires
        keys_block(s, first.bucket, first.network, first.height, first.hash),
        keys_block(s, second.bucket, second.network, second.height, second.hash),
    ensures
        first == second,
{
    lemma_parse_remote_complete(s, first.bucket, first.network, first.height, first.hash);
    lemma_parse_remote_complete(s, second.bucket, second.network, second.height, second.hash);
}

/// `parse_remote` finds a block in exactly the strings that have the shape
/// of a remote key.
pub proof fn lemma_parse_remote_decides(s: Seq<char>)
    ensures
        parse_remote(s) is Some <==> is_remote_key(s),
{
    if parse_remote(s) is Some {
        lemma_parse_remote_sound(s);
    }
    if is_remote_key(s) {
        let (bucket, network, height, hash) = choose|
            bucket: Seq<char>,
            network: Seq<char>,
            height: nat,
            hash: Seq<char>,
        |
            keys_block(s, bucket, network, height, hash);
        lemma_parse_remote_complete(s, bucket, network, height, hash);
    }
}

/// Reading a file name, writing what was read and reading that again gives
/// the block that the first reading gave: network, height and hash come
/// back as they were.
pub proof fn lemma_local_name_round_trip(s: Seq<char>)
    requires
        parse_local(s) is Some,
    ensures
        parse_local(
            local_name(
                parse_local(s).unwrap().network,
                decimal_text(parse_local(s).unwrap().height),
                parse_local(s).unwrap().hash,
            ),
        ) == parse_local(s),
{
    let fields = parse_local(s).unwrap();
    lemma_parse_local_sound(s);
    lemma_height_fits(s);
    lemma_render_names_block(fields.network, fields.height, fields.hash);
    lemma_parse_local_complete(
        local_name(fields.network, decimal_text(fields.height), fields.hash),
        fields.network,
        fields.height,
        fields.hash,
    );
}

/// The height that a file name gives fits in 32 bits.
pub proof fn lemma_height_fits(s: Seq<char>)
    requires
        parse_local(s) is Some,
    ensures
        parse_local(s).unwrap().height <= u32::MAX,
{
}

/// A file name whose height is written in decimal, without sign or leading
/// zero, is written back letter for letter.
pub proof fn lemma_canonical_name_is_rendered(network: Seq<char>, text: Seq<char>, hash: Seq<char>)
    requires
        is_network(network),
        is_hash(hash),
        is_height_text(text),
        is_canonical(text),
    ensures
        parse_local(local_name(network, text, hash)) == Some(
            NameFields { network, height: height_value(text), hash },
        ),
        local_name(network, decimal_text(height_value(text)), hash) == local_name(
            network,
            text,
            hash,
        ),
{
    lemma_canonical_is_decimal_text(text);
    assert(height_digits(text) == text);
    lemma_parse_local_complete(local_name(network, text, hash), network, height_value(text), hash);
}

/// A remote key whose height is written in decimal, without sign or
/// leading zero, is written back letter for letter: for such keys writing
/// is the inverse of reading.
pub proof fn lemma_canonical_key_is_rendered(
    bucket: Seq<char>,
    network: Seq<char>,
    text: Seq<char>,
    hash: Seq<char>,
)
    requires
        is_bucket(bucket),
        is_network(network),
        is_hash(hash),
        is_height_text(text),
        is_canonical(text),
    ensures
        parse_remote(remote_key(bucket, network, text, hash)) == Some(
            KeyFields { bucket, network, height: height_value(text), hash },
        ),
        key_text(KeyFields { bucket, network, height: height_value(text), hash }) == remote_key(
            bucket,
            network,
            text,
            hash,
        ),
{
    lemma_canonical_name_is_rendered(network, text, hash);
    lemma_parse_local_sound(local_name(network, text, hash));
    lemma_parse_remote_complete(
        remote_key(bucket, network, text, hash),
        bucket,
        network,
        height_value(text),
        hash,
    );
}

/// Reading a remote key, writing what was read and reading that again
/// gives the block that the first reading gave.
pub proof fn lemma_remote_key_round_trip(s: Seq<char>)
    requires
        parse_remote(s) is Some,
    ensures
        parse_remote(key_text(parse_remote(s).unwrap())) == parse_remote(s),
{
    let key = parse_remote(s).unwrap();
    lemma_parse_remote_sound(s);
    let b = scheme_prefix().len() as int;
    let k = first_index_of(s, '/', b);
    lemma_height_fits(s.subrange(k + 1, s.len() as int));
    lemma_render_names_block(key.network, key.height, key.hash);
    lemma_parse_remote_complete(key_text(key), key.bucket, key.network, key.height, key.hash);
}

/// Keys that differ are written differently: of two well-formed keys with
/// one text, each field of the one is that field of the other.
pub proof fn lemma_key_text_injective(first: KeyFields, second: KeyFields)
    requires
        is_bucket(first.bucket) && is_network(first.network) && is_hash(first.hash),
        is_bucket(second.bucket) && is_network(second.network) && is_hash(second.hash),
        first.height <= u32::MAX,
        second.height <= u32::MAX,
        key_text(first) == key_text(second),
    ensures
        first == second,
{
    lemma_render_names_block(first.network, first.height, first.hash);
    lemma_render_names_block(second.network, second.height, second.hash);
    lemma_remote_key_unique(key_text(first), first, second);
}

/// Patterns of different heights differ.
pub proof fn lemma_patterns_differ(bucket: Seq<char>, network: Seq<char>, first: nat, second: nat)
    requires
        first != second,
    ensures
        remote_pattern(bucket, network, first) != remote_pattern(bucket, network, second),
{
    let a = remote_pattern(bucket, network, first);
    let b = remote_pattern(bucket, network, second);
    let head = scheme_prefix() + bucket + seq!['/'] + network + seq!['-'];
    let tail = seq!['-'] + seq!['*'] + json_suffix();
    assert(a =~= head + decimal_text(first) + tail);
    assert(b =~= head + decimal_text(second) + tail);
    if a == b {
        let x = decimal_text(first);
        let y = decimal_text(second);
        assert(x.len() == y.len()) by {
            assert(a.len() == head.len() + x.len() + tail.len());
            assert(b.len() == head.len() + y.len() + tail.len());
        }
        assert(x =~= y) by {
            assert forall|i: int| 0 <= i < x.len() implies x[i] == y[i] by {
                assert(a[head.len() + i] == x[i]);
                assert(b[head.len() + i] == y[i]);
            }
        }
        lemma_decimal_text_value(first);
        lemma_decimal_text_value(second);
    }
}

/// A pattern reads as the key of its height with `*` for the hash, where
/// bucket and network are well formed and the height fits in 32 bits.
pub proof fn lemma_pattern_is_key(bucket: Seq<char>, network: Seq<char>, height: nat)
    requires
        is_bucket(bucket),
        is_network(network),
        height <= u32::MAX,
    ensures
        parse_remote(remote_pattern(bucket, network, height)) == Some(
            KeyFields { bucket, network, height, hash: seq!['*'] },
        ),
{
    lemma_render_names_block(network, height, seq!['*']);
    lemma_parse_remote_complete(
        remote_pattern(bucket, network, height),
        bucket,
        network,
        height,
        seq!['*'],
    );
}

/// A pattern holds no line feed where bucket and network hold none.
pub proof fn lemma_pattern_is_one_line(bucket: Seq<char>, network: Seq<char>, height: nat)
    requires
        free_of(bucket, '\n'),
        free_of(network, '\n'),
    ensures
        free_of(remote_pattern(bucket, network, height), '\n'),
{
    lemma_decimal_text_value(height);
    let text = decimal_text(height);
    let pattern = remote_pattern(bucket, network, height);
    let head = scheme_prefix() + bucket + seq!['/'];
    let tail = seq!['-'] + seq!['*'] + json_suffix();
    assert(pattern =~= head + network + seq!['-'] + text + tail);
    assert forall|i: int| 0 <= i < pattern.len() implies #[trigger] pattern[i] != '\n' by {
        let a = head.len() as int;
        let b = a + network.len();
        let c = b + 1 + text.len();
        if i < scheme_prefix().len() {
            assert(pattern[i] == scheme_prefix()[i]);
        } else if i < a - 1 {
            assert(pattern[i] == bucket[i - scheme_prefix().len()]);
        } else if i < a {
            assert(pattern[i] == '/');
        } else if i < b {
            assert(pattern[i] == network[i - a]);
        } else if i == b {
            assert(pattern[i] == '-');
        } else if i < c {
            assert(pattern[i] == text[i - b - 1]);
            assert(is_digit(text[i - b - 1]));
        } else {
            assert(pattern[i] == tail[i - c]);
        }
    }
}

} // verus!
