//! The boundary to code that is not verified here: a few functions of the
//! standard library and the calls into other crates. Every contract in this
//! file is believed, not proved.

use moka::sync::Cache;
use rand::seq::SliceRandom;
use rand::Rng;
use regex::Regex;
use sha2::{Digest, Sha512};
use vstd::prelude::*;

verus! {

/// `String::push` appends one character to the end of the string.
pub assume_specification[ String::push ](s: &mut String, c: char)
    ensures
        final(s)@ == old(s)@.push(c),
;

/// What `str::to_uppercase` returns for a string of these characters.
pub uninterp spec fn uppercase(s: Seq<char>) -> Seq<char>;

/// What `str::to_lowercase` returns for a string of these characters.
pub uninterp spec fn lowercase(s: Seq<char>) -> Seq<char>;

/// The upper-case form of an ASCII letter; any other character as it is.
pub open spec fn ascii_upper(c: char) -> char {
    if 'a' <= c && c <= 'z' {
        ((c as u32) - 32) as char
    } else {
        c
    }
}

/// The lower-case form of an ASCII letter; any other character as it is.
pub open spec fn ascii_lower(c: char) -> char {
    if 'A' <= c && c <= 'Z' {
        ((c as u32) + 32) as char
    } else {
        c
    }
}

/// Calls `str::to_uppercase`. The result depends on the string alone; on a
/// string of ASCII characters it replaces each letter by its upper-case form.
#[verifier::external_body]
pub(crate) fn to_uppercase(s: &str) -> (r: String)
    ensures
        r@ == uppercase(s@),
        vstd::utf8::is_ascii_chars(s@) ==> r@ == s@.map_values(|c: char| ascii_upper(c)),
{
    s.to_uppercase()
}

/// Calls `str::to_lowercase`. The result depends on the string alone; on a
/// string of ASCII characters it replaces each letter by its lower-case form.
#[verifier::external_body]
pub(crate) fn to_lowercase(s: &str) -> (r: String)
    ensures
        r@ == lowercase(s@),
        vstd::utf8::is_ascii_chars(s@) ==> r@ == s@.map_values(|c: char| ascii_lower(c)),
{
    s.to_lowercase()
}

/// Calls `std::str::from_utf8` and copies the text out: there is text exactly
/// when the bytes are well-formed UTF-8, and it holds the encoded characters.
#[verifier::external_body]
pub(crate) fn text_of_utf8(bytes: &[u8]) -> (r: Option<String>)
    ensures
        r is Some <==> vstd::utf8::valid_utf8(bytes@),
        r matches Some(s) ==> s@ == vstd::utf8::decode_utf8(bytes@),
{
    std::str::from_utf8(bytes).ok().map(|s| s.to_string())
}

/// `moka::sync::Cache`: a concurrent cache of bounded size.
#[verifier::external_type_specification]
#[verifier::external_body]
#[verifier::reject_recursive_types(K)]
#[verifier::reject_recursive_types(V)]
#[verifier::reject_recursive_types(S)]
pub struct ExCache<K, V, S>(Cache<K, V, S>);

/// A cache of answers: under the bytes of a question the answer and the moment
/// at which it expires.
pub type AnswerCache = Cache<Vec<u8>, (Vec<u8>, u128)>;

/// What was put into a cache: for each key the value that was inserted last and
/// not invalidated since. A cache that came to hold more than it was made for
/// drops some of it. All this is about a cache of which there is one handle.
pub uninterp spec fn held(cache: AnswerCache) -> Map<Seq<u8>, (Seq<u8>, u128)>;

/// No entry at all.
pub open spec fn no_entries() -> Map<Seq<u8>, (Seq<u8>, u128)> {
    Map::empty()
}

/// The number of entries that a cache was made for.
pub uninterp spec fn entry_limit(cache: AnswerCache) -> u64;

/// Whether a cache has, at any moment, held more entries than it was made for.
pub uninterp spec fn crowded(cache: AnswerCache) -> bool;

/// Calls `Cache::builder`, `max_capacity` and `build`: a cache that holds
/// nothing yet, made for `limit` entries.
#[verifier::external_body]
pub(crate) fn new_cache(limit: u64) -> (cache: AnswerCache)
    ensures
        held(cache) == no_entries(),
        entry_limit(cache) == limit,
        !crowded(cache),
{
    Cache::builder().max_capacity(limit).build()
}

/// Calls `Cache::get`: a value comes back only for a key that is held, and it
/// is the one held under it. As long as the cache has never held more entries
/// than it was made for it drops none, so the value of every held key comes
/// back; after that, whether it comes back is up to the cache.
#[verifier::external_body]
pub(crate) fn cache_get(cache: &AnswerCache, key: &Vec<u8>) -> (r: Option<(Vec<u8>, u128)>)
    ensures
        r matches Some(v) ==> held(*cache).contains_key(key@) && held(*cache)[key@] == (v.0@, v.1),
        !crowded(*cache) && held(*cache).contains_key(key@) ==> r is Some,
{
    cache.get(key)
}

/// Calls `Cache::insert`: the value takes the place of any other under its key.
#[verifier::external_body]
pub(crate) fn cache_insert(
    cache: &mut AnswerCache,
    key: Vec<u8>,
    value: (Vec<u8>, u128),
)
    ensures
        held(*final(cache)) == held(*old(cache)).insert(key@, (value.0@, value.1)),
        entry_limit(*final(cache)) == entry_limit(*old(cache)),
        crowded(*final(cache)) == (crowded(*old(cache)) || held(*final(cache)).dom().len()
            > entry_limit(*final(cache))),
{
    cache.insert(key, value)
}

/// Calls `Cache::invalidate`: nothing is held under the key any more.
#[verifier::external_body]
pub(crate) fn cache_invalidate(cache: &mut AnswerCache, key: &Vec<u8>)
    ensures
        held(*final(cache)) == held(*old(cache)).remove(key@),
        entry_limit(*final(cache)) == entry_limit(*old(cache)),
        crowded(*final(cache)) == crowded(*old(cache)),
{
    cache.invalidate(key)
}

/// Calls `Cache::entry_count`: an estimate of which nothing is promised.
#[verifier::external_body]
pub(crate) fn cache_entry_count(cache: &AnswerCache) -> u64 {
    cache.entry_count()
}

/// Calls `SliceRandom::shuffle` with the generator of the thread: the elements
/// stay the same, in any order.
#[verifier::external_body]
pub(crate) fn shuffle(v: &mut Vec<usize>)
    ensures
        final(v)@.to_multiset() == old(v)@.to_multiset(),
{
    v.shuffle(&mut rand::thread_rng())
}

/// Calls `Rng::gen_range` on `0..=max` with the generator of the thread: some
/// number in that range.
#[verifier::external_body]
pub(crate) fn random_up_to(max: u64) -> (r: u64)
    ensures
        r <= max,
{
    rand::thread_rng().gen_range(0..=max)
}

/// The SHA-512 digest of some bytes.
pub uninterp spec fn sha512(data: Seq<u8>) -> Seq<u8>;

/// Calls `Sha512::digest`: 64 bytes that depend on the data alone.
#[verifier::external_body]
pub(crate) fn sha512_digest(data: &[u8]) -> (r: Vec<u8>)
    ensures
        r@ == sha512(data@),
        r@.len() == 64,
{
    Sha512::digest(data).to_vec()
}

/// The hexadecimal digit for a number below sixteen, in lower case.
pub open spec fn hex_digit(n: int) -> char {
    if n < 10 {
        ('0' as int + n) as char
    } else {
        ('a' as int + n - 10) as char
    }
}

/// Two hexadecimal digits for each byte, the more significant one first.
pub open spec fn hex(data: Seq<u8>) -> Seq<char> {
    Seq::new(
        2 * data.len(),
        |i: int|
            if i % 2 == 0 {
                hex_digit(data[i / 2] as int / 16)
            } else {
                hex_digit(data[i / 2] as int % 16)
            },
    )
}

/// Calls `hex::encode`: two lower-case hexadecimal digits for each byte.
#[verifier::external_body]
pub(crate) fn hex_encode(data: &[u8]) -> (r: String)
    ensures
        r@ == hex(data@),
{
    hex::encode(data)
}

/// `regex::Regex`: a compiled regular expression.
#[verifier::external_type_specification]
#[verifier::external_body]
pub struct ExRegex(Regex);

/// What `Regex::new` makes of a pattern; nothing where it does not compile.
pub uninterp spec fn regex_of(pattern: Seq<char>) -> Option<Regex>;

/// Whether a compiled regular expression matches somewhere in a text.
pub uninterp spec fn regex_matches(re: Regex, haystack: Seq<char>) -> bool;

/// Calls `Regex::new`: what comes back depends on the pattern alone. The pattern
/// `.*` compiles.
#[verifier::external_body]
pub(crate) fn compile(pattern: &str) -> (r: Option<Regex>)
    ensures
        r == regex_of(pattern@),
        pattern@ == ".*"@ ==> r is Some,
{
    Regex::new(pattern).ok()
}

/// Calls `Regex::is_match`: the outcome depends on the regular expression and
/// the text alone; what was compiled from `.*` matches every text.
#[verifier::external_body]
pub(crate) fn is_match(re: &Regex, haystack: &str) -> (r: bool)
    ensures
        r == regex_matches(*re, haystack@),
        regex_of(".*"@) == Some(*re) ==> r,
{
    re.is_match(haystack)
}

} // verus!
