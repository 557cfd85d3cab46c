//! Store paths: a 20-byte hash and a name, owned by value.
use vstd::prelude::*;

use crate::context::Error;
use harmonia_store_core::store_path::StorePath as HarmoniaPath;

verus! {

/// The size of a store path hash in bytes (the raw digest, not its textual
/// encoding).
pub const STORE_PATH_HASH_SIZE: usize = 20;

/// The longest name a store path can have, in bytes.
pub const MAX_NAME_LEN: usize = 211;

/// A character that may stand in a store path name.
pub open spec fn name_char(c: char) -> bool {
    ('a' <= c && c <= 'z') || ('A' <= c && c <= 'Z') || ('0' <= c && c <= '9') || c == '+' || c
        == '-' || c == '_' || c == '?' || c == '=' || c == '.'
}

/// A valid store path name: 1 to 211 characters, each an ASCII letter, a
/// digit, or one of `+ - _ ? = .`.
pub open spec fn valid_name(s: Seq<char>) -> bool {
    0 < s.len() <= MAX_NAME_LEN && forall|k: int| 0 <= k < s.len() ==> name_char(#[trigger] s[k])
}

/// What a store path is made of: its hash bytes and its name.
pub struct StorePathView {
    pub hash: Seq<u8>,
    pub name: Seq<char>,
}

/// The store path that `from_parts` makes of a hash and a name, or `None`
/// where the name is not valid.
pub open spec fn path_from_parts(hash: Seq<u8>, name: Seq<char>) -> Option<StorePathView> {
    if valid_name(name) {
        Some(StorePathView { hash, name })
    } else {
        None
    }
}

#[verifier::external_type_specification]
#[verifier::external_body]
pub struct ExStorePathName(harmonia_store_core::store_path::StorePathName);

#[verifier::external_type_specification]
#[verifier::external_body]
pub struct ExHarmoniaStorePath(HarmoniaPath);

/// Relies on harmonia_store_core's `StorePathName::from_str`: it accepts
/// exactly the names of 1 to 211 bytes whose every byte is an ASCII letter, a
/// digit, or one of `+ - _ ? = .`.
#[verifier::external_body]
fn parse_name(name: &str) -> (r: Option<harmonia_store_core::store_path::StorePathName>)
    ensures
        r is Some <==> valid_name(name@),
{
    name.parse::<harmonia_store_core::store_path::StorePathName>().ok()
}

#[verifier::external_type_specification]
#[verifier::external_body]
pub struct ExStorePathHash(harmonia_store_core::store_path::StorePathHash);

/// Relies on harmonia_store_core's `StorePathHash::new`, which wraps the 20
/// bytes.
#[verifier::external_body]
fn harmonia_hash_of(hash: [u8; 20]) -> harmonia_store_core::store_path::StorePathHash {
    harmonia_store_core::store_path::StorePathHash::new(hash)
}

/// Relies on harmonia_store_core's `From<(StorePathHash, StorePathName)>` for
/// its `StorePath`.
#[verifier::external_body]
fn harmonia_path_of(
    hash: harmonia_store_core::store_path::StorePathHash,
    name: harmonia_store_core::store_path::StorePathName,
) -> HarmoniaPath {
    HarmoniaPath::from((hash, name))
}

/// Relies on harmonia_store_core's `StorePath::hash`, read as its 20 bytes.
#[verifier::external_body]
fn harmonia_hash(p: &HarmoniaPath) -> [u8; 20] {
    let h: &[u8; 20] = p.hash().as_ref();
    *h
}

/// Relies on harmonia_store_core's `StorePath::name`: a `StorePathName` is
/// only ever made by the check that `StorePathName::from_str` applies, so the
/// name is valid.
#[verifier::external_body]
fn harmonia_name(p: &HarmoniaPath) -> (r: String)
    ensures
        valid_name(r@),
{
    let n: &str = p.name().as_ref();
    n.to_owned()
}

/// A store path, owning its parts. Cloning copies them: no two values share
/// anything.
#[derive(Debug)]
pub struct StorePath {
    hash: [u8; 20],
    name: String,
}

impl View for StorePath {
    type V = StorePathView;

    closed spec fn view(&self) -> StorePathView {
        StorePathView { hash: self.hash@, name: self.name@ }
    }
}

impl StorePath {
    /// The hash has 20 bytes and the name is valid.
    pub closed spec fn wf(&self) -> bool {
        self.hash@.len() == STORE_PATH_HASH_SIZE && valid_name(self.name@)
    }

    /// Makes the store path of a hash and a name; fails where the name is
    /// not a valid store path name.
    pub fn from_parts(hash: &[u8; 20], name: &str) -> (r: Result<StorePath, Error>)
        ensures
            r is Ok <==> valid_name(name@),
            r matches Ok(p) ==> p.wf() && path_from_parts(hash@, name@) == Some(p@),
    {
        if parse_name(name).is_some() {
            let p = StorePath { hash: *hash, name: name.to_owned() };
            assert(p@ == StorePathView { hash: hash@, name: name@ });
            Ok(p)
        } else {
            Err(Error::with_detail("invalid store path name: ", name))
        }
    }

    /// The store path with the hash and name of a harmonia store path.
    pub fn from_harmonia(harmonia_path: &HarmoniaPath) -> (r: Result<
        StorePath,
        Error,
    >)
        ensures
            r matches Ok(p) && p.wf(),
    {
        let hash = harmonia_hash(harmonia_path);
        let name = harmonia_name(harmonia_path);
        StorePath::from_parts(&hash, name.as_str())
    }

    /// The harmonia store path with this path's hash and name; fails only
    /// where the name is not valid, which no well-formed path has.
    pub fn to_harmonia(&self) -> (r: Result<HarmoniaPath, Error>)
        ensures
            r is Ok <==> valid_name(self@.name),
    {
        match parse_name(self.name.as_str()) {
            Some(name) => Ok(harmonia_path_of(harmonia_hash_of(self.hash), name)),
            None => Err(Error::with_detail("invalid store path name: ", self.name.as_str())),
        }
    }

    /// The name of the store path: for `/nix/store/<hash>-foo-1.2` it is
    /// `foo-1.2`.
    pub fn name(&self) -> (r: Result<String, Error>)
        ensures
            r matches Ok(s) && s@ == self@.name,
    {
        Ok(self.name.clone())
    }

    /// The hash part of the store path, as its 20 raw bytes.
    pub fn hash(&self) -> (r: Result<[u8; 20], Error>)
        ensures
            r matches Ok(h) && h@ == self@.hash,
    {
        Ok(self.hash)
    }

    /// An independent copy of this store path.
    pub fn duplicate(&self) -> (r: StorePath)
        ensures
            r@ == self@,
            self.wf() ==> r.wf(),
    {
        StorePath { hash: self.hash, name: self.name.clone() }
    }
}

impl Clone for StorePath {
    fn clone(&self) -> (r: StorePath)
        ensures
            r@ == self@,
    {
        self.duplicate()
    }
}

/// For every 20-byte hash and valid name, the store path made of them gives
/// back exactly that hash and that name.
pub proof fn lemma_from_parts_round_trip(hash: Seq<u8>, name: Seq<char>)
    requires
        hash.len() == STORE_PATH_HASH_SIZE,
        valid_name(name),
    ensures
        path_from_parts(hash, name) is Some,
        path_from_parts(hash, name)->Some_0.hash == hash,
        path_from_parts(hash, name)->Some_0.name == name,
{
}

} // verus!
