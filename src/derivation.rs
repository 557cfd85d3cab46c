//! Derivations: build recipes, held and exchanged as derivation JSON, which
//! harmonia's derivation type reads and writes.
use vstd::prelude::*;

use crate::context::{c_string_ok, check_c_string, Error};
use crate::registry::Store;
use harmonia_store_core::derivation::Derivation as HarmoniaDerivation;
use harmonia_store_core::derivation::DerivationT;
use harmonia_store_core::derived_path::SingleDerivedPath;

verus! {

#[verifier::external_type_specification]
#[verifier::external_body]
#[verifier::reject_recursive_types(Inputs)]
pub struct ExDerivationT<Inputs>(DerivationT<Inputs>);

#[verifier::external_type_specification]
#[verifier::external_body]
pub struct ExSingleDerivedPath(SingleDerivedPath);

/// Whether serde_json's `from_str` reads `json` as a harmonia derivation: a
/// function of the text alone.
pub uninterp spec fn reads_as_derivation(json: Seq<char>) -> bool;

/// Relies on serde_json's `from_str` with harmonia_store_core's
/// `Deserialize` for `Derivation`: it reads derivation JSON, or fails, and
/// which of the two depends on the text alone.
#[verifier::external_body]
fn parse_json(json: &str) -> (r: Option<HarmoniaDerivation>)
    ensures
        r is Some <==> reads_as_derivation(json@),
{
    serde_json::from_str::<HarmoniaDerivation>(json).ok()
}

/// Relies on serde_json's `to_string` with harmonia_store_core's `Serialize`
/// for `Derivation`: it writes derivation JSON, or fails.
#[verifier::external_body]
fn write_json(drv: &HarmoniaDerivation) -> Option<String> {
    serde_json::to_string(drv).ok()
}

/// A derivation, exclusively owned, held as the derivation JSON it was read
/// from. Cloning makes an independent copy.
pub struct Derivation {
    json: String,
}

impl View for Derivation {
    type V = Seq<char>;

    closed spec fn view(&self) -> Seq<char> {
        self.json@
    }
}

impl Derivation {
    /// The JSON text can be passed as a C string and reads as a derivation:
    /// what every derivation this library hands out satisfies.
    pub open spec fn wf(&self) -> bool {
        c_string_ok(self@) && reads_as_derivation(self@)
    }

    /// The derivation as derivation JSON.
    pub fn to_json(&self) -> (r: Result<String, Error>)
        ensures
            r matches Ok(s) && s@ == self@,
    {
        Ok(self.json.clone())
    }

    /// The derivation that a harmonia derivation describes, passed through its
    /// JSON form and read back through `store`.
    pub fn from_harmonia(store: &Store, harmonia_drv: &HarmoniaDerivation) -> (r: Result<
        Derivation,
        Error,
    >)
        ensures
            r matches Ok(d) ==> d.wf(),
    {
        match write_json(harmonia_drv) {
            Some(json) => store.derivation_from_json(json.as_str()),
            None => Err(Error::new("failed to write harmonia derivation as JSON")),
        }
    }

    /// The harmonia derivation that this derivation's JSON describes.
    pub fn to_harmonia(&self) -> (r: Result<HarmoniaDerivation, Error>)
        ensures
            r is Ok <==> reads_as_derivation(self@),
    {
        match parse_json(self.json.as_str()) {
            Some(d) => Ok(d),
            None => Err(Error::new("failed to read derivation JSON as a harmonia derivation")),
        }
    }

    /// An independent copy of this derivation.
    pub fn duplicate(&self) -> (r: Derivation)
        ensures
            r@ == self@,
            self.wf() ==> r.wf(),
    {
        Derivation { json: self.json.clone() }
    }
}

/// The derivation that a harmonia derivation describes, read through
/// `store`: the free-standing form of `Derivation::from_harmonia`.
pub fn harmonia_derivation_to_nix(store: &Store, harmonia_drv: &HarmoniaDerivation) -> (r: Result<
    Derivation,
    Error,
>)
    ensures
        r matches Ok(d) ==> d.wf(),
{
    Derivation::from_harmonia(store, harmonia_drv)
}

impl Clone for Derivation {
    fn clone(&self) -> (r: Derivation)
        ensures
            r@ == self@,
    {
        self.duplicate()
    }
}

impl Store {
    /// Reads a derivation from derivation JSON; fails where the text holds a
    /// NUL character, which is checked first, or is not JSON, or does not
    /// describe a derivation. The derivation keeps the text it was read from,
    /// and is not added to the store.
    pub fn derivation_from_json(&self, json: &str) -> (r: Result<Derivation, Error>)
        ensures
            r is Ok <==> c_string_ok(json@) && reads_as_derivation(json@),
            r matches Ok(d) ==> d@ == json@ && d.wf(),
    {
        check_c_string(json)?;
        match parse_json(json) {
            Some(_) => Ok(Derivation { json: json.to_owned() }),
            None => Err(Error::new("invalid derivation JSON")),
        }
    }
}

/// Reading a derivation's own JSON back succeeds and gives a derivation equal
/// to it: the same derivation JSON, hence the same fields.
pub proof fn lemma_own_json_reads_back(d: Derivation)
    requires
        d.wf(),
    ensures
        c_string_ok(d@),
        reads_as_derivation(d@),
{
}

} // verus!
