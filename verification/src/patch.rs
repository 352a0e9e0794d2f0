//! VCDIFF patches: a delta that turns a source into a target, made and
//! applied with `oxidelta`.
use vstd::prelude::*;
use crate::rsb_patch::RsbPatchError;

verus! {

#[verifier::external_type_specification]
#[verifier::external_body]
pub struct ExEncodeError(oxidelta::compress::encoder::EncodeError);

#[verifier::external_type_specification]
#[verifier::external_body]
pub struct ExDecodeError(oxidelta::vcdiff::decoder::DecodeError);

/// Errors of making or applying patches.
#[derive(Debug)]
pub enum PatchError {
    /// The VCDIFF codec failed, with its message.
    VCDiff(String),
    RsbPatch(RsbPatchError),
}

/// The delta `oxidelta` writes, at its default options, for `target`
/// against `source`.
pub uninterp spec fn vcdiff_delta(source: Seq<u8>, target: Seq<u8>) -> Seq<u8>;

/// The target `oxidelta` rebuilds from `source` and `delta`.
pub uninterp spec fn vcdiff_target(source: Seq<u8>, delta: Seq<u8>) -> Seq<u8>;

/// Whether `d` starts with the VCDIFF magic and version `D6 C3 C4 00`.
pub open spec fn has_vcdiff_magic(d: Seq<u8>) -> bool {
    d.len() >= 4 && d[0] == 0xD6 && d[1] == 0xC3 && d[2] == 0xC4 && d[3] == 0x00
}

/// `oxidelta::compress::encoder::encode_all` into a fresh buffer with the
/// default options: the buffer holds the named delta. Its only error is one
/// of the writer, which a `Vec` never raises, so it always succeeds. The
/// stream starts with the file header: the VCDIFF magic and a header
/// indicator byte.
#[verifier::external_body]
fn vcdiff_encode(source: &[u8], target: &[u8]) -> (res: Result<Vec<u8>, oxidelta::compress::encoder::EncodeError>)
    ensures
        res is Ok,
        res matches Ok(d) ==> d@ == vcdiff_delta(source@, target@),
        res matches Ok(d) ==> has_vcdiff_magic(d@) && d@.len() >= 5,
{
    oxidelta::compress::encoder::encode_all(
        Vec::new(),
        source,
        target,
        oxidelta::compress::encoder::CompressOptions::default(),
    )
}

/// `oxidelta::compress::decoder::decode_all`: on success the named target;
/// a delta that `encode_all` made for some target against this source
/// decodes to that target, as the crate's own tests show. The decoder does
/// not bound what a crafted window header asks for (a copy window past the
/// end of the source, a target length that cannot be reserved) and panics
/// on such deltas, so of the deltas that start with the VCDIFF magic only
/// those made by `encode_all` against this source are handed to it. It
/// reads the file header first and refuses, without going further, bytes
/// that do not start with the magic and version.
#[verifier::external_body]
fn vcdiff_decode(source: &[u8], delta: &[u8]) -> (res: Result<Vec<u8>, oxidelta::vcdiff::decoder::DecodeError>)
    requires
        has_vcdiff_magic(delta@) ==> exists|t: Seq<u8>| delta@ == #[trigger] vcdiff_delta(source@, t),
    ensures
        !has_vcdiff_magic(delta@) ==> res is Err,
        res matches Ok(out) ==> out@ == vcdiff_target(source@, delta@)
            && forall|t: Seq<u8>| delta@ == #[trigger] vcdiff_delta(source@, t) ==> out@ == t,
        res is Err ==> forall|t: Seq<u8>| delta@ != #[trigger] vcdiff_delta(source@, t),
{
    oxidelta::compress::decoder::decode_all(source, delta)
}

/// The `Debug` text of an encoding error.
#[verifier::external_body]
fn encode_error_text(e: &oxidelta::compress::encoder::EncodeError) -> String {
    format!("{:?}", e)
}

/// The `Debug` text of a decoding error.
#[verifier::external_body]
fn decode_error_text(e: &oxidelta::vcdiff::decoder::DecodeError) -> String {
    format!("{:?}", e)
}

/// Makes the patch (VCDIFF delta) that turns `source` into `target`.
pub fn encode(source: &[u8], target: &[u8]) -> (res: Result<Vec<u8>, PatchError>)
    ensures
        res matches Ok(d) && d@ == vcdiff_delta(source@, target@) && has_vcdiff_magic(d@) && d@.len() >= 5,
{
    match vcdiff_encode(source, target) {
        Ok(d) => Ok(d),
        Err(e) => {
            let mut m = String::from_str("Encoding failed: ");
            let text = encode_error_text(&e);
            m.append(text.as_str());
            proof {
                reveal_strlit("Encoding failed: ");
                assert(m@.take(17) =~= "Encoding failed: "@);
            }
            Err(PatchError::VCDiff(m))
        },
    }
}

/// Applies a patch that `encode` made against `source`, rebuilding the
/// target it was made for; bytes that do not start with the VCDIFF magic
/// are refused with an error. (The VCDIFF decoder panics on some crafted
/// deltas, so no other patch that starts with the magic is taken.)
pub fn decode(source: &[u8], patch: &[u8]) -> (res: Result<Vec<u8>, PatchError>)
    requires
        has_vcdiff_magic(patch@) ==> exists|t: Seq<u8>| patch@ == #[trigger] vcdiff_delta(source@, t),
    ensures
        !has_vcdiff_magic(patch@) ==> res is Err,
        res matches Ok(t) ==> t@ == vcdiff_target(source@, patch@),
        res matches Err(e) ==> e matches PatchError::VCDiff(m) && m@.take(17) == "Decoding failed: "@,
        forall|t: Seq<u8>| patch@ == #[trigger] vcdiff_delta(source@, t) ==> (res matches Ok(out) && out@ == t),
{
    match vcdiff_decode(source, patch) {
        Ok(t) => Ok(t),
        Err(e) => {
            let mut m = String::from_str("Decoding failed: ");
            let text = decode_error_text(&e);
            m.append(text.as_str());
            proof {
                reveal_strlit("Decoding failed: ");
                assert(m@.take(17) =~= "Decoding failed: "@);
            }
            Err(PatchError::VCDiff(m))
        },
    }
}

/// Makes the patch that turns `source` into `target` and applies it to
/// `source` again, giving the target back together with the patch.
pub fn encode_and_apply(source: &[u8], target: &[u8]) -> (res: Result<(Vec<u8>, Vec<u8>), PatchError>)
    ensures
        res matches Ok((d, t)) && d@ == vcdiff_delta(source@, target@) && t@ == target@,
{
    let d = match encode(source, target) {
        Ok(d) => d,
        Err(e) => return Err(e),
    };
    let t = match decode(source, d.as_slice()) {
        Ok(t) => t,
        Err(e) => return Err(e),
    };
    Ok((d, t))
}

} // verus!
