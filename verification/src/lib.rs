use vstd::prelude::*;

pub mod decode;
pub mod encode;
pub mod laws;
pub mod model;
pub mod normalize;
pub mod text;
pub mod time;

verus! {

use crate::decode::{decode_export, decode_spec};
use crate::encode::{encode_export, export_out, render};
use crate::model::{DecodeError, ExportV};
use crate::normalize::{normalize, normalize_spec, sorted_sessions_desc};

/// Runs the whole pipeline on one input document: decode, then
/// normalize, then encode. The result is `Ok` exactly when `decode_spec`
/// accepts the input text, and the output is then the pretty-printed
/// rendering of the normalized form of the decoded tree, its sessions
/// newest first; on failure the error is the one `decode_spec` gives.
pub fn process(input: &str) -> (r: Result<String, DecodeError>)
    ensures
        r matches Ok(out) ==> decode_spec(input@) matches Ok(e) && out@ == render(
            export_out(normalize_spec(e)),
            0,
        ) && sorted_sessions_desc(normalize_spec(e).sessions),
        r matches Err(err) ==> decode_spec(input@) == Err::<ExportV, DecodeError>(err),
{
    let decoded = match decode_export(input) {
        Ok(e) => e,
        Err(err) => {
            return Err(err);
        },
    };
    let ghost ev = decoded@;
    let norm = normalize(decoded);
    let out = encode_export(&norm);
    proof {
        crate::normalize::lemma_normalize_sorted(ev);
    }
    Ok(out)
}

} // verus!
