//! The signed envelope: a manifest together with a signature over its
//! canonical encoding and the verifying key, and the form in which the
//! three are embedded in a published document.

use crate::canonical::{
    append_json_string, append_manifest, append_text, canonical_encoding, encode, json_string,
};
use crate::crypto_utils::{
    base64_bytes, base64_encode, base64_text, ed25519_public_key, ed25519_signature, key_of, sign,
    signed_by, verifying_key_of, CryptoError, SIGNING_KEY_LENGTH,
};
use crate::manifest::{ManifestData, ManifestView};
use crate::round_trip::{lemma_sealed_envelope_verifies, verifies};
use vstd::prelude::*;
use vstd::string::StringSliceAdditionalSpecFns;

verus! {

/// A manifest with its signature and the key to check it, both in Base64.
/// This is the unit that is embedded and later verified.
#[derive(Debug, PartialEq, Eq)]
pub struct SignedEnvelope {
    pub manifest: ManifestData,
    pub signature: String,
    pub public_key: String,
}

/// The mathematical value of a `SignedEnvelope`.
pub struct EnvelopeView {
    pub manifest: ManifestView,
    pub signature: Seq<char>,
    pub public_key: Seq<char>,
}

impl View for SignedEnvelope {
    type V = EnvelopeView;

    open spec fn view(&self) -> EnvelopeView {
        EnvelopeView {
            manifest: self.manifest@,
            signature: self.signature@,
            public_key: self.public_key@,
        }
    }
}

/// The envelope that sealing a manifest with a signing key gives.
pub open spec fn sealed(manifest: ManifestView, signing_key: Seq<u8>) -> EnvelopeView {
    EnvelopeView {
        manifest,
        signature: base64_text(ed25519_signature(signing_key, canonical_encoding(manifest))),
        public_key: base64_text(ed25519_public_key(signing_key)),
    }
}

/// The envelope carries a signature over the canonical encoding of its
/// manifest that verification accepts under the key it carries, and that
/// key is the verifying key of `signing_key`.
pub open spec fn sealed_by(envelope: EnvelopeView, signing_key: Seq<u8>) -> bool {
    &&& base64_bytes(envelope.signature) matches Some(signature)
    &&& signed_by(canonical_encoding(envelope.manifest), signature, signing_key)
    &&& base64_bytes(envelope.public_key) matches Some(key)
    &&& key_of(key, signing_key)
}

/// The JSON text of an envelope.
pub open spec fn envelope_text(envelope: EnvelopeView) -> Seq<u8> {
    "{\"manifest\":".spec_bytes() + canonical_encoding(envelope.manifest)
        + ",\"signature\":".spec_bytes() + json_string(envelope.signature)
        + ",\"public_key\":".spec_bytes() + json_string(envelope.public_key) + "}".spec_bytes()
}

/// The element that carries an envelope in a published document.
pub open spec fn embedded(envelope: EnvelopeView) -> Seq<u8> {
    "<script type=\"application/json\" id=\"sonnun-manifest\">".spec_bytes() + envelope_text(
        envelope,
    ) + "</script>".spec_bytes()
}

/// The contents of a sealing result.
pub open spec fn envelope_result(r: Result<SignedEnvelope, CryptoError>) -> Result<
    EnvelopeView,
    CryptoError,
> {
    match r {
        Ok(envelope) => Ok(envelope@),
        Err(e) => Err(e),
    }
}

impl SignedEnvelope {
    /// Seals a manifest: encodes it canonically, signs the encoding with the
    /// 32-byte signing key and puts manifest, signature and verifying key
    /// together. Fails only on a key of the wrong length.
    pub fn seal(manifest: ManifestData, signing_key: &[u8]) -> (r: Result<
        SignedEnvelope,
        CryptoError,
    >)
        ensures
            envelope_result(r) == if signing_key@.len() == SIGNING_KEY_LENGTH {
                Ok::<EnvelopeView, CryptoError>(sealed(manifest@, signing_key@))
            } else {
                Err::<EnvelopeView, CryptoError>(CryptoError::InvalidPrivateKeyLength)
            },
            r matches Ok(envelope) ==> sealed_by(envelope@, signing_key@),
            r matches Ok(envelope) ==> verifies(envelope@),
    {
        // every share is known to lie in range
        let _human: u32 = manifest.human_percentage.millionths();
        let _ai: u32 = manifest.ai_percentage.millionths();
        let _cited: u32 = manifest.cited_percentage.millionths();
        let key = match verifying_key_of(signing_key) {
            Ok(key) => key,
            Err(e) => { return Err(e); },
        };
        let canonical = encode(&manifest);
        proof {
            crate::verification::lemma_encoding_not_empty(manifest@);
        }
        let signature = match sign(canonical.as_slice(), signing_key) {
            Ok(signature) => signature,
            Err(e) => { return Err(e); },
        };
        let envelope = SignedEnvelope {
            manifest,
            signature: base64_encode(signature.as_slice()),
            public_key: base64_encode(key.as_slice()),
        };
        proof {
            assert forall|i: int| 0 <= i < envelope@.manifest.events.len() implies (
            #[trigger] envelope@.manifest.events[i]).span_length <= usize::MAX by {
                assert(envelope@.manifest.events[i] == envelope.manifest.events[i]@);
            }
            lemma_sealed_envelope_verifies(envelope@, signing_key@);
        }
        Ok(envelope)
    }

    /// The JSON text of the envelope.
    pub fn to_json(&self) -> (text: Vec<u8>)
        ensures
            text@ == envelope_text(self@),
    {
        let mut out: Vec<u8> = Vec::new();
        append_text(&mut out, "{\"manifest\":");
        proof {
            assert(out@ =~= "{\"manifest\":".spec_bytes());
        }
        append_manifest(&mut out, &self.manifest);
        append_text(&mut out, ",\"signature\":");
        append_json_string(&mut out, self.signature.as_str());
        append_text(&mut out, ",\"public_key\":");
        append_json_string(&mut out, self.public_key.as_str());
        append_text(&mut out, "}");
        out
    }

    /// The element to put into a published document: the JSON text of the
    /// envelope inside a marked `script` element.
    pub fn embed(&self) -> (element: Vec<u8>)
        ensures
            element@ == embedded(self@),
    {
        let mut out: Vec<u8> = Vec::new();
        append_text(&mut out, "<script type=\"application/json\" id=\"sonnun-manifest\">");
        proof {
            assert(out@ =~= "<script type=\"application/json\" id=\"sonnun-manifest\">"
                .spec_bytes());
        }
        let json = self.to_json();
        out.extend_from_slice(json.as_slice());
        append_text(&mut out, "</script>");
        out
    }
}

} // verus!
