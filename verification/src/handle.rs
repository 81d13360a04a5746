//! Stateless edit handles.
//!
//! A handle binds what an edit needs to verify that it still addresses what
//! the agent read: workspace root, path, file hash, byte range and target
//! hash. Every component is re-checked at use: a handle can fail an edit
//! (stale), never misbind one.

use vstd::prelude::*;
use vstd::string::*;
use vstd::utf8::{encode_utf8, is_ascii_chars, is_ascii_chars_encode_utf8};
use crate::base64url;
use crate::hash::{sha256_hex, sha256_hex_spec};
use crate::text::chars_of;

verus! {

broadcast use vstd::string::group_string_axioms;

/// Prefix of the opaque token form of a handle.
pub const HANDLE_PREFIX: &'static str = "geh1:";

/// Why a handle could not be built, read, or honoured.
#[derive(Debug, Clone, PartialEq, Eq)]
pub enum HandleError {
    /// The byte range does not lie inside the file.
    RangeOutsideFile { byte_start: usize, byte_end: usize, file_len: usize },
    /// The token does not start with the handle prefix.
    NotAHandle,
    /// The token body is not valid base64url.
    InvalidBase64,
    /// The file changed since the handle was issued.
    StaleFile,
    /// The range no longer lies inside the file.
    StaleRange,
    /// The addressed bytes changed.
    StaleTarget,
}

/// A handle on a byte range of a file.
#[derive(Debug, Clone)]
pub struct EditHandle {
    pub workspace_root: String,
    pub path: String,
    pub file_sha256: String,
    pub byte_start: usize,
    pub byte_end: usize,
    pub target_sha256: String,
    pub signature_fingerprint: Option<String>,
    pub grammar_id: Option<String>,
    pub grammar_version: Option<String>,
}

/// The token text of a handle whose serialized form is `payload`.
pub open spec fn token_spec(payload: Seq<u8>) -> Seq<char> {
    "geh1:"@ + base64url::ascii_chars(base64url::encode_spec(payload))
}

impl EditHandle {
    /// Create a handle for the byte range `[byte_start, byte_end)` of
    /// `content`, or refuse a range outside the content.
    pub fn for_range(
        workspace_root: &str,
        path: &str,
        content: &[u8],
        byte_start: usize,
        byte_end: usize,
    ) -> (r: Result<EditHandle, HandleError>)
        ensures
            byte_end > content@.len() || byte_start > byte_end ==> r == Err::<EditHandle, HandleError>(
                HandleError::RangeOutsideFile { byte_start, byte_end, file_len: content@.len() as usize },
            ),
            byte_end <= content@.len() && byte_start <= byte_end ==> (r matches Ok(h) && {
                &&& h.workspace_root@ == workspace_root@
                &&& h.path@ == path@
                &&& h.file_sha256@ == sha256_hex_spec(content@)
                &&& h.byte_start == byte_start
                &&& h.byte_end == byte_end
                &&& h.target_sha256@ == sha256_hex_spec(content@.subrange(byte_start as int, byte_end as int))
                &&& h.signature_fingerprint is None
                &&& h.grammar_id is None
                &&& h.grammar_version is None
            }),
    {
        if byte_end > content.len() || byte_start > byte_end {
            return Err(HandleError::RangeOutsideFile { byte_start, byte_end, file_len: content.len() });
        }
        let target = &content[byte_start..byte_end];
        Ok(EditHandle {
            workspace_root: workspace_root.to_owned(),
            path: path.to_owned(),
            file_sha256: sha256_hex(content),
            byte_start,
            byte_end,
            target_sha256: sha256_hex(target),
            signature_fingerprint: None,
            grammar_id: None,
            grammar_version: None,
        })
    }

    /// The opaque token of a handle: the prefix followed by the base64url
    /// encoding of its serialized form `payload`.
    pub fn encode(payload: &[u8]) -> (token: String)
        ensures
            token@ == token_spec(payload@),
    {
        let mut token = HANDLE_PREFIX.to_owned();
        proof {
            reveal_strlit("geh1:");
        }
        let body = base64url::encode(payload);
        token.append(body.as_str());
        token
    }

    /// The serialized handle carried by a token: refuses a token without the
    /// prefix and a body that is not base64url.
    pub fn decode_payload(token: &str) -> (r: Result<Vec<u8>, HandleError>)
        ensures
            !(token@.len() >= 5 && token@.take(5) == "geh1:"@) ==> r == Err::<Vec<u8>, HandleError>(
                HandleError::NotAHandle,
            ),
            token@.len() >= 5 && token@.take(5) == "geh1:"@ ==> match base64url::decode_spec(
                encode_utf8(token@.skip(5)),
            ) {
                Some(d) => r matches Ok(v) && v@ == d,
                None => r == Err::<Vec<u8>, HandleError>(HandleError::InvalidBase64),
            },
    {
        proof {
            reveal_strlit("geh1:");
        }
        let chars = chars_of(token);
        let n = chars.len();
        if n < 5 || chars[0] != 'g' || chars[1] != 'e' || chars[2] != 'h' || chars[3] != '1'
            || chars[4] != ':' {
            proof {
                if token@.len() >= 5 && token@.take(5) == "geh1:"@ {
                    assert(token@.take(5)[0] == 'g');
                    assert(token@.take(5)[1] == 'e');
                    assert(token@.take(5)[2] == 'h');
                    assert(token@.take(5)[3] == '1');
                    assert(token@.take(5)[4] == ':');
                }
            }
            return Err(HandleError::NotAHandle);
        }
        assert(token@.take(5) =~= "geh1:"@);
        let body = token.substring_char(5, n);
        assert(body.spec_bytes() == encode_utf8(token@.skip(5)));
        match base64url::decode(body) {
            Some(bytes) => Ok(bytes),
            None => Err(HandleError::InvalidBase64),
        }
    }

    /// Verify the handle against live file content: the live file must hash
    /// to the handle's file hash, the range must lie inside it, and the
    /// addressed bytes must hash to the handle's target hash. Returns the
    /// range on success; a mismatch is a stale handle, and so is a range
    /// that starts after it ends.
    pub fn verify(&self, live_content: &[u8]) -> (r: Result<(usize, usize), HandleError>)
        ensures
            sha256_hex_spec(live_content@) != self.file_sha256@ ==> r == Err::<(usize, usize), HandleError>(
                HandleError::StaleFile,
            ),
            sha256_hex_spec(live_content@) == self.file_sha256@ && (self.byte_start > self.byte_end
                || self.byte_end > live_content@.len()) ==> r == Err::<(usize, usize), HandleError>(
                HandleError::StaleRange,
            ),
            sha256_hex_spec(live_content@) == self.file_sha256@ && self.byte_start <= self.byte_end
                && self.byte_end <= live_content@.len() ==> (if sha256_hex_spec(
                live_content@.subrange(self.byte_start as int, self.byte_end as int),
            ) == self.target_sha256@ {
                r == Ok::<(usize, usize), HandleError>((self.byte_start, self.byte_end))
            } else {
                r == Err::<(usize, usize), HandleError>(HandleError::StaleTarget)
            }),
    {
        let live_hash = sha256_hex(live_content);
        if live_hash != self.file_sha256 {
            return Err(HandleError::StaleFile);
        }
        if self.byte_start > self.byte_end || self.byte_end > live_content.len() {
            return Err(HandleError::StaleRange);
        }
        let target = &live_content[self.byte_start..self.byte_end];
        let target_hash = sha256_hex(target);
        if target_hash != self.target_sha256 {
            return Err(HandleError::StaleTarget);
        }
        Ok((self.byte_start, self.byte_end))
    }
}

/// Reading the payload back out of a token gives what was encoded: the token
/// starts with the prefix, and its body decodes to the payload.
pub proof fn lemma_token_round_trip(payload: Seq<u8>)
    ensures
        token_spec(payload).len() >= 5,
        token_spec(payload).take(5) == "geh1:"@,
        base64url::decode_spec(encode_utf8(token_spec(payload).skip(5))) == Some(payload),
{
    reveal_strlit("geh1:");
    let e = base64url::encode_spec(payload);
    let chars = base64url::ascii_chars(e);
    let t = token_spec(payload);
    assert(t.take(5) =~= "geh1:"@);
    assert(t.skip(5) =~= chars);
    base64url::lemma_encoding_is_ascii(payload);
    assert(is_ascii_chars(chars)) by {
        assert forall|i: int| 0 <= i < chars.len() implies '\0' <= #[trigger] chars[i] <= '\u{7f}' by {
            assert(e[i] < 128);
        }
    }
    is_ascii_chars_encode_utf8(chars);
    assert(encode_utf8(chars) =~= e);
    base64url::lemma_decode_encode_round_trip(payload);
}

} // verus!
