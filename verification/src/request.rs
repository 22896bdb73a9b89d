//! The pieces of the outbound request that carry logic: the conversation
//! messages the body is built from, and the authorization header value,
//! which must reject a credential whose characters cannot stand in an HTTP
//! header.
use crate::text::{chars_to_string, str_to_chars};
use vstd::prelude::*;

verus! {

/// One turn of the conversation: a role tag and its text.
#[derive(Debug, Clone)]
pub struct ChatMessage {
    pub role: String,
    pub content: String,
}

impl ChatMessage {
    pub fn new(role: &str, content: &str) -> (r: ChatMessage)
        ensures
            r.role@ == role@,
            r.content@ == content@,
    {
        ChatMessage { role: role.to_owned(), content: content.to_owned() }
    }
}

/// A character acceptable in an HTTP header value: horizontal tab, or any
/// character other than the remaining controls and delete. (Characters
/// above 0x7f encode to bytes that a header value accepts.)
pub open spec fn is_header_value_char(c: char) -> bool {
    c == '\t' || (c as u32 >= 0x20 && c as u32 != 0x7f)
}

/// A credential that can stand in an authorization header.
pub open spec fn credential_ok(s: Seq<char>) -> bool {
    forall|i: int| 0 <= i < s.len() ==> is_header_value_char(s[i])
}

/// The credential holds a character that cannot stand in a header.
#[derive(Debug, PartialEq, Eq, Clone, Copy, Structural)]
pub struct InvalidCredential;

/// Builds the authorization header value for a credential, failing before
/// any request exists when the credential could not form a header value.
pub fn bearer_header(api_key: &str) -> (r: Result<String, InvalidCredential>)
    ensures
        r is Ok <==> credential_ok(api_key@),
        r matches Ok(s) ==> s@ == "Bearer "@ + api_key@,
{
    let key = str_to_chars(api_key);
    let mut i: usize = 0;
    while i < key.len()
        invariant
            0 <= i <= key@.len(),
            key@ == api_key@,
            forall|m: int| 0 <= m < i ==> is_header_value_char(key@[m]),
        decreases key@.len() - i,
    {
        let c = key[i];
        if !(c == '\t' || (c as u32 >= 0x20 && c as u32 != 0x7f)) {
            return Err(InvalidCredential);
        }
        i = i + 1;
    }
    let mut out = str_to_chars("Bearer ");
    let mut tail = str_to_chars(api_key);
    out.append(&mut tail);
    Ok(chars_to_string(out.as_slice()))
}

} // verus!
