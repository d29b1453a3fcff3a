//! The SSPI Negotiate handshake and the sealed frames that follow it. The
//! security package itself is called by the application; here is what its
//! answers mean and how sealed frames are laid out.

use crate::protocol::error::{is_protocol, is_sspi, protocol_error, sspi_error, Error};
use crate::text::{
    decimal, encode_utf16, hex_upper, push_decimal, push_hex_upper, push_text, utf16,
};
use crate::wire::{bytes16, le16_at, lemma_bytes16, push_slice, push_u16, u16_at};
use vstd::prelude::*;

verus! {

// Status codes of the security package.
pub const SEC_E_OK: i32 = 0;

pub const SEC_I_CONTINUE_NEEDED: i32 = 0x00090312;

pub const SEC_I_COMPLETE_NEEDED: i32 = 0x00090313;

pub const SEC_I_COMPLETE_AND_CONTINUE: i32 = 0x00090314;

/// Granted context attributes: messages are encrypted, the server is proved.
pub const ISC_RET_CONFIDENTIALITY: u32 = 0x0000_0010;

pub const ISC_RET_MUTUAL_AUTH: u32 = 0x0000_0002;

/// Quality of protection of a message that was signed but not encrypted.
pub const SECQOP_WRAP_NO_ENCRYPT: u32 = 0x8000_0001;

/// Builds the SPN to use for Kerberos auth.
pub fn build_spn(target_host: &str) -> (r: String)
    ensures
        r@ == "TERMSRV/"@ + target_host@,
{
    let mut s = String::new();
    push_text(&mut s, "TERMSRV/");
    push_text(&mut s, target_host);
    assert(s@ =~= "TERMSRV/"@ + target_host@);
    s
}

/// Null-terminated UTF-16.
pub fn wide_nul(s: &str) -> (r: Vec<u16>)
    ensures
        r@ == utf16(s@).push(0),
{
    let mut v: Vec<u16> = encode_utf16(s);
    v.push(0);
    v
}

/// Per-message sizes of the security package after the handshake, needed for
/// sizing the buffers of sealed messages.
#[derive(Debug, Clone, Copy)]
pub struct MessageSizes {
    pub cb_max_token: u32,
    pub cb_max_signature: u32,
    pub cb_block_size: u32,
    pub cb_security_trailer: u32,
}

/// One round-trip of the SSPI handshake.
#[derive(Debug)]
pub struct HandshakeStep {
    pub output: Vec<u8>,
    pub done: bool,
}

/// A failed call and its status code: `<call> failed: 0x<code>`.
pub open spec fn failure_text(call: Seq<char>, status: i32) -> Seq<char> {
    call + " failed: 0x"@ + hex_upper(status as u32 as nat, 8)
}

fn failure(call: &str, status: i32) -> (e: Error)
    ensures
        is_sspi(e, failure_text(call@, status)),
{
    let mut s = String::new();
    push_text(&mut s, call);
    push_text(&mut s, " failed: 0x");
    push_hex_upper(&mut s, status as u32 as u64, 8);
    assert(s@ =~= failure_text(call@, status));
    Error::Sspi(s)
}

/// An error for a call that did not return success.
pub fn call_outcome(call: &str, status: i32) -> (r: Result<(), Error>)
    ensures
        match r {
            Ok(()) => status == SEC_E_OK,
            Err(e) => status != SEC_E_OK && is_sspi(e, failure_text(call@, status)),
        },
{
    if status == SEC_E_OK {
        Ok(())
    } else {
        Err(failure(call, status))
    }
}

/// Whether the token of this step has to be completed before it is sent.
pub fn completion_needed(status: i32) -> (r: bool)
    ensures
        r == (status == SEC_I_COMPLETE_NEEDED || status == SEC_I_COMPLETE_AND_CONTINUE),
{
    status == SEC_I_COMPLETE_AND_CONTINUE || status == SEC_I_COMPLETE_NEEDED
}

/// What one call of the security package means for the handshake. `completion`
/// is the status of completing the token, where that was needed.
pub fn step_outcome(status: i32, completion: Option<i32>, output: Vec<u8>) -> (r: Result<
    HandshakeStep,
    Error,
>)
    ensures
        match r {
            Ok(step) => {
                &&& completion matches Some(c) ==> c == SEC_E_OK
                &&& step.output@ == output@
                &&& step.done == (status == SEC_E_OK || status == SEC_I_COMPLETE_NEEDED)
                &&& !step.done ==> status == SEC_I_CONTINUE_NEEDED || status
                    == SEC_I_COMPLETE_AND_CONTINUE
            },
            Err(e) => match completion {
                Some(c) if c != SEC_E_OK => is_sspi(e, failure_text("CompleteAuthToken"@, c)),
                _ => status != SEC_E_OK && status != SEC_I_COMPLETE_NEEDED && status
                    != SEC_I_CONTINUE_NEEDED && status != SEC_I_COMPLETE_AND_CONTINUE && is_sspi(
                    e,
                    failure_text("InitializeSecurityContextW"@, status),
                ),
            },
        },
{
    if let Some(c) = completion {
        call_outcome("CompleteAuthToken", c)?;
    }
    if status == SEC_E_OK || status == SEC_I_COMPLETE_NEEDED {
        Ok(HandshakeStep { output, done: true })
    } else if status == SEC_I_CONTINUE_NEEDED || status == SEC_I_COMPLETE_AND_CONTINUE {
        Ok(HandshakeStep { output, done: false })
    } else {
        Err(failure("InitializeSecurityContextW", status))
    }
}

/// Whether the negotiated context encrypts messages (confidentiality).
pub fn confidentiality(context_attr: u32) -> (r: bool)
    ensures
        r == (context_attr & ISC_RET_CONFIDENTIALITY != 0),
{
    context_attr & ISC_RET_CONFIDENTIALITY != 0
}

/// Whether the server's identity was mutually authenticated (Kerberos proves
/// the server holds the service key for the SPN).
pub fn mutual_auth(context_attr: u32) -> (r: bool)
    ensures
        r == (context_attr & ISC_RET_MUTUAL_AUTH != 0),
{
    context_attr & ISC_RET_MUTUAL_AUTH != 0
}

/// The body of a sealed frame:
/// `[u16 LE data_len][encrypted data][u16 LE token_len][wrap token]`.
pub open spec fn sealed_body(data: Seq<u8>, token: Seq<u8>) -> Seq<u8> {
    bytes16(data.len() as u16) + data + bytes16(token.len() as u16) + token
}

pub open spec fn too_long_text(data_len: nat, token_len: nat) -> Seq<char> {
    "sealed frame exceeds u16 length prefix: data="@ + decimal(data_len) + " token="@ + decimal(
        token_len,
    )
}

/// Lay out the encrypted data and the token of a sealed message. Each part has a
/// 16-bit length; a longer one is an error instead of a corrupt frame.
pub fn seal_frame(data: &[u8], token: &[u8]) -> (r: Result<Vec<u8>, Error>)
    ensures
        match r {
            Ok(v) => data@.len() <= 0xffff && token@.len() <= 0xffff && v@ == sealed_body(
                data@,
                token@,
            ),
            Err(e) => (data@.len() > 0xffff || token@.len() > 0xffff) && is_protocol(
                e,
                too_long_text(data@.len(), token@.len()),
            ),
        },
{
    if data.len() > 0xffff || token.len() > 0xffff {
        let mut s = String::new();
        push_text(&mut s, "sealed frame exceeds u16 length prefix: data=");
        push_decimal(&mut s, data.len() as u64);
        push_text(&mut s, " token=");
        push_decimal(&mut s, token.len() as u64);
        assert(s@ =~= too_long_text(data@.len(), token@.len()));
        return Err(Error::Protocol(s));
    }
    let mut out: Vec<u8> = Vec::new();
    push_u16(&mut out, data.len() as u16);
    push_slice(&mut out, data);
    push_u16(&mut out, token.len() as u16);
    push_slice(&mut out, token);
    assert(out@ =~= sealed_body(data@, token@));
    Ok(out)
}

/// The encrypted data and the token of a sealed frame body, or what is wrong
/// with it.
pub open spec fn sealed_parts(body: Seq<u8>) -> Result<(Seq<u8>, Seq<u8>), Seq<char>> {
    if body.len() < 4 {
        Err("sealed frame too short"@)
    } else {
        let data_len = le16_at(body, 0);
        if 2 + data_len + 2 > body.len() {
            Err("sealed frame: bad data_len"@)
        } else {
            let token_len = le16_at(body, 2 + data_len);
            if 4 + data_len + token_len > body.len() {
                Err("sealed frame: bad token_len"@)
            } else {
                Ok(
                    (
                        body.subrange(2, 2 + data_len),
                        body.subrange(4 + data_len, 4 + data_len + token_len),
                    ),
                )
            }
        }
    }
}

/// Take a sealed frame body apart into the encrypted data and the token.
pub fn split_sealed(body: &[u8]) -> (r: Result<(Vec<u8>, Vec<u8>), Error>)
    ensures
        match r {
            Ok((data, token)) => sealed_parts(body@) == Ok::<(Seq<u8>, Seq<u8>), Seq<char>>(
                (data@, token@),
            ),
            Err(e) => sealed_parts(body@) matches Err(why) && is_protocol(e, why),
        },
{
    if body.len() < 4 {
        return Err(protocol_error("sealed frame too short"));
    }
    let data_len: usize = u16_at(body, 0) as usize;
    if body.len() - 2 < data_len + 2 {
        return Err(protocol_error("sealed frame: bad data_len"));
    }
    let token_len: usize = u16_at(body, 2 + data_len) as usize;
    let token_off: usize = 4 + data_len;
    if body.len() - token_off < token_len {
        return Err(protocol_error("sealed frame: bad token_len"));
    }
    let data: &[u8] = vstd::slice::slice_subrange(body, 2, 2 + data_len);
    let token: &[u8] = vstd::slice::slice_subrange(body, token_off, token_off + token_len);
    Ok((vstd::slice::slice_to_vec(data), vstd::slice::slice_to_vec(token)))
}

/// Taking a sealed frame apart gives back what it was laid out from.
pub proof fn law_sealed_round_trip(data: Seq<u8>, token: Seq<u8>)
    requires
        data.len() <= 0xffff,
        token.len() <= 0xffff,
    ensures
        sealed_parts(sealed_body(data, token)) == Ok::<(Seq<u8>, Seq<u8>), Seq<char>>(
            (data, token),
        ),
{
    let body = sealed_body(data, token);
    let d = bytes16(data.len() as u16);
    let t = bytes16(token.len() as u16);
    let n = data.len() as int;
    assert(d.len() == 2 && t.len() == 2);
    assert(body[0] == d[0] && body[1] == d[1]);
    assert(body[2 + n] == t[0] && body[3 + n] == t[1]);
    assert(le16_at(body, 0) == data.len()) by {
        lemma_bytes16(data.len() as u16);
    }
    assert(le16_at(body, 2 + n) == token.len()) by {
        lemma_bytes16(token.len() as u16);
    }
    assert(body.subrange(2, 2 + n) =~= data);
    assert(body.subrange(4 + n, 4 + n + token.len()) =~= token);
}

/// What decrypting a sealed message means: its status, the quality of protection
/// and the decrypted bytes. A message that was only signed is refused: the
/// channel is confidential.
pub fn unseal_outcome(status: i32, qop: u32, plain: &[u8]) -> (r: Result<Vec<u8>, Error>)
    ensures
        match r {
            Ok(v) => status == SEC_E_OK && qop != SECQOP_WRAP_NO_ENCRYPT && v@ == plain@,
            Err(e) => if status != SEC_E_OK {
                is_sspi(e, failure_text("DecryptMessage"@, status))
            } else {
                qop == SECQOP_WRAP_NO_ENCRYPT && is_sspi(
                    e,
                    "unsealed frame was not encrypted (QOP no-encrypt)"@,
                )
            },
        },
{
    call_outcome("DecryptMessage", status)?;
    if qop == SECQOP_WRAP_NO_ENCRYPT {
        return Err(sspi_error("unsealed frame was not encrypted (QOP no-encrypt)"));
    }
    Ok(vstd::slice::slice_to_vec(plain))
}

/// What encrypting a message means: its status, and the parts to lay out.
pub fn seal_outcome(status: i32, data: &[u8], token: &[u8]) -> (r: Result<Vec<u8>, Error>)
    ensures
        match r {
            Ok(v) => status == SEC_E_OK && data@.len() <= 0xffff && token@.len() <= 0xffff && v@
                == sealed_body(data@, token@),
            Err(e) => if status != SEC_E_OK {
                is_sspi(e, failure_text("EncryptMessage"@, status))
            } else {
                (data@.len() > 0xffff || token@.len() > 0xffff) && is_protocol(
                    e,
                    too_long_text(data@.len(), token@.len()),
                )
            },
        },
{
    call_outcome("EncryptMessage", status)?;
    seal_frame(data, token)
}

} // verus!
