//! Layouts of the on-chain accounts and instructions.
//!
//! An account's data is an 8-byte discriminator followed by the layout of
//! the record it holds.
pub mod accounts;
pub mod bridge;
pub mod ix;
pub mod layout;
pub mod leader_lock;
pub mod lease;
pub mod schema;
pub mod widths;

use vstd::prelude::*;

use crate::text;
use crate::wire;
use crate::wire::{WireDecode, WireEncode, WireError};

verus! {

/// A 32-byte account address.
pub type Pubkey32 = [u8; 32];

/// An address is laid out as its bytes, without a length.
impl WireEncode for [u8; 32] {
    open spec fn wire(&self) -> Seq<u8> {
        self@
    }

    open spec fn fits(&self) -> bool {
        true
    }

    fn serialize(&self, out: &mut Vec<u8>) -> (r: Result<(), WireError>) {
        wire::put_bytes(out, self.as_slice());
        Ok(())
    }
}

/// Length of the discriminator that precedes every account's record.
pub const ANCHOR_DISCRIMINATOR_LEN: usize = 8;

/// Errors produced by the account decoders.
#[derive(Debug, Clone, PartialEq, Eq)]
pub enum AccountDecodeError {
    /// The data is shorter than the discriminator.
    TooShort {
        /// Bytes present.
        len: usize,
        /// Bytes required.
        min: usize,
    },
    /// The discriminator is not the expected one.
    DiscriminatorMismatch {
        /// The discriminator of the data.
        got: [u8; 8],
        /// The discriminator asked for.
        expected: [u8; 8],
    },
    /// The bytes after the discriminator are not the layout of the record.
    Borsh(String),
}

impl AccountDecodeError {
    /// The text of the error.
    pub open spec fn text(self) -> Seq<char> {
        match self {
            AccountDecodeError::TooShort { len, min } => "anchor account too short: got "@
                + text::decimal(len as nat) + " bytes, need at least "@ + text::decimal(
                min as nat,
            ),
            AccountDecodeError::DiscriminatorMismatch { got, expected } =>
            "anchor discriminator mismatch: got "@ + text::byte_list(got@) + ", expected "@
                + text::byte_list(expected@),
            AccountDecodeError::Borsh(reason) => "borsh decode failed: "@ + reason@,
        }
    }

    /// Renders the error.
    pub fn to_string(&self) -> (r: String)
        ensures
            r@ == self.text(),
    {
        match self {
            AccountDecodeError::TooShort { len, min } => {
                let mut out = String::from_str("anchor account too short: got ");
                text::push_decimal(&mut out, *len as u128);
                out.append(" bytes, need at least ");
                text::push_decimal(&mut out, *min as u128);
                out
            },
            AccountDecodeError::DiscriminatorMismatch { got, expected } => {
                let mut out = String::from_str("anchor discriminator mismatch: got ");
                text::push_byte_list(&mut out, got.as_slice());
                out.append(", expected ");
                text::push_byte_list(&mut out, expected.as_slice());
                out
            },
            AccountDecodeError::Borsh(reason) => {
                let mut out = String::from_str("borsh decode failed: ");
                out.append(reason.as_str());
                out
            },
        }
    }
}

/// The data of an account: its discriminator and the layout of its record.
pub open spec fn account_bytes<T: WireEncode>(value: &T, discriminator: Seq<u8>) -> Seq<u8> {
    discriminator + value.wire()
}

/// `r` is the outcome of reading a record of type `T` from the body `body`.
pub open spec fn reads_body<T: WireDecode>(
    body: Seq<u8>,
    r: Result<T, AccountDecodeError>,
) -> bool {
    match r {
        Ok(v) => T::fault(body) is None && v.fits() && v.wire() == body,
        Err(AccountDecodeError::Borsh(reason)) => T::fault(body) matches Some(e) && reason@
            == e.text(),
        Err(_) => false,
    }
}

/// `r` is the outcome of decoding the account data `data`, whatever its discriminator.
pub open spec fn decodes<T: WireDecode>(data: Seq<u8>, r: Result<T, AccountDecodeError>) -> bool {
    if data.len() < ANCHOR_DISCRIMINATOR_LEN {
        r == Err::<T, AccountDecodeError>(
            AccountDecodeError::TooShort {
                len: data.len() as usize,
                min: ANCHOR_DISCRIMINATOR_LEN,
            },
        )
    } else {
        reads_body(data.skip(ANCHOR_DISCRIMINATOR_LEN as int), r)
    }
}

/// `r` is the outcome of decoding the account data `data` under the discriminator `expected`.
pub open spec fn decodes_strictly<T: WireDecode>(
    data: Seq<u8>,
    expected: [u8; 8],
    r: Result<T, AccountDecodeError>,
) -> bool {
    if data.len() >= ANCHOR_DISCRIMINATOR_LEN && data.take(ANCHOR_DISCRIMINATOR_LEN as int)
        != expected@ {
        r matches Err(AccountDecodeError::DiscriminatorMismatch { got, expected: e }) && got@
            == data.take(ANCHOR_DISCRIMINATOR_LEN as int) && e == expected
    } else {
        decodes(data, r)
    }
}

/// Decodes an account's data, skipping the discriminator without looking at it.
pub fn decode_anchor_account<T: WireDecode>(data: &[u8]) -> (r: Result<T, AccountDecodeError>)
    ensures
        decodes(data@, r),
{
    if data.len() < ANCHOR_DISCRIMINATOR_LEN {
        return Err(
            AccountDecodeError::TooShort { len: data.len(), min: ANCHOR_DISCRIMINATOR_LEN },
        );
    }
    let body: &[u8] = vstd::slice::slice_subrange(data, ANCHOR_DISCRIMINATOR_LEN, data.len());
    proof {
        assert(body@ =~= data@.skip(ANCHOR_DISCRIMINATOR_LEN as int));
    }
    match T::try_from_slice(body) {
        Ok(v) => Ok(v),
        Err(e) => Err(AccountDecodeError::Borsh(e.to_string())),
    }
}

/// Decodes an account's data whose discriminator must be `expected`.
pub fn decode_anchor_account_with_discriminator<T: WireDecode>(
    data: &[u8],
    expected: &[u8; 8],
) -> (r: Result<T, AccountDecodeError>)
    ensures
        decodes_strictly(data@, *expected, r),
{
    if data.len() < ANCHOR_DISCRIMINATOR_LEN {
        return Err(
            AccountDecodeError::TooShort { len: data.len(), min: ANCHOR_DISCRIMINATOR_LEN },
        );
    }
    let mut got: [u8; 8] = [0u8; 8];
    let mut i: usize = 0;
    while i < 8
        invariant
            i <= 8,
            data@.len() >= 8,
            data.len() == data@.len(),
            forall|j: int| 0 <= j < i ==> got[j] == data@[j],
        decreases 8 - i,
    {
        got[i] = data[i];
        i = i + 1;
    }
    proof {
        assert(got@ =~= data@.take(ANCHOR_DISCRIMINATOR_LEN as int));
    }
    if !text::same_bytes(got.as_slice(), expected.as_slice()) {
        return Err(AccountDecodeError::DiscriminatorMismatch { got, expected: *expected });
    }
    decode_anchor_account(data)
}

/// Encodes an account: the discriminator, then the layout of `value`.
pub fn encode_anchor_account<T: WireEncode>(value: &T, discriminator: &[u8; 8]) -> (r: Result<
    Vec<u8>,
    AccountDecodeError,
>)
    ensures
        match r {
            Ok(data) => value.fits() && data@ == account_bytes(value, discriminator@),
            Err(AccountDecodeError::Borsh(reason)) => !value.fits() && reason@ == "invalid data"@,
            Err(_) => false,
        },
{
    let mut out: Vec<u8> = Vec::new();
    crate::wire::put_bytes(&mut out, discriminator.as_slice());
    proof {
        assert(out@ =~= discriminator@);
    }
    match value.serialize(&mut out) {
        Ok(_) => Ok(out),
        Err(e) => Err(AccountDecodeError::Borsh(e.to_string())),
    }
}

/// Decoding an encoded account gives the record back, whatever the discriminator.
pub proof fn law_account_round_trip<T: WireDecode>(
    value: &T,
    discriminator: [u8; 8],
    r: Result<T, AccountDecodeError>,
)
    requires
        value.fits(),
        decodes(account_bytes(value, discriminator@), r),
    ensures
        r matches Ok(decoded) && decoded.same(value),
{
    assert(account_bytes(value, discriminator@).skip(8) =~= value.wire());
    value.lemma_wire_is_faultless();
    if let Ok(decoded) = r {
        decoded.lemma_wire_is_injective(value);
    }
}

/// Encoding a decoded account gives the data back.
pub proof fn law_decoded_account_encodes_back<T: WireDecode>(
    data: Seq<u8>,
    r: Result<T, AccountDecodeError>,
)
    requires
        decodes(data, r),
        r is Ok,
    ensures
        account_bytes(&r->Ok_0, data.take(ANCHOR_DISCRIMINATOR_LEN as int)) == data,
{
    assert(data.take(8) + data.skip(8) =~= data);
}

/// Under its own discriminator, an account decodes strictly as it decodes at all.
pub proof fn law_strict_decoding_agrees<T: WireDecode>(
    data: Seq<u8>,
    expected: [u8; 8],
    r: Result<T, AccountDecodeError>,
)
    requires
        data.len() >= ANCHOR_DISCRIMINATOR_LEN ==> data.take(ANCHOR_DISCRIMINATOR_LEN as int)
            == expected@,
    ensures
        decodes_strictly(data, expected, r) <==> decodes(data, r),
{
}

} // verus!
