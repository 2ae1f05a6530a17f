//! Decompression of message bodies, done by the `snap` crate.

use vstd::prelude::*;

verus! {

/// The errors of the `snap` crate, carried as they are.
#[verifier::external_type_specification]
#[verifier::external_body]
pub struct ExSnapError(snap::Error);

/// The decompressed length that `input` announces: a variable-length integer of at most five bytes, in
/// the range of `u32`. Nothing at all announces zero.
pub open spec fn announced_len(input: Seq<u8>) -> Option<nat> {
    if input.len() == 0 {
        Some(0)
    } else {
        match crate::varint::uvarint(input, 5, 64) {
            crate::varint::Uvarint::Value { value, .. } => if value <= u32::MAX {
                Some(value)
            } else {
                None
            },
            _ => None,
        }
    }
}

/// The error that `snap::raw::decompress_len` gives for `input`, which announces no length.
pub uninterp spec fn snap_len_error(input: Seq<u8>) -> snap::Error;

/// What `snap::raw::Decoder::decompress` makes of `input`, given room for `capacity` bytes.
pub uninterp spec fn snap_decompress(input: Seq<u8>, capacity: nat) -> Result<Seq<u8>, snap::Error>;

/// Calls `snap::raw::decompress_len`. Claims that it gives the announced length, and fails where there
/// is none; and that the error depends on the input alone.
#[verifier::external_body]
fn raw_decompress_len(input: &[u8]) -> (r: Result<usize, snap::Error>)
    ensures
        match announced_len(input@) {
            Some(len) => r is Ok && r->Ok_0 == len,
            None => r == Err::<usize, snap::Error>(snap_len_error(input@)),
        },
{
    snap::raw::decompress_len(input)
}

/// Calls `snap::raw::Decoder::decompress` on a new decoder. Claims that the outcome depends on the
/// input and on the size of the output alone; that nothing at all does not decompress; and that a
/// success fills the first bytes of the output, as many as it returns and as the input announces. What
/// a failure leaves in the output is not said.
#[verifier::external_body]
fn raw_decompress(input: &[u8], output: &mut [u8]) -> (r: Result<usize, snap::Error>)
    ensures
        final(output)@.len() == old(output)@.len(),
        match r {
            Ok(n) => {
                &&& input@.len() > 0
                &&& n <= old(output)@.len()
                &&& announced_len(input@) == Some(n as nat)
                &&& snap_decompress(input@, old(output)@.len()) == Ok::<Seq<u8>, snap::Error>(
                    final(output)@.take(n as int),
                )
            },
            Err(err) => snap_decompress(input@, old(output)@.len()) == Err::<
                Seq<u8>,
                snap::Error,
            >(err),
        },
{
    snap::raw::Decoder::new().decompress(input, output)
}

/// The decompressed form of `input` where at most `capacity` bytes are allowed. The announced length
/// is read first, and an error in it comes first.
pub open spec fn unpacked(input: Seq<u8>, capacity: nat) -> Result<Seq<u8>, snap::Error> {
    match announced_len(input) {
        Some(_) => snap_decompress(input, capacity),
        None => Err(snap_len_error(input)),
    }
}

/// Decompresses `input`, which may become at most `capacity` bytes. A success has the announced length.
pub fn unpack(input: &[u8], capacity: usize) -> (r: Result<Vec<u8>, snap::Error>)
    ensures
        match r {
            Ok(bytes) => {
                &&& unpacked(input@, capacity as nat) == Ok::<Seq<u8>, snap::Error>(bytes@)
                &&& announced_len(input@) == Some(bytes@.len())
                &&& input@.len() > 0
                &&& bytes@.len() <= capacity
            },
            Err(err) => unpacked(input@, capacity as nat) == Err::<Seq<u8>, snap::Error>(err),
        },
{
    let decompress_len: usize = match raw_decompress_len(input) {
        Ok(len) => len,
        Err(err) => {
            return Err(err);
        },
    };
    let mut output: Vec<u8> = vec![0u8; capacity];
    match raw_decompress(input, output.as_mut_slice()) {
        Ok(_) => {
            // The buffer goes on past the data, and a protobuf message ends where its bytes do.
            output.truncate(decompress_len);
            Ok(output)
        },
        Err(err) => Err(err),
    }
}

} // verus!
