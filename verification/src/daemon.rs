//! The frames of the daemon's socket: fields joined by semicolons, padded
//! with zero bytes to a fixed length.

use vstd::prelude::*;
use crate::error::PoolError;
use crate::text::{join, joined, pieces, split, texts};

verus! {

/// Where the daemon listens.
pub const SOCK_PATH: &'static str = "/tmp/hyraid.sock";

/// What stands between two fields of a request or a reply.
pub const REQUEST_DELIMITER: &'static str = ";";

/// The length of every frame, in bytes.
pub const BUFFER_SIZE: usize = 1024;

/// The bytes of the fields, joined by the delimiter.
pub open spec fn payload(fields: Seq<Seq<char>>) -> Seq<u8> {
    vstd::utf8::encode_utf8(joined(fields, REQUEST_DELIMITER@))
}

/// `frame` carries `bytes`: they stand at its start, and zero bytes fill
/// the rest.
pub open spec fn is_frame_of(frame: Seq<u8>, bytes: Seq<u8>) -> bool {
    &&& frame.len() == BUFFER_SIZE
    &&& bytes.len() <= BUFFER_SIZE
    &&& forall|i: int| 0 <= i < bytes.len() ==> frame[i] == bytes[i]
    &&& forall|i: int| bytes.len() <= i < BUFFER_SIZE ==> frame[i] == 0
}

/// Encodes the fields of a request or a reply into one frame. Fields that
/// do not fit in a frame are refused.
pub fn encode_bytes(value: &Vec<String>) -> (frame: Result<[u8; 1024], PoolError>)
    ensures
        match frame {
            Ok(buffer) => is_frame_of(buffer@, payload(texts(value@))),
            Err(e) => e == PoolError::RequestTooLarge && payload(texts(value@)).len()
                > BUFFER_SIZE,
        },
{
    let text = join(value, REQUEST_DELIMITER);
    let bytes = text.as_str().as_bytes();
    if bytes.len() > BUFFER_SIZE {
        return Err(PoolError::RequestTooLarge);
    }
    let mut buffer: [u8; 1024] = [0u8; 1024];
    let mut i: usize = 0;
    while i < bytes.len()
        invariant
            0 <= i <= bytes@.len() <= BUFFER_SIZE,
            forall|k: int| 0 <= k < i ==> buffer@[k] == bytes@[k],
            forall|k: int| i <= k < BUFFER_SIZE ==> buffer@[k] == 0,
        decreases bytes.len() - i,
    {
        buffer[i] = bytes[i];
        i = i + 1;
    }
    Ok(buffer)
}

/// The bytes of a frame before its padding: those before the first zero
/// byte, or all of them where there is none.
pub open spec fn unpadded(frame: Seq<u8>) -> Seq<u8>
    decreases frame.len(),
{
    if frame.len() == 0 {
        frame
    } else {
        let before = unpadded(frame.drop_last());
        if before.len() == frame.len() - 1 && frame.last() != 0 {
            frame
        } else {
            before
        }
    }
}

/// The text that a run of bytes stands for, bytes that are no UTF-8 being
/// replaced as `String::from_utf8_lossy` replaces them.
pub uninterp spec fn lossy_text(bytes: Seq<u8>) -> Seq<char>;

/// `String::from_utf8_lossy`: the bytes as text; every sequence that is no
/// valid UTF-8 becomes the replacement character. The result depends on the
/// bytes alone.
#[verifier::external_body]
fn from_utf8_lossy(bytes: &Vec<u8>) -> (text: String)
    ensures
        text@ == lossy_text(bytes@),
{
    String::from_utf8_lossy(bytes).into_owned()
}

/// Takes the padding off a frame.
pub fn strip_padding(frame: &[u8]) -> (bytes: Vec<u8>)
    ensures
        bytes@ == unpadded(frame@),
{
    let mut bytes: Vec<u8> = Vec::new();
    let mut i: usize = 0;
    proof {
        assert(frame@.take(0) =~= Seq::<u8>::empty());
    }
    while i < frame.len() && frame[i] != 0
        invariant
            0 <= i <= frame@.len(),
            bytes@ == frame@.take(i as int),
            unpadded(frame@.take(i as int)) == frame@.take(i as int),
        decreases frame.len() - i,
    {
        proof {
            assert(frame@.take(i + 1).drop_last() =~= frame@.take(i as int));
        }
        bytes.push(frame[i]);
        i = i + 1;
        proof {
            assert(bytes@ =~= frame@.take(i as int));
        }
    }
    proof {
        lemma_unpadded_stops(frame@, i as int, frame@.len() as int);
        assert(frame@.take(frame@.len() as int) =~= frame@);
    }
    bytes
}

/// Once the padding has begun, nothing after it counts.
pub proof fn lemma_unpadded_stops(frame: Seq<u8>, i: int, m: int)
    requires
        0 <= i <= m <= frame.len(),
        unpadded(frame.take(i)) == frame.take(i),
        i < frame.len() ==> frame[i] == 0,
    ensures
        unpadded(frame.take(m)) == frame.take(i),
    decreases m,
{
    if i < m {
        lemma_unpadded_stops(frame, i, m - 1);
        assert(frame.take(m).drop_last() =~= frame.take(m - 1));
        assert(frame.take(m).last() == frame[m - 1]);
        if i == m - 1 {
            assert(frame.take(m).last() == 0);
        } else {
            assert(frame.take(i).len() < m - 1);
        }
    }
}

/// Decodes the fields of a request or a reply from what was read of its
/// frame: the padding is taken off, and the text is split at the delimiter.
pub fn decode_bytes(frame: &[u8]) -> (fields: Vec<String>)
    ensures
        texts(fields@) == pieces(lossy_text(unpadded(frame@)), ';'),
{
    let bytes = strip_padding(frame);
    let text = from_utf8_lossy(&bytes);
    split(text.as_str(), ';')
}

} // verus!
