//! What stands in front of a frame, and what credentials are made of.

use super::quic::{announced, announcement, FrameError};
use super::tls::{
    assembled, certs_view, items, key_view, Credentials, PrivateKey, PrivateKeyView, TlsError,
};
use crate::protocol::promises::{bytes_are_big_endian, numbers_are_big_endian};
use vstd::prelude::*;

verus! {

/// Four bytes announce the length that they are the digits of, to the base of 256 and with the most
/// significant first, unless it is more than 1048576.
pub proof fn lengths_are_announced_in_four_bytes(header: Seq<u8>)
    requires
        header.len() == 4,
    ensures
        ({
            let len = header[0] * 0x100_0000 + header[1] * 0x1_0000 + header[2] * 0x100 + header[3];
            &&& len <= 1_048_576 ==> announced(header) is Ok && announced(header)->Ok_0 == len
            &&& len > 1_048_576 ==> (announced(header) matches Err(
                FrameError::FrameTooLarge { size, max },
            ) && size == len && max == 1_048_576)
        }),
{
    bytes_are_big_endian(header.take(2), header, Seq::new(8, |i: int| 0u8));
}

/// A length is written in four bytes, with the most significant first, unless it does not go into
/// them.
pub proof fn lengths_are_written_in_four_bytes(len: nat)
    ensures
        len <= u32::MAX ==> (announcement(len) matches Ok(h) && h.len() == 4 && h[0] * 0x100_0000
            + h[1] * 0x1_0000 + h[2] * 0x100 + h[3] == len),
        len > u32::MAX ==> announcement(len) == Err::<Seq<u8>, FrameError>(
            FrameError::FrameOverflow,
        ),
{
    if len <= u32::MAX {
        numbers_are_big_endian(0, len as u32, 0);
    }
}

/// Credentials are the certificates, all of them in their order, and the key. Without a key there
/// are none, and where one of both cannot be read, what is wrong with it is the error, with the
/// certificates first.
pub proof fn credentials_are_what_was_found(
    certs: Result<Vec<Vec<u8>>, String>,
    key: Result<Option<PrivateKey>, String>,
    r: Result<Credentials, TlsError>,
)
    requires
        assembled(certs_view(certs), key_view(key), r),
    ensures
        certs is Err ==> (r matches Err(TlsError::Io(reason)) && reason@ == certs->Err_0@),
        certs is Ok && key is Err ==> (r matches Err(TlsError::Io(reason)) && reason@
            == key->Err_0@),
        certs is Ok && key is Ok && key->Ok_0 is None ==> r matches Err(TlsError::NoPrivateKey),
        certs is Ok && key is Ok && key->Ok_0 is Some ==> (r matches Ok(made) && {
            let found = key->Ok_0->0;
            &&& made.certs@.len() == certs->Ok_0@.len()
            &&& forall|i: int|
                0 <= i < made.certs@.len() ==> (#[trigger] made.certs@[i])@ == certs->Ok_0@[i]@
            &&& made.key.kind == found.kind
            &&& made.key.der@ == found.der@
        }),
{
    if certs is Ok && key is Ok && key->Ok_0 is Some {
        let made = r->Ok_0;
        assert(items(made.certs@) == items(certs->Ok_0@));
        assert(items(made.certs@).len() == items(certs->Ok_0@).len());
        assert forall|i: int| 0 <= i < made.certs@.len() implies (#[trigger] made.certs@[i])@
            == certs->Ok_0@[i]@ by {
            assert(items(made.certs@)[i] == items(certs->Ok_0@)[i]);
        }
    }
}

/// What PEM files hold decides on the credentials that are loaded from them.
pub proof fn files_decide_on_credentials(
    certs: Result<Seq<Seq<u8>>, Seq<char>>,
    key: Result<Option<PrivateKeyView>, Seq<char>>,
    r: Result<Credentials, TlsError>,
)
    requires
        assembled(certs, key, r),
    ensures
        r is Ok <==> certs is Ok && key is Ok && key->Ok_0 is Some,
        r matches Ok(made) ==> {
            &&& made.key@ == key->Ok_0->0
            &&& made.certs@.len() == certs->Ok_0.len()
            &&& forall|i: int|
                0 <= i < made.certs@.len() ==> (#[trigger] made.certs@[i])@ == certs->Ok_0[i]
        },
        certs is Err ==> (r matches Err(TlsError::Io(reason)) && reason@ == certs->Err_0),
        certs is Ok && key is Err ==> (r matches Err(TlsError::Io(reason)) && reason@
            == key->Err_0),
        certs is Ok && key is Ok && key->Ok_0 is None ==> r matches Err(TlsError::NoPrivateKey),
{
    if certs is Ok && key is Ok && key->Ok_0 is Some {
        let made = r->Ok_0;
        assert(items(made.certs@).len() == certs->Ok_0.len());
        assert forall|i: int| 0 <= i < made.certs@.len() implies (#[trigger] made.certs@[i])@
            == certs->Ok_0[i] by {
            assert(items(made.certs@)[i] == certs->Ok_0[i]);
        }
    }
}

} // verus!
