use vstd::prelude::*;

verus! {

/// The 32-byte double-SHA256 digest of a byte string; it depends on the
/// bytes alone.
pub uninterp spec fn sha256d_of(data: Seq<u8>) -> Seq<u8>;

/// Whether the consensus decoder accepts `data` as exactly one transaction;
/// it depends on the bytes alone.
pub uninterp spec fn tx_parses(data: Seq<u8>) -> bool;

/// The txid of the transaction serialized in `data`; meaningful when
/// `tx_parses(data)`.
pub uninterp spec fn txid_of(data: Seq<u8>) -> Seq<u8>;

/// The wtxid of the transaction serialized in `data`; meaningful when
/// `tx_parses(data)`.
pub uninterp spec fn wtxid_of(data: Seq<u8>) -> Seq<u8>;

/// The frame checksum of a payload: the first four bytes of its double-SHA256.
pub open spec fn checksum_of(payload: Seq<u8>) -> Seq<u8> {
    seq![
        sha256d_of(payload)[0],
        sha256d_of(payload)[1],
        sha256d_of(payload)[2],
        sha256d_of(payload)[3],
    ]
}

/// Relies on bitcoin::hashes::sha256d::Hash::hash: the 32-byte double-SHA256
/// digest of the input, a function of the input bytes alone.
#[verifier::external_body]
pub fn sha256d(data: &[u8]) -> (r: [u8; 32])
    ensures
        r@ == sha256d_of(data@),
{
    let h = <bitcoin::hashes::sha256d::Hash as bitcoin::hashes::Hash>::hash(data);
    <bitcoin::hashes::sha256d::Hash as bitcoin::hashes::Hash>::to_byte_array(h)
}

/// Computes the four checksum bytes of a payload.
pub fn checksum4(data: &[u8]) -> (r: [u8; 4])
    ensures
        r@ == checksum_of(data@),
{
    let digest = sha256d(data);
    let r: [u8; 4] = [digest[0], digest[1], digest[2], digest[3]];
    proof {
        assert(r@ =~= checksum_of(data@));
    }
    r
}

/// Relies on bitcoin::consensus::deserialize for Transaction (which fails
/// unless the bytes are consumed entirely) and on Transaction::compute_txid
/// and Transaction::compute_wtxid: all are functions of the bytes alone.
#[verifier::external_body]
pub fn parse_tx_ids(data: &[u8]) -> (r: Option<([u8; 32], [u8; 32])>)
    ensures
        r is Some <==> tx_parses(data@),
        r matches Some((t, w)) ==> t@ == txid_of(data@) && w@ == wtxid_of(data@),
{
    match bitcoin::consensus::deserialize::<bitcoin::Transaction>(data) {
        Ok(tx) => Some((
            <bitcoin::Txid as bitcoin::hashes::Hash>::to_byte_array(tx.compute_txid()),
            <bitcoin::Wtxid as bitcoin::hashes::Hash>::to_byte_array(tx.compute_wtxid()),
        )),
        Err(_) => None,
    }
}

} // verus!
