//! Salts for the roster contracts and the digest a guest signs to check in.
use vstd::prelude::*;
use vstd::string::StringExecFns;

verus! {

/// The SHA-256 digest of a byte string.
pub uninterp spec fn sha256_of(data: Seq<u8>) -> Seq<u8>;

/// The standard, padded base64 text of a byte string.
pub uninterp spec fn base64_of(data: Seq<u8>) -> Seq<char>;

/// Relies on sha2's `Sha256::digest`: the 32-byte SHA-256 digest of `data`.
#[verifier::external_body]
fn sha256(data: &[u8]) -> (r: Vec<u8>)
    ensures
        r@ == sha256_of(data@),
        r@.len() == 32,
{
    <sha2::Sha256 as sha2::Digest>::digest(data).to_vec()
}

/// Relies on cosmwasm_std's `Binary::to_base64`: the padded base64 text of `data`.
#[verifier::external_body]
fn to_base64(data: &Vec<u8>) -> (r: String)
    ensures
        r@ == base64_of(data@),
{
    cosmwasm_std::Binary::new(data.clone()).to_base64()
}

/// Namespace mixed into the salts of the event's roster contracts: the
/// bytes of "aves".
pub fn roster_namespace() -> (r: Vec<u8>)
    ensures
        r@ == seq![0x61u8, 0x76u8, 0x65u8, 0x73u8],
{
    let mut r: Vec<u8> = Vec::new();
    r.push(0x61u8);
    r.push(0x76u8);
    r.push(0x65u8);
    r.push(0x73u8);
    assert(r@ =~= seq![0x61u8, 0x76u8, 0x65u8, 0x73u8]);
    r
}

/// Salt for instantiating the usher roster at a predictable address: the
/// digest of the roster code's checksum followed by `namespace`.
pub fn generate_instantiate_salt2(checksum: &Vec<u8>, namespace: &[u8]) -> (r: Vec<u8>)
    ensures
        r@ == sha256_of(checksum@) + namespace@,
{
    let mut result = sha256(checksum.as_slice());
    let ghost digest = result@;
    let mut i: usize = 0;
    while i < namespace.len()
        invariant
            i <= namespace@.len(),
            result@ == digest + namespace@.take(i as int),
        decreases namespace@.len() - i,
    {
        result.push(namespace[i]);
        assert(result@ =~= digest + namespace@.take(i + 1));
        i = i + 1;
    }
    assert(namespace@.take(i as int) =~= namespace@);
    result
}

/// Salt for the guest roster: the usher roster's salt with the lowest bit
/// of its first byte flipped, so the two addresses differ.
pub fn guest_roster_salt(usher_salt: &Vec<u8>) -> (r: Vec<u8>)
    requires
        usher_salt@.len() > 0,
    ensures
        r@ == usher_salt@.update(0, usher_salt@[0] ^ 1u8),
{
    let mut r = usher_salt.clone();
    assert(r@ =~= usher_salt@);
    let first = r[0] ^ 1u8;
    r.set(0, first);
    r
}

/// The canonical sign document for arbitrary data (the Cosmos convention
/// for off-chain signatures) with signer `signer` and base64 data `data`.
pub open spec fn sign_doc_text(signer: Seq<char>, data: Seq<char>) -> Seq<char> {
    "{\"account_number\":\"0\",\"chain_id\":\"\",\"fee\":{\"amount\":[],\"gas\":\"0\"},\"memo\":\"\",\"msgs\":[{\"type\":\"sign/MsgSignData\",\"value\":{\"data\":\""@
        + data + "\",\"signer\":\""@ + signer + "\"}}],\"sequence\":\"0\"}"@
}

/// The sign document for signer `ticket_addr` over base64 data `data`.
pub fn sign_doc(ticket_addr: &String, data: &String) -> (r: String)
    ensures
        r@ == sign_doc_text(ticket_addr@, data@),
{
    let mut doc = String::new();
    doc.append(
        "{\"account_number\":\"0\",\"chain_id\":\"\",\"fee\":{\"amount\":[],\"gas\":\"0\"},\"memo\":\"\",\"msgs\":[{\"type\":\"sign/MsgSignData\",\"value\":{\"data\":\"",
    );
    doc.append(data.as_str());
    doc.append("\",\"signer\":\"");
    doc.append(ticket_addr.as_str());
    doc.append("\"}}],\"sequence\":\"0\"}");
    doc
}

/// The sign document that binds a ticket address to the signed payload.
pub fn signing_preamble(ticket_addr: &String, signed_data: &Vec<u8>) -> (r: String)
    ensures
        r@ == sign_doc_text(ticket_addr@, base64_of(signed_data@)),
{
    let data = to_base64(signed_data);
    sign_doc(ticket_addr, &data)
}

/// The digest a guest signs to check in: SHA-256 of the UTF-8 bytes of the
/// sign document for `ticket_addr` over `signed_data`.
pub fn checkin_signing_digest(ticket_addr: &String, signed_data: &Vec<u8>) -> (r: Vec<u8>)
    ensures
        r@ == sha256_of(
            vstd::utf8::encode_utf8(sign_doc_text(ticket_addr@, base64_of(signed_data@))),
        ),
        r@.len() == 32,
{
    let doc = signing_preamble(ticket_addr, signed_data);
    sha256(doc.as_str().as_bytes())
}

} // verus!
