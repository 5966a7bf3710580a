//! Bitcoin transactions and merkle proofs, as far as the peg reads them.

use vstd::prelude::*;

verus! {

/// An output of a transaction.
pub struct TxOut {
    /// The amount, in satoshis.
    pub value: u64,
    /// The locking script.
    pub script_pubkey: Vec<u8>,
}

/// A transaction: its id and its outputs.
pub struct Transaction {
    txid: [u8; 32],
    output: Vec<TxOut>,
}

/// The outputs as amounts and script bytes.
pub open spec fn outputs_view(outputs: Seq<TxOut>) -> Seq<(u64, Seq<u8>)> {
    Seq::new(outputs.len(), |i: int| (outputs[i].value, outputs[i].script_pubkey@))
}

/// The ids as byte strings.
pub open spec fn ids_view(ids: Seq<[u8; 32]>) -> Seq<Seq<u8>> {
    Seq::new(ids.len(), |i: int| ids[i]@)
}

/// The id and the outputs of the transaction that the bytes are the
/// consensus serialization of, if they are one.
pub uninterp spec fn decoded_transaction(raw: Seq<u8>) -> Option<(Seq<u8>, Seq<(u64, Seq<u8>)>)>;

/// The merkle root and the matched transaction ids that the serialized
/// partial merkle tree leads to, if it is well formed.
pub uninterp spec fn merkle_matches(proof: Seq<u8>) -> Option<(Seq<u8>, Seq<Seq<u8>>)>;

/// `consensus::deserialize` of the `bitcoin` crate on a transaction, with the
/// id that `Transaction::txid` computes and the outputs as they stand in it.
#[verifier::external_body]
fn parse_transaction(raw: &[u8]) -> (r: Option<Transaction>)
    ensures
        match r {
            Some(tx) => decoded_transaction(raw@) == Some((tx.txid@, outputs_view(tx.output@))),
            None => decoded_transaction(raw@) is None,
        },
{
    let tx = ::bitcoin::consensus::deserialize::<::bitcoin::Transaction>(raw).ok()?;
    Some(
        Transaction {
            txid: <::bitcoin::Txid as ::bitcoin::hashes::Hash>::into_inner(tx.txid()),
            output: tx.output.iter().map(
                |o| TxOut { value: o.value, script_pubkey: o.script_pubkey.to_bytes() },
            ).collect(),
        },
    )
}

/// `PartialMerkleTree::extract_matches` of the `bitcoin` crate, on the tree
/// that the bytes are the consensus serialization of: the merkle root and the
/// matched transaction ids.
#[verifier::external_body]
pub(crate) fn extract_matches(proof: &[u8]) -> (r: Option<([u8; 32], Vec<[u8; 32]>)>)
    ensures
        match r {
            Some((root, ids)) => merkle_matches(proof@) == Some((root@, ids_view(ids@))),
            None => merkle_matches(proof@) is None,
        },
{
    let tree = ::bitcoin::consensus::deserialize::<::bitcoin::util::merkleblock::PartialMerkleTree>(
        proof,
    ).ok()?;
    let mut ids = Vec::new();
    let mut indexes = Vec::new();
    let root = tree.extract_matches(&mut ids, &mut indexes).ok()?;
    Some(
        (
            <::bitcoin::TxMerkleNode as ::bitcoin::hashes::Hash>::into_inner(root),
            ids.into_iter().map(|id| <::bitcoin::Txid as ::bitcoin::hashes::Hash>::into_inner(id)).collect(),
        ),
    )
}

impl Transaction {
    /// The id of the transaction.
    pub closed spec fn id(&self) -> [u8; 32] {
        self.txid
    }

    /// The outputs of the transaction.
    pub closed spec fn outputs(&self) -> Seq<TxOut> {
        self.output@
    }

    /// A transaction with the id and the outputs. The id is taken as given.
    pub fn from_parts(txid: [u8; 32], output: Vec<TxOut>) -> (r: Transaction)
        ensures
            r.id() == txid,
            r.outputs() == output@,
    {
        Transaction { txid, output }
    }

    /// The transaction that the bytes are the consensus serialization of.
    pub fn decode(raw: &[u8]) -> (r: Option<Transaction>)
        ensures
            match r {
                Some(tx) => decoded_transaction(raw@) == Some((tx.id()@, outputs_view(tx.outputs()))),
                None => decoded_transaction(raw@) is None,
            },
    {
        parse_transaction(raw)
    }

    /// The id of the transaction.
    pub fn txid(&self) -> (r: [u8; 32])
        ensures
            r == self.id(),
    {
        self.txid
    }

    /// The outputs of the transaction.
    pub fn output(&self) -> (r: &Vec<TxOut>)
        ensures
            r@ == self.outputs(),
    {
        &self.output
    }
}

} // verus!
