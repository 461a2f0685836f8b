//! Transaction skeletons: inputs, outputs, and the lock field. Scripts are
//! carried as opaque byte blobs; their semantics are out of scope.

use vstd::prelude::*;

use crate::value::Value;

verus! {

/// The largest lock value that names a block height.
pub const LOCK_BLOCK_MAX: u32 = 500000000;

/// An opaque script blob.
#[derive(Debug)]
pub struct Script {
    pub bytes: Vec<u8>,
}

impl View for Script {
    type V = Seq<u8>;

    open spec fn view(&self) -> Seq<u8> {
        self.bytes@
    }
}

impl Clone for Script {
    fn clone(&self) -> (r: Self)
        ensures
            r@ == self@,
    {
        let mut bytes: Vec<u8> = Vec::new();
        let mut i: usize = 0;
        while i < self.bytes.len()
            invariant
                i <= self.bytes@.len(),
                bytes@ == self.bytes@.take(i as int),
            decreases self.bytes@.len() - i,
        {
            bytes.push(self.bytes[i]);
            i += 1;
            proof {
                assert(bytes@ =~= self.bytes@.take(i as int));
            }
        }
        proof {
            assert(bytes@ =~= self.bytes@);
        }
        Script { bytes }
    }
}

impl Script {
    /// An empty script.
    pub fn new() -> (r: Script)
        ensures
            r@ =~= Seq::<u8>::empty(),
    {
        Script { bytes: Vec::new() }
    }

    /// Wrap raw bytes as a script blob.
    pub fn from_bytes(bytes: Vec<u8>) -> (r: Script)
        ensures
            r@ == bytes@,
    {
        Script { bytes }
    }
}

/// A reference to one output of a previous transaction.
#[derive(Debug)]
pub struct OutPoint {
    hash: crate::hash::Hash,
    index: u32,
}

/// The mathematical value of an out-point.
pub struct OutPointV {
    pub hash: Seq<u8>,
    pub index: u32,
}

impl View for OutPoint {
    type V = OutPointV;

    closed spec fn view(&self) -> OutPointV {
        OutPointV { hash: self.hash@, index: self.index }
    }
}

impl OutPoint {
    /// Build an out-point from a hash and an output index.
    pub fn new(hash: crate::hash::Hash, index: u32) -> (r: OutPoint)
        ensures
            r@ == (OutPointV { hash: hash@, index }),
    {
        OutPoint { hash, index }
    }

    /// The transaction hash referred to.
    pub fn get_hash(&self) -> (r: &crate::hash::Hash)
        ensures
            r@ == self@.hash,
    {
        &self.hash
    }

    /// The output index within that transaction.
    pub fn get_index(&self) -> (r: u32)
        ensures
            r == self@.index,
    {
        self.index
    }
}

/// One transaction input.
#[derive(Debug)]
pub struct TxIn {
    prev_out: OutPoint,
    sig_script: Script,
    sequence: u32,
}

/// The mathematical value of an input.
pub struct TxInV {
    pub prev_out: OutPointV,
    pub sig_script: Seq<u8>,
    pub sequence: u32,
}

impl View for TxIn {
    type V = TxInV;

    closed spec fn view(&self) -> TxInV {
        TxInV { prev_out: self.prev_out@, sig_script: self.sig_script@, sequence: self.sequence }
    }
}

impl TxIn {
    /// Build an input from its parts.
    pub fn new(prev_out: OutPoint, sig_script: Script, sequence: u32) -> (r: TxIn)
        ensures
            r@ == (TxInV { prev_out: prev_out@, sig_script: sig_script@, sequence }),
    {
        TxIn { prev_out, sig_script, sequence }
    }

    /// The referenced previous output.
    pub fn get_prev_out(&self) -> (r: &OutPoint)
        ensures
            r@ == self@.prev_out,
    {
        &self.prev_out
    }

    /// The signature script blob.
    pub fn get_script(&self) -> (r: &Script)
        ensures
            r@ == self@.sig_script,
    {
        &self.sig_script
    }

    /// The sequence field.
    pub fn get_sequence(&self) -> (r: u32)
        ensures
            r == self@.sequence,
    {
        self.sequence
    }
}

/// One transaction output.
#[derive(Debug)]
pub struct TxOut {
    value: Value,
    script: Script,
}

/// The mathematical value of an output.
pub struct TxOutV {
    pub value: Value,
    pub script: Seq<u8>,
}

impl View for TxOut {
    type V = TxOutV;

    closed spec fn view(&self) -> TxOutV {
        TxOutV { value: self.value, script: self.script@ }
    }
}

impl TxOut {
    /// Build an output from an amount and a script.
    pub fn new(value: Value, script: Script) -> (r: TxOut)
        ensures
            r@ == (TxOutV { value, script: script@ }),
    {
        TxOut { value, script }
    }

    /// The amount carried.
    pub fn get_value(&self) -> (r: &Value)
        ensures
            *r == self@.value,
    {
        &self.value
    }

    /// The locking script blob.
    pub fn get_script(&self) -> (r: &Script)
        ensures
            r@ == self@.script,
    {
        &self.script
    }
}

/// The lock field of a transaction, decoded.
#[derive(Clone, Copy, Debug, PartialEq, Eq)]
pub enum TxLock {
    /// Always locked (wire value 0).
    LockLocked,
    /// Always unlocked (wire value 0xffffffff).
    LockUnlocked,
    /// Locked until a block height in 1..=500000000.
    LockBlock(u32),
    /// Locked until a Unix timestamp in 500000001..=0xfffffffe.
    LockTime(u32),
}

impl TxLock {
    /// A lock whose payload lies in the range its variant names.
    pub open spec fn wf(&self) -> bool {
        match *self {
            TxLock::LockLocked => true,
            TxLock::LockUnlocked => true,
            TxLock::LockBlock(b) => 1 <= b <= LOCK_BLOCK_MAX,
            TxLock::LockTime(t) => LOCK_BLOCK_MAX < t < 0xffffffffu32,
        }
    }

    /// The decoding of a wire u32 into a lock.
    pub open spec fn spec_from_u32(v: u32) -> TxLock {
        if v == 0 {
            TxLock::LockLocked
        } else if v <= LOCK_BLOCK_MAX {
            TxLock::LockBlock(v)
        } else if v < 0xffffffffu32 {
            TxLock::LockTime(v)
        } else {
            TxLock::LockUnlocked
        }
    }

    /// Decode a wire u32: 0 is locked, 1..=500000000 a block height,
    /// 500000001..=0xfffffffe a timestamp, 0xffffffff unlocked.
    pub fn from_u32(v: u32) -> (r: TxLock)
        ensures
            r == TxLock::spec_from_u32(v),
            r.wf(),
    {
        if v == 0 {
            TxLock::LockLocked
        } else if v <= LOCK_BLOCK_MAX {
            TxLock::LockBlock(v)
        } else if v < 0xffffffff {
            TxLock::LockTime(v)
        } else {
            TxLock::LockUnlocked
        }
    }

    /// The encoding of a lock as a wire u32.
    pub open spec fn spec_to_u32(&self) -> u32 {
        match *self {
            TxLock::LockLocked => 0,
            TxLock::LockUnlocked => 0xffffffffu32,
            TxLock::LockBlock(b) => b,
            TxLock::LockTime(t) => t,
        }
    }

    /// Encode a lock as a wire u32.
    pub fn to_u32(&self) -> (r: u32)
        ensures
            r == self.spec_to_u32(),
    {
        match *self {
            TxLock::LockLocked => 0,
            TxLock::LockUnlocked => 0xffffffff,
            TxLock::LockBlock(b) => b,
            TxLock::LockTime(t) => t,
        }
    }

    /// Decoding the encoding of a well-formed lock gives the lock back.
    pub proof fn lemma_round_trip(l: TxLock)
        requires
            l.wf(),
        ensures
            TxLock::spec_from_u32(l.spec_to_u32()) == l,
    {
    }
}

/// A transaction skeleton.
#[derive(Debug)]
pub struct Transaction {
    version: u32,
    txs_in: Vec<TxIn>,
    txs_out: Vec<TxOut>,
    lock: TxLock,
}

/// The mathematical value of a transaction.
pub struct TransactionV {
    pub version: u32,
    pub txs_in: Seq<TxInV>,
    pub txs_out: Seq<TxOutV>,
    pub lock: TxLock,
}

impl TransactionV {
    /// Every referenced hash is a well-formed 32-byte value.
    pub open spec fn wf(&self) -> bool {
        forall|i: int| 0 <= i < self.txs_in.len() ==> self.txs_in[i].prev_out.hash.len() == 32
    }
}

impl View for Transaction {
    type V = TransactionV;

    closed spec fn view(&self) -> TransactionV {
        TransactionV {
            version: self.version,
            txs_in: Seq::new(self.txs_in@.len(), |i: int| self.txs_in@[i]@),
            txs_out: Seq::new(self.txs_out@.len(), |i: int| self.txs_out@[i]@),
            lock: self.lock,
        }
    }
}

impl Transaction {
    /// Build a transaction from its parts.
    pub fn new(version: u32, txs_in: Vec<TxIn>, txs_out: Vec<TxOut>, lock: TxLock) -> (r:
        Transaction)
        ensures
            r@.version == version,
            r@.txs_in.len() == txs_in@.len(),
            forall|i: int| 0 <= i < txs_in@.len() ==> r@.txs_in[i] == txs_in@[i]@,
            r@.txs_out.len() == txs_out@.len(),
            forall|i: int| 0 <= i < txs_out@.len() ==> r@.txs_out[i] == txs_out@[i]@,
            r@.lock == lock,
    {
        Transaction { version, txs_in, txs_out, lock }
    }

    /// The format version.
    pub fn get_version(&self) -> (r: u32)
        ensures
            r == self@.version,
    {
        self.version
    }

    /// The inputs.
    pub fn get_in_txs(&self) -> (r: &Vec<TxIn>)
        ensures
            r@.len() == self@.txs_in.len(),
            forall|i: int| 0 <= i < r@.len() ==> r@[i]@ == self@.txs_in[i],
    {
        &self.txs_in
    }

    /// The outputs.
    pub fn get_out_txs(&self) -> (r: &Vec<TxOut>)
        ensures
            r@.len() == self@.txs_out.len(),
            forall|i: int| 0 <= i < r@.len() ==> r@[i]@ == self@.txs_out[i],
    {
        &self.txs_out
    }

    /// The lock field.
    pub fn get_lock(&self) -> (r: TxLock)
        ensures
            r == self@.lock,
    {
        self.lock
    }
}

} // verus!
