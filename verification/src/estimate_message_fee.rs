//! Messages from L1 and the estimate of their fee.
use vstd::prelude::*;
use crate::big_endian::{be_value, lemma_be_value_bound, lemma_be_value_concat, lemma_be_value_zeros, lemma_pow256_values, pow256};
use crate::error::Error;
use crate::felt::{prime, Felt};
use crate::hash::felt_values;
use crate::patricia_key::{patricia_key_bound, ContractAddress};

verus! {

/// The unit of a price.
#[derive(Debug, Clone, Copy, PartialEq, Eq, Structural)]
pub enum PriceUnit {
    Wei,
    Fri,
}

/// An estimate of a fee.
#[derive(Debug, Clone, Copy)]
pub struct FeeEstimate {
    pub gas_consumed: Felt,
    pub gas_price: Felt,
    pub overall_fee: Felt,
    pub unit: PriceUnit,
}

/// An estimate of a fee, as the ledger hands it out.
#[derive(Debug, Clone, Copy)]
pub struct FeeEstimateWrapper {
    inner: FeeEstimate,
}

impl FeeEstimateWrapper {
    /// The estimate itself.
    pub closed spec fn estimate(&self) -> FeeEstimate {
        self.inner
    }

    /// The estimate for the gas and the price given, in Wei.
    pub fn new_in_wei_units(gas_consumed: u64, gas_price: u64) -> (r: FeeEstimateWrapper)
        ensures
            r.estimate().gas_consumed@ == gas_consumed,
            r.estimate().gas_price@ == gas_price,
            r.estimate().overall_fee@ == gas_consumed * gas_price,
            r.estimate().unit == PriceUnit::Wei,
    {
        FeeEstimateWrapper::new(gas_consumed, gas_price, PriceUnit::Wei)
    }

    /// The estimate for the gas and the price given, in Fri.
    pub fn new_in_strk_units(gas_consumed: u64, gas_price: u64) -> (r: FeeEstimateWrapper)
        ensures
            r.estimate().gas_consumed@ == gas_consumed,
            r.estimate().gas_price@ == gas_price,
            r.estimate().overall_fee@ == gas_consumed * gas_price,
            r.estimate().unit == PriceUnit::Fri,
    {
        FeeEstimateWrapper::new(gas_consumed, gas_price, PriceUnit::Fri)
    }

    /// The estimate for the gas and the price given: the overall fee is their product.
    pub fn new(gas_consumed: u64, gas_price: u64, unit: PriceUnit) -> (r: FeeEstimateWrapper)
        ensures
            r.estimate().gas_consumed@ == gas_consumed,
            r.estimate().gas_price@ == gas_price,
            r.estimate().overall_fee@ == gas_consumed * gas_price,
            r.estimate().unit == unit,
    {
        assert(gas_consumed * gas_price <= 0xffff_ffff_ffff_ffff * 0xffff_ffff_ffff_ffff)
            by (nonlinear_arith)
            requires
                gas_consumed <= 0xffff_ffff_ffff_ffff,
                gas_price <= 0xffff_ffff_ffff_ffff,
        ;
        let overall: u128 = (gas_consumed as u128) * (gas_price as u128);
        FeeEstimateWrapper {
            inner: FeeEstimate {
                gas_consumed: Felt::from_u128(gas_consumed as u128),
                gas_price: Felt::from_u128(gas_price as u128),
                overall_fee: Felt::from_u128(overall),
                unit,
            },
        }
    }

    /// The estimate itself.
    pub fn get_estimate(&self) -> (r: FeeEstimate)
        ensures
            r == self.estimate(),
    {
        self.inner
    }
}

/// An address of L1: 20 bytes.
#[derive(Debug, Clone, Copy, PartialEq, Eq)]
pub struct EthAddressWrapper {
    pub inner: [u8; 20],
}

impl EthAddressWrapper {
    /// The address of the bytes given.
    pub fn new(bytes: [u8; 20]) -> (r: EthAddressWrapper)
        ensures
            r.inner == bytes,
    {
        EthAddressWrapper { inner: bytes }
    }

    /// The field element that stands for the address: the number that its
    /// 20 bytes spell.
    pub fn to_felt(&self) -> (r: Felt)
        ensures
            r@ == be_value(self.inner@),
    {
        let mut bytes: [u8; 32] = [0u8; 32];
        let mut i: usize = 0;
        while i < 20
            invariant
                i <= 20,
                forall|j: int| 0 <= j < 12 ==> bytes@[j] == 0,
                forall|j: int| 0 <= j < i ==> bytes@[12 + j] == self.inner@[j],
            decreases 20 - i,
        {
            bytes[i + 12] = self.inner[i];
            i += 1;
        }
        proof {
            let head = bytes@.take(12);
            assert(bytes@ =~= head + self.inner@);
            lemma_be_value_concat(head, self.inner@);
            lemma_be_value_zeros(head);
            lemma_be_value_bound(self.inner@);
            lemma_pow256_values();
            assert(0 * pow256(20) == 0);
        }
        Felt::from_canonical_bytes(bytes)
    }
}

/// A mark of a block by name.
#[derive(Debug, Clone, Copy, PartialEq, Eq)]
pub enum BlockTag {
    Latest,
    Pending,
}

/// A mark of a block.
#[derive(Debug, Clone, Copy)]
pub enum BlockId {
    Hash(Felt),
    Number(u64),
    Tag(BlockTag),
}

/// A message from L1 to a contract.
#[derive(Debug, Clone)]
pub struct MsgFromL1 {
    pub from_address: EthAddressWrapper,
    pub to_address: Felt,
    pub entry_point_selector: Felt,
    pub payload: Vec<Felt>,
}

/// A request for the fee of a message from L1, as of a block.
#[derive(Debug, Clone)]
pub struct EstimateMessageFeeRequest {
    pub message: MsgFromL1,
    pub block_id: BlockId,
}

/// A request for the fee of a message from L1, as the ledger takes it.
#[derive(Debug, Clone)]
pub struct EstimateMessageFeeRequestWrapper {
    inner: EstimateMessageFeeRequest,
}

/// The transaction through which a contract handles a message from L1.
#[derive(Debug, Clone)]
pub struct L1HandlerTransaction {
    pub contract_address: ContractAddress,
    pub entry_point_selector: Felt,
    pub calldata: Vec<Felt>,
    pub paid_fee_on_l1: u128,
    pub tx_hash: Option<Felt>,
}

/// The calldata of the handler of a message: the sender, then the payload.
pub open spec fn l1_handler_calldata(from_address: Seq<u8>, payload: Seq<nat>) -> Seq<nat> {
    seq![be_value(from_address)] + payload
}

/// The calldata of a handler starts with the sender, which as the number of
/// 20 bytes fits the field, and goes on with the payload in its order.
pub proof fn lemma_l1_handler_calldata(from_address: Seq<u8>, payload: Seq<nat>)
    requires
        from_address.len() == 20,
    ensures
        l1_handler_calldata(from_address, payload)[0] == be_value(from_address),
        l1_handler_calldata(from_address, payload).skip(1) == payload,
        be_value(from_address) < prime(),
{
    assert(l1_handler_calldata(from_address, payload).skip(1) =~= payload);
    lemma_be_value_bound(from_address);
    lemma_pow256_values();
}

impl EstimateMessageFeeRequestWrapper {
    /// The request itself.
    pub closed spec fn request(&self) -> EstimateMessageFeeRequest {
        self.inner
    }

    /// The request for the message `msg_from_l1` as of the block `block_id`.
    pub fn new(block_id: BlockId, msg_from_l1: MsgFromL1) -> (r: EstimateMessageFeeRequestWrapper)
        ensures
            r.request().message == msg_from_l1,
            r.request().block_id == block_id,
    {
        EstimateMessageFeeRequestWrapper {
            inner: EstimateMessageFeeRequest { message: msg_from_l1, block_id },
        }
    }

    /// The sender of the message.
    pub fn get_from_address(&self) -> (r: EthAddressWrapper)
        ensures
            r == self.request().message.from_address,
    {
        self.inner.message.from_address
    }

    /// The contract to which the message goes.
    pub fn get_to_address(&self) -> (r: Felt)
        ensures
            r == self.request().message.to_address,
    {
        self.inner.message.to_address
    }

    /// The selector of the function that handles the message.
    pub fn get_entry_point_selector(&self) -> (r: Felt)
        ensures
            r == self.request().message.entry_point_selector,
    {
        self.inner.message.entry_point_selector
    }

    /// The payload of the message, in its order.
    pub fn get_payload(&self) -> (r: Vec<Felt>)
        ensures
            r@ == self.request().message.payload@,
    {
        let payload = &self.inner.message.payload;
        let mut r: Vec<Felt> = Vec::new();
        let mut i: usize = 0;
        while i < payload.len()
            invariant
                i <= payload.len(),
                r@ == payload@.take(i as int),
            decreases payload.len() - i,
        {
            r.push(payload[i]);
            assert(payload@.take(i + 1) =~= payload@.take(i as int).push(payload@[i as int]));
            i += 1;
        }
        assert(payload@ =~= payload@.take(payload.len() as int));
        r
    }

    /// The block as of which the fee is asked.
    pub fn get_block_id(&self) -> (r: &BlockId)
        ensures
            *r == self.request().block_id,
    {
        &self.inner.block_id
    }

    /// The message as it came.
    pub fn get_raw_message(&self) -> (r: &MsgFromL1)
        ensures
            *r == self.request().message,
    {
        &self.inner.message
    }

    /// The transaction that hands the message to its contract: the calldata
    /// is the sender and then the payload, the fee paid on L1 is 1, the
    /// hash is unset. A message to an address out of range has none.
    pub fn create_blockifier_l1_transaction(&self) -> (r: Result<L1HandlerTransaction, Error>)
        ensures
            self.request().message.to_address@ < patricia_key_bound() ==> (r matches Ok(tx)
                && tx.contract_address@ == self.request().message.to_address@
                && tx.entry_point_selector@ == self.request().message.entry_point_selector@
                && felt_values(tx.calldata@) == l1_handler_calldata(
                self.request().message.from_address.inner@,
                felt_values(self.request().message.payload@),
            ) && tx.paid_fee_on_l1 == 1 && tx.tx_hash is None),
            self.request().message.to_address@ >= patricia_key_bound() ==> r == Err::<
                L1HandlerTransaction,
                Error,
            >(Error::InvalidFeltEncoding),
    {
        let contract_address = match ContractAddress::new(self.get_to_address()) {
            Ok(address) => address,
            Err(e) => {
                return Err(e);
            },
        };
        let sender = self.get_from_address().to_felt();
        let payload = self.get_payload();
        let mut calldata: Vec<Felt> = Vec::new();
        calldata.push(sender);
        let mut i: usize = 0;
        while i < payload.len()
            invariant
                i <= payload.len(),
                calldata@ == seq![sender] + payload@.take(i as int),
            decreases payload.len() - i,
        {
            calldata.push(payload[i]);
            assert(payload@.take(i + 1) =~= payload@.take(i as int).push(payload@[i as int]));
            assert(calldata@ =~= seq![sender] + payload@.take(i + 1));
            i += 1;
        }
        proof {
            assert(payload@ =~= payload@.take(payload.len() as int));
            assert(felt_values(calldata@) =~= l1_handler_calldata(
                self.request().message.from_address.inner@,
                felt_values(self.request().message.payload@),
            ));
        }
        Ok(
            L1HandlerTransaction {
                contract_address,
                entry_point_selector: self.get_entry_point_selector(),
                calldata,
                paid_fee_on_l1: 1,
                tx_hash: None,
            },
        )
    }
}

} // verus!
