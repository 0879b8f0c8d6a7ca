//! What a wallet hands over to be stored, and gets back.

use std::collections::{BTreeMap, BTreeSet};

use vstd::prelude::*;

use crate::anchor::AnchoredTx;
use crate::descriptor::Descriptor;
use crate::hash::{BlockHash, DescriptorId, Txid};
use crate::network::Network;
use crate::transaction::{OutPoint, Transaction, TxOut};

verus! {

/// Changes to the chain of blocks.
#[derive(Debug, PartialEq, Eq)]
pub struct LocalChainChangeSet {
    /// By height, the hash of a block that was added, or `None` for one that was removed.
    pub blocks: BTreeMap<u32, Option<BlockHash>>,
}

/// Changes to the graph of transactions.
#[derive(Debug, PartialEq, Eq)]
pub struct TxGraphChangeSet {
    /// Added transactions, each once.
    pub txs: Vec<Transaction>,
    /// Added outputs.
    pub txouts: BTreeMap<OutPoint, TxOut>,
    /// Added anchors.
    pub anchors: BTreeSet<AnchoredTx>,
    /// When transactions were last seen, as unix timestamps.
    pub last_seen: BTreeMap<Txid, u64>,
}

/// Changes to the index of keychains.
#[derive(Debug, PartialEq, Eq)]
pub struct IndexerChangeSet {
    /// The last revealed index of derivation, by the descriptor's id.
    pub last_revealed: BTreeMap<DescriptorId, u32>,
}

/// Changes to a wallet.
#[derive(Debug, PartialEq, Eq)]
pub struct ChangeSet {
    /// Descriptor for recipient addresses.
    pub descriptor: Option<Descriptor>,
    /// Descriptor for change addresses.
    pub change_descriptor: Option<Descriptor>,
    /// The network of the transaction data.
    pub network: Option<Network>,
    /// Changes to the chain of blocks.
    pub local_chain: LocalChainChangeSet,
    /// Changes to the graph of transactions.
    pub tx_graph: TxGraphChangeSet,
    /// Changes to the index of keychains.
    pub indexer: IndexerChangeSet,
}

/// What a change set says of the graph of transactions.
#[verifier::ext_equal]
pub struct TxGraphView {
    pub txs: Set<Transaction<Seq<u8>>>,
    pub txouts: Map<OutPoint, TxOut<Seq<u8>>>,
    pub anchors: Set<AnchoredTx>,
    pub last_seen: Map<Txid, u64>,
}

/// What a change set says.
#[verifier::ext_equal]
pub struct ChangeSetView {
    pub descriptor: Option<Descriptor<Seq<char>>>,
    pub change_descriptor: Option<Descriptor<Seq<char>>>,
    pub network: Option<Network>,
    pub blocks: Map<u32, Option<BlockHash>>,
    pub tx_graph: TxGraphView,
    pub last_revealed: Map<DescriptorId, u32>,
}

/// The views of a list of transactions.
pub open spec fn transaction_views(txs: Seq<Transaction>) -> Seq<Transaction<Seq<u8>>> {
    txs.map_values(|tx: Transaction| tx@)
}

/// The views of the outputs in a map.
pub open spec fn txout_views(txouts: Map<OutPoint, TxOut>) -> Map<OutPoint, TxOut<Seq<u8>>> {
    txouts.map_values(|txout: TxOut| txout@)
}

/// The view of a descriptor that may be absent.
pub open spec fn descriptor_view(descriptor: Option<Descriptor>) -> Option<Descriptor<Seq<char>>> {
    match descriptor {
        Some(d) => Some(d@),
        None => None,
    }
}

impl View for TxGraphChangeSet {
    type V = TxGraphView;

    open spec fn view(&self) -> TxGraphView {
        TxGraphView {
            txs: transaction_views(self.txs@).to_set(),
            txouts: txout_views(self.txouts@),
            anchors: self.anchors@,
            last_seen: self.last_seen@,
        }
    }
}

impl View for ChangeSet {
    type V = ChangeSetView;

    open spec fn view(&self) -> ChangeSetView {
        ChangeSetView {
            descriptor: descriptor_view(self.descriptor),
            change_descriptor: descriptor_view(self.change_descriptor),
            network: self.network,
            blocks: self.local_chain.blocks@,
            tx_graph: self.tx_graph@,
            last_revealed: self.indexer.last_revealed@,
        }
    }
}

impl TxGraphView {
    /// The view of a change set that changes nothing.
    pub open spec fn empty() -> TxGraphView {
        TxGraphView {
            txs: Set::empty(),
            txouts: Map::empty(),
            anchors: Set::empty(),
            last_seen: Map::empty(),
        }
    }
}

impl ChangeSetView {
    /// The view of a change set that changes nothing.
    pub open spec fn empty() -> ChangeSetView {
        ChangeSetView {
            descriptor: None,
            change_descriptor: None,
            network: None,
            blocks: Map::empty(),
            tx_graph: TxGraphView::empty(),
            last_revealed: Map::empty(),
        }
    }
}

impl TxGraphChangeSet {
    /// Whether every transaction is listed once.
    pub open spec fn well_formed(self) -> bool {
        transaction_views(self.txs@).no_duplicates()
    }

    /// A change set that changes nothing.
    pub fn empty() -> (r: TxGraphChangeSet)
        ensures
            r.well_formed(),
            r.txs@ == Seq::<Transaction>::empty(),
            r@ == TxGraphView::empty(),
    {
        let r = TxGraphChangeSet {
            txs: Vec::new(),
            txouts: BTreeMap::new(),
            anchors: BTreeSet::new(),
            last_seen: BTreeMap::new(),
        };
        assert(r@ =~= TxGraphView::empty());
        r
    }

    /// Whether nothing is changed.
    pub fn is_empty(&self) -> (r: bool)
        ensures
            r == (self@ == TxGraphView::empty()),
    {
        let r = self.txs.is_empty() && self.txouts.is_empty() && self.anchors.is_empty()
            && self.last_seen.is_empty();
        proof {
            if r {
                assert(self@ =~= TxGraphView::empty());
            }
            if self.txs@.len() > 0 {
                assert(self@.txs.contains(transaction_views(self.txs@)[0]));
            }
            assert(self@.txouts.dom() =~= self.txouts@.dom());
        }
        r
    }
}

impl ChangeSet {
    /// Whether every transaction is listed once.
    pub open spec fn well_formed(self) -> bool {
        self.tx_graph.well_formed()
    }

    /// A change set that changes nothing.
    pub fn empty() -> (r: ChangeSet)
        ensures
            r.well_formed(),
            r.tx_graph.txs@ == Seq::<Transaction>::empty(),
            r@ == ChangeSetView::empty(),
    {
        let r = ChangeSet {
            descriptor: None,
            change_descriptor: None,
            network: None,
            local_chain: LocalChainChangeSet { blocks: BTreeMap::new() },
            tx_graph: TxGraphChangeSet::empty(),
            indexer: IndexerChangeSet { last_revealed: BTreeMap::new() },
        };
        assert(r@ =~= ChangeSetView::empty());
        r
    }

    /// Whether nothing is changed.
    pub fn is_empty(&self) -> (r: bool)
        ensures
            r == (self@ == ChangeSetView::empty()),
    {
        let r = self.descriptor.is_none() && self.change_descriptor.is_none()
            && self.network.is_none() && self.local_chain.blocks.is_empty()
            && self.tx_graph.is_empty() && self.indexer.last_revealed.is_empty();
        proof {
            if r {
                assert(self@ =~= ChangeSetView::empty());
            }
        }
        r
    }
}

} // verus!
