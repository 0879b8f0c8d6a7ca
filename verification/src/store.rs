//! The store of a wallet: what it writes of a change set, and how it reads one back.

use vstd::prelude::*;

use crate::anchor::{anchor_of_text, anchor_text, AnchoredTx};
use crate::changeset::{
    descriptor_view, transaction_views, ChangeSet, ChangeSetView, TxGraphChangeSet, TxGraphView,
};
use crate::descriptor::{descriptor_of_text, has_id_if_descriptor, Descriptor};
use crate::error::BdkSqlxError;
use crate::hash::{hash_bytes, hash_to_bytes, DescriptorId};
use crate::local_chain::{
    block_row_views, block_rows_parse, blocks_of_rows, local_chain_changeset_from_postgres,
    local_chain_changeset_persist_to_postgres, local_chain_statements, BlockRow,
};
use crate::network::{network_name, network_of_name, Network};
use crate::number::{signed32, to_signed32, to_unsigned32, unsigned32};
use crate::order::lemma_keys_are_ordered;
use crate::statement::{
    statement_views, KeychainKind, Statement, SELECT_BLOCKS, SELECT_WALLET,
};
use crate::transaction::Transaction;
use crate::tx_graph::{
    tx_graph_changeset_persist_to_postgres, tx_graph_of_rows, tx_graph_query, tx_graph_reply_fits,
    tx_graph_statements, tx_graph_step, AnchorRow, TxGraphRead, TxGraphReply, TxGraphReplyView,
    TxOutRow, TxRow,
};

verus! {

/// The name of a wallet that was given none.
pub const DEFAULT_WALLET_NAME: &'static str = "bdk_pg_wallet";

/// A store: the wallet that it is for, and whether it migrates the database before it reads.
#[derive(Debug, PartialEq, Eq)]
pub struct Store {
    /// The wallet's name.
    pub wallet_name: String,
    /// Whether the database is migrated first.
    pub migration: bool,
}

/// A wallet's name, where one may have been given.
pub open spec fn name_or_default(wallet_name: Option<String>) -> Seq<char> {
    match wallet_name {
        Some(name) => name@,
        None => DEFAULT_WALLET_NAME@,
    }
}

impl Store {
    /// Construct a new [`Store`] for a database that is connected to already.
    pub fn new(wallet_name: Option<String>, migration: bool) -> (r: Result<Store, BdkSqlxError>)
        ensures
            r matches Ok(store) && store.wallet_name@ == name_or_default(wallet_name)
                && store.migration == migration,
            wallet_name matches Some(name) ==> r->Ok_0.wallet_name@ == name@,
            wallet_name is None ==> r->Ok_0.wallet_name@ == "bdk_pg_wallet"@,
    {
        let wallet_name = match wallet_name {
            Some(name) => name,
            None => DEFAULT_WALLET_NAME.to_string(),
        };
        Ok(Store { wallet_name, migration })
    }

    /// Construct a new [`Store`] for a database that is newly connected to: it is migrated first.
    pub fn new_with_url(wallet_name: Option<String>) -> (r: Result<Store, BdkSqlxError>)
        ensures
            r matches Ok(store) && store.wallet_name@ == name_or_default(wallet_name)
                && store.migration,
            wallet_name matches Some(name) ==> r->Ok_0.wallet_name@ == name@,
            wallet_name is None ==> r->Ok_0.wallet_name@ == "bdk_pg_wallet"@,
    {
        let wallet_name = match wallet_name {
            Some(name) => name,
            None => DEFAULT_WALLET_NAME.to_string(),
        };
        Ok(Store { wallet_name, migration: true })
    }
}

/// The statement that stores a keychain's descriptor.
pub open spec fn descriptor_statement(
    wallet_name: Seq<char>,
    descriptor: Descriptor<Seq<char>>,
    keychain: KeychainKind,
) -> Statement<Seq<char>, Seq<u8>> {
    Statement::InsertKeychain {
        wallet_name,
        keychainkind: keychain,
        descriptor: descriptor.text,
        descriptor_id: hash_bytes(descriptor.id),
    }
}

/// Insert keychain descriptors.
pub fn insert_descriptor(
    wallet_name: &str,
    descriptor: &Descriptor,
    keychain: KeychainKind,
) -> (r: Statement)
    ensures
        r@ == descriptor_statement(wallet_name@, descriptor@, keychain),
{
    let id = hash_to_bytes(descriptor.id);
    Statement::InsertKeychain {
        wallet_name: wallet_name.to_string(),
        keychainkind: keychain,
        descriptor: descriptor.text.clone(),
        descriptor_id: vstd::slice::slice_to_vec(vstd::array::array_as_slice(&id)),
    }
}

/// The statement that stores a wallet's network.
pub open spec fn network_statement(wallet_name: Seq<char>, network: Network) -> Statement<
    Seq<char>,
    Seq<u8>,
> {
    Statement::InsertNetwork { wallet_name, name: network_name(network) }
}

/// Insert network.
pub fn insert_network(wallet_name: &str, network: Network) -> (r: Statement)
    ensures
        r@ == network_statement(wallet_name@, network),
{
    Statement::InsertNetwork { wallet_name: wallet_name.to_string(), name: network.name() }
}

/// The statement that stores the last index that a keychain has revealed.
pub open spec fn last_revealed_statement(
    wallet_name: Seq<char>,
    last_revealed: u32,
    keychain: KeychainKind,
) -> Statement<Seq<char>, Seq<u8>> {
    Statement::UpdateLastRevealed {
        last_revealed: signed32(last_revealed),
        wallet_name,
        keychainkind: keychain,
    }
}

/// Update keychain last revealed
pub fn update_last_revealed(
    wallet_name: &str,
    last_revealed: u32,
    keychain: KeychainKind,
) -> (r: Statement)
    ensures
        r@ == last_revealed_statement(wallet_name@, last_revealed, keychain),
{
    Statement::UpdateLastRevealed {
        last_revealed: to_signed32(last_revealed),
        wallet_name: wallet_name.to_string(),
        keychainkind: keychain,
    }
}

/// The statements that store what a change set says of a keychain: its descriptor, if it has
/// one, and the last index revealed for that descriptor, if there is one.
pub open spec fn keychain_statements(
    wallet_name: Seq<char>,
    descriptor: Option<Descriptor<Seq<char>>>,
    last_revealed: Map<DescriptorId, u32>,
    keychain: KeychainKind,
) -> Seq<Statement<Seq<char>, Seq<u8>>> {
    match descriptor {
        Some(descriptor) => if last_revealed.contains_key(descriptor.id) {
            seq![
                descriptor_statement(wallet_name, descriptor, keychain),
                last_revealed_statement(wallet_name, last_revealed[descriptor.id], keychain),
            ]
        } else {
            seq![descriptor_statement(wallet_name, descriptor, keychain)]
        },
        None => Seq::empty(),
    }
}

/// The statement that stores a wallet's network, if there is one.
pub open spec fn network_statements(wallet_name: Seq<char>, network: Option<Network>) -> Seq<
    Statement<Seq<char>, Seq<u8>>,
> {
    match network {
        Some(network) => seq![network_statement(wallet_name, network)],
        None => Seq::empty(),
    }
}

/// The statements that store a change set whose transactions are listed as in `txs`.
pub open spec fn write_statements(
    wallet_name: Seq<char>,
    txs: Seq<Transaction<Seq<u8>>>,
    changeset: ChangeSetView,
) -> Seq<Statement<Seq<char>, Seq<u8>>> {
    keychain_statements(
        wallet_name,
        changeset.descriptor,
        changeset.last_revealed,
        KeychainKind::External,
    ) + keychain_statements(
        wallet_name,
        changeset.change_descriptor,
        changeset.last_revealed,
        KeychainKind::Internal,
    ) + network_statements(wallet_name, changeset.network) + local_chain_statements(
        wallet_name,
        changeset.blocks,
    ) + tx_graph_statements(wallet_name, txs, changeset.tx_graph)
}

/// The statements that store what a change set says of a keychain.
fn persist_keychain(
    wallet_name: &str,
    descriptor: &Option<Descriptor>,
    changeset: &ChangeSet,
    keychain: KeychainKind,
) -> (r: Vec<Statement>)
    ensures
        statement_views(r@) == keychain_statements(
            wallet_name@,
            descriptor_view(*descriptor),
            changeset@.last_revealed,
            keychain,
        ),
{
    proof {
        lemma_keys_are_ordered();
    }
    let mut statements: Vec<Statement> = Vec::new();
    if let Some(descriptor) = descriptor {
        statements.push(insert_descriptor(wallet_name, descriptor, keychain));
        if let Some(last_revealed) = changeset.indexer.last_revealed.get(&descriptor.id) {
            statements.push(update_last_revealed(wallet_name, *last_revealed, keychain));
        }
    }
    assert(statement_views(statements@) =~= keychain_statements(
        wallet_name@,
        descriptor_view(*descriptor),
        changeset@.last_revealed,
        keychain,
    ));
    statements
}

impl Store {
    /// The statements that store the change set, in the order to execute them in, all in one
    /// transaction. `None` where there is nothing to store: then no transaction is begun.
    pub fn write(&self, changeset: &ChangeSet) -> (r: Result<Option<Vec<Statement>>, BdkSqlxError>)
        ensures
            r is Ok,
            r matches Ok(None) ==> changeset@ == ChangeSetView::empty(),
            r matches Ok(Some(statements)) ==> changeset@ != ChangeSetView::empty()
                && statement_views(statements@) == write_statements(
                self.wallet_name@,
                transaction_views(changeset.tx_graph.txs@),
                changeset@,
            ),
            forall|anchored: AnchoredTx| #[trigger]
                changeset@.tx_graph.anchors.contains(anchored) ==> anchor_of_text(
                    anchor_text(anchored.0),
                ) == Some(anchored.0),
    {
        if changeset.is_empty() {
            return Ok(None);
        }
        let wallet_name = self.wallet_name.as_str();
        let mut statements = persist_keychain(
            wallet_name,
            &changeset.descriptor,
            changeset,
            KeychainKind::External,
        );
        let mut internal = persist_keychain(
            wallet_name,
            &changeset.change_descriptor,
            changeset,
            KeychainKind::Internal,
        );
        statements.append(&mut internal);
        if let Some(network) = changeset.network {
            statements.push(insert_network(wallet_name, network));
        }
        let mut blocks = local_chain_changeset_persist_to_postgres(
            wallet_name,
            &changeset.local_chain,
        );
        statements.append(&mut blocks);
        let mut graph = match tx_graph_changeset_persist_to_postgres(
            wallet_name,
            &changeset.tx_graph,
        ) {
            Ok(graph) => graph,
            Err(e) => return Err(e),
        };
        statements.append(&mut graph);
        assert(statement_views(statements@) =~= write_statements(
            self.wallet_name@,
            transaction_views(changeset.tx_graph.txs@),
            changeset@,
        ));
        Ok(Some(statements))
    }
}

/// What the database holds of a wallet: its network, and the descriptor and last revealed index
/// of each keychain.
#[derive(Debug, PartialEq, Eq)]
pub struct WalletRow<T = String> {
    /// The network's name.
    pub network: T,
    /// The text of the descriptor for change addresses.
    pub internal_descriptor: Option<T>,
    /// The last index revealed of the descriptor for change addresses.
    pub internal_last_revealed: Option<i32>,
    /// The text of the descriptor for recipient addresses.
    pub external_descriptor: Option<T>,
    /// The last index revealed of the descriptor for recipient addresses.
    pub external_last_revealed: Option<i32>,
}

/// The view of a text that may be absent.
pub open spec fn text_view(text: Option<String>) -> Option<Seq<char>> {
    match text {
        Some(text) => Some(text@),
        None => None,
    }
}

impl View for WalletRow {
    type V = WalletRow<Seq<char>>;

    open spec fn view(&self) -> WalletRow<Seq<char>> {
        WalletRow {
            network: self.network@,
            internal_descriptor: text_view(self.internal_descriptor),
            internal_last_revealed: self.internal_last_revealed,
            external_descriptor: text_view(self.external_descriptor),
            external_last_revealed: self.external_last_revealed,
        }
    }
}

/// The descriptor in a column, if there is one.
pub open spec fn column_descriptor(text: Option<Seq<char>>) -> Option<Descriptor<Seq<char>>> {
    match text {
        Some(text) => descriptor_of_text(text),
        None => None,
    }
}

/// Whether the text in a column, if there is any, is a descriptor.
pub open spec fn column_parses(text: Option<Seq<char>>) -> bool {
    text is Some ==> column_descriptor(text) is Some
}

/// Whether the text in a column, if it is a descriptor, is one that has an id.
pub open spec fn column_has_id(text: Option<Seq<char>>) -> bool {
    text matches Some(text) ==> has_id_if_descriptor(text)
}

/// The last revealed indices, with the one of a descriptor, if both are there.
pub open spec fn with_last_revealed(
    known: Map<DescriptorId, u32>,
    descriptor: Option<Descriptor<Seq<char>>>,
    last_revealed: Option<i32>,
) -> Map<DescriptorId, u32> {
    match (descriptor, last_revealed) {
        (Some(descriptor), Some(index)) => known.insert(descriptor.id, unsigned32(index)),
        _ => known,
    }
}

/// Whether the texts for descriptors in a row, where there are any, are descriptors.
pub open spec fn row_parses(row: WalletRow<Seq<char>>) -> bool {
    column_parses(row.external_descriptor) && column_parses(row.internal_descriptor)
}

/// Whether a row is one that can be read: its network is one, and the descriptors that are looked
/// at have an id. The internal one is not looked at where the external one is no descriptor.
pub open spec fn row_is_readable(row: WalletRow<Seq<char>>) -> bool {
    &&& network_of_name(row.network) is Some
    &&& column_has_id(row.external_descriptor)
    &&& column_parses(row.external_descriptor) ==> column_has_id(row.internal_descriptor)
}

/// What a row says of a wallet.
pub open spec fn changeset_of_row(row: WalletRow<Seq<char>>) -> ChangeSetView {
    let external = column_descriptor(row.external_descriptor);
    let internal = column_descriptor(row.internal_descriptor);
    ChangeSetView {
        descriptor: external,
        change_descriptor: internal,
        network: network_of_name(row.network),
        last_revealed: with_last_revealed(
            with_last_revealed(Map::empty(), external, row.external_last_revealed),
            internal,
            row.internal_last_revealed,
        ),
        ..ChangeSetView::empty()
    }
}

/// Sets the last revealed index of a descriptor, if one is known.
fn insert_last_revealed(changeset: &mut ChangeSet, id: DescriptorId, last_revealed: Option<i32>)
    ensures
        final(changeset).descriptor == old(changeset).descriptor,
        final(changeset).change_descriptor == old(changeset).change_descriptor,
        final(changeset).network == old(changeset).network,
        final(changeset).local_chain == old(changeset).local_chain,
        final(changeset).tx_graph == old(changeset).tx_graph,
        final(changeset).indexer.last_revealed@ == match last_revealed {
            Some(index) => old(changeset).indexer.last_revealed@.insert(id, unsigned32(index)),
            None => old(changeset).indexer.last_revealed@,
        },
{
    proof {
        lemma_keys_are_ordered();
    }
    if let Some(index) = last_revealed {
        changeset.indexer.last_revealed.insert(id, to_unsigned32(index));
    }
}

impl Store {
    /// The change set with a wallet's network, descriptors and last revealed indices.
    pub fn changeset_from_row(row: &WalletRow) -> (r: Result<ChangeSet, BdkSqlxError>)
        requires
            row_is_readable(row@),
        ensures
            r matches Ok(changeset) ==> changeset.well_formed() && row_parses(row@) && changeset@
                == changeset_of_row(row@),
            r matches Err(e) ==> e is Miniscript && !row_parses(row@),
    {
        let mut changeset = ChangeSet::empty();
        changeset.network = Network::from_name(&row.network);
        if let Some(text) = &row.external_descriptor {
            let descriptor = match Descriptor::parse(text) {
                Ok(descriptor) => descriptor,
                Err(e) => return Err(e),
            };
            insert_last_revealed(&mut changeset, descriptor.id, row.external_last_revealed);
            changeset.descriptor = Some(descriptor);
        }
        if let Some(text) = &row.internal_descriptor {
            let descriptor = match Descriptor::parse(text) {
                Ok(descriptor) => descriptor,
                Err(e) => return Err(e),
            };
            insert_last_revealed(&mut changeset, descriptor.id, row.internal_last_revealed);
            changeset.change_descriptor = Some(descriptor);
        }
        assert(changeset@ =~= changeset_of_row(row@));
        Ok(changeset)
    }

    /// Whether a row is one that can be read.
    pub fn can_read_row(row: &WalletRow) -> (r: bool)
        ensures
            r == row_is_readable(row@),
    {
        if Network::from_name(&row.network).is_none() {
            return false;
        }
        if let Some(text) = &row.external_descriptor {
            match Descriptor::parse_if_it_has_id(text) {
                Ok(Some(_)) => {},
                Ok(None) => return false,
                Err(_) => return true,
            }
        }
        if let Some(text) = &row.internal_descriptor {
            return Descriptor::can_have_id(text);
        }
        true
    }
}

/// How far a wallet has been read.
#[derive(Debug, PartialEq, Eq)]
pub enum WalletRead<C = ChangeSet, G = TxGraphChangeSet> {
    /// The database is to be migrated.
    Migrate,
    /// The wallet's row comes next.
    Wallet,
    /// Of what is known so far, the graph of transactions is being read.
    TxGraph(C, TxGraphRead<G>),
    /// To what is known so far, the chain of blocks comes next.
    LocalChain(C),
    /// All is read.
    Done(C),
}

impl View for WalletRead {
    type V = WalletRead<ChangeSetView, TxGraphView>;

    open spec fn view(&self) -> WalletRead<ChangeSetView, TxGraphView> {
        match *self {
            WalletRead::Migrate => WalletRead::Migrate,
            WalletRead::Wallet => WalletRead::Wallet,
            WalletRead::TxGraph(changeset, graph) => WalletRead::TxGraph(changeset@, graph@),
            WalletRead::LocalChain(changeset) => WalletRead::LocalChain(changeset@),
            WalletRead::Done(changeset) => WalletRead::Done(changeset@),
        }
    }
}

/// What has been done for a wallet to be read on.
#[derive(Debug, PartialEq, Eq)]
pub enum WalletReply<W = WalletRow, R = TxGraphReply, B = Vec<BlockRow>> {
    /// The database is migrated.
    Migrated,
    /// The wallet's row, if there is one.
    Wallet(Option<W>),
    /// Rows of the graph of transactions.
    TxGraph(R),
    /// The rows of `block`.
    Blocks(B),
}

/// What the rows of a reply hold.
pub type WalletReplyView = WalletReply<
    WalletRow<Seq<char>>,
    TxGraphReplyView,
    Seq<BlockRow<Seq<char>>>,
>;

impl View for WalletReply {
    type V = WalletReplyView;

    open spec fn view(&self) -> WalletReplyView {
        match *self {
            WalletReply::Migrated => WalletReply::Migrated,
            WalletReply::Wallet(Some(row)) => WalletReply::Wallet(Some(row@)),
            WalletReply::Wallet(None) => WalletReply::Wallet(None),
            WalletReply::TxGraph(reply) => WalletReply::TxGraph(reply@),
            WalletReply::Blocks(rows) => WalletReply::Blocks(block_row_views(rows@)),
        }
    }
}

/// What is to be done for a wallet to be read on.
#[derive(Debug, PartialEq, Eq)]
pub enum WalletAction<S = &'static str, T = String> {
    /// Migrate the database.
    Migrate,
    /// Make a query.
    Query {
        /// The query's SQL.
        sql: S,
        /// The value that it binds, if it binds one.
        bind: Option<T>,
    },
    /// Nothing: all is read.
    Finish,
}

impl View for WalletAction {
    type V = WalletAction<Seq<char>, Seq<char>>;

    open spec fn view(&self) -> WalletAction<Seq<char>, Seq<char>> {
        match *self {
            WalletAction::Migrate => WalletAction::Migrate,
            WalletAction::Query { sql, bind } => WalletAction::Query {
                sql: sql@,
                bind: text_view(bind),
            },
            WalletAction::Finish => WalletAction::Finish,
        }
    }
}

/// How the reading of a wallet starts: with a migration, if one is wanted.
pub open spec fn read_start<C, G>(migration: bool) -> WalletRead<C, G> {
    if migration {
        WalletRead::Migrate
    } else {
        WalletRead::Wallet
    }
}

/// What is to be done next for the wallet with the given name. Only the query for the wallet's
/// row binds that name.
pub open spec fn read_action<C, G>(
    wallet_name: Seq<char>,
    state: WalletRead<C, G>,
) -> WalletAction<Seq<char>, Seq<char>> {
    match state {
        WalletRead::Migrate => WalletAction::Migrate,
        WalletRead::Wallet => WalletAction::Query {
            sql: SELECT_WALLET@,
            bind: Some(wallet_name),
        },
        WalletRead::TxGraph(_, graph) => match tx_graph_query(graph) {
            Some(sql) => WalletAction::Query { sql, bind: None },
            None => WalletAction::Finish,
        },
        WalletRead::LocalChain(_) => WalletAction::Query { sql: SELECT_BLOCKS@, bind: None },
        WalletRead::Done(_) => WalletAction::Finish,
    }
}

/// Whether a reply is one to what was to be done next.
pub open spec fn read_reply_fits<C, G, W, X, O, A, B>(
    state: WalletRead<C, G>,
    reply: WalletReply<W, TxGraphReply<X, O, A>, B>,
) -> bool {
    match state {
        WalletRead::Migrate => reply is Migrated,
        WalletRead::Wallet => reply is Wallet,
        WalletRead::TxGraph(_, graph) => reply matches WalletReply::TxGraph(reply)
            && tx_graph_reply_fits(graph, reply),
        WalletRead::LocalChain(_) => reply is Blocks,
        WalletRead::Done(_) => false,
    }
}

/// How far a wallet has been read after a reply, or `None` where a text in the reply is not what
/// it should be. A wallet without a row is read at once, and empty.
pub open spec fn read_step(
    state: WalletRead<ChangeSetView, TxGraphView>,
    reply: WalletReplyView,
) -> Option<WalletRead<ChangeSetView, TxGraphView>> {
    match (state, reply) {
        (WalletRead::Migrate, WalletReply::Migrated) => Some(WalletRead::Wallet),
        (WalletRead::Wallet, WalletReply::Wallet(None)) => Some(
            WalletRead::Done(ChangeSetView::empty()),
        ),
        (WalletRead::Wallet, WalletReply::Wallet(Some(row))) => if row_parses(row) {
            Some(WalletRead::TxGraph(changeset_of_row(row), TxGraphRead::Txs))
        } else {
            None
        },
        (WalletRead::TxGraph(changeset, graph), WalletReply::TxGraph(reply)) => match tx_graph_step(
            graph,
            reply,
        ) {
            Some(TxGraphRead::Done(tx_graph)) => Some(
                WalletRead::LocalChain(ChangeSetView { tx_graph, ..changeset }),
            ),
            Some(graph) => Some(WalletRead::TxGraph(changeset, graph)),
            None => None,
        },
        (WalletRead::LocalChain(changeset), WalletReply::Blocks(rows)) => if block_rows_parse(
            rows,
        ) {
            Some(
                WalletRead::Done(ChangeSetView { blocks: blocks_of_rows(rows), ..changeset }),
            )
        } else {
            None
        },
        _ => None,
    }
}

/// Whether a reply holds no row of a wallet that cannot be read.
pub open spec fn reply_is_readable(reply: WalletReplyView) -> bool {
    reply matches WalletReply::Wallet(Some(row)) ==> row_is_readable(row)
}

impl WalletRead {
    /// Whether what has been read so far lists every transaction once, and the graph is left when
    /// it is read.
    pub open spec fn well_formed(self) -> bool {
        match self {
            WalletRead::Migrate => true,
            WalletRead::Wallet => true,
            WalletRead::TxGraph(changeset, graph) => changeset.well_formed() && graph.well_formed()
                && !(graph is Done),
            WalletRead::LocalChain(changeset) => changeset.well_formed(),
            WalletRead::Done(changeset) => changeset.well_formed(),
        }
    }
}

impl Store {
    /// How the reading of the store's wallet starts.
    pub fn initialize(&self) -> (r: WalletRead)
        ensures
            r.well_formed(),
            r == read_start::<ChangeSet, TxGraphChangeSet>(self.migration),
            self.migration ==> r is Migrate,
            !self.migration ==> r is Wallet,
    {
        if self.migration {
            WalletRead::Migrate
        } else {
            WalletRead::Wallet
        }
    }

    /// What is to be done next for the store's wallet to be read.
    pub fn next_action(&self, state: &WalletRead) -> (r: WalletAction)
        ensures
            r@ == read_action(self.wallet_name@, *state),
            r@ == read_action(self.wallet_name@, state@),
            *state is Migrate <==> r is Migrate,
            *state is Wallet ==> r@ == (WalletAction::<Seq<char>, Seq<char>>::Query {
                sql: SELECT_WALLET@,
                bind: Some(self.wallet_name@),
            }),
            *state is LocalChain ==> r@ == (WalletAction::<Seq<char>, Seq<char>>::Query {
                sql: SELECT_BLOCKS@,
                bind: None,
            }),
            *state is Done ==> r is Finish,
    {
        match state {
            WalletRead::Migrate => WalletAction::Migrate,
            WalletRead::Wallet => WalletAction::Query {
                sql: SELECT_WALLET,
                bind: Some(self.wallet_name.clone()),
            },
            WalletRead::TxGraph(_, graph) => match graph.query() {
                Some(sql) => WalletAction::Query { sql, bind: None },
                None => WalletAction::Finish,
            },
            WalletRead::LocalChain(_) => WalletAction::Query { sql: SELECT_BLOCKS, bind: None },
            WalletRead::Done(_) => WalletAction::Finish,
        }
    }

    /// Reads a wallet on, from what was replied. `Ok(None)` where the reply is the row of a wallet
    /// that cannot be read.
    pub fn migrate_and_read(state: WalletRead, reply: WalletReply) -> (r: Result<
        Option<WalletRead>,
        BdkSqlxError,
    >)
        requires
            state.well_formed(),
            read_reply_fits(state, reply),
        ensures
            r matches Ok(Some(next)) ==> next.well_formed() && reply_is_readable(reply@)
                && read_step(state@, reply@) == Some(next@),
            r matches Ok(None) ==> !reply_is_readable(reply@),
            r matches Err(e) ==> reply_is_readable(reply@) && read_step(state@, reply@) is None
                && (if state is Wallet {
                e is Miniscript
            } else {
                e is HexToArray
            }),
    {
        match (state, reply) {
            (WalletRead::Migrate, _) => Ok(Some(WalletRead::Wallet)),
            (WalletRead::Wallet, WalletReply::Wallet(None)) => Ok(
                Some(WalletRead::Done(ChangeSet::empty())),
            ),
            (WalletRead::Wallet, WalletReply::Wallet(Some(row))) => {
                if !Store::can_read_row(&row) {
                    return Ok(None);
                }
                match Store::changeset_from_row(&row) {
                    Ok(changeset) => Ok(Some(WalletRead::TxGraph(changeset, TxGraphRead::Txs))),
                    Err(e) => Err(e),
                }
            },
            (WalletRead::TxGraph(mut changeset, graph), WalletReply::TxGraph(reply)) => {
                match graph.step(reply) {
                    Ok(TxGraphRead::Done(tx_graph)) => {
                        changeset.tx_graph = tx_graph;
                        Ok(Some(WalletRead::LocalChain(changeset)))
                    },
                    Ok(graph) => Ok(Some(WalletRead::TxGraph(changeset, graph))),
                    Err(e) => Err(e),
                }
            },
            (WalletRead::LocalChain(mut changeset), WalletReply::Blocks(rows)) => {
                match local_chain_changeset_from_postgres(&rows) {
                    Ok(local_chain) => {
                        changeset.local_chain = local_chain;
                        Ok(Some(WalletRead::Done(changeset)))
                    },
                    Err(e) => Err(e),
                }
            },
            (state, _) => Ok(Some(state)),
        }
    }
}

/// What the rows of the database say of a wallet, if their texts are what they should be. A wallet
/// without a row of its own is empty, whatever the other tables hold.
pub open spec fn wallet_of_rows(
    row: Option<WalletRow<Seq<char>>>,
    txs: Seq<TxRow<Seq<char>, Seq<u8>>>,
    txouts: Seq<TxOutRow<Seq<char>, Seq<u8>>>,
    anchors: Seq<AnchorRow<Seq<char>>>,
    blocks: Seq<BlockRow<Seq<char>>>,
) -> Option<ChangeSetView> {
    match row {
        Some(row) => match tx_graph_of_rows(txs, txouts, anchors) {
            Some(tx_graph) => if row_parses(row) && block_rows_parse(blocks) {
                Some(
                    ChangeSetView {
                        tx_graph,
                        blocks: blocks_of_rows(blocks),
                        ..changeset_of_row(row)
                    },
                )
            } else {
                None
            },
            None => None,
        },
        None => Some(ChangeSetView::empty()),
    }
}

/// How far a wallet has been read after a reply, if it was read up to there.
pub open spec fn read_on(
    state: Option<WalletRead<ChangeSetView, TxGraphView>>,
    reply: WalletReplyView,
) -> Option<WalletRead<ChangeSetView, TxGraphView>> {
    match state {
        Some(state) => read_step(state, reply),
        None => None,
    }
}

/// Reading a wallet one action at a time gives what all the rows at once say: the same change set,
/// or an error on the same rows. A wallet without a row is read once its row is asked for.
pub proof fn law_read_steps(
    migration: bool,
    row: Option<WalletRow<Seq<char>>>,
    txs: Seq<TxRow<Seq<char>, Seq<u8>>>,
    txouts: Seq<TxOutRow<Seq<char>, Seq<u8>>>,
    anchors: Seq<AnchorRow<Seq<char>>>,
    blocks: Seq<BlockRow<Seq<char>>>,
)
    ensures
        ({
            let start = Some(read_start(migration));
            let migrated = if migration {
                read_on(start, WalletReply::Migrated)
            } else {
                start
            };
            let after_row = read_on(migrated, WalletReply::Wallet(row));
            let after_txs = read_on(after_row, WalletReply::TxGraph(TxGraphReply::Txs(txs)));
            let after_txouts = read_on(
                after_txs,
                WalletReply::TxGraph(TxGraphReply::TxOuts(txouts)),
            );
            let after_anchors = read_on(
                after_txouts,
                WalletReply::TxGraph(TxGraphReply::Anchors(anchors)),
            );
            let end = if row is Some {
                read_on(after_anchors, WalletReply::Blocks(blocks))
            } else {
                after_row
            };
            end == match wallet_of_rows(row, txs, txouts, anchors, blocks) {
                Some(changeset) => Some(WalletRead::<ChangeSetView, TxGraphView>::Done(changeset)),
                None => None,
            }
        }),
{
}

} // verus!
