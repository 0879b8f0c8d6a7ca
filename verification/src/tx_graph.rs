//! Storing and reading the graph of transactions.

use std::collections::{BTreeMap, BTreeSet};

use vstd::prelude::*;
use vstd::std_specs::iter::IteratorSpec;

use crate::anchor::{anchor_from_json, anchor_of_text, anchor_text, anchor_to_json, AnchoredTx};
use crate::changeset::{transaction_views, txout_views, TxGraphChangeSet, TxGraphView};
use crate::error::BdkSqlxError;
use crate::hash::{block_hash_text, hash_of_text, hash_text, parse_txid, txid_text, Txid};
use crate::number::{
    signed32, signed64, to_signed32, to_signed64, to_unsigned32, to_unsigned64, unsigned32,
    unsigned64,
};
use crate::order::{key_order, lemma_keys_are_ordered, lemma_map_walk, lemma_set_walk};
use crate::statement::{statement_views, Statement, SELECT_ANCHORS, SELECT_TXOUTS, SELECT_TXS};
use crate::transaction::{decoded_transaction, OutPoint, Transaction, TxOut};

verus! {

/// A row of the table `tx`.
#[derive(Debug, PartialEq, Eq)]
pub struct TxRow<T = String, B = Vec<u8>> {
    /// The text of the transaction's id.
    pub txid: T,
    /// The transaction's encoding, if it is known.
    pub whole_tx: Option<B>,
    /// When the transaction was last seen, if it was.
    pub last_seen: Option<i64>,
}

impl View for TxRow {
    type V = TxRow<Seq<char>, Seq<u8>>;

    open spec fn view(&self) -> TxRow<Seq<char>, Seq<u8>> {
        TxRow {
            txid: self.txid@,
            whole_tx: match self.whole_tx {
                Some(bytes) => Some(bytes@),
                None => None,
            },
            last_seen: self.last_seen,
        }
    }
}

/// The views of a list of rows of `tx`.
pub open spec fn tx_row_views(rows: Seq<TxRow>) -> Seq<TxRow<Seq<char>, Seq<u8>>> {
    rows.map_values(|row: TxRow| row@)
}

/// The transaction in a row, if there is one: bytes that do not decode are passed over.
pub open spec fn row_transaction(row: TxRow<Seq<char>, Seq<u8>>) -> Option<Transaction<Seq<u8>>> {
    match row.whole_tx {
        Some(bytes) => decoded_transaction(bytes),
        None => None,
    }
}

/// What a change set says of the graph, after a row of `tx`.
pub open spec fn with_tx_row(graph: TxGraphView, row: TxRow<Seq<char>, Seq<u8>>) -> TxGraphView {
    TxGraphView {
        txs: match row_transaction(row) {
            Some(tx) => graph.txs.insert(tx),
            None => graph.txs,
        },
        last_seen: match row.last_seen {
            Some(last_seen) => graph.last_seen.insert(
                hash_of_text(row.txid)->0,
                unsigned64(last_seen),
            ),
            None => graph.last_seen,
        },
        ..graph
    }
}

/// Whether the transaction id of every row of `tx` is one.
pub open spec fn tx_rows_parse(rows: Seq<TxRow<Seq<char>, Seq<u8>>>) -> bool {
    forall|i: int| 0 <= i < rows.len() ==> hash_of_text(#[trigger] rows[i].txid) is Some
}

/// What a change set says of the graph, after rows of `tx`, one after the other.
pub open spec fn with_tx_rows(
    graph: TxGraphView,
    rows: Seq<TxRow<Seq<char>, Seq<u8>>>,
) -> TxGraphView
    decreases rows.len(),
{
    if rows.len() == 0 {
        graph
    } else {
        with_tx_row(with_tx_rows(graph, rows.drop_last()), rows.last())
    }
}

/// Adds a transaction to a list that holds each of its transactions once.
fn insert_transaction(txs: &mut Vec<Transaction>, tx: Transaction)
    requires
        transaction_views(old(txs)@).no_duplicates(),
    ensures
        transaction_views(final(txs)@).no_duplicates(),
        transaction_views(final(txs)@).to_set() == transaction_views(old(txs)@).to_set().insert(
            tx@,
        ),
{
    let ghost views = transaction_views(txs@);
    for i in 0..txs.len()
        invariant
            txs@ == old(txs)@,
            views == transaction_views(txs@),
            views.no_duplicates(),
            forall|j: int| 0 <= j < i ==> #[trigger] views[j] != tx@,
    {
        assert(views[i as int] == txs@[i as int]@);
        let known = &txs[i];
        let same_bytes = known.bytes == tx.bytes;
        assert(same_bytes == (known.bytes@ =~= tx.bytes@));
        if known.txid.0 == tx.txid.0 && known.txid.1 == tx.txid.1 && same_bytes {
            assert(views.to_set() =~= views.to_set().insert(tx@));
            return;
        }
    }
    txs.push(tx);
    proof {
        assert(transaction_views(txs@) =~= views.push(tx@));
        assert(views.push(tx@).to_set() =~= views.to_set().insert(tx@)) by {
            assert(views.push(tx@)[views.len() as int] == tx@);
            assert forall|t: Transaction<Seq<u8>>| views.to_set().contains(t) implies views.push(
                tx@,
            ).to_set().contains(t) by {
                let i = choose|i: int| 0 <= i < views.len() && views[i] == t;
                assert(views.push(tx@)[i] == t);
            }
        }
    }
}

/// Takes the rows of `tx` into a change set.
fn read_tx_rows(graph: TxGraphChangeSet, rows: &Vec<TxRow>) -> (r: Result<
    TxGraphChangeSet,
    BdkSqlxError,
>)
    requires
        graph.well_formed(),
    ensures
        r matches Ok(next) ==> next.well_formed() && tx_rows_parse(tx_row_views(rows@)) && next@
            == with_tx_rows(graph@, tx_row_views(rows@)),
        r matches Err(e) ==> e is HexToArray && !tx_rows_parse(tx_row_views(rows@)),
{
    let ghost views = tx_row_views(rows@);
    let ghost start = graph@;
    let mut graph = graph;
    assert(views.take(0) =~= Seq::empty());
    for i in 0..rows.len()
        invariant
            views == tx_row_views(rows@),
            graph.well_formed(),
            graph@ == with_tx_rows(start, views.take(i as int)),
            tx_rows_parse(views.take(i as int)),
    {
        let row = &rows[i];
        assert(views[i as int] == row@);
        let ghost before = graph@;
        let txid = match parse_txid(&row.txid) {
            Ok(txid) => txid,
            Err(e) => {
                assert(hash_of_text(views[i as int].txid) is None);
                return Err(e);
            },
        };
        if let Some(bytes) = &row.whole_tx {
            if let Some(tx) = Transaction::decode(bytes) {
                insert_transaction(&mut graph.txs, tx);
            }
        }
        if let Some(last_seen) = row.last_seen {
            proof {
                lemma_keys_are_ordered();
            }
            graph.last_seen.insert(txid, to_unsigned64(last_seen));
        }
        proof {
            assert(graph@ =~= with_tx_row(before, row@));
            assert(views.take(i + 1).drop_last() =~= views.take(i as int));
            assert forall|j: int| 0 <= j < i + 1 implies hash_of_text(
                #[trigger] views.take(i + 1)[j].txid,
            ) is Some by {
                if j < i {
                    assert(views.take(i + 1)[j] == views.take(i as int)[j]);
                }
            }
        }
    }
    assert(views.take(rows.len() as int) =~= views);
    Ok(graph)
}

/// A row of the table `txout`.
#[derive(Debug, PartialEq, Eq)]
pub struct TxOutRow<T = String, B = Vec<u8>> {
    /// The text of the id of the output's transaction.
    pub txid: T,
    /// The output's index.
    pub vout: i32,
    /// The output's value.
    pub value: i64,
    /// The output's script.
    pub script: B,
}

impl View for TxOutRow {
    type V = TxOutRow<Seq<char>, Seq<u8>>;

    open spec fn view(&self) -> TxOutRow<Seq<char>, Seq<u8>> {
        TxOutRow {
            txid: self.txid@,
            vout: self.vout,
            value: self.value,
            script: self.script@,
        }
    }
}

/// The views of a list of rows of `txout`.
pub open spec fn txout_row_views(rows: Seq<TxOutRow>) -> Seq<TxOutRow<Seq<char>, Seq<u8>>> {
    rows.map_values(|row: TxOutRow| row@)
}

/// What a change set says of the graph, after a row of `txout`.
pub open spec fn with_txout_row(
    graph: TxGraphView,
    row: TxOutRow<Seq<char>, Seq<u8>>,
) -> TxGraphView {
    TxGraphView {
        txouts: graph.txouts.insert(
            (hash_of_text(row.txid)->0, unsigned32(row.vout)),
            TxOut { value: unsigned64(row.value), script_pubkey: row.script },
        ),
        ..graph
    }
}

/// Whether the transaction id of every row of `txout` is one.
pub open spec fn txout_rows_parse(rows: Seq<TxOutRow<Seq<char>, Seq<u8>>>) -> bool {
    forall|i: int| 0 <= i < rows.len() ==> hash_of_text(#[trigger] rows[i].txid) is Some
}

/// What a change set says of the graph, after rows of `txout`, one after the other.
pub open spec fn with_txout_rows(
    graph: TxGraphView,
    rows: Seq<TxOutRow<Seq<char>, Seq<u8>>>,
) -> TxGraphView
    decreases rows.len(),
{
    if rows.len() == 0 {
        graph
    } else {
        with_txout_row(with_txout_rows(graph, rows.drop_last()), rows.last())
    }
}

/// Sets an output in a map.
fn insert_txout(txouts: &mut BTreeMap<OutPoint, TxOut>, outpoint: OutPoint, txout: TxOut)
    ensures
        txout_views(final(txouts)@) == txout_views(old(txouts)@).insert(outpoint, txout@),
{
    proof {
        lemma_keys_are_ordered();
    }
    let ghost known = txouts@;
    let ghost added = txout;
    txouts.insert(outpoint, txout);
    assert(txouts@ == known.insert(outpoint, added));
    assert(txout_views(txouts@) =~= txout_views(known).insert(outpoint, added@));
}

/// Takes the rows of `txout` into a change set.
fn read_txout_rows(graph: TxGraphChangeSet, rows: &Vec<TxOutRow>) -> (r: Result<
    TxGraphChangeSet,
    BdkSqlxError,
>)
    requires
        graph.well_formed(),
    ensures
        r matches Ok(next) ==> next.well_formed() && txout_rows_parse(txout_row_views(rows@))
            && next@ == with_txout_rows(graph@, txout_row_views(rows@)),
        r matches Err(e) ==> e is HexToArray && !txout_rows_parse(txout_row_views(rows@)),
{
    let ghost views = txout_row_views(rows@);
    let ghost start = graph@;
    let mut graph = graph;
    assert(views.take(0) =~= Seq::empty());
    for i in 0..rows.len()
        invariant
            views == txout_row_views(rows@),
            graph.well_formed(),
            graph@ == with_txout_rows(start, views.take(i as int)),
            txout_rows_parse(views.take(i as int)),
    {
        let row = &rows[i];
        assert(views[i as int] == row@);
        let ghost before = graph@;
        let txid = match parse_txid(&row.txid) {
            Ok(txid) => txid,
            Err(e) => {
                assert(hash_of_text(views[i as int].txid) is None);
                return Err(e);
            },
        };
        let txout = TxOut { value: to_unsigned64(row.value), script_pubkey: row.script.clone() };
        assert(txout.script_pubkey@ =~= row.script@);
        insert_txout(&mut graph.txouts, (txid, to_unsigned32(row.vout)), txout);
        proof {
            assert(graph@ == with_txout_row(before, row@));
            assert(views.take(i + 1).drop_last() =~= views.take(i as int));
            assert forall|j: int| 0 <= j < i + 1 implies hash_of_text(
                #[trigger] views.take(i + 1)[j].txid,
            ) is Some by {
                if j < i {
                    assert(views.take(i + 1)[j] == views.take(i as int)[j]);
                }
            }
        }
    }
    assert(views.take(rows.len() as int) =~= views);
    Ok(graph)
}

/// A row of the table `anchor_tx`.
#[derive(Debug, PartialEq, Eq)]
pub struct AnchorRow<T = String> {
    /// The anchor's JSON text.
    pub anchor: T,
    /// The text of the transaction's id.
    pub txid: T,
}

impl View for AnchorRow {
    type V = AnchorRow<Seq<char>>;

    open spec fn view(&self) -> AnchorRow<Seq<char>> {
        AnchorRow { anchor: self.anchor@, txid: self.txid@ }
    }
}

/// The views of a list of rows of `anchor_tx`.
pub open spec fn anchor_row_views(rows: Seq<AnchorRow>) -> Seq<AnchorRow<Seq<char>>> {
    rows.map_values(|row: AnchorRow| row@)
}

/// What a change set says of the graph, after a row of `anchor_tx`: JSON that is no anchor is
/// passed over.
pub open spec fn with_anchor_row(graph: TxGraphView, row: AnchorRow<Seq<char>>) -> TxGraphView {
    TxGraphView {
        anchors: match anchor_of_text(row.anchor) {
            Some(anchor) => graph.anchors.insert((anchor, hash_of_text(row.txid)->0)),
            None => graph.anchors,
        },
        ..graph
    }
}

/// Whether the transaction id of every row of `anchor_tx` is one.
pub open spec fn anchor_rows_parse(rows: Seq<AnchorRow<Seq<char>>>) -> bool {
    forall|i: int| 0 <= i < rows.len() ==> hash_of_text(#[trigger] rows[i].txid) is Some
}

/// What a change set says of the graph, after rows of `anchor_tx`, one after the other.
pub open spec fn with_anchor_rows(
    graph: TxGraphView,
    rows: Seq<AnchorRow<Seq<char>>>,
) -> TxGraphView
    decreases rows.len(),
{
    if rows.len() == 0 {
        graph
    } else {
        with_anchor_row(with_anchor_rows(graph, rows.drop_last()), rows.last())
    }
}

/// Takes the rows of `anchor_tx` into a change set.
fn read_anchor_rows(graph: TxGraphChangeSet, rows: &Vec<AnchorRow>) -> (r: Result<
    TxGraphChangeSet,
    BdkSqlxError,
>)
    requires
        graph.well_formed(),
    ensures
        r matches Ok(next) ==> next.well_formed() && anchor_rows_parse(anchor_row_views(rows@))
            && next@ == with_anchor_rows(graph@, anchor_row_views(rows@)),
        r matches Err(e) ==> e is HexToArray && !anchor_rows_parse(anchor_row_views(rows@)),
{
    let ghost views = anchor_row_views(rows@);
    let ghost start = graph@;
    let mut graph = graph;
    assert(views.take(0) =~= Seq::empty());
    for i in 0..rows.len()
        invariant
            views == anchor_row_views(rows@),
            graph.well_formed(),
            graph@ == with_anchor_rows(start, views.take(i as int)),
            anchor_rows_parse(views.take(i as int)),
    {
        let row = &rows[i];
        assert(views[i as int] == row@);
        let ghost before = graph@;
        let txid = match parse_txid(&row.txid) {
            Ok(txid) => txid,
            Err(e) => {
                assert(hash_of_text(views[i as int].txid) is None);
                return Err(e);
            },
        };
        if let Some(anchor) = anchor_from_json(&row.anchor) {
            proof {
                lemma_keys_are_ordered();
            }
            graph.anchors.insert((anchor, txid));
        }
        proof {
            assert(graph@ =~= with_anchor_row(before, row@));
            assert(views.take(i + 1).drop_last() =~= views.take(i as int));
            assert forall|j: int| 0 <= j < i + 1 implies hash_of_text(
                #[trigger] views.take(i + 1)[j].txid,
            ) is Some by {
                if j < i {
                    assert(views.take(i + 1)[j] == views.take(i as int)[j]);
                }
            }
        }
    }
    assert(views.take(rows.len() as int) =~= views);
    Ok(graph)
}

/// What the tables `tx`, `txout` and `anchor_tx` say of the graph, if every transaction id in
/// them is one.
pub open spec fn tx_graph_of_rows(
    txs: Seq<TxRow<Seq<char>, Seq<u8>>>,
    txouts: Seq<TxOutRow<Seq<char>, Seq<u8>>>,
    anchors: Seq<AnchorRow<Seq<char>>>,
) -> Option<TxGraphView> {
    if tx_rows_parse(txs) && txout_rows_parse(txouts) && anchor_rows_parse(anchors) {
        Some(
            with_anchor_rows(
                with_txout_rows(with_tx_rows(TxGraphView::empty(), txs), txouts),
                anchors,
            ),
        )
    } else {
        None
    }
}

/// Selects transactions, txouts, and anchors: the change set that the rows of the tables `tx`,
/// `txout` and `anchor_tx` stand for.
pub fn tx_graph_changeset_from_postgres(
    txs: &Vec<TxRow>,
    txouts: &Vec<TxOutRow>,
    anchors: &Vec<AnchorRow>,
) -> (r: Result<TxGraphChangeSet, BdkSqlxError>)
    ensures
        r matches Ok(changeset) ==> changeset.well_formed() && tx_graph_of_rows(
            tx_row_views(txs@),
            txout_row_views(txouts@),
            anchor_row_views(anchors@),
        ) == Some(changeset@),
        r matches Err(e) ==> e is HexToArray && tx_graph_of_rows(
            tx_row_views(txs@),
            txout_row_views(txouts@),
            anchor_row_views(anchors@),
        ) is None,
{
    let changeset = TxGraphChangeSet::empty();
    let changeset = match read_tx_rows(changeset, txs) {
        Ok(changeset) => changeset,
        Err(e) => return Err(e),
    };
    let changeset = match read_txout_rows(changeset, txouts) {
        Ok(changeset) => changeset,
        Err(e) => return Err(e),
    };
    read_anchor_rows(changeset, anchors)
}

/// How far the graph of transactions has been read.
#[derive(Debug, PartialEq, Eq)]
pub enum TxGraphRead<G = TxGraphChangeSet> {
    /// The rows of `tx` come next.
    Txs,
    /// The rows of `txout` come next.
    TxOuts(G),
    /// The rows of `anchor_tx` come next.
    Anchors(G),
    /// All is read.
    Done(G),
}

impl View for TxGraphRead {
    type V = TxGraphRead<TxGraphView>;

    open spec fn view(&self) -> TxGraphRead<TxGraphView> {
        match *self {
            TxGraphRead::Txs => TxGraphRead::Txs,
            TxGraphRead::TxOuts(graph) => TxGraphRead::TxOuts(graph@),
            TxGraphRead::Anchors(graph) => TxGraphRead::Anchors(graph@),
            TxGraphRead::Done(graph) => TxGraphRead::Done(graph@),
        }
    }
}

/// The rows that a query for a part of the graph gave.
#[derive(Debug, PartialEq, Eq)]
pub enum TxGraphReply<X = Vec<TxRow>, O = Vec<TxOutRow>, A = Vec<AnchorRow>> {
    /// The rows of `tx`.
    Txs(X),
    /// The rows of `txout`.
    TxOuts(O),
    /// The rows of `anchor_tx`.
    Anchors(A),
}

/// What the rows of a reply hold.
pub type TxGraphReplyView = TxGraphReply<
    Seq<TxRow<Seq<char>, Seq<u8>>>,
    Seq<TxOutRow<Seq<char>, Seq<u8>>>,
    Seq<AnchorRow<Seq<char>>>,
>;

impl View for TxGraphReply {
    type V = TxGraphReplyView;

    open spec fn view(&self) -> TxGraphReplyView {
        match *self {
            TxGraphReply::Txs(rows) => TxGraphReply::Txs(tx_row_views(rows@)),
            TxGraphReply::TxOuts(rows) => TxGraphReply::TxOuts(txout_row_views(rows@)),
            TxGraphReply::Anchors(rows) => TxGraphReply::Anchors(anchor_row_views(rows@)),
        }
    }
}

/// The query to make next, or `None` where all is read.
pub open spec fn tx_graph_query<G>(state: TxGraphRead<G>) -> Option<Seq<char>> {
    match state {
        TxGraphRead::Txs => Some(SELECT_TXS@),
        TxGraphRead::TxOuts(_) => Some(SELECT_TXOUTS@),
        TxGraphRead::Anchors(_) => Some(SELECT_ANCHORS@),
        TxGraphRead::Done(_) => None,
    }
}

/// Whether a reply is one to the query that comes next.
pub open spec fn tx_graph_reply_fits<G, X, O, A>(
    state: TxGraphRead<G>,
    reply: TxGraphReply<X, O, A>,
) -> bool {
    match state {
        TxGraphRead::Txs => reply is Txs,
        TxGraphRead::TxOuts(_) => reply is TxOuts,
        TxGraphRead::Anchors(_) => reply is Anchors,
        TxGraphRead::Done(_) => false,
    }
}

/// How far the graph has been read after the reply to a query, or `None` where a transaction id
/// is none.
pub open spec fn tx_graph_step(
    state: TxGraphRead<TxGraphView>,
    reply: TxGraphReplyView,
) -> Option<TxGraphRead<TxGraphView>> {
    match (state, reply) {
        (TxGraphRead::Txs, TxGraphReply::Txs(rows)) => if tx_rows_parse(rows) {
            Some(TxGraphRead::TxOuts(with_tx_rows(TxGraphView::empty(), rows)))
        } else {
            None
        },
        (TxGraphRead::TxOuts(graph), TxGraphReply::TxOuts(rows)) => if txout_rows_parse(rows) {
            Some(TxGraphRead::Anchors(with_txout_rows(graph, rows)))
        } else {
            None
        },
        (TxGraphRead::Anchors(graph), TxGraphReply::Anchors(rows)) => if anchor_rows_parse(rows) {
            Some(TxGraphRead::Done(with_anchor_rows(graph, rows)))
        } else {
            None
        },
        _ => None,
    }
}

impl TxGraphRead {
    /// Whether what has been read so far lists every transaction once.
    pub open spec fn well_formed(self) -> bool {
        match self {
            TxGraphRead::Txs => true,
            TxGraphRead::TxOuts(graph) => graph.well_formed(),
            TxGraphRead::Anchors(graph) => graph.well_formed(),
            TxGraphRead::Done(graph) => graph.well_formed(),
        }
    }

    /// The query to make next, or `None` where all is read.
    pub fn query(&self) -> (r: Option<&'static str>)
        ensures
            match r {
                Some(sql) => tx_graph_query(*self) == Some(sql@),
                None => tx_graph_query(*self) is None,
            },
            *self is Txs ==> (r matches Some(sql) && sql@ == SELECT_TXS@),
            *self is TxOuts ==> (r matches Some(sql) && sql@ == SELECT_TXOUTS@),
            *self is Anchors ==> (r matches Some(sql) && sql@ == SELECT_ANCHORS@),
            *self is Done ==> r is None,
    {
        match self {
            TxGraphRead::Txs => Some(SELECT_TXS),
            TxGraphRead::TxOuts(_) => Some(SELECT_TXOUTS),
            TxGraphRead::Anchors(_) => Some(SELECT_ANCHORS),
            TxGraphRead::Done(_) => None,
        }
    }

    /// Takes the reply to the query.
    pub fn step(self, reply: TxGraphReply) -> (r: Result<TxGraphRead, BdkSqlxError>)
        requires
            self.well_formed(),
            tx_graph_reply_fits(self, reply),
        ensures
            r matches Ok(next) ==> next.well_formed() && tx_graph_step(self@, reply@) == Some(
                next@,
            ),
            r matches Err(e) ==> e is HexToArray && tx_graph_step(self@, reply@) is None,
    {
        match (self, reply) {
            (TxGraphRead::Txs, TxGraphReply::Txs(rows)) => match read_tx_rows(
                TxGraphChangeSet::empty(),
                &rows,
            ) {
                Ok(graph) => Ok(TxGraphRead::TxOuts(graph)),
                Err(e) => Err(e),
            },
            (TxGraphRead::TxOuts(graph), TxGraphReply::TxOuts(rows)) => match read_txout_rows(
                graph,
                &rows,
            ) {
                Ok(graph) => Ok(TxGraphRead::Anchors(graph)),
                Err(e) => Err(e),
            },
            (TxGraphRead::Anchors(graph), TxGraphReply::Anchors(rows)) => match read_anchor_rows(
                graph,
                &rows,
            ) {
                Ok(graph) => Ok(TxGraphRead::Done(graph)),
                Err(e) => Err(e),
            },
            (state, _) => Ok(state),
        }
    }
}

/// Reading the tables one query at a time gives what reading all their rows at once gives: the
/// same change set, or an error on the same rows.
pub proof fn law_tx_graph_steps(
    txs: Seq<TxRow<Seq<char>, Seq<u8>>>,
    txouts: Seq<TxOutRow<Seq<char>, Seq<u8>>>,
    anchors: Seq<AnchorRow<Seq<char>>>,
)
    ensures
        ({
            let after_txs = tx_graph_step(TxGraphRead::Txs, TxGraphReply::Txs(txs));
            let after_txouts = match after_txs {
                Some(state) => tx_graph_step(state, TxGraphReply::TxOuts(txouts)),
                None => None,
            };
            let after_anchors = match after_txouts {
                Some(state) => tx_graph_step(state, TxGraphReply::Anchors(anchors)),
                None => None,
            };
            after_anchors == match tx_graph_of_rows(txs, txouts, anchors) {
                Some(graph) => Some(TxGraphRead::Done(graph)),
                None => None,
            }
        }),
{
}

/// The statement that stores a transaction.
pub open spec fn tx_statement(wallet_name: Seq<char>, tx: Transaction<Seq<u8>>) -> Statement<
    Seq<char>,
    Seq<u8>,
> {
    Statement::UpsertTx { wallet_name, txid: hash_text(tx.txid), whole_tx: tx.bytes }
}

/// The statement that stores when a transaction was last seen.
pub open spec fn last_seen_statement(
    wallet_name: Seq<char>,
    txid: Txid,
    last_seen: u64,
) -> Statement<Seq<char>, Seq<u8>> {
    Statement::UpdateLastSeen {
        last_seen: signed64(last_seen),
        wallet_name,
        txid: hash_text(txid),
    }
}

/// The statement that stores an output.
pub open spec fn txout_statement(
    wallet_name: Seq<char>,
    outpoint: OutPoint,
    txout: TxOut<Seq<u8>>,
) -> Statement<Seq<char>, Seq<u8>> {
    Statement::UpsertTxOut {
        wallet_name,
        txid: hash_text(outpoint.0),
        vout: signed32(outpoint.1),
        value: signed64(txout.value),
        script: txout.script_pubkey,
    }
}

/// The statement that stores an anchor.
pub open spec fn anchor_statement(wallet_name: Seq<char>, anchored: AnchoredTx) -> Statement<
    Seq<char>,
    Seq<u8>,
> {
    Statement::UpsertAnchor {
        wallet_name,
        block_hash: hash_text(anchored.0.0.1),
        anchor: anchor_text(anchored.0),
        txid: hash_text(anchored.1),
    }
}

/// The statements that store transactions, in the order in which they are listed.
pub open spec fn tx_statements(
    wallet_name: Seq<char>,
    txs: Seq<Transaction<Seq<u8>>>,
) -> Seq<Statement<Seq<char>, Seq<u8>>> {
    txs.map_values(|tx: Transaction<Seq<u8>>| tx_statement(wallet_name, tx))
}

/// The statements that store when transactions were last seen, in the order of their ids.
pub open spec fn last_seen_statements(
    wallet_name: Seq<char>,
    last_seen: Map<Txid, u64>,
) -> Seq<Statement<Seq<char>, Seq<u8>>> {
    key_order(last_seen.dom()).map_values(
        |txid: Txid| last_seen_statement(wallet_name, txid, last_seen[txid]),
    )
}

/// The statements that store outputs, in the order of their places.
pub open spec fn txout_statements(
    wallet_name: Seq<char>,
    txouts: Map<OutPoint, TxOut<Seq<u8>>>,
) -> Seq<Statement<Seq<char>, Seq<u8>>> {
    key_order(txouts.dom()).map_values(
        |outpoint: OutPoint| txout_statement(wallet_name, outpoint, txouts[outpoint]),
    )
}

/// The statements that store anchors, in the order of the anchors.
pub open spec fn anchor_statements(
    wallet_name: Seq<char>,
    anchors: Set<AnchoredTx>,
) -> Seq<Statement<Seq<char>, Seq<u8>>> {
    key_order(anchors).map_values(|anchored: AnchoredTx| anchor_statement(wallet_name, anchored))
}

/// The statements that store changes to the graph: the transactions, as listed in `txs`, then
/// when they were last seen, the outputs, and the anchors.
pub open spec fn tx_graph_statements(
    wallet_name: Seq<char>,
    txs: Seq<Transaction<Seq<u8>>>,
    graph: TxGraphView,
) -> Seq<Statement<Seq<char>, Seq<u8>>> {
    tx_statements(wallet_name, txs) + last_seen_statements(wallet_name, graph.last_seen)
        + txout_statements(wallet_name, graph.txouts) + anchor_statements(
        wallet_name,
        graph.anchors,
    )
}

/// The statements that store transactions.
fn persist_txs(wallet_name: &str, txs: &Vec<Transaction>) -> (r: Vec<Statement>)
    ensures
        statement_views(r@) == tx_statements(wallet_name@, transaction_views(txs@)),
{
    let mut statements: Vec<Statement> = Vec::new();
    for i in 0..txs.len()
        invariant
            statements@.len() == i,
            forall|j: int|
                0 <= j < i ==> (#[trigger] statements@[j])@ == tx_statement(
                    wallet_name@,
                    txs@[j]@,
                ),
    {
        let tx = &txs[i];
        let whole_tx = tx.bytes.clone();
        assert(whole_tx@ =~= tx.bytes@);
        statements.push(
            Statement::UpsertTx {
                wallet_name: wallet_name.to_string(),
                txid: txid_text(tx.txid),
                whole_tx,
            },
        );
    }
    assert(statement_views(statements@) =~= tx_statements(wallet_name@, transaction_views(txs@)));
    statements
}

/// The statements that store when transactions were last seen.
fn persist_last_seen(wallet_name: &str, last_seen: &BTreeMap<Txid, u64>) -> (r: Vec<Statement>)
    ensures
        statement_views(r@) == last_seen_statements(wallet_name@, last_seen@),
{
    proof {
        lemma_keys_are_ordered();
    }
    let ghost entries = last_seen.iter().remaining();
    let mut statements: Vec<Statement> = Vec::new();
    for entry in it: last_seen.iter()
        invariant
            it.seq() == entries,
            statements@.len() == it.index(),
            forall|j: int|
                0 <= j < it.index() ==> (#[trigger] statements@[j])@ == last_seen_statement(
                    wallet_name@,
                    *entries[j].0,
                    *entries[j].1,
                ),
    {
        let (txid, last_seen) = entry;
        statements.push(
            Statement::UpdateLastSeen {
                last_seen: to_signed64(*last_seen),
                wallet_name: wallet_name.to_string(),
                txid: txid_text(*txid),
            },
        );
    }
    proof {
        lemma_map_walk(entries, last_seen@);
        assert(statement_views(statements@) =~= last_seen_statements(wallet_name@, last_seen@));
    }
    statements
}

/// The statements that store outputs.
fn persist_txouts(wallet_name: &str, txouts: &BTreeMap<OutPoint, TxOut>) -> (r: Vec<Statement>)
    ensures
        statement_views(r@) == txout_statements(wallet_name@, txout_views(txouts@)),
{
    proof {
        lemma_keys_are_ordered();
    }
    let ghost entries = txouts.iter().remaining();
    let mut statements: Vec<Statement> = Vec::new();
    for entry in it: txouts.iter()
        invariant
            it.seq() == entries,
            statements@.len() == it.index(),
            forall|j: int|
                0 <= j < it.index() ==> (#[trigger] statements@[j])@ == txout_statement(
                    wallet_name@,
                    *entries[j].0,
                    (*entries[j].1)@,
                ),
    {
        let (outpoint, txout) = entry;
        let script = txout.script_pubkey.clone();
        assert(script@ =~= txout.script_pubkey@);
        statements.push(
            Statement::UpsertTxOut {
                wallet_name: wallet_name.to_string(),
                txid: txid_text(outpoint.0),
                vout: to_signed32(outpoint.1),
                value: to_signed64(txout.value),
                script,
            },
        );
    }
    proof {
        lemma_map_walk(entries, txouts@);
        assert(txout_views(txouts@).dom() =~= txouts@.dom());
        assert(statement_views(statements@) =~= txout_statements(
            wallet_name@,
            txout_views(txouts@),
        ));
    }
    statements
}

/// The statements that store anchors.
fn persist_anchors(wallet_name: &str, anchors: &BTreeSet<AnchoredTx>) -> (r: Result<
    Vec<Statement>,
    BdkSqlxError,
>)
    ensures
        r matches Ok(statements) && statement_views(statements@) == anchor_statements(
            wallet_name@,
            anchors@,
        ),
        forall|anchored: AnchoredTx| #[trigger]
            anchors@.contains(anchored) ==> anchor_of_text(anchor_text(anchored.0)) == Some(
                anchored.0,
            ),
{
    proof {
        lemma_keys_are_ordered();
    }
    let ghost elements = anchors.iter().remaining();
    let mut statements: Vec<Statement> = Vec::new();
    for element in it: anchors.iter()
        invariant
            it.seq() == elements,
            statements@.len() == it.index(),
            forall|j: int|
                0 <= j < it.index() ==> (#[trigger] statements@[j])@ == anchor_statement(
                    wallet_name@,
                    *elements[j],
                ),
            forall|j: int|
                0 <= j < it.index() ==> anchor_of_text(
                    anchor_text((*#[trigger] elements[j]).0),
                ) == Some((*elements[j]).0),
    {
        let (anchor, txid) = *element;
        let block_hash = block_hash_text(anchor.0.1);
        let text = match anchor_to_json(anchor) {
            Ok(text) => text,
            Err(e) => return Err(e),
        };
        statements.push(
            Statement::UpsertAnchor {
                wallet_name: wallet_name.to_string(),
                block_hash,
                anchor: text,
                txid: txid_text(txid),
            },
        );
    }
    proof {
        lemma_set_walk(elements, anchors@);
        assert(statement_views(statements@) =~= anchor_statements(wallet_name@, anchors@));
        assert forall|anchored: AnchoredTx| #[trigger]
            anchors@.contains(anchored) implies anchor_of_text(anchor_text(anchored.0)) == Some(
            anchored.0,
        ) by {
            assert(elements.unref().to_set().contains(anchored));
            let j = choose|j: int|
                0 <= j < elements.unref().len() && elements.unref()[j] == anchored;
            assert(*elements[j] == anchored);
        }
    }
    Ok(statements)
}

/// Inserts transactions, txouts, and anchors: the statements that store the change set, in the
/// order to execute them in.
pub fn tx_graph_changeset_persist_to_postgres(
    wallet_name: &str,
    changeset: &TxGraphChangeSet,
) -> (r: Result<Vec<Statement>, BdkSqlxError>)
    ensures
        r matches Ok(statements) && statement_views(statements@) == tx_graph_statements(
            wallet_name@,
            transaction_views(changeset.txs@),
            changeset@,
        ),
        forall|anchored: AnchoredTx| #[trigger]
            changeset@.anchors.contains(anchored) ==> anchor_of_text(anchor_text(anchored.0))
                == Some(anchored.0),
{
    let mut statements = persist_txs(wallet_name, &changeset.txs);
    let mut last_seen = persist_last_seen(wallet_name, &changeset.last_seen);
    let mut txouts = persist_txouts(wallet_name, &changeset.txouts);
    let mut anchors = match persist_anchors(wallet_name, &changeset.anchors) {
        Ok(anchors) => anchors,
        Err(e) => return Err(e),
    };
    statements.append(&mut last_seen);
    statements.append(&mut txouts);
    statements.append(&mut anchors);
    assert(statement_views(statements@) =~= tx_graph_statements(
        wallet_name@,
        transaction_views(changeset.txs@),
        changeset@,
    ));
    Ok(statements)
}

} // verus!
