//! How the recorded fills of a run hang together: a fill belongs to one order,
//! an order to one leg, and a leg to one trade.

use crate::data::TapeMeta;
use crate::domain::{
    ChainSnapshot, Fill, OrderCommand, OrderId, OrderIntent, PositionAction, PositionId, TradeId,
};
use crate::engine::backtest::{
    comes_of, fresh, minted_total, order_ids, replayed, started, stepped, with_minted, BacktestRun,
    ProgressView, StepTrace,
};
use crate::engine::books::{
    carried, fills_applied, trade_for, BooksView, PendingEntry,
};
use crate::engine::bundle_collector::{law_one_row_per_open_leg, BundleView, FillRecord, LegMeta};
use crate::engine::correlate::{
    carry_applied, carry_total, dropped, fills_due, step_applied, submitted, walked,
    StepInputs, WalkView,
};
use crate::engine::fills::aggregate;
use crate::engine::ledger::LedgerView;
use crate::execution::CarryGroup;
use vstd::prelude::*;

verus! {

/// Whether no two records carry one order and one number.
pub open spec fn keys_unique(fills: Seq<FillRecord>) -> bool {
    forall|i: int, j: int|
        #![trigger fills[i], fills[j]]
        0 <= i < j < fills.len() && fills[i].order_id == fills[j].order_id ==> fills[i].fill_seq
            != fills[j].fill_seq
}

/// Whether the records of an order name one leg, and those of a leg one trade.
pub open spec fn is_tree(fills: Seq<FillRecord>) -> bool {
    forall|i: int, j: int|
        #![trigger fills[i], fills[j]]
        0 <= i < j < fills.len() ==> {
            &&& fills[i].order_id == fills[j].order_id ==> fills[i].position_id
                == fills[j].position_id
            &&& fills[i].position_id == fills[j].position_id ==> fills[i].trade_id
                == fills[j].trade_id
        }
}

/// Where orders and legs belong.
pub struct Tree {
    /// The leg of each order that was filled.
    pub owner: Map<u64, u64>,
    /// The trade of each leg.
    pub home: Map<u64, u64>,
    /// How many fills each order had.
    pub count: Map<u64, int>,
}

/// Whether a record hangs in the tree.
spec fn hangs(r: FillRecord, tree: Tree) -> bool {
    &&& tree.owner.dom().contains(r.order_id)
    &&& tree.owner[r.order_id] == r.position_id
    &&& tree.home.dom().contains(r.position_id)
    &&& tree.home[r.position_id] == r.trade_id
    &&& r.fill_seq < tree.count[r.order_id]
}

/// Whether a resting order goes on where it left off.
spec fn goes_on(e: PendingEntry, order: u64, tree: Tree) -> bool {
    if tree.owner.dom().contains(order) {
        &&& e.fills_so_far == tree.count[order]
        &&& match e.pending.intent.action {
            PositionAction::Open => {
                let leg = tree.owner[order];
                &&& e.position_id == Some(PositionId(leg))
                &&& tree.home.dom().contains(leg)
                &&& e.trade_id == Some(TradeId(tree.home[leg]))
            },
            PositionAction::Close(leg) => tree.owner[order] == leg.0,
        }
    } else {
        e.pending.intent.action is Open ==> e.position_id is None
    }
}

/// Whether the books follow the tree, all but the resting order `apart`, and
/// no order from `free` on was seen.
spec fn follows_apart(b: BooksView, tree: Tree, free: int, apart: u64) -> bool {
    &&& keys_unique(b.bundle.fills)
    &&& forall|i: int| 0 <= i < b.bundle.fills.len() ==> hangs(#[trigger] b.bundle.fills[i], tree)
    &&& forall|o: u64| #[trigger] tree.owner.dom().contains(o) ==> o < free
    &&& forall|p: u64| #[trigger] tree.home.dom().contains(p) ==> p < b.ids.position
    &&& forall|p: u64| #[trigger]
        b.bundle.open_legs.dom().contains(p) ==> tree.home.dom().contains(p) && tree.home[p]
            == b.bundle.open_legs[p].trade_id.0
    &&& forall|o: u64| #[trigger]
        b.pending.dom().contains(o) && o != apart ==> o < free && goes_on(b.pending[o], o, tree)
}

/// Whether the books follow the tree, and no order from `free` on was seen.
spec fn follows(b: BooksView, tree: Tree, free: int) -> bool {
    &&& keys_unique(b.bundle.fills)
    &&& forall|i: int| 0 <= i < b.bundle.fills.len() ==> hangs(#[trigger] b.bundle.fills[i], tree)
    &&& forall|o: u64| #[trigger] tree.owner.dom().contains(o) ==> o < free
    &&& forall|p: u64| #[trigger] tree.home.dom().contains(p) ==> p < b.ids.position
    &&& forall|p: u64| #[trigger]
        b.bundle.open_legs.dom().contains(p) ==> tree.home.dom().contains(p) && tree.home[p]
            == b.bundle.open_legs[p].trade_id.0
    &&& forall|o: u64| #[trigger]
        b.pending.dom().contains(o) ==> o < free && goes_on(b.pending[o], o, tree)
}

/// The record of the `k`-th of a run of fills.
pub open spec fn record_of(
    fills: Seq<Fill>,
    order: u64,
    trade: u64,
    position: u64,
    first_seq: int,
    k: int,
) -> FillRecord {
    FillRecord {
        fill: fills[k],
        trade_id: trade,
        position_id: position,
        order_id: order,
        fill_seq: (first_seq + k) as u32,
    }
}

/// A run of fills is recorded behind what was there, under numbers in a row.
pub proof fn lemma_run_recorded(
    bundle: BundleView,
    ledger: LedgerView,
    fills: Seq<Fill>,
    order: u64,
    trade: u64,
    position: u64,
    first_seq: int,
    m: int,
)
    ensures
        fills_applied(
            bundle,
            ledger,
            fills,
            order,
            trade,
            position,
            first_seq,
            m,
        ) matches Ok((bundle2, _)) ==> {
            &&& bundle2.open_legs == bundle.open_legs
            &&& bundle2.positions == bundle.positions
            &&& bundle2.fills == bundle.fills + Seq::new(
                fills.len(),
                |k: int| record_of(fills, order, trade, position, first_seq, k),
            )
            &&& fills.len() > 0 ==> first_seq + fills.len() - 1 <= u32::MAX
        },
    decreases fills.len(),
{
    let records = Seq::new(
        fills.len(),
        |k: int| record_of(fills, order, trade, position, first_seq, k),
    );
    if fills.len() == 0 {
        assert(bundle.fills + records =~= bundle.fills);
    } else {
        let front = fills.drop_last();
        lemma_run_recorded(bundle, ledger, front, order, trade, position, first_seq, m);
        match fills_applied(bundle, ledger, front, order, trade, position, first_seq, m) {
            Err(_) => {},
            Ok((b, l)) => {
                match fills_applied(bundle, ledger, fills, order, trade, position, first_seq, m) {
                    Err(_) => {},
                    Ok((b2, l2)) => {
                        assert(b2.fills =~= bundle.fills + records);
                    },
                }
            },
        }
    }
}

/// The tree after a run of fills of one order.
spec fn grown(tree: Tree, order: u64, trade: u64, position: u64, next_seq: int) -> Tree {
    Tree {
        owner: tree.owner.insert(order, position),
        home: tree.home.insert(position, trade),
        count: tree.count.insert(order, next_seq),
    }
}

/// Whether a run of fills may hang in the tree.
spec fn may_hang(tree: Tree, order: u64, trade: u64, position: u64, first_seq: int) -> bool {
    &&& 0 <= first_seq
    &&& tree.owner.dom().contains(order) ==> tree.owner[order] == position && tree.count[order]
        == first_seq
    &&& tree.home.dom().contains(position) ==> tree.home[position] == trade
}

/// A run of fills of one order leaves the books with the grown tree.
proof fn lemma_run_hangs(
    b: BooksView,
    b2: BooksView,
    tree: Tree,
    free: int,
    opened: BundleView,
    ledger: LedgerView,
    fills: Seq<Fill>,
    order: u64,
    trade: u64,
    position: u64,
    first_seq: int,
    m: int,
)
    requires
        follows_apart(b, tree, free, order),
        may_hang(tree, order, trade, position, first_seq),
        order < free,
        position < b2.ids.position,
        b.ids.position <= b2.ids.position,
        opened.fills == b.bundle.fills,
        fills.len() > 0,
        fills_applied(opened, ledger, fills, order, trade, position, first_seq, m) matches Ok((
            bundle2,
            _,
        )) && b2.bundle.fills == bundle2.fills,
        b2.pending == b.pending,
        forall|p: u64| #[trigger]
            b2.bundle.open_legs.dom().contains(p) ==> (p == position
                && b2.bundle.open_legs[p].trade_id.0 == trade) || (b.bundle.open_legs.dom().contains(
                p,
            ) && b2.bundle.open_legs[p] == b.bundle.open_legs[p]),
    ensures
        follows_apart(
            b2,
            grown(tree, order, trade, position, first_seq + fills.len()),
            free,
            order,
        ),
{
    let tree2 = grown(tree, order, trade, position, first_seq + fills.len());
    lemma_run_recorded(opened, ledger, fills, order, trade, position, first_seq, m);
    let n = b.bundle.fills.len() as int;
    let after = b2.bundle.fills;
    assert forall|i: int| 0 <= i < after.len() implies hangs(#[trigger] after[i], tree2) by {
        if i < n {
            assert(after[i] == b.bundle.fills[i]);
            assert(hangs(b.bundle.fills[i], tree));
        } else {
            assert(after[i] == record_of(fills, order, trade, position, first_seq, i - n));
        }
    }
    assert forall|i: int, j: int|
        #![trigger after[i], after[j]]
        0 <= i < j < after.len() && after[i].order_id == after[j].order_id implies after[i].fill_seq
        != after[j].fill_seq by {
        if j < n {
            assert(after[i] == b.bundle.fills[i]);
            assert(after[j] == b.bundle.fills[j]);
        } else {
            assert(after[j] == record_of(fills, order, trade, position, first_seq, j - n));
            if i < n {
                assert(after[i] == b.bundle.fills[i]);
                assert(hangs(b.bundle.fills[i], tree));
            } else {
                assert(after[i] == record_of(fills, order, trade, position, first_seq, i - n));
            }
        }
    }
    assert forall|o: u64| #[trigger] b2.pending.dom().contains(o) && o != order implies o < free
        && goes_on(b2.pending[o], o, tree2) by {
        assert(goes_on(b.pending[o], o, tree));
    }
}

/// Once the resting order is settled, the books follow the tree.
proof fn lemma_settled(b: BooksView, b2: BooksView, tree: Tree, free: int, order: u64)
    requires
        follows_apart(b, tree, free, order),
        order < free,
        b2.bundle == b.bundle,
        b2.ids == b.ids,
        b2.pending == b.pending.remove(order) || (b2.pending.dom().contains(order) && b2.pending
            == b.pending.insert(order, b2.pending[order]) && goes_on(
            b2.pending[order],
            order,
            tree,
        )),
    ensures
        follows(b2, tree, free),
{
    assert forall|o: u64| #[trigger] b2.pending.dom().contains(o) implies o < free && goes_on(
        b2.pending[o],
        o,
        tree,
    ) by {
        if o != order {
            assert(b.pending.dom().contains(o));
        }
    }
}

/// The fills of a resting order hang in the tree.
proof fn lemma_carried_follows(
    b: BooksView,
    order: OrderId,
    fills: Seq<Fill>,
    snapshot: ChainSnapshot,
    tree: Tree,
    free: int,
) -> (tree2: Tree)
    requires
        follows(b, tree, free),
        carried(b, order, fills, snapshot) is Ok,
    ensures
        follows(carried(b, order, fills, snapshot)->Ok_0, tree2, free),
        carried(b, order, fills, snapshot)->Ok_0.ids.order == b.ids.order,
{
    let b2 = carried(b, order, fills, snapshot)->Ok_0;
    let agg = aggregate(fills)->Ok_0;
    let entry = b.pending[order.0];
    let m = snapshot.spec.contract_multiplier as int;
    let first = entry.fills_so_far as int;
    let mid = BooksView { pending: b.pending, ..b2 };
    assert(fills.len() > 0);
    assert(goes_on(entry, order.0, tree));
    match entry.pending.intent.action {
        PositionAction::Open => {
            let (trade, ids) = trade_for(entry.trade_id, b.ids)->Ok_0;
            let (position, premium) = match entry.position_id {
                Some(position) => (
                    position,
                    b2.inventory[crate::engine::books::leg_at(b.inventory, position)].entry_premium,
                ),
                None => (PositionId(ids.position), agg.vwap),
            };
            let opened = crate::engine::bundle_collector::bundle_opened(
                b.bundle,
                position.0,
                LegMeta { trade_id: trade, entry_premium: premium, side: fills[0].side },
            );
            lemma_run_recorded(opened, b.ledger, fills, order.0, trade.0, position.0, first, m);
            lemma_run_hangs(
                b,
                mid,
                tree,
                free,
                opened,
                b.ledger,
                fills,
                order.0,
                trade.0,
                position.0,
                first,
                m,
            );
            let tree2 = grown(tree, order.0, trade.0, position.0, first + fills.len());
            lemma_settled(mid, b2, tree2, free, order.0);
            tree2
        },
        PositionAction::Close(position) => {
            let trade = b.bundle.open_legs[position.0].trade_id;
            lemma_run_recorded(b.bundle, b.ledger, fills, order.0, trade.0, position.0, first, m);
            lemma_run_hangs(
                b,
                mid,
                tree,
                free,
                b.bundle,
                b.ledger,
                fills,
                order.0,
                trade.0,
                position.0,
                first,
                m,
            );
            let tree2 = grown(tree, order.0, trade.0, position.0, first + fills.len());
            lemma_settled(mid, b2, tree2, free, order.0);
            tree2
        },
    }
}

/// The carry groups hang in the tree.
proof fn lemma_carry_follows(
    b: BooksView,
    fills: Seq<Fill>,
    carry: Seq<CarryGroup>,
    snapshot: ChainSnapshot,
    tree: Tree,
    free: int,
) -> (tree2: Tree)
    requires
        follows(b, tree, free),
        carry_applied(b, fills, carry, snapshot) is Ok,
    ensures
        follows(carry_applied(b, fills, carry, snapshot)->Ok_0, tree2, free),
        carry_applied(b, fills, carry, snapshot)->Ok_0.ids.order == b.ids.order,
    decreases carry.len(),
{
    if carry.len() == 0 {
        tree
    } else {
        let front = carry.drop_last();
        let mid = carry_applied(b, fills, front, snapshot)->Ok_0;
        let tree1 = lemma_carry_follows(b, fills, front, snapshot, tree, free);
        lemma_carried_follows(
            mid,
            carry.last().order_id,
            fills.subrange(carry_total(front), carry_total(carry)),
            snapshot,
            tree1,
            free,
        )
    }
}

/// One submitted order, under an id that was never seen, hangs in the tree.
proof fn lemma_submitted_follows(
    w: WalkView,
    inputs: StepInputs,
    idx: int,
    intent: OrderIntent,
    tree: Tree,
) -> (tree2: Tree)
    requires
        0 <= w.ordinal,
        submitted(w, inputs, idx, intent) is Ok,
        follows(w.books, tree, inputs.submit_ids[w.ordinal].0 as int),
    ensures
        ({
            let w2 = submitted(w, inputs, idx, intent)->Ok_0;
            &&& follows(w2.books, tree2, inputs.submit_ids[w.ordinal].0 + 1)
            &&& w2.ordinal == w.ordinal + 1
            &&& w2.ordinal <= inputs.submit_ids.len()
            &&& w2.books.ids.order == w.books.ids.order
        }),
{
    let w2 = submitted(w, inputs, idx, intent)->Ok_0;
    let order = inputs.submit_ids[w.ordinal];
    let free = order.0 + 1;
    let b = w.books;
    let b2 = w2.books;
    let count = fills_due(inputs.groups, w.group, idx);
    let run = inputs.fills.subrange(w.cursor, w.cursor + count);
    let m = inputs.snapshot.spec.contract_multiplier as int;
    let mid = BooksView { pending: b.pending, ..b2 };
    assert(follows_apart(b, tree, free, order.0));
    if count == 0 {
        assert(follows_apart(mid, tree, free, order.0));
        lemma_settled(mid, b2, tree, free, order.0);
        tree
    } else {
        let agg = aggregate(run)->Ok_0;
        assert(run.len() > 0);
        match intent.action {
            PositionAction::Open => {
                let (trade, ids) = trade_for(w.trade, b.ids)->Ok_0;
                let position = PositionId(ids.position);
                let opened = crate::engine::bundle_collector::bundle_opened(
                    b.bundle,
                    position.0,
                    LegMeta { trade_id: trade, entry_premium: agg.vwap, side: run[0].side },
                );
                lemma_run_recorded(opened, b.ledger, run, order.0, trade.0, position.0, 0, m);
                lemma_run_hangs(
                    b,
                    mid,
                    tree,
                    free,
                    opened,
                    b.ledger,
                    run,
                    order.0,
                    trade.0,
                    position.0,
                    0,
                    m,
                );
                let tree2 = grown(tree, order.0, trade.0, position.0, run.len() as int);
                if b2.pending == b.pending {
                    assert(b2.pending =~= mid.pending.remove(order.0));
                }
                lemma_settled(mid, b2, tree2, free, order.0);
                tree2
            },
            PositionAction::Close(position) => {
                let trade = b.bundle.open_legs[position.0].trade_id;
                lemma_run_recorded(b.bundle, b.ledger, run, order.0, trade.0, position.0, 0, m);
                lemma_run_hangs(
                    b,
                    mid,
                    tree,
                    free,
                    b.bundle,
                    b.ledger,
                    run,
                    order.0,
                    trade.0,
                    position.0,
                    0,
                    m,
                );
                let tree2 = grown(tree, order.0, trade.0, position.0, run.len() as int);
                if b2.pending == b.pending {
                    assert(b2.pending =~= mid.pending.remove(order.0));
                }
                lemma_settled(mid, b2, tree2, free, order.0);
                tree2
            },
        }
    }
}

/// The walk hangs its fills in the tree.
proof fn lemma_walk_follows(
    w: WalkView,
    inputs: StepInputs,
    k: int,
    first: int,
    n: int,
    tree: Tree,
) -> (tree2: Tree)
    requires
        0 <= first,
        0 <= n,
        first + n <= u64::MAX,
        inputs.submit_ids == order_ids(first, n),
        0 <= w.ordinal <= n,
        0 <= k <= inputs.cmds.len(),
        walked(w, inputs, k) is Ok,
        follows(w.books, tree, first + w.ordinal),
    ensures
        ({
            let w2 = walked(w, inputs, k)->Ok_0;
            &&& 0 <= w2.ordinal <= n
            &&& follows(w2.books, tree2, first + w2.ordinal)
            &&& w2.books.ids.order == w.books.ids.order
        }),
    decreases k,
{
    if k == 0 {
        tree
    } else {
        let mid = walked(w, inputs, k - 1)->Ok_0;
        let tree1 = lemma_walk_follows(w, inputs, k - 1, first, n, tree);
        match inputs.cmds[k - 1] {
            OrderCommand::Submit(intent) => lemma_submitted_follows(
                mid,
                inputs,
                k - 1,
                intent,
                tree1,
            ),
            OrderCommand::Cancel(order) => tree1,
            OrderCommand::Replace { order_id, replacement } => {
                assert(follows(dropped(mid, order_id).books, tree1, first + mid.ordinal));
                lemma_submitted_follows(
                    dropped(mid, order_id),
                    inputs,
                    k - 1,
                    replacement,
                    tree1,
                )
            },
        }
    }
}

/// A step hangs its fills in the tree.
proof fn lemma_step_follows(
    b: BooksView,
    inputs: StepInputs,
    carry: Seq<CarryGroup>,
    tree: Tree,
) -> (tree2: Tree)
    requires
        follows(b, tree, b.ids.order as int),
        crate::engine::backtest::ids_fresh(b, inputs),
        step_applied(with_minted(b, inputs.cmds), inputs, carry) is Ok,
    ensures
        ({
            let b2 = step_applied(with_minted(b, inputs.cmds), inputs, carry)->Ok_0;
            follows(b2, tree2, b2.ids.order as int)
        }),
{
    let minted = with_minted(b, inputs.cmds);
    let first = b.ids.order as int;
    let n = minted_total(inputs.cmds);
    crate::engine::run_laws::lemma_minted_nonnegative(inputs.cmds);
    assert(follows(minted, tree, first));
    let books = carry_applied(minted, inputs.fills, carry, inputs.snapshot)->Ok_0;
    let tree1 = lemma_carry_follows(minted, inputs.fills, carry, inputs.snapshot, tree, first);
    lemma_walk_follows(
        WalkView { books, cursor: carry_total(carry), group: 0, trade: None, ordinal: 0 },
        inputs,
        inputs.cmds.len() as int,
        first,
        n,
        tree1,
    )
}

/// Some steps hang their fills in the tree.
proof fn lemma_steps_follow(p: ProgressView, steps: Seq<StepTrace>, tree: Tree) -> (tree2: Tree)
    requires
        follows(p.books, tree, p.books.ids.order as int),
        replayed(p, steps) is Some,
    ensures
        ({
            let q = replayed(p, steps)->0;
            follows(q.books, tree2, q.books.ids.order as int)
        }),
    decreases steps.len(),
{
    if steps.len() == 0 {
        tree
    } else {
        let front = steps.drop_last();
        let t = steps.last();
        let mid = replayed(p, front)->0;
        let q = stepped(mid, t)->0;
        let tree1 = lemma_steps_follow(p, front, tree);
        let tree2 = lemma_step_follows(mid.books, t.inputs, t.carry, tree1);
        let applied = step_applied(
            with_minted(mid.books, t.inputs.cmds),
            t.inputs,
            t.carry,
        )->Ok_0;
        let ledger = crate::engine::backtest::legs_taken_down(
            applied.ledger,
            mid.books.inventory,
            t.inputs.snapshot.spec.contract_multiplier,
        );
        let settled = crate::engine::ledger::after_settle(
            ledger,
            applied.inventory,
            t.inputs.snapshot,
        );
        law_one_row_per_open_leg(
            applied.bundle,
            t.inputs.snapshot.step.0,
            t.inputs.snapshot.ts.0,
            settled.position_marks,
            t.is_last,
        );
        assert(q.books.bundle.fills == applied.bundle.fills);
        assert(q.books.bundle.open_legs == applied.bundle.open_legs);
        tree2
    }
}

/// What comes of a run hangs in a tree.
proof fn lemma_run_follows(
    run: BacktestRun,
    initial_cents: i64,
    name: Seq<char>,
    meta: TapeMeta,
    opening: StepTrace,
    steps: Seq<StepTrace>,
) -> (tree: Tree)
    requires
        comes_of(run, initial_cents, name, meta, opening, steps),
    ensures
        keys_unique(run.fills@),
        forall|i: int| 0 <= i < run.fills@.len() ==> hangs(#[trigger] run.fills@[i], tree),
{
    let p0 = fresh(initial_cents as int);
    let bare = Tree { owner: Map::empty(), home: Map::empty(), count: Map::empty() };
    let books = started(p0.books, opening)->0;
    let tree1 = lemma_step_follows(p0.books, opening.inputs, opening.carry, bare);
    lemma_steps_follow(ProgressView { books, ..p0 }, steps, tree1)
}

/// A fill is known by its order and its number: no two fills of a run share
/// both, however many steps an order rested for.
pub proof fn law_fill_keys_are_unique(
    run: BacktestRun,
    initial_cents: i64,
    name: Seq<char>,
    meta: TapeMeta,
    opening: StepTrace,
    steps: Seq<StepTrace>,
)
    requires
        comes_of(run, initial_cents, name, meta, opening, steps),
    ensures
        keys_unique(run.fills@),
{
    let _ = lemma_run_follows(run, initial_cents, name, meta, opening, steps);
}

/// The fills of a run form a tree: all fills of one order are fills of one
/// leg, and all fills of one leg belong to one trade.
pub proof fn law_fills_form_a_tree(
    run: BacktestRun,
    initial_cents: i64,
    name: Seq<char>,
    meta: TapeMeta,
    opening: StepTrace,
    steps: Seq<StepTrace>,
)
    requires
        comes_of(run, initial_cents, name, meta, opening, steps),
    ensures
        is_tree(run.fills@),
{
    let tree = lemma_run_follows(run, initial_cents, name, meta, opening, steps);
    let fills = run.fills@;
    assert forall|i: int, j: int|
        #![trigger fills[i], fills[j]]
        0 <= i < j < fills.len() implies {
        &&& fills[i].order_id == fills[j].order_id ==> fills[i].position_id == fills[j].position_id
        &&& fills[i].position_id == fills[j].position_id ==> fills[i].trade_id
            == fills[j].trade_id
    } by {
        assert(hangs(run.fills@[i], tree) && hangs(run.fills@[j], tree));
    }
}

} // verus!
