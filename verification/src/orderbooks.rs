//! The order book of one market, rebuilt from whole books and differences.
//!
//! Each side is a map from a price to the size resting at it, both in units
//! of one hundred-millionth. A level of size zero is never kept.
use vstd::prelude::*;
use vstd::std_specs::cmp::OrdSpec;
use vstd::std_specs::iter::IteratorSpec;
use crate::amount::{amount_text, capped_sum, Amount};
use crate::text::{integer_text, integer_to_text};
use crate::periods::{period_seconds, Periods};
use crate::stream_api::{Board, BoardView, PriceLevel};
use crate::time::{bucket_at, bucket_of, seconds_of, valid_time};
use std::collections::{BTreeMap, BTreeSet};

verus! {

/// The size at a price, or zero where no level rests.
pub open spec fn size_at(levels: Map<u64, u64>, price: u64) -> u64 {
    if levels.contains_key(price) {
        levels[price]
    } else {
        0
    }
}

/// No level of the side has size zero.
pub open spec fn no_empty_level(levels: Map<u64, u64>) -> bool {
    forall|p: u64| levels.contains_key(p) ==> #[trigger] levels[p] != 0
}

/// A side with one more level of a whole book put in: its size is added to
/// what rests at its price already. A level of size zero adds nothing.
pub open spec fn snapshot_step(levels: Map<u64, u64>, level: PriceLevel) -> Map<u64, u64> {
    if level.size.units == 0 {
        levels
    } else {
        levels.insert(level.price.units, capped_sum(size_at(levels, level.price.units), level.size.units))
    }
}

/// The side that the levels of a whole book give: for each price the sum of
/// the sizes given for it, and no level where that sum is zero.
pub open spec fn snapshot_side(entries: Seq<PriceLevel>) -> Map<u64, u64>
    decreases entries.len(),
{
    if entries.len() == 0 {
        Map::<u64, u64>::empty()
    } else {
        snapshot_step(snapshot_side(entries.drop_last()), entries.last())
    }
}

/// A side while a difference is applied to it: its levels, and the prices
/// that this difference has set so far.
pub struct SideState {
    pub levels: Map<u64, u64>,
    pub touched: Set<u64>,
}

/// A side with one more entry of a difference applied.
///
/// An entry at price zero is ignored. An entry of size zero takes the level
/// at its price away. The first other entry at a price replaces what rests
/// there; each further one adds its size.
pub open spec fn diff_step(state: SideState, entry: PriceLevel) -> SideState {
    let p = entry.price.units;
    let s = entry.size.units;
    if p == 0 {
        state
    } else if s == 0 {
        SideState { levels: state.levels.remove(p), touched: state.touched }
    } else if !state.touched.contains(p) {
        SideState { levels: state.levels.insert(p, s), touched: state.touched.insert(p) }
    } else {
        SideState {
            levels: state.levels.insert(p, capped_sum(size_at(state.levels, p), s)),
            touched: state.touched,
        }
    }
}

/// A side with the entries of a difference applied in order.
pub open spec fn diff_fold(state: SideState, entries: Seq<PriceLevel>) -> SideState
    decreases entries.len(),
{
    if entries.len() == 0 {
        state
    } else {
        diff_step(diff_fold(state, entries.drop_last()), entries.last())
    }
}

/// The side that a difference makes of `levels`.
pub open spec fn diff_side(levels: Map<u64, u64>, entries: Seq<PriceLevel>) -> Map<u64, u64> {
    diff_fold(SideState { levels, touched: Set::<u64>::empty() }, entries).levels
}

/// The level that rests at `price` on a side.
pub open spec fn level_at(levels: Map<u64, u64>, price: u64) -> PriceLevel {
    PriceLevel { price: Amount { units: price }, size: Amount { units: levels[price] } }
}

/// `p` is the lowest price of the side.
pub open spec fn is_lowest(levels: Map<u64, u64>, p: u64) -> bool {
    levels.contains_key(p) && forall|q: u64| levels.contains_key(q) ==> p <= q
}

/// `p` is the highest price of the side.
pub open spec fn is_highest(levels: Map<u64, u64>, p: u64) -> bool {
    levels.contains_key(p) && forall|q: u64| levels.contains_key(q) ==> q <= p
}

/// The `count` lowest levels of a side, lowest first; all of them where the
/// side holds fewer.
pub open spec fn lowest_levels(levels: Map<u64, u64>, count: nat) -> Seq<PriceLevel>
    decreases count,
{
    if count == 0 || !exists|p: u64| is_lowest(levels, p) {
        Seq::<PriceLevel>::empty()
    } else {
        let p = choose|p: u64| is_lowest(levels, p);
        seq![level_at(levels, p)] + lowest_levels(levels.remove(p), (count - 1) as nat)
    }
}

/// The `count` highest levels of a side, highest first; all of them where
/// the side holds fewer.
pub open spec fn highest_levels(levels: Map<u64, u64>, count: nat) -> Seq<PriceLevel>
    decreases count,
{
    if count == 0 || !exists|p: u64| is_highest(levels, p) {
        Seq::<PriceLevel>::empty()
    } else {
        let p = choose|p: u64| is_highest(levels, p);
        seq![level_at(levels, p)] + highest_levels(levels.remove(p), (count - 1) as nat)
    }
}

/// How one level is written: `[price,size]`.
pub open spec fn level_text(level: PriceLevel) -> Seq<char> {
    "["@ + amount_text(level.price.units as nat) + ","@ + amount_text(level.size.units as nat)
        + "]"@
}

/// How a run of levels is written: each as `[price,size]`, parted by commas.
pub open spec fn levels_text(levels: Seq<PriceLevel>) -> Seq<char>
    decreases levels.len(),
{
    if levels.len() == 0 {
        Seq::<char>::empty()
    } else if levels.len() == 1 {
        level_text(levels[0])
    } else {
        levels_text(levels.drop_last()) + ","@ + level_text(levels.last())
    }
}

/// The number of levels of each side that a record shows.
pub const SHOWN_LEVELS: usize = 25;

/// The record of a book: the start of its bucket, the lowest asks from the
/// lowest up and the highest bids from the highest down, parted by spaces and
/// ended by a line feed.
pub open spec fn book_record(book: BookView) -> Seq<char> {
    integer_text(book.date as int) + " "@ + levels_text(
        lowest_levels(book.asks, SHOWN_LEVELS as nat),
    ) + " "@ + levels_text(highest_levels(book.bids, SHOWN_LEVELS as nat)) + "\n"@
}

/// `all` lists the levels of a side, each once, from the lowest price up.
pub open spec fn lists_side(all: Seq<PriceLevel>, levels: Map<u64, u64>) -> bool {
    &&& forall|i: int, j: int| 0 <= i < j < all.len() ==> all[i].price.units < all[j].price.units
    &&& forall|i: int|
        0 <= i < all.len() ==> levels.contains_key((#[trigger] all[i]).price.units) && all[i]
            == level_at(levels, all[i].price.units)
    &&& forall|p: u64| #[trigger]
        levels.contains_key(p) ==> exists|i: int| 0 <= i < all.len() && (#[trigger] all[i]).price.units == p
}

/// What an order book holds.
pub struct BookView {
    /// The start of the current bucket, in seconds.
    pub date: i64,
    pub asks: Map<u64, u64>,
    pub bids: Map<u64, u64>,
    /// The width of a bucket, in seconds.
    pub period: int,
}

/// A book with a board applied: a whole book replaces both sides, a
/// difference is applied to each side by itself, and the bucket becomes that
/// of the board's receipt.
pub open spec fn board_applied(book: BookView, board: BoardView) -> BookView {
    BookView {
        date: bucket_at(board.receive_time, book.period) as i64,
        asks: if board.is_update {
            diff_side(book.asks, board.asks)
        } else {
            snapshot_side(board.asks)
        },
        bids: if board.is_update {
            diff_side(book.bids, board.bids)
        } else {
            snapshot_side(board.bids)
        },
        period: book.period,
    }
}

/// A book is written out before a board is applied to it when the board was
/// received in another bucket than the book's and the book holds a level.
pub open spec fn closed_by(book: BookView, board: BoardView) -> bool {
    bucket_at(board.receive_time, book.period) != book.date && (book.asks.len() > 0
        || book.bids.len() > 0)
}

/// A book with a run of boards applied in order.
pub open spec fn boards_applied(book: BookView, boards: Seq<BoardView>) -> BookView
    decreases boards.len(),
{
    if boards.len() == 0 {
        book
    } else {
        board_applied(boards_applied(book, boards.drop_last()), boards.last())
    }
}

/// The order book of one market.
#[derive(Debug)]
pub struct OrderBooks {
    date: i64,
    asks: BTreeMap<u64, u64>,
    bids: BTreeMap<u64, u64>,
    periods: Periods,
}

impl View for OrderBooks {
    type V = BookView;

    closed spec fn view(&self) -> BookView {
        BookView {
            date: self.date,
            asks: self.asks@,
            bids: self.bids@,
            period: self.periods.seconds(),
        }
    }
}

/// A step of a whole book keeps a side free of empty levels.
pub proof fn lemma_snapshot_step_keeps(levels: Map<u64, u64>, level: PriceLevel)
    requires
        no_empty_level(levels),
    ensures
        no_empty_level(snapshot_step(levels, level)),
{
    let next = snapshot_step(levels, level);
    assert forall|p: u64| next.contains_key(p) implies #[trigger] next[p] != 0 by {
        if p != level.price.units {
            assert(levels.contains_key(p));
            assert(levels[p] != 0);
        }
    }
}

/// A step of a difference keeps a side free of empty levels.
pub proof fn lemma_diff_step_keeps(state: SideState, entry: PriceLevel)
    requires
        no_empty_level(state.levels),
    ensures
        no_empty_level(diff_step(state, entry).levels),
{
    let next = diff_step(state, entry).levels;
    assert forall|p: u64| next.contains_key(p) implies #[trigger] next[p] != 0 by {
        if p != entry.price.units {
            assert(state.levels.contains_key(p));
            assert(state.levels[p] != 0);
        } else if next.contains_key(p) && entry.price.units != 0 && entry.size.units != 0 {
        } else if entry.price.units == 0 {
            assert(state.levels[p] != 0);
        }
    }
}

/// The side of a whole book has no empty level.
pub proof fn lemma_snapshot_side_keeps(entries: Seq<PriceLevel>)
    ensures
        no_empty_level(snapshot_side(entries)),
    decreases entries.len(),
{
    if entries.len() > 0 {
        lemma_snapshot_side_keeps(entries.drop_last());
        lemma_snapshot_step_keeps(snapshot_side(entries.drop_last()), entries.last());
    }
}

/// A difference keeps a side free of empty levels.
pub proof fn lemma_diff_fold_keeps(state: SideState, entries: Seq<PriceLevel>)
    requires
        no_empty_level(state.levels),
    ensures
        no_empty_level(diff_fold(state, entries).levels),
    decreases entries.len(),
{
    if entries.len() > 0 {
        lemma_diff_fold_keeps(state, entries.drop_last());
        lemma_diff_step_keeps(diff_fold(state, entries.drop_last()), entries.last());
    }
}

/// Fills an empty side with the levels of a whole book.
fn fill_side(side: &mut BTreeMap<u64, u64>, entries: &Vec<PriceLevel>)
    requires
        old(side)@ == Map::<u64, u64>::empty(),
    ensures
        final(side)@ == snapshot_side(entries@),
{
    let n: usize = entries.len();
    let mut i: usize = 0;
    while i < n
        invariant
            i <= n,
            n == entries.len(),
            side@ == snapshot_side(entries@.subrange(0, i as int)),
        decreases n - i,
    {
        let level = entries[i];
        proof {
            let next = entries@.subrange(0, i + 1);
            assert(next.drop_last() == entries@.subrange(0, i as int));
            assert(next.last() == level);
        }
        if level.size.units != 0 {
            let resting: u64 = match side.get(&level.price.units) {
                Some(v) => *v,
                None => 0,
            };
            side.insert(level.price.units, resting.saturating_add(level.size.units));
        }
        i = i + 1;
    }
    assert(entries@.subrange(0, n as int) == entries@);
}

/// Applies the entries of a difference to a side.
fn merge_side(side: &mut BTreeMap<u64, u64>, entries: &Vec<PriceLevel>)
    ensures
        final(side)@ == diff_side(old(side)@, entries@),
{
    let n: usize = entries.len();
    let mut touched: BTreeSet<u64> = BTreeSet::new();
    let ghost start = SideState { levels: side@, touched: Set::<u64>::empty() };
    let mut i: usize = 0;
    while i < n
        invariant
            i <= n,
            n == entries.len(),
            start == (SideState { levels: old(side)@, touched: Set::<u64>::empty() }),
            (SideState { levels: side@, touched: touched@ }) == diff_fold(
                start,
                entries@.subrange(0, i as int),
            ),
        decreases n - i,
    {
        let entry = entries[i];
        proof {
            let next = entries@.subrange(0, i + 1);
            assert(next.drop_last() == entries@.subrange(0, i as int));
            assert(next.last() == entry);
        }
        let p: u64 = entry.price.units;
        let s: u64 = entry.size.units;
        if p == 0 {
        } else if s == 0 {
            side.remove(&p);
        } else if !touched.contains(&p) {
            side.insert(p, s);
            touched.insert(p);
        } else {
            let resting: u64 = match side.get(&p) {
                Some(v) => *v,
                None => 0,
            };
            side.insert(p, resting.saturating_add(s));
        }
        i = i + 1;
    }
    assert(entries@.subrange(0, n as int) == entries@);
}

impl OrderBooks {
    /// The period is valid, the bucket is one of it, and no level is empty.
    pub open spec fn wf(&self) -> bool {
        &&& self.period_wf()
        &&& no_empty_level(self@.asks)
        &&& no_empty_level(self@.bids)
    }

    /// The period of the book is a valid one.
    pub closed spec fn period_wf(&self) -> bool {
        self.periods.wf()
    }

    /// The notation of the period.
    pub closed spec fn notation(&self) -> Seq<char> {
        self.periods.notation()
    }

    /// An empty book for buckets of the period `periods_str`, made at the
    /// instant `now`.
    pub fn new(periods_str: String, now: i64) -> (r: OrderBooks)
        requires
            period_seconds(periods_str@) is Some,
            valid_time(now as int),
        ensures
            r.wf(),
            r.notation() == periods_str@,
            r@.period == period_seconds(periods_str@).unwrap(),
            r@.asks == Map::<u64, u64>::empty(),
            r@.bids == Map::<u64, u64>::empty(),
            r@.date == bucket_at(now, r@.period),
    {
        let periods = Periods::new(periods_str);
        let date = bucket_of(seconds_of(now), periods.time());
        OrderBooks { date, asks: BTreeMap::new(), bids: BTreeMap::new(), periods }
    }

    /// Replaces the book by a whole book: both sides are emptied and filled
    /// with the board's levels, and the bucket is that of the board's receipt.
    pub fn start(&mut self, board: &Board)
        requires
            old(self).wf(),
            board.wf(),
        ensures
            final(self).wf(),
            final(self)@ == (BookView {
                date: bucket_at(board.receive_time, old(self)@.period) as i64,
                asks: snapshot_side(board.asks@),
                bids: snapshot_side(board.bids@),
                period: old(self)@.period,
            }),
            final(self).notation() == old(self).notation(),
    {
        self.asks.clear();
        self.bids.clear();
        fill_side(&mut self.asks, &board.asks);
        fill_side(&mut self.bids, &board.bids);
        self.date = bucket_of(seconds_of(board.receive_time), self.periods.time());
        proof {
            lemma_snapshot_side_keeps(board.asks@);
            lemma_snapshot_side_keeps(board.bids@);
        }
    }

    /// Applies a board to the book: a whole book replaces it, a difference
    /// is applied to each side by itself. The bucket becomes that of the
    /// board's receipt.
    pub fn update(&mut self, board: &Board)
        requires
            old(self).wf(),
            board.wf(),
        ensures
            final(self).wf(),
            final(self)@ == board_applied(old(self)@, board@),
            final(self).notation() == old(self).notation(),
    {
        if !board.is_update {
            self.start(board);
            return ;
        }
        proof {
            lemma_diff_fold_keeps(
                SideState { levels: self.asks@, touched: Set::<u64>::empty() },
                board.asks@,
            );
            lemma_diff_fold_keeps(
                SideState { levels: self.bids@, touched: Set::<u64>::empty() },
                board.bids@,
            );
        }
        merge_side(&mut self.asks, &board.asks);
        merge_side(&mut self.bids, &board.bids);
        self.date = bucket_of(seconds_of(board.receive_time), self.periods.time());
    }

    /// Whether the board was received in the book's current bucket.
    pub fn in_periods(&self, board: &Board) -> (r: bool)
        requires
            self.wf(),
            board.wf(),
        ensures
            r == (bucket_at(board.receive_time, self@.period) == self@.date),
    {
        bucket_of(seconds_of(board.receive_time), self.periods.time()) == self.date
    }

    /// Takes a board in. When the board was received in another bucket than
    /// the book's and the book holds a level, the result is the record of the
    /// book as it was; then the board is applied.
    pub fn accept(&mut self, board: &Board) -> (r: Option<String>)
        requires
            old(self).wf(),
            board.wf(),
        ensures
            final(self).wf(),
            final(self)@ == board_applied(old(self)@, board@),
            final(self).notation() == old(self).notation(),
            match r {
                Some(record) => closed_by(old(self)@, board@) && record@ == book_record(
                    old(self)@,
                ),
                None => !closed_by(old(self)@, board@),
            },
    {
        let record = if !self.in_periods(board) && self.has_data() {
            Some(self.get_csv())
        } else {
            None
        };
        self.update(board);
        record
    }

    /// Whether a level rests on either side.
    pub fn has_data(&self) -> (r: bool)
        ensures
            r == (self@.asks.len() > 0 || self@.bids.len() > 0),
    {
        !self.asks.is_empty() || !self.bids.is_empty()
    }

    /// The notation of the period, which names the book's file.
    pub fn get_csv_name(&self) -> (r: String)
        ensures
            r@ == self.notation(),
    {
        self.periods.to_str()
    }
}

/// Keys that a tree map hands out in increasing order grow strictly.
proof fn lemma_increasing_keys(s: Seq<u64>)
    requires
        vstd::std_specs::btree::increasing_seq(s),
    ensures
        forall|i: int, j: int| 0 <= i < j < s.len() ==> s[i] < s[j],
{
    assert(vstd::laws_cmp::obeys_cmp::<u64>());
    vstd::std_specs::btree::axiom_increasing_seq_meaning(s);
    assert forall|i: int, j: int| 0 <= i < j < s.len() implies s[i] < s[j] by {
        assert(s[i].cmp_spec(&s[j]) is Less);
    }
}

/// The lowest levels of a side are the first of its listing.
proof fn lemma_lowest_levels(all: Seq<PriceLevel>, levels: Map<u64, u64>, count: nat)
    requires
        lists_side(all, levels),
    ensures
        lowest_levels(levels, count) == all.subrange(
            0,
            if count <= all.len() {
                count as int
            } else {
                all.len() as int
            },
        ),
    decreases count,
{
    let k = if count <= all.len() {
        count as int
    } else {
        all.len() as int
    };
    if count == 0 {
        assert(all.subrange(0, 0) =~= Seq::<PriceLevel>::empty());
    } else if all.len() == 0 {
        assert forall|p: u64| !is_lowest(levels, p) by {
            if levels.contains_key(p) {
                let i = choose|i: int| 0 <= i < all.len() && (#[trigger] all[i]).price.units == p;
            }
        }
        assert(all.subrange(0, 0) =~= Seq::<PriceLevel>::empty());
    } else {
        let edge = all[0].price.units;
        assert(is_lowest(levels, edge)) by {
            assert forall|q: u64| levels.contains_key(q) implies edge <= q by {
                let i = choose|i: int| 0 <= i < all.len() && (#[trigger] all[i]).price.units == q;
            }
        }
        let p = choose|p: u64| is_lowest(levels, p);
        assert(p == edge);
        let rest = all.drop_first();
        let fewer = levels.remove(edge);
        assert(lists_side(rest, fewer)) by {
            assert forall|i: int| 0 <= i < rest.len() implies fewer.contains_key(
                (#[trigger] rest[i]).price.units,
            ) && rest[i] == level_at(fewer, rest[i].price.units) by {
                assert(rest[i] == all[i + 1]);
            }
            assert forall|i: int, j: int| 0 <= i < j < rest.len() implies rest[i].price.units
                < rest[j].price.units by {
                assert(rest[i] == all[i + 1]);
                assert(rest[j] == all[j + 1]);
            }
            assert forall|q: u64| #[trigger] fewer.contains_key(q) implies exists|i: int|
                0 <= i < rest.len() && (#[trigger] rest[i]).price.units == q by {
                assert(levels.contains_key(q));
                let i = choose|i: int| 0 <= i < all.len() && (#[trigger] all[i]).price.units == q;
                assert(rest[i - 1] == all[i]);
            }
        }
        lemma_lowest_levels(rest, fewer, (count - 1) as nat);
        assert(seq![level_at(levels, edge)] + rest.subrange(0, k - 1) =~= all.subrange(0, k));
    }
}

/// The highest levels of a side are the last of its listing, from the last back.
proof fn lemma_highest_levels(all: Seq<PriceLevel>, levels: Map<u64, u64>, count: nat)
    requires
        lists_side(all, levels),
    ensures
        highest_levels(levels, count) == Seq::new(
            if count <= all.len() {
                count
            } else {
                all.len()
            },
            |i: int| all[all.len() - 1 - i],
        ),
    decreases count,
{
    let k: nat = if count <= all.len() {
        count
    } else {
        all.len()
    };
    let shown = Seq::new(k, |i: int| all[all.len() - 1 - i]);
    if count == 0 {
        assert(shown =~= Seq::<PriceLevel>::empty());
    } else if all.len() == 0 {
        assert forall|p: u64| !is_highest(levels, p) by {
            if levels.contains_key(p) {
                let i = choose|i: int| 0 <= i < all.len() && (#[trigger] all[i]).price.units == p;
            }
        }
        assert(shown =~= Seq::<PriceLevel>::empty());
    } else {
        let top = all.len() - 1;
        let edge = all[top].price.units;
        assert(is_highest(levels, edge)) by {
            assert forall|q: u64| levels.contains_key(q) implies q <= edge by {
                let i = choose|i: int| 0 <= i < all.len() && (#[trigger] all[i]).price.units == q;
            }
        }
        let p = choose|p: u64| is_highest(levels, p);
        assert(p == edge);
        let rest = all.drop_last();
        let fewer = levels.remove(edge);
        assert(lists_side(rest, fewer)) by {
            assert forall|i: int| 0 <= i < rest.len() implies fewer.contains_key(
                (#[trigger] rest[i]).price.units,
            ) && rest[i] == level_at(fewer, rest[i].price.units) by {
                assert(rest[i] == all[i]);
            }
            assert forall|i: int, j: int| 0 <= i < j < rest.len() implies rest[i].price.units
                < rest[j].price.units by {
                assert(rest[i] == all[i]);
                assert(rest[j] == all[j]);
            }
            assert forall|q: u64| #[trigger] fewer.contains_key(q) implies exists|i: int|
                0 <= i < rest.len() && (#[trigger] rest[i]).price.units == q by {
                assert(levels.contains_key(q));
                let i = choose|i: int| 0 <= i < all.len() && (#[trigger] all[i]).price.units == q;
                assert(rest[i] == all[i]);
            }
        }
        lemma_highest_levels(rest, fewer, (count - 1) as nat);
        let below = Seq::new((k - 1) as nat, |i: int| rest[rest.len() - 1 - i]);
        assert(seq![level_at(levels, edge)] + below =~= shown);
    }
}

/// The levels of a side, each once, from the lowest price up.
fn listing(side: &BTreeMap<u64, u64>) -> (r: Vec<PriceLevel>)
    ensures
        lists_side(r@, side@),
{
    let mut out: Vec<PriceLevel> = Vec::new();
    let iter = side.iter();
    let ghost all = iter.remaining();
    proof {
        assert(forall|i: int|
            0 <= i < all.len() ==> side@.contains_key(*(#[trigger] all[i]).0) && side@[*all[i].0]
                == *all[i].1);
        let keys = all.map_values(|kv: (&u64, &u64)| *kv.0);
        assert(vstd::std_specs::btree::increasing_seq(keys));
        lemma_increasing_keys(keys);
        assert forall|i: int, j: int| 0 <= i < j < all.len() implies *all[i].0 < *all[j].0 by {
            assert(keys[i] == *all[i].0);
            assert(keys[j] == *all[j].0);
        }
    }
    for kv in it: iter
        invariant
            it.seq() == all,
            out@.len() == it.index(),
            forall|i: int|
                0 <= i < out@.len() ==> (#[trigger] out@[i]).price.units == *all[i].0
                    && out@[i].size.units == *all[i].1,
    {
        out.push(PriceLevel { price: Amount { units: *kv.0 }, size: Amount { units: *kv.1 } });
    }
    proof {
        assert forall|p: u64| #[trigger] side@.contains_key(p) implies exists|i: int|
            0 <= i < out@.len() && (#[trigger] out@[i]).price.units == p by {
            assert(all.contains((&p, &side@[p])));
            let i = choose|i: int| 0 <= i < all.len() && all[i] == (&p, &side@[p]);
            assert(out@[i].price.units == p);
        }
    }
    out
}

/// Writes a run of levels, each as `[price,size]`, parted by commas.
fn write_levels(levels: &Vec<PriceLevel>) -> (r: String)
    ensures
        r@ == levels_text(levels@),
{
    let n: usize = levels.len();
    let mut out = String::new();
    let mut i: usize = 0;
    assert(levels@.subrange(0, 0) =~= Seq::<PriceLevel>::empty());
    while i < n
        invariant
            i <= n,
            n == levels.len(),
            out@ == levels_text(levels@.subrange(0, i as int)),
        decreases n - i,
    {
        proof {
            let next = levels@.subrange(0, i + 1);
            assert(next.drop_last() == levels@.subrange(0, i as int));
            assert(next.last() == levels@[i as int]);
            assert(Seq::<char>::empty() + "["@ =~= "["@);
        }
        if i > 0 {
            out.append(",");
        }
        out.append("[");
        out.append(levels[i].price.to_text().as_str());
        out.append(",");
        out.append(levels[i].size.to_text().as_str());
        out.append("]");
        proof {
            let next = levels@.subrange(0, i + 1);
            if i == 0 {
                assert(out@ =~= level_text(next[0]));
            } else {
                assert(out@ =~= levels_text(next.drop_last()) + ","@ + level_text(next.last()));
            }
        }
        i = i + 1;
    }
    assert(levels@.subrange(0, n as int) == levels@);
    out
}

impl OrderBooks {
    /// The record of the book: the start of its bucket, then the lowest asks
    /// and the highest bids, at most `SHOWN_LEVELS` of each.
    pub fn get_csv(&self) -> (r: String)
        ensures
            r@ == book_record(self@),
    {
        let asks = listing(&self.asks);
        let bids = listing(&self.bids);
        let shown_asks: usize = if asks.len() < SHOWN_LEVELS {
            asks.len()
        } else {
            SHOWN_LEVELS
        };
        let shown_bids: usize = if bids.len() < SHOWN_LEVELS {
            bids.len()
        } else {
            SHOWN_LEVELS
        };
        let mut low: Vec<PriceLevel> = Vec::new();
        let mut i: usize = 0;
        while i < shown_asks
            invariant
                i <= shown_asks <= asks.len(),
                low@ == asks@.subrange(0, i as int),
            decreases shown_asks - i,
        {
            low.push(asks[i]);
            i = i + 1;
        }
        let mut high: Vec<PriceLevel> = Vec::new();
        let mut j: usize = 0;
        while j < shown_bids
            invariant
                j <= shown_bids <= bids.len(),
                high@ == Seq::new(j as nat, |t: int| bids@[bids@.len() - 1 - t]),
            decreases shown_bids - j,
        {
            high.push(bids[bids.len() - 1 - j]);
            j = j + 1;
        }
        proof {
            lemma_lowest_levels(asks@, self.asks@, SHOWN_LEVELS as nat);
            lemma_highest_levels(bids@, self.bids@, SHOWN_LEVELS as nat);
        }
        let mut out = integer_to_text(self.date as i128);
        out.append(" ");
        out.append(write_levels(&low).as_str());
        out.append(" ");
        out.append(write_levels(&high).as_str());
        out.append("\n");
        out
    }
}

/// No board leaves an empty level: a book without one has none after any
/// board.
pub proof fn lemma_board_keeps(book: BookView, board: BoardView)
    requires
        no_empty_level(book.asks),
        no_empty_level(book.bids),
    ensures
        no_empty_level(board_applied(book, board).asks),
        no_empty_level(board_applied(book, board).bids),
{
    lemma_snapshot_side_keeps(board.asks);
    lemma_snapshot_side_keeps(board.bids);
    lemma_diff_fold_keeps(SideState { levels: book.asks, touched: Set::<u64>::empty() }, board.asks);
    lemma_diff_fold_keeps(SideState { levels: book.bids, touched: Set::<u64>::empty() }, board.bids);
}

/// After any run of whole books and differences no level of the book has
/// size zero.
pub proof fn lemma_boards_keep(book: BookView, boards: Seq<BoardView>)
    requires
        no_empty_level(book.asks),
        no_empty_level(book.bids),
    ensures
        no_empty_level(boards_applied(book, boards).asks),
        no_empty_level(boards_applied(book, boards).bids),
    decreases boards.len(),
{
    if boards.len() > 0 {
        lemma_boards_keep(book, boards.drop_last());
        lemma_board_keeps(boards_applied(book, boards.drop_last()), boards.last());
    }
}

/// The first entry of a difference at a price replaces what rests there: a
/// difference of one entry, of a price and a size that are not zero, leaves
/// exactly that size at that price, whatever rested there.
pub proof fn lemma_first_touch_replaces(levels: Map<u64, u64>, entry: PriceLevel)
    requires
        entry.price.units != 0,
        entry.size.units != 0,
    ensures
        diff_side(levels, seq![entry]) == levels.insert(entry.price.units, entry.size.units),
{
    let start = SideState { levels, touched: Set::<u64>::empty() };
    let one = seq![entry];
    assert(one.drop_last() =~= Seq::<PriceLevel>::empty());
    assert(diff_fold(start, one.drop_last()) == start);
    assert(one.last() == entry);
}

/// A price repeated within one difference accumulates: two entries at one
/// price, of sizes that are not zero, leave their sum at that price,
/// whatever rested there.
pub proof fn lemma_repeat_accumulates(levels: Map<u64, u64>, first: PriceLevel, second: PriceLevel)
    requires
        first.price.units != 0,
        first.price == second.price,
        first.size.units != 0,
        second.size.units != 0,
    ensures
        diff_side(levels, seq![first, second]) == levels.insert(
            first.price.units,
            capped_sum(first.size.units, second.size.units),
        ),
{
    let start = SideState { levels, touched: Set::<u64>::empty() };
    let two = seq![first, second];
    assert(two.drop_last() =~= seq![first]);
    lemma_first_touch_replaces(levels, first);
    let one = seq![first];
    assert(one.drop_last() =~= Seq::<PriceLevel>::empty());
    assert(diff_fold(start, one.drop_last()) == start);
    assert(one.last() == first);
    assert(two.last() == second);
    let mid = diff_fold(start, one);
    assert(mid.touched.contains(first.price.units));
    assert(mid.levels.insert(
        first.price.units,
        capped_sum(size_at(mid.levels, first.price.units), second.size.units),
    ) =~= levels.insert(first.price.units, capped_sum(first.size.units, second.size.units)));
}

/// A whole book leaves nothing of what was there before: every level of the
/// side it gives rests at a price that the book itself names with a size
/// that is not zero.
pub proof fn lemma_snapshot_has_only_given(entries: Seq<PriceLevel>, p: u64)
    requires
        snapshot_side(entries).contains_key(p),
    ensures
        exists|i: int|
            0 <= i < entries.len() && (#[trigger] entries[i]).price.units == p
                && entries[i].size.units != 0,
    decreases entries.len(),
{
    if entries.len() > 0 {
        let front = entries.drop_last();
        let last = entries.last();
        if last.size.units != 0 && last.price.units == p {
            assert(entries[entries.len() - 1] == last);
        } else {
            assert(snapshot_side(front).contains_key(p));
            lemma_snapshot_has_only_given(front, p);
            let i = choose|i: int|
                0 <= i < front.len() && (#[trigger] front[i]).price.units == p
                    && front[i].size.units != 0;
            assert(entries[i] == front[i]);
        }
    }
}

/// A whole book supersedes the book it is applied to: two books of one
/// period are the same after the same whole book, whatever they held.
pub proof fn lemma_snapshot_supersedes(a: BookView, b: BookView, board: BoardView)
    requires
        !board.is_update,
        a.period == b.period,
    ensures
        board_applied(a, board) == board_applied(b, board),
{
}

} // verus!
