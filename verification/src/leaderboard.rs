//! The global leaderboard: the ten best final scores, best first.

use vstd::prelude::*;
use crate::server_state::TopScoreEntry;
use crate::ws_messages::{rows_view, ServerMsgView, WsServerMsg};

verus! {

/// The number of rows that the leaderboard holds at most.
pub const LEADERBOARD_CAPACITY: usize = 10;

/// A row of the leaderboard: a score and the name of the player who reached it.
pub type Row = (u32, Seq<char>);

/// Whether the scores of `rows` never increase from one row to the next.
pub open spec fn descending(rows: Seq<Row>) -> bool {
    forall|i: int, j: int| 0 <= i <= j < rows.len() ==> rows[i].0 >= rows[j].0
}

/// The invariant of the leaderboard: at most `LEADERBOARD_CAPACITY` rows, best score first.
pub open spec fn leaderboard_wf(rows: Seq<Row>) -> bool {
    &&& rows.len() <= LEADERBOARD_CAPACITY
    &&& descending(rows)
}

/// `rows` with `row` put in its place: behind every row whose score is at
/// least as high, before every row whose score is lower. Among rows of equal
/// score the one that came first stays first.
pub open spec fn placed(rows: Seq<Row>, row: Row) -> Seq<Row>
    decreases rows.len(),
{
    if rows.len() == 0 || rows.last().0 >= row.0 {
        rows.push(row)
    } else {
        placed(rows.drop_last(), row).push(rows.last())
    }
}

/// Whether a leaderboard that holds `rows` takes in a row with score `score`:
/// it does while it has room, and after that when the score is strictly
/// higher than its lowest one.
pub open spec fn accepts(rows: Seq<Row>, score: u32) -> bool {
    rows.len() < LEADERBOARD_CAPACITY || score > rows.last().0
}

/// The rows of a leaderboard after `row` was offered to it. A full
/// leaderboard that accepts the row gives up its last row, which is the one
/// that came last among those of the lowest score.
pub open spec fn offered(rows: Seq<Row>, row: Row) -> Seq<Row> {
    if rows.len() < LEADERBOARD_CAPACITY {
        placed(rows, row)
    } else if row.0 > rows.last().0 {
        placed(rows.drop_last(), row)
    } else {
        rows
    }
}

/// The rows of a leaderboard after each of `offers` was offered to it in turn.
pub open spec fn offered_all(rows: Seq<Row>, offers: Seq<Row>) -> Seq<Row>
    decreases offers.len(),
{
    if offers.len() == 0 {
        rows
    } else {
        offered(offered_all(rows, offers.drop_last()), offers.last())
    }
}

/// Whether the leaderboard took in at least one of `offers`, offered in turn.
pub open spec fn any_accepted(rows: Seq<Row>, offers: Seq<Row>) -> bool
    decreases offers.len(),
{
    if offers.len() == 0 {
        false
    } else {
        any_accepted(rows, offers.drop_last()) || accepts(
            offered_all(rows, offers.drop_last()),
            offers.last().0,
        )
    }
}

/// Putting a row in its place is inserting it at the index that separates the
/// rows that score at least as high from those that score lower.
pub proof fn lemma_placed_is_insert(rows: Seq<Row>, row: Row, i: int)
    requires
        0 <= i <= rows.len(),
        i == 0 || rows[i - 1].0 >= row.0,
        forall|k: int| i <= k < rows.len() ==> rows[k].0 < row.0,
    ensures
        placed(rows, row) == rows.insert(i, row),
    decreases rows.len(),
{
    if rows.len() == 0 || rows.last().0 >= row.0 {
        assert(i == rows.len());
        assert(rows.push(row) =~= rows.insert(i, row));
    } else {
        assert(i < rows.len());
        lemma_placed_is_insert(rows.drop_last(), row, i);
        assert(rows.drop_last().insert(i, row).push(rows.last()) =~= rows.insert(i, row));
    }
}

/// Putting a row in its place adds one row, and where the row and every
/// row before score at least `floor`, so does every row afterwards.
pub proof fn lemma_placed_bounded(rows: Seq<Row>, row: Row, floor: u32)
    requires
        row.0 >= floor,
        forall|k: int| 0 <= k < rows.len() ==> rows[k].0 >= floor,
    ensures
        placed(rows, row).len() == rows.len() + 1,
        forall|k: int| 0 <= k < rows.len() + 1 ==> (#[trigger] placed(rows, row)[k]).0 >= floor,
    decreases rows.len(),
{
    if rows.len() == 0 || rows.last().0 >= row.0 {
    } else {
        lemma_placed_bounded(rows.drop_last(), row, floor);
    }
}

/// Putting a row in its place keeps the rows in descending order.
pub proof fn lemma_placed_descending(rows: Seq<Row>, row: Row)
    requires
        descending(rows),
    ensures
        descending(placed(rows, row)),
        placed(rows, row).len() == rows.len() + 1,
    decreases rows.len(),
{
    if rows.len() == 0 || rows.last().0 >= row.0 {
    } else {
        let front = rows.drop_last();
        lemma_placed_descending(front, row);
        lemma_placed_bounded(front, row, rows.last().0);
    }
}

/// Offering a row to a leaderboard keeps its invariant.
pub proof fn lemma_offered_wf(rows: Seq<Row>, row: Row)
    requires
        leaderboard_wf(rows),
    ensures
        leaderboard_wf(offered(rows, row)),
{
    if rows.len() < LEADERBOARD_CAPACITY {
        lemma_placed_descending(rows, row);
    } else if row.0 > rows.last().0 {
        lemma_placed_descending(rows.drop_last(), row);
    }
}

/// Offering rows in turn to a leaderboard keeps its invariant.
pub proof fn lemma_offered_all_wf(rows: Seq<Row>, offers: Seq<Row>)
    requires
        leaderboard_wf(rows),
    ensures
        leaderboard_wf(offered_all(rows, offers)),
    decreases offers.len(),
{
    if offers.len() > 0 {
        lemma_offered_all_wf(rows, offers.drop_last());
        lemma_offered_wf(offered_all(rows, offers.drop_last()), offers.last());
    }
}

/// The number of rows of `rows` that score exactly `score`.
pub open spec fn count_scoring(rows: Seq<Row>, score: u32) -> nat
    decreases rows.len(),
{
    if rows.len() == 0 {
        0
    } else {
        count_scoring(rows.drop_last(), score) + if rows.last().0 == score {
            1nat
        } else {
            0nat
        }
    }
}

/// Putting a row in its place adds one to the number of rows with its score
/// and leaves the number of rows with any other score as it was.
pub proof fn lemma_placed_count(rows: Seq<Row>, row: Row, score: u32)
    ensures
        count_scoring(placed(rows, row), score) == count_scoring(rows, score) + if row.0
            == score {
            1nat
        } else {
            0nat
        },
    decreases rows.len(),
{
    if rows.len() == 0 || rows.last().0 >= row.0 {
        assert(rows.push(row).drop_last() =~= rows);
    } else {
        let inner = placed(rows.drop_last(), row);
        lemma_placed_count(rows.drop_last(), row, score);
        assert(inner.push(rows.last()).drop_last() =~= inner);
    }
}

/// A leaderboard that gives up its last row for a row that scores higher
/// holds other rows afterwards.
pub proof fn lemma_offer_replaces(rows: Seq<Row>, row: Row)
    requires
        rows.len() > 0,
        row.0 > rows.last().0,
    ensures
        placed(rows.drop_last(), row) != rows,
{
    lemma_placed_count(rows.drop_last(), row, rows.last().0);
}

/// The global leaderboard.
pub struct Leaderboard {
    entries: Vec<TopScoreEntry>,
}

impl View for Leaderboard {
    type V = Seq<Row>;

    closed spec fn view(&self) -> Seq<Row> {
        self.entries@.map_values(|e: TopScoreEntry| e@)
    }
}

impl Leaderboard {
    /// Whether the leaderboard satisfies its invariant.
    pub open spec fn wf(&self) -> bool {
        leaderboard_wf(self@)
    }

    /// The empty leaderboard.
    pub fn new() -> (board: Self)
        ensures
            board@ == Seq::<Row>::empty(),
            board.wf(),
    {
        let board = Leaderboard { entries: Vec::new() };
        assert(board@ =~= Seq::<Row>::empty());
        board
    }

    /// The number of rows.
    pub fn len(&self) -> (n: usize)
        ensures
            n == self@.len(),
            self.wf() ==> n <= LEADERBOARD_CAPACITY,
    {
        self.entries.len()
    }

    /// The lowest score on the leaderboard, if it has a row.
    pub fn min_score(&self) -> (res: Option<u32>)
        ensures
            self@.len() == 0 ==> res is None,
            self@.len() > 0 ==> res == Some(self@.last().0),
    {
        let n = self.entries.len();
        if n == 0 {
            None
        } else {
            Some(self.entries[n - 1].score)
        }
    }

    /// Offers a final score to the leaderboard and says whether the
    /// leaderboard changed. While the leaderboard has room it takes every
    /// row. A full leaderboard takes a row that scores strictly higher than
    /// its lowest row, and drops that lowest row.
    pub fn offer(&mut self, score: u32, name: String) -> (changed: bool)
        requires
            old(self).wf(),
        ensures
            final(self).wf(),
            changed == accepts(old(self)@, score),
            final(self)@ == offered(old(self)@, (score, name@)),
            changed <==> final(self)@ != old(self)@,
            forall|i: int|
                0 <= i < final(self)@.len() ==> final(self)@.last().0 <= (
                #[trigger] final(self)@[i]).0,
    {
        let n = self.entries.len();
        if n >= LEADERBOARD_CAPACITY {
            if score <= self.entries[n - 1].score {
                return false;
            }
            self.entries.pop();
            assert(self@ =~= old(self)@.drop_last());
        }
        let ghost kept = self@;
        let ghost row = (score, name@);
        let mut i: usize = self.entries.len();
        while i > 0 && self.entries[i - 1].score < score
            invariant
                i <= self.entries.len(),
                self@ == kept,
                forall|k: int| i <= k < kept.len() ==> kept[k].0 < score,
            decreases i,
        {
            i -= 1;
        }
        assert(i == 0 || kept[i - 1].0 >= score);
        self.entries.insert(i, TopScoreEntry { score, name });
        proof {
            assert(self@ =~= kept.insert(i as int, row));
            lemma_placed_is_insert(kept, row, i as int);
            lemma_placed_descending(kept, row);
            assert(self@.len() != old(self)@.len() || self@ != old(self)@) by {
                if self@.len() == old(self)@.len() {
                    lemma_offer_replaces(old(self)@, row);
                }
            }
        }
        true
    }

    /// Offers each of `offers` in turn and says whether the leaderboard took any of them.
    pub fn offer_all(&mut self, offers: Vec<(u32, String)>) -> (changed: bool)
        requires
            old(self).wf(),
        ensures
            final(self).wf(),
            final(self)@ == offered_all(old(self)@, rows_view(offers@)),
            changed == any_accepted(old(self)@, rows_view(offers@)),
    {
        let ghost all = rows_view(offers@);
        let mut changed = false;
        let mut i: usize = 0;
        while i < offers.len()
            invariant
                i <= offers.len(),
                all == rows_view(offers@),
                self.wf(),
                self@ == offered_all(old(self)@, all.take(i as int)),
                changed == any_accepted(old(self)@, all.take(i as int)),
            decreases offers.len() - i,
        {
            proof {
                assert(all.take(i + 1).drop_last() =~= all.take(i as int));
                assert(all.take(i + 1).last() == all[i as int]);
            }
            let took = self.offer(offers[i].0, offers[i].1.clone());
            changed = changed || took;
            i += 1;
        }
        assert(all.take(offers.len() as int) =~= all);
        changed
    }

    /// The rows of the leaderboard, best score first, for display.
    pub fn snapshot(&self) -> (rows: Vec<(u32, String)>)
        ensures
            rows_view(rows@) == self@,
            self.wf() ==> descending(rows_view(rows@)) && rows@.len() <= LEADERBOARD_CAPACITY,
    {
        let mut rows: Vec<(u32, String)> = Vec::new();
        let mut i: usize = 0;
        while i < self.entries.len()
            invariant
                i <= self.entries.len(),
                rows@.len() == i,
                forall|k: int|
                    0 <= k < i ==> (#[trigger] rows@[k]).0 == self.entries@[k].score && rows@[k].1@
                        == self.entries@[k].name@,
            decreases self.entries.len() - i,
        {
            rows.push((self.entries[i].score, self.entries[i].name.clone()));
            i += 1;
        }
        assert(rows_view(rows@) =~= self@);
        rows
    }

    /// The rows of the leaderboard, best score first, as they are persisted.
    pub fn entries(&self) -> (rows: Vec<TopScoreEntry>)
        ensures
            rows@.map_values(|e: TopScoreEntry| e@) == self@,
    {
        let mut rows: Vec<TopScoreEntry> = Vec::new();
        let mut i: usize = 0;
        while i < self.entries.len()
            invariant
                i <= self.entries.len(),
                rows@ == self.entries@.take(i as int),
            decreases self.entries.len() - i,
        {
            rows.push(self.entries[i].clone());
            assert(self.entries@.take(i as int).push(self.entries@[i as int])
                =~= self.entries@.take(i + 1));
            i += 1;
        }
        assert(self.entries@.take(self.entries.len() as int) =~= self.entries@);
        rows
    }

    /// The leaderboard that results from offering each of `rows` in turn to
    /// an empty one. Rows beyond the ten best are not taken in.
    pub fn from_entries(rows: Vec<TopScoreEntry>) -> (board: Self)
        ensures
            board.wf(),
            board@ == offered_all(Seq::<Row>::empty(), rows@.map_values(|e: TopScoreEntry| e@)),
    {
        let ghost all = rows@.map_values(|e: TopScoreEntry| e@);
        let mut board = Leaderboard::new();
        let mut i: usize = 0;
        while i < rows.len()
            invariant
                i <= rows.len(),
                all == rows@.map_values(|e: TopScoreEntry| e@),
                board.wf(),
                board@ == offered_all(Seq::<Row>::empty(), all.take(i as int)),
            decreases rows.len() - i,
        {
            proof {
                assert(all.take(i + 1).drop_last() =~= all.take(i as int));
                assert(all.take(i + 1).last() == all[i as int]);
            }
            board.offer(rows[i].score, rows[i].name.clone());
            i += 1;
        }
        assert(all.take(rows.len() as int) =~= all);
        board
    }

    /// The event that shows the leaderboard to a client that has just connected.
    pub fn top_10_message(&self) -> (msg: WsServerMsg)
        ensures
            msg@ == (ServerMsgView::Top10Scores { scores: self@ }),
    {
        WsServerMsg::Top10Scores { scores: self.snapshot() }
    }
}

} // verus!
