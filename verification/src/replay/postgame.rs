//! Post-game leaderboard ELO, read out of a replay's post-game leaderboard blocks.
use vstd::prelude::*;

verus! {

/// One player's row of a post-game leaderboard; `player_number` is 0-indexed.
#[derive(Debug, Clone, Copy, PartialEq, Eq, Structural)]
pub struct LeaderboardPlayer {
    pub player_number: i32,
    pub rank: i32,
    pub elo: i32,
}

/// One ladder's post-game leaderboard (ladder 3 = 1v1 RM, 4 = team RM).
#[derive(Debug, Clone)]
pub struct Leaderboard {
    pub id: u32,
    pub unknown1: u32,
    pub num_players: u32,
    pub players: Vec<LeaderboardPlayer>,
}

/// One block of a replay's post-game record.
#[derive(Debug)]
pub enum PostGameBlock {
    WorldTime { length: u32, world_time: u32 },
    Leaderboards {
        length: u32,
        num_leaderboards: u32,
        leaderboards: Vec<Leaderboard>,
        realignment_field: (),
    },
    /// Any other block; it carries nothing the pipeline reads.
    Other,
}

/// The ELO map that a sequence of `(ladder, game player number, elo)` entries builds, a
/// later entry replacing an earlier one for the same key.
pub open spec fn elo_map(v: Seq<(u32, i32, i32)>) -> Map<(u32, i32), i32>
    decreases v.len(),
{
    if v.len() == 0 {
        Map::empty()
    } else {
        elo_map(v.drop_last()).insert((v.last().0, v.last().1), v.last().2)
    }
}

/// Per-`(ladder, game player number)` ranked ELO.
#[derive(Debug)]
pub struct EloTable {
    by: Vec<(u32, i32, i32)>,
}

impl View for EloTable {
    type V = Map<(u32, i32), i32>;

    closed spec fn view(&self) -> Map<(u32, i32), i32> {
        elo_map(self.by@)
    }
}

proof fn lemma_elo_map_prefix(v: Seq<(u32, i32, i32)>, i: int, key: (u32, i32))
    requires
        0 <= i <= v.len(),
        forall|j: int| i <= j < v.len() ==> (#[trigger] v[j]).0 != key.0 || v[j].1 != key.1,
    ensures
        elo_map(v).contains_key(key) == elo_map(v.subrange(0, i)).contains_key(key),
        elo_map(v).contains_key(key) ==> elo_map(v)[key] == elo_map(v.subrange(0, i))[key],
    decreases v.len() - i,
{
    if i < v.len() {
        let w = v.drop_last();
        assert(w.subrange(0, i) == v.subrange(0, i));
        assert forall|j: int| i <= j < w.len() implies (#[trigger] w[j]).0 != key.0 || w[j].1 != key.1 by {
            assert(w[j] == v[j]);
        }
        lemma_elo_map_prefix(w, i, key);
    } else {
        assert(v.subrange(0, i) == v);
    }
}

impl EloTable {
    /// An empty table.
    pub fn new() -> (r: Self)
        ensures
            r@ == Map::<(u32, i32), i32>::empty(),
    {
        EloTable { by: Vec::new() }
    }

    /// Records an ELO; the leaderboard's player number is 0-indexed, so the game player
    /// number is one more.
    pub fn insert(&mut self, ladder: u32, lb_player_number: i32, elo: i32)
        requires
            lb_player_number < i32::MAX,
        ensures
            final(self)@ == old(self)@.insert((ladder, (lb_player_number + 1) as i32), elo),
    {
        self.by.push((ladder, lb_player_number + 1, elo));
        assert(self.by@.drop_last() == old(self).by@);
    }

    /// The ELO of a game player number on a ladder, if recorded.
    pub fn elo(&self, player_number: i32, ladder: u32) -> (r: Option<i32>)
        ensures
            match r {
                Some(e) => self@.contains_key((ladder, player_number)) && self@[(
                    ladder,
                    player_number,
                )] == e,
                None => !self@.contains_key((ladder, player_number)),
            },
    {
        let ghost key = (ladder, player_number);
        let mut i = self.by.len();
        while i > 0
            invariant
                i <= self.by@.len(),
                key == (ladder, player_number),
                forall|j: int|
                    i <= j < self.by@.len() ==> (#[trigger] self.by@[j]).0 != ladder || self.by@[j].1
                        != player_number,
            decreases i,
        {
            let e = self.by[i - 1];
            if e.0 == ladder && e.1 == player_number {
                proof {
                    let pre = self.by@.subrange(0, i as int);
                    lemma_elo_map_prefix(self.by@, i as int, key);
                    assert(pre.drop_last() == self.by@.subrange(0, i - 1));
                    assert(pre.last() == e);
                    assert(elo_map(pre) == elo_map(pre.drop_last()).insert((e.0, e.1), e.2));
                }
                return Some(e.2);
            }
            i = i - 1;
        }
        proof {
            lemma_elo_map_prefix(self.by@, 0, key);
        }
        None
    }
}

impl Default for EloTable {
    fn default() -> (r: Self)
        ensures
            r@ == Map::<(u32, i32), i32>::empty(),
    {
        EloTable::new()
    }
}

/// Whether every leaderboard row of the blocks has a player number below `i32::MAX`
/// (one more than it is the game player number).
pub open spec fn blocks_in_range(blocks: Seq<PostGameBlock>) -> bool {
    forall|b: int, l: int, p: int|
        0 <= b < blocks.len() && blocks[b] is Leaderboards && 0 <= l
            < blocks[b]->leaderboards@.len() && 0 <= p
            < blocks[b]->leaderboards@[l].players@.len() ==> (
        #[trigger] blocks[b]->leaderboards@[l].players@[p]).player_number < i32::MAX
}

/// The entries one leaderboard contributes.
pub open spec fn board_entries(lb: Leaderboard) -> Seq<(u32, i32, i32)> {
    lb.players@.map_values(
        |lp: LeaderboardPlayer| (lb.id, (lp.player_number + 1) as i32, lp.elo),
    )
}

/// The entries a list of leaderboards contributes, in order.
pub open spec fn boards_entries(lbs: Seq<Leaderboard>) -> Seq<(u32, i32, i32)>
    decreases lbs.len(),
{
    if lbs.len() == 0 {
        Seq::empty()
    } else {
        boards_entries(lbs.drop_last()) + board_entries(lbs.last())
    }
}

/// The entries a list of post-game blocks contributes, in order: those of its
/// leaderboard blocks.
pub open spec fn blocks_entries(blocks: Seq<PostGameBlock>) -> Seq<(u32, i32, i32)>
    decreases blocks.len(),
{
    if blocks.len() == 0 {
        Seq::empty()
    } else {
        blocks_entries(blocks.drop_last()) + match blocks.last() {
            PostGameBlock::Leaderboards { leaderboards, .. } => boards_entries(leaderboards@),
            _ => Seq::empty(),
        }
    }
}

/// The ELO table after folding the entries `v` into `m`.
pub open spec fn elo_merge(m: Map<(u32, i32), i32>, v: Seq<(u32, i32, i32)>) -> Map<
    (u32, i32),
    i32,
>
    decreases v.len(),
{
    if v.len() == 0 {
        m
    } else {
        elo_merge(m, v.drop_last()).insert((v.last().0, v.last().1), v.last().2)
    }
}

pub(crate) proof fn lemma_elo_merge_append(m: Map<(u32, i32), i32>, a: Seq<(u32, i32, i32)>, b: Seq<(u32, i32, i32)>)
    ensures
        elo_merge(m, a + b) == elo_merge(elo_merge(m, a), b),
    decreases b.len(),
{
    if b.len() == 0 {
        assert(a + b == a);
    } else {
        assert((a + b).drop_last() == a + b.drop_last());
        lemma_elo_merge_append(m, a, b.drop_last());
    }
}

/// Walks one post-game record's blocks and merges every leaderboard row into `elo`
/// (rows in order, a later row for the same key winning).
pub fn collect_leaderboard_elo(blocks: &[PostGameBlock], elo: &mut EloTable)
    requires
        blocks_in_range(blocks@),
    ensures
        final(elo)@ == elo_merge(old(elo)@, blocks_entries(blocks@)),
{
    let ghost start = elo@;
    let mut bi: usize = 0;
    while bi < blocks.len()
        invariant
            bi <= blocks@.len(),
            blocks_in_range(blocks@),
            elo@ == elo_merge(start, blocks_entries(blocks@.subrange(0, bi as int))),
        decreases blocks@.len() - bi,
    {
        let ghost pre = blocks@.subrange(0, bi as int);
        assert(blocks@.subrange(0, bi + 1).drop_last() == pre);
        match &blocks[bi] {
            PostGameBlock::Leaderboards { leaderboards, .. } => {
                let mut li: usize = 0;
                while li < leaderboards.len()
                    invariant
                        li <= leaderboards@.len(),
                        blocks_in_range(blocks@),
                        bi < blocks@.len(),
                        blocks@[bi as int] is Leaderboards,
                        blocks@[bi as int]->leaderboards@ == leaderboards@,
                        elo@ == elo_merge(
                            start,
                            blocks_entries(pre) + boards_entries(leaderboards@.subrange(0, li as int)),
                        ),
                    decreases leaderboards@.len() - li,
                {
                    let lb = &leaderboards[li];
                    let ghost before_board = elo@;
                    let mut pi: usize = 0;
                    while pi < lb.players.len()
                        invariant
                            pi <= lb.players@.len(),
                            blocks_in_range(blocks@),
                            bi < blocks@.len(),
                            li < leaderboards@.len(),
                            blocks@[bi as int] is Leaderboards,
                            blocks@[bi as int]->leaderboards@ == leaderboards@,
                            *lb == leaderboards@[li as int],
                            elo@ == elo_merge(before_board, board_entries(*lb).subrange(0, pi as int)),
                        decreases lb.players@.len() - pi,
                    {
                        let lp = lb.players[pi];
                        assert(lb.players@[pi as int].player_number < i32::MAX);
                        elo.insert(lb.id, lp.player_number, lp.elo);
                        assert(board_entries(*lb).subrange(0, pi + 1).drop_last() == board_entries(
                            *lb,
                        ).subrange(0, pi as int));
                        pi = pi + 1;
                    }
                    proof {
                        assert(board_entries(*lb).subrange(0, pi as int) == board_entries(*lb));
                        let b0 = blocks_entries(pre);
                        let lbs = leaderboards@.subrange(0, li as int);
                        assert(leaderboards@.subrange(0, li + 1).drop_last() == lbs);
                        assert(leaderboards@.subrange(0, li + 1).last() == *lb);
                        lemma_elo_merge_append(start, b0 + boards_entries(lbs), board_entries(*lb));
                        assert(b0 + boards_entries(lbs) + board_entries(*lb) == b0
                            + boards_entries(leaderboards@.subrange(0, li + 1)));
                    }
                    li = li + 1;
                }
                assert(leaderboards@.subrange(0, leaderboards@.len() as int) == leaderboards@);
            },
            _ => {
                assert(blocks_entries(blocks@.subrange(0, bi + 1)) == blocks_entries(pre) + Seq::<
                    (u32, i32, i32),
                >::empty());
                assert(blocks_entries(pre) + Seq::<(u32, i32, i32)>::empty() == blocks_entries(pre));
            },
        }
        bi = bi + 1;
    }
    assert(blocks@.subrange(0, blocks@.len() as int) == blocks@);
}

} // verus!
