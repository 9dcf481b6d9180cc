//! Leaf evaluation for depth-limited resolving: what of a leaf's value is
//! settled by chips, and the cards that the rest depends on.
//!
//! At a leaf where someone folded, each player's value is plain chips.  Where
//! both are still in, the hand is assumed to check down: a player's value is its
//! all-in equity times the pot, minus what it has committed.  Equities depend on
//! the cards alone, so they are cached under a key of both hands and the dealt
//! board.

use super::subgame::sorted_hand;
use super::vector_cfr::keys::dealt_cards;
use super::vector_cfr::tree::someone_folded;
use crate::engine::{GameState, NO_CARD};
use crate::games::nlhe::ascending;
use crate::util::hash::{fnv_hash, Fnv1a};
use vstd::prelude::*;

verus! {

/// Chips each player nets at a leaf where someone folded: the folded player
/// loses what it put in, the lone survivor takes the pot.
pub open spec fn settled_chips(gs: GameState, player: int) -> int {
    let folded = if player == 0 {
        gs.folded & 1 != 0
    } else {
        gs.folded & 2 != 0
    };
    if folded {
        -(gs.total_committed[player] as int)
    } else {
        gs.pot - gs.total_committed[player]
    }
}

/// The values of a leaf that chips alone settle: there are some exactly where
/// a player has folded.  Where both players are in, the showdown decides.
pub fn settled(gs: &GameState) -> (values: Option<[i64; 2]>)
    requires
        !(gs.folded & 1 != 0 && gs.folded & 2 != 0),
    ensures
        values is Some <==> someone_folded(*gs),
        values matches Some(v) ==> v[0] == settled_chips(*gs, 0) && v[1] == settled_chips(*gs, 1),
{
    let out0: bool = gs.folded & 1 != 0;
    let out1: bool = gs.folded & 2 != 0;
    if !out0 && !out1 {
        return None;
    }
    let put0: i64 = gs.total_committed[0] as i64;
    let put1: i64 = gs.total_committed[1] as i64;
    let pot: i64 = gs.pot as i64;
    let v0: i64 = if out0 {
        -put0
    } else {
        pot - put0
    };
    let v1: i64 = if out1 {
        -put1
    } else {
        pot - put1
    };
    Some([v0, v1])
}

/// A fold moves chips from one player to the other and makes none.
pub proof fn law_settled_zero_sum(gs: GameState)
    requires
        gs.pot == gs.total_committed[0] + gs.total_committed[1],
        someone_folded(gs),
        !(gs.folded & 1 != 0 && gs.folded & 2 != 0),
    ensures
        settled_chips(gs, 0) + settled_chips(gs, 1) == 0,
{
}

/// The dealt cards of a board, in order: an empty slot is not read as a card.
pub fn visible_board(gs: &GameState) -> (cards: Vec<u8>)
    ensures
        cards@ == dealt_cards(gs.board@),
{
    let mut cards: Vec<u8> = Vec::new();
    let mut i: usize = 0;
    assert(cards@ =~= dealt_cards(gs.board@.take(0)));
    while i < 5
        invariant
            i <= 5,
            gs.board@.len() == 5,
            cards@ == dealt_cards(gs.board@.take(i as int)),
        decreases 5 - i,
    {
        let card: u8 = gs.board[i];
        if card != NO_CARD {
            cards.push(card);
        }
        i += 1;
        assert(gs.board@.take(i as int).drop_last() =~= gs.board@.take(i - 1));
    }
    assert(gs.board@.take(5) =~= gs.board@);
    cards
}

/// The bytes behind an equity's cache key.
pub open spec fn equity_bytes(h0: Seq<u8>, h1: Seq<u8>, board: Seq<u8>) -> Seq<u8> {
    ascending(h0) + ascending(h1) + board
}

/// FNV-1a over the (sorted) hands and board — a stable cache key.
pub fn equity_key(h0: [u8; 2], h1: [u8; 2], board: &[u8]) -> (key: u64)
    ensures
        key == fnv_hash(equity_bytes(h0@, h1@, board@)),
{
    let first: [u8; 2] = sorted_hand(h0);
    let second: [u8; 2] = sorted_hand(h1);
    let mut hash = Fnv1a::new();
    hash.write_all(&first);
    hash.write_all(&second);
    hash.write_all(board);
    assert(hash@ =~= equity_bytes(h0@, h1@, board@));
    hash.finish()
}

/// An equity's key bytes tell apart hands and boards; only the order of a
/// hand's two cards does not count.
pub proof fn law_equity_bytes_injective(
    h0: Seq<u8>,
    h1: Seq<u8>,
    board: Seq<u8>,
    g0: Seq<u8>,
    g1: Seq<u8>,
    other: Seq<u8>,
)
    ensures
        equity_bytes(h0, h1, board) == equity_bytes(g0, g1, other) <==> ascending(h0) == ascending(
            g0,
        ) && ascending(h1) == ascending(g1) && board == other,
{
    let x = equity_bytes(h0, h1, board);
    let y = equity_bytes(g0, g1, other);
    if x == y {
        assert(ascending(h0) =~= x.take(2));
        assert(ascending(g0) =~= y.take(2));
        assert(ascending(h1) =~= x.subrange(2, 4));
        assert(ascending(g1) =~= y.subrange(2, 4));
        assert(board =~= x.skip(4));
        assert(other =~= y.skip(4));
    }
}

/// A player that folded pays what it put in, and the other takes just that.
pub proof fn law_folder_pays_the_survivor(gs: GameState, folder: int)
    requires
        gs.pot == gs.total_committed[0] + gs.total_committed[1],
        folder == 0 || folder == 1,
        (gs.folded & 1 != 0) == (folder == 0),
        (gs.folded & 2 != 0) == (folder == 1),
    ensures
        someone_folded(gs),
        settled_chips(gs, folder) == -(gs.total_committed[folder] as int),
        settled_chips(gs, 1 - folder) == gs.total_committed[folder],
{
}

/// A hand that nobody folded has nothing settled.
pub proof fn law_two_survivors_settle_nothing(gs: GameState)
    ensures
        someone_folded(gs) <==> gs.folded & 1 == 1 || gs.folded & 2 == 2,
{
    let f = gs.folded;
    assert((f & 1 != 0) == (f & 1 == 1)) by (bit_vector);
    assert((f & 2 != 0) == (f & 2 == 2)) by (bit_vector);
}

/// An equity's key bytes are the two hands, each lower card first, and the
/// board after them.
pub proof fn law_equity_bytes_laid_out(h0: Seq<u8>, h1: Seq<u8>, board: Seq<u8>)
    requires
        h0.len() == 2,
        h1.len() == 2,
    ensures
        ({
            let bytes = equity_bytes(h0, h1, board);
            &&& bytes.len() == 4 + board.len()
            &&& bytes[0] <= bytes[1] && bytes[2] <= bytes[3]
            &&& (bytes[0] == h0[0] && bytes[1] == h0[1]) || (bytes[0] == h0[1] && bytes[1] == h0[0])
            &&& (bytes[2] == h1[0] && bytes[3] == h1[1]) || (bytes[2] == h1[1] && bytes[3] == h1[0])
            &&& forall|i: int| 0 <= i < board.len() ==> bytes[4 + i] == #[trigger] board[i]
        }),
{
}

} // verus!
