//! Information keys of a subgame.
//!
//! The explicit-deal subgame and the vectorized solver emit strategies under
//! the same keys — that is what lets one score the other — so the bytes behind
//! a key are laid down once, here.

use crate::engine::{card_or_none, DECK_SIZE, NO_CARD};
use crate::util::hash::{fnv1a, fnv_hash};
use vstd::prelude::*;

verus! {

/// Key-namespace marker of a betting node: none.
pub const MARKER_NONE: u8 = 0;

/// Key-namespace marker of a depth-limit continuation choice.
pub const MARKER_CONTINUATION: u8 = 0xFE;

/// Key-namespace marker of a gadget's Follow/Terminate choice.
pub const MARKER_GADGET: u8 = 0xA6;

/// Between board and history, so that they cannot blur together.
pub const SEPARATOR: u8 = 0xFF;

/// The cards of a board that are dealt, in order.
pub open spec fn dealt_cards(board: Seq<u8>) -> Seq<u8>
    decreases board.len(),
{
    if board.len() == 0 {
        Seq::empty()
    } else if board.last() == NO_CARD {
        dealt_cards(board.drop_last())
    } else {
        dealt_cards(board.drop_last()).push(board.last())
    }
}

/// The bytes behind an information key: who acts, the own hand, the dealt
/// board, and — after a separator — the action history; a marker byte last
/// where the choice is not a bet.
pub open spec fn info_bytes(
    player: u8,
    hole: Seq<u8>,
    board: Seq<u8>,
    history: Seq<u8>,
    marker: u8,
) -> Seq<u8> {
    seq![player] + hole + dealt_cards(board) + seq![SEPARATOR] + history + if marker
        == MARKER_NONE {
        Seq::empty()
    } else {
        seq![marker]
    }
}

/// The key of a hand at a node of the public tree.
///
/// `hole` is in ascending order; a nonzero `marker` byte is appended so that a
/// depth-limit continuation choice or gadget choice can never collide with a
/// betting information set at the same place.
pub fn info_key(player: usize, hole: [u8; 2], board: &[u8; 5], history: &[u8], marker: u8) -> (key:
    u64)
    ensures
        key == fnv_hash(info_bytes(player as u8, hole@, board@, history@, marker)),
{
    let mut bytes: Vec<u8> = Vec::new();
    let who: u8 = #[verifier::truncate]
    (player as u8);
    bytes.push(who);
    bytes.push(hole[0]);
    bytes.push(hole[1]);
    let ghost head = seq![who] + hole@;
    assert(bytes@ =~= head);
    assert(head =~= head + dealt_cards(board@.take(0)));
    let mut i: usize = 0;
    while i < 5
        invariant
            i <= 5,
            board@.len() == 5,
            bytes@ == head + dealt_cards(board@.take(i as int)),
        decreases 5 - i,
    {
        let card: u8 = board[i];
        if card != NO_CARD {
            bytes.push(card);
        }
        i += 1;
        proof {
            assert(board@.take(i as int).drop_last() =~= board@.take(i - 1));
            assert(bytes@ =~= head + dealt_cards(board@.take(i as int)));
        }
    }
    assert(board@.take(5) =~= board@);
    bytes.push(SEPARATOR);
    let ghost before = bytes@;
    bytes.extend_from_slice(history);
    assert(bytes@ =~= before + history@);
    if marker != MARKER_NONE {
        bytes.push(marker);
    }
    assert(bytes@ =~= info_bytes(player as u8, hole@, board@, history@, marker));
    fnv1a(bytes.as_slice())
}

/// The key under which a resolved strategy stores a hand's distribution at a
/// betting node.  `hole` must be sorted ascending; `history` is the
/// action-index path from the resolve root (empty at the root itself).
pub fn subgame_info_key(player: usize, hole: [u8; 2], board: &[u8; 5], history: &[u8]) -> (key: u64)
    ensures
        key == fnv_hash(info_bytes(player as u8, hole@, board@, history@, MARKER_NONE)),
{
    info_key(player, hole, board, history, MARKER_NONE)
}

/// A dealt board holds real cards only, no more than there are slots.
pub proof fn lemma_dealt_cards(board: Seq<u8>)
    requires
        forall|i: int| 0 <= i < board.len() ==> card_or_none(#[trigger] board[i]),
    ensures
        dealt_cards(board).len() <= board.len(),
        forall|i: int|
            0 <= i < dealt_cards(board).len() ==> #[trigger] dealt_cards(board)[i] < DECK_SIZE,
    decreases board.len(),
{
    if board.len() > 0 {
        let shorter = board.drop_last();
        assert forall|i: int| 0 <= i < shorter.len() implies card_or_none(#[trigger] shorter[i]) by {
            assert(shorter[i] == board[i]);
        }
        lemma_dealt_cards(shorter);
        assert(card_or_none(board[board.len() - 1]));
    }
}

/// What a key is about.
pub struct Situation {
    pub player: u8,
    pub hole: Seq<u8>,
    pub board: Seq<u8>,
    pub history: Seq<u8>,
    pub marker: u8,
}

impl Situation {
    /// A hand of two cards, a board of real cards and empty slots, a history of
    /// action indices (a menu is far shorter than the marker bytes), and one of
    /// the markers.
    pub open spec fn wf(self) -> bool {
        &&& self.hole.len() == 2
        &&& forall|i: int| 0 <= i < self.board.len() ==> card_or_none(#[trigger] self.board[i])
        &&& forall|i: int| 0 <= i < self.history.len() ==> #[trigger] self.history[i] < MARKER_GADGET
        &&& self.marker == MARKER_NONE || self.marker == MARKER_CONTINUATION || self.marker
            == MARKER_GADGET
    }

    /// The bytes behind its key.
    pub open spec fn bytes(self) -> Seq<u8> {
        info_bytes(self.player, self.hole, self.board, self.history, self.marker)
    }
}

/// Different situations have different key bytes: bettings, continuation
/// choices and gadget choices never share a key's bytes, and neither do two of
/// a kind that differ in player, hand, dealt board or history.
pub proof fn law_info_bytes_injective(a: Situation, b: Situation)
    requires
        a.wf(),
        b.wf(),
        a.bytes() == b.bytes(),
    ensures
        a.player == b.player,
        a.hole == b.hole,
        dealt_cards(a.board) == dealt_cards(b.board),
        a.history == b.history,
        a.marker == b.marker,
{
    let x = a.bytes();
    let y = b.bytes();
    let p = dealt_cards(a.board);
    let q = dealt_cards(b.board);
    lemma_dealt_cards(a.board);
    lemma_dealt_cards(b.board);
    assert(x[0] == a.player && y[0] == b.player);
    assert(a.hole =~= x.subrange(1, 3));
    assert(b.hole =~= y.subrange(1, 3));
    assert(x[3 + p.len() as int] == SEPARATOR);
    assert(y[3 + q.len() as int] == SEPARATOR);
    if p.len() < q.len() {
        assert(y[3 + p.len() as int] == q[p.len() as int]);
    } else if q.len() < p.len() {
        assert(x[3 + q.len() as int] == p[q.len() as int]);
    }
    let n = p.len() as int;
    assert(p =~= x.subrange(3, 3 + n));
    assert(q =~= y.subrange(3, 3 + n));
    let u = x.skip(4 + n);
    let v = y.skip(4 + n);
    assert(u =~= a.history + if a.marker == MARKER_NONE {
        Seq::empty()
    } else {
        seq![a.marker]
    });
    assert(v =~= b.history + if b.marker == MARKER_NONE {
        Seq::empty()
    } else {
        seq![b.marker]
    });
    if a.history.len() < b.history.len() {
        assert(v[a.history.len() as int] == b.history[a.history.len() as int]);
        assert(u[a.history.len() as int] == a.marker);
        assert(false);
    }
    if b.history.len() < a.history.len() {
        assert(u[b.history.len() as int] == a.history[b.history.len() as int]);
        assert(v[b.history.len() as int] == b.marker);
        assert(false);
    }
    let m = a.history.len() as int;
    assert(a.history =~= u.take(m));
    assert(b.history =~= v.take(m));
    if a.marker != MARKER_NONE {
        assert(u[m] == a.marker);
    }
    if b.marker != MARKER_NONE {
        assert(v[m] == b.marker);
    }
}

/// The dealt cards of a board are its slots that are not empty, in their order.
pub proof fn law_dealt_cards_are_the_filled_slots(board: Seq<u8>)
    ensures
        dealt_cards(board) == board.filter(|c: u8| c != 255),
    decreases board.len(),
{
    reveal(Seq::filter);
    if board.len() > 0 {
        law_dealt_cards_are_the_filled_slots(board.drop_last());
    }
}

/// Where each thing stands in an information key's bytes: the player, the hand,
/// the dealt cards, a byte that is no card, the history, and at the end the
/// marker, where there is one.
pub proof fn law_info_bytes_laid_out(a: Situation)
    requires
        a.wf(),
    ensures
        ({
            let bytes = a.bytes();
            let dealt = a.board.filter(|c: u8| c != 255);
            let n = dealt.len() as int;
            let m = a.history.len() as int;
            &&& bytes.len() == n + m + 4 + if a.marker == 0 { 0int } else { 1 }
            &&& bytes[0] == a.player
            &&& bytes[1] == a.hole[0] && bytes[2] == a.hole[1]
            &&& forall|i: int| 0 <= i < n ==> bytes[3 + i] == #[trigger] dealt[i]
            &&& bytes[3 + n] == 255
            &&& forall|i: int| 0 <= i < m ==> bytes[4 + n + i] == #[trigger] a.history[i]
            &&& a.marker != 0 ==> bytes[4 + n + m] == a.marker
        }),
{
    law_dealt_cards_are_the_filled_slots(a.board);
}

} // verus!
