//! The re-solving gadget — safe continual re-solving.
//!
//! A plain resolve is anchored only on the opponent's *blueprint range*; it can
//! hand the opponent more than an earlier resolve promised.  The **re-solving
//! gadget** fixes this by constraining the resolve with the opponent's
//! counterfactual values from the previous one.  At the gadget root the opponent
//! — per hand `h` — chooses between:
//!
//! * **Follow**: enter the real subgame holding `h` (our hand dealt from *our*
//!   range), and play it out.
//! * **Terminate**: take the previously guaranteed value of `h` and leave.
//!
//! The betting subtree under Follow is the ordinary [`Subgame`], so gadget play
//! information sets share the plain resolve's keys.  Heads-up: `me` is the
//! re-solving player, who acts at the root, and `opp` the chooser.

use super::continual::by_seat;
use super::subgame::{
    actor, avoids, choice_pending, compatible, disjoint_hands, is_hand,
    law_compatible_shares_nothing, node_bytes, off_board, sorted_hand, Subgame, SubgameNode,
};
use super::vector_cfr::keys::{dealt_cards, info_bytes, lemma_dealt_cards, MARKER_GADGET, SEPARATOR};
use super::vector_cfr::tree::wants_card;
use crate::engine::{card_or_none, GameState};
use crate::games::nlhe::ascending;
use crate::util::hash::{fnv1a, fnv_hash};
use vstd::prelude::*;

verus! {

/// Opponent gadget action: enter the subgame.
pub const FOLLOW: usize = 0;

/// Opponent gadget action: take the guaranteed counterfactual value and leave.
pub const TERMINATE: usize = 1;

/// A node of the re-solving gadget game.
#[derive(Clone, Debug)]
pub enum GadgetState {
    /// Chance: pick the opponent's hand (the gadget reasons per hand).
    Root,
    /// The opponent's Follow/Terminate decision for a hand.
    Choice([u8; 2]),
    /// Terminal: the opponent took its guaranteed value for a hand.
    Terminate([u8; 2]),
    /// Chance: deal *our* hand from our range, the opponent holding this one.
    FollowDeal([u8; 2]),
    /// A real betting node.
    Play(SubgameNode),
}

/// An opponent hand that can follow, by its place in the opponent's range, with
/// the places in our range of the hands we may hold against it.
pub struct FollowHand {
    pub hand: usize,
    pub deals: Vec<usize>,
}

/// The places of our hands that can be dealt against `h` on `board`, among the
/// first `n`.
pub open spec fn follow_deals(board: Seq<u8>, mine: Seq<[u8; 2]>, h: [u8; 2], n: nat) -> Seq<usize>
    decreases n,
{
    if n == 0 {
        Seq::empty()
    } else {
        let before = follow_deals(board, mine, h, (n - 1) as nat);
        if compatible(board, mine[n - 1], h) {
            before.push((n - 1) as usize)
        } else {
            before
        }
    }
}

/// Whether the gadget reasons over the opponent hand at `j`: it is off the
/// board, a guarantee is carried for it, and we can be dealt a hand against it.
pub open spec fn follows(
    board: Seq<u8>,
    mine: Seq<[u8; 2]>,
    theirs: Seq<[u8; 2]>,
    guaranteed: Seq<bool>,
    j: int,
) -> bool {
    &&& avoids(theirs[j], board)
    &&& guaranteed[j]
    &&& follow_deals(board, mine, theirs[j], mine.len()).len() > 0
}

/// The opponent hands that the gadget reasons over, among the first `n`.
pub open spec fn followers(
    board: Seq<u8>,
    mine: Seq<[u8; 2]>,
    theirs: Seq<[u8; 2]>,
    guaranteed: Seq<bool>,
    n: nat,
) -> Seq<(int, Seq<usize>)>
    decreases n,
{
    if n == 0 {
        Seq::empty()
    } else {
        let before = followers(board, mine, theirs, guaranteed, (n - 1) as nat);
        if follows(board, mine, theirs, guaranteed, n - 1) {
            before.push((n - 1, follow_deals(board, mine, theirs[n - 1], mine.len())))
        } else {
            before
        }
    }
}

/// Following hands as a sequence.
pub open spec fn follow_views(hands: Seq<FollowHand>) -> Seq<(int, Seq<usize>)> {
    Seq::new(hands.len(), |i: int| (hands[i].hand as int, hands[i].deals@))
}

/// The re-solving gadget: re-solves **our** strategy subject to the opponent's
/// carried counterfactual-value constraints.
pub struct GadgetGame {
    /// Play-method delegate.
    pub inner: Subgame,
    pub me: usize,
    pub opp: usize,
    /// The opponent hands the gadget reasons over.
    pub hands: Vec<FollowHand>,
}

/// The bytes behind the key of a choice: the chooser, its own hand, a marker.
pub open spec fn choice_bytes(opp: usize, hand: Seq<u8>) -> Seq<u8> {
    seq![opp as u8] + ascending(hand) + seq![MARKER_GADGET]
}

/// Places of our hands that can be dealt against `h`, which is off the board.
fn deals_against(board: &[u8; 5], mine: &[[u8; 2]], h: [u8; 2]) -> (deals: Vec<usize>)
    requires
        avoids(h, board@),
        forall|i: int| 0 <= i < mine@.len() ==> is_hand(#[trigger] mine@[i]),
    ensures
        deals@ == follow_deals(board@, mine@, h, mine@.len()),
{
    let mut deals: Vec<usize> = Vec::new();
    let mut i: usize = 0;
    while i < mine.len()
        invariant
            i <= mine@.len(),
            avoids(h, board@),
            forall|k: int| 0 <= k < mine@.len() ==> is_hand(#[trigger] mine@[k]),
            deals@ == follow_deals(board@, mine@, h, i as nat),
        decreases mine@.len() - i,
    {
        if off_board(mine[i], board) && disjoint_hands(mine[i], h) {
            deals.push(i);
        }
        i += 1;
    }
    deals
}

impl GadgetGame {
    /// The players are the two seats, and the chooser is the continuation
    /// chooser.
    pub open spec fn wf(&self) -> bool {
        &&& self.inner.wf()
        &&& self.me < 2
        &&& self.opp == 1 - self.me
        &&& self.inner.chooser == self.opp
    }

    /// Build the gadget rooted at `root` over the hands of our range, those of
    /// the opponent's, and whether each of those carries a finite guarantee.
    ///
    /// Opponent hands that are blocked by the board, carry no guarantee, or have
    /// no legal deal of our hand are dropped (they cannot meaningfully follow).
    pub fn new(
        root: &GameState,
        mine: &[[u8; 2]],
        theirs: &[[u8; 2]],
        guaranteed: &[bool],
        continuations: usize,
    ) -> (game: Self)
        requires
            root.wf(),
            guaranteed@.len() == theirs@.len(),
            forall|i: int| 0 <= i < mine@.len() ==> is_hand(#[trigger] mine@[i]),
            forall|i: int| 0 <= i < theirs@.len() ==> is_hand(#[trigger] theirs@[i]),
        ensures
            game.wf(),
            game.me == root.to_act,
            game.inner.k == if continuations > 1 {
                continuations
            } else {
                1
            },
            follow_views(game.hands@) == followers(
                root.board@,
                mine@,
                theirs@,
                guaranteed@,
                theirs@.len(),
            ),
    {
        let me: usize = root.current_player();
        let inner = Subgame::new(root, continuations);
        let mut hands: Vec<FollowHand> = Vec::new();
        let mut j: usize = 0;
        assert(follow_views(hands@) =~= followers(root.board@, mine@, theirs@, guaranteed@, 0));
        while j < theirs.len()
            invariant
                j <= theirs@.len(),
                guaranteed@.len() == theirs@.len(),
                forall|i: int| 0 <= i < mine@.len() ==> is_hand(#[trigger] mine@[i]),
                forall|i: int| 0 <= i < theirs@.len() ==> is_hand(#[trigger] theirs@[i]),
                follow_views(hands@) == followers(
                    root.board@,
                    mine@,
                    theirs@,
                    guaranteed@,
                    j as nat,
                ),
            decreases theirs@.len() - j,
        {
            let ghost before = hands@;
            let h: [u8; 2] = theirs[j];
            if off_board(h, &root.board) && guaranteed[j] {
                let deals: Vec<usize> = deals_against(&root.board, mine, h);
                if deals.len() > 0 {
                    hands.push(FollowHand { hand: j, deals });
                    assert(follow_views(hands@) =~= follow_views(before).push(
                        (j as int, deals@),
                    ));
                }
            }
            j += 1;
        }
        GadgetGame { inner, me, opp: 1 - me, hands }
    }

    /// The re-solving player (whose strategy is deployed).
    pub fn me(&self) -> (me: usize)
        ensures
            me == self.me,
    {
        self.me
    }

    /// The gadget chooser / constrained opponent.
    pub fn opp(&self) -> (opp: usize)
        ensures
            opp == self.opp,
    {
        self.opp
    }

    /// The opponent hands the gadget reasons over, by their places in the
    /// opponent's range.
    pub fn opp_hands(&self) -> (places: Vec<usize>)
        ensures
            places@ == Seq::new(self.hands@.len(), |i: int| self.hands@[i].hand),
    {
        let mut places: Vec<usize> = Vec::new();
        let mut i: usize = 0;
        while i < self.hands.len()
            invariant
                i <= self.hands@.len(),
                places@.len() == i,
                forall|k: int| 0 <= k < i ==> #[trigger] places@[k] == self.hands@[k].hand,
            decreases self.hands@.len() - i,
        {
            places.push(self.hands[i].hand);
            i += 1;
        }
        assert(places@ =~= Seq::new(self.hands@.len(), |i: int| self.hands@[i].hand));
        places
    }

    /// The chance node that picks the opponent's hand.
    pub fn root(&self) -> (state: GadgetState)
        ensures
            state is Root,
    {
        GadgetState::Root
    }

    /// Whether the gadget game is over at `state`.
    pub fn is_terminal(&self, state: &GadgetState) -> (over: bool)
        requires
            *state matches GadgetState::Play(n) ==> n.wf(),
        ensures
            over == match *state {
                GadgetState::Terminate(_) => true,
                GadgetState::Play(n) => n.gs is Some && !choice_pending(self.inner, n) && (
                n.gs->0.terminal || wants_card(n.gs->0)),
                _ => false,
            },
    {
        match state {
            GadgetState::Terminate(_) => true,
            GadgetState::Play(n) => self.inner.is_terminal(n),
            _ => false,
        }
    }

    /// Whether chance acts at `state`.
    pub fn is_chance(&self, state: &GadgetState) -> (chance: bool)
        ensures
            chance == (state is Root || state is FollowDeal),
    {
        match state {
            GadgetState::Root => true,
            GadgetState::FollowDeal(_) => true,
            _ => false,
        }
    }

    /// Whether `player` receives the guaranteed value at Terminate; the other
    /// player pays it.
    pub fn banks(&self, player: usize) -> (receives: bool)
        ensures
            receives == (player == self.opp),
    {
        player == self.opp
    }

    /// Who acts at a choice or a play node.
    pub fn current_player(&self, state: &GadgetState) -> (player: usize)
        requires
            self.wf(),
            *state is Choice || (*state is Play && state->Play_0.wf() && state->Play_0.gs is Some),
        ensures
            player == match *state {
                GadgetState::Play(n) => actor(self.inner, n),
                _ => self.opp as int,
            },
            player < 2,
    {
        match state {
            GadgetState::Play(n) => self.inner.current_player(n),
            _ => self.opp,
        }
    }

    /// Actions at a choice (Follow and Terminate) or at a play node that has
    /// `legal` legal bets, and as a leaf `continuations` continuations.
    pub fn num_actions(&self, state: &GadgetState, legal: usize, continuations: usize) -> (n: usize)
        requires
            *state is Choice || (*state is Play && state->Play_0.wf() && state->Play_0.gs is Some),
        ensures
            n == match *state {
                GadgetState::Play(node) => if choice_pending(self.inner, node) {
                    continuations
                } else {
                    legal
                },
                _ => 2,
            },
    {
        match state {
            GadgetState::Play(node) => self.inner.num_actions(node, legal, continuations),
            _ => 2,
        }
    }

    /// Follow or terminate.
    pub fn decide(&self, hand: [u8; 2], action: usize) -> (after: GadgetState)
        requires
            action == FOLLOW || action == TERMINATE,
        ensures
            after == if action == FOLLOW {
                GadgetState::FollowDeal(hand)
            } else {
                GadgetState::Terminate(hand)
            },
    {
        if action == FOLLOW {
            GadgetState::FollowDeal(hand)
        } else {
            GadgetState::Terminate(hand)
        }
    }

    /// The play node for our hand against the opponent's: the betting of the
    /// plain subgame, each hand in its seat.
    pub fn follow(&self, root: &GameState, mine: [u8; 2], theirs: [u8; 2]) -> (state: GadgetState)
        requires
            self.wf(),
        ensures
            state is Play,
            state->Play_0.history@ == Seq::<u8>::empty(),
            state->Play_0.continuation is None,
            state->Play_0.gs matches Some(gs) && gs.hole_cards[self.me as int] == mine
                && gs.hole_cards[self.opp as int] == theirs && gs == (GameState {
                hole_cards: gs.hole_cards,
                ..*root
            }),
    {
        let holes: [[u8; 2]; 2] = by_seat(self.me, mine, theirs);
        GadgetState::Play(SubgameNode::deal(root, holes))
    }

    /// The information key of a choice or play node.
    pub fn info_key(&self, state: &GadgetState) -> (key: u64)
        requires
            self.wf(),
            *state is Choice || (*state is Play && state->Play_0.wf() && state->Play_0.gs is Some),
        ensures
            match *state {
                GadgetState::Choice(h) => key == fnv_hash(choice_bytes(self.opp, h@)),
                GadgetState::Play(n) => key == fnv_hash(node_bytes(self.inner, n)),
                _ => true,
            },
    {
        match state {
            GadgetState::Choice(h) => {
                let hand: [u8; 2] = sorted_hand(*h);
                let bytes: [u8; 4] = [self.opp as u8, hand[0], hand[1], MARKER_GADGET];
                assert(bytes@ =~= choice_bytes(self.opp, h@));
                fnv1a(&bytes)
            },
            GadgetState::Play(n) => self.inner.info_key(n),
            _ => 0,
        }
    }
}

/// A choice's key bytes never are those of a play node, and two choices share
/// them only for the same hand.
pub proof fn law_choice_keys_apart(
    opp: usize,
    hand: Seq<u8>,
    other: Seq<u8>,
    player: u8,
    hole: Seq<u8>,
    board: Seq<u8>,
    history: Seq<u8>,
    marker: u8,
)
    requires
        opp < 2,
        hole.len() == 2,
        forall|i: int| 0 <= i < board.len() ==> card_or_none(#[trigger] board[i]),
    ensures
        choice_bytes(opp, hand) != info_bytes(player, hole, board, history, marker),
        choice_bytes(opp, hand) == choice_bytes(opp, other) ==> ascending(hand) == ascending(other),
{
    let x = choice_bytes(opp, hand);
    let y = info_bytes(player, hole, board, history, marker);
    let dealt = dealt_cards(board);
    lemma_dealt_cards(board);
    assert(x[3] == MARKER_GADGET);
    if dealt.len() > 0 {
        assert(y[3] == dealt[0]);
    } else {
        assert(y[3] == SEPARATOR);
    }
    let z = choice_bytes(opp, other);
    assert(x.subrange(1, 3) =~= ascending(hand));
    assert(z.subrange(1, 3) =~= ascending(other));
}

proof fn lemma_follow_deals(board: Seq<u8>, mine: Seq<[u8; 2]>, h: [u8; 2], n: nat)
    requires
        n <= mine.len() <= usize::MAX,
    ensures
        forall|i: int, j: int|
            0 <= i < j < follow_deals(board, mine, h, n).len() ==> #[trigger] follow_deals(
                board,
                mine,
                h,
                n,
            )[i] < #[trigger] follow_deals(board, mine, h, n)[j],
        forall|m: usize|
            #[trigger] follow_deals(board, mine, h, n).contains(m) <==> m < n && compatible(
                board,
                mine[m as int],
                h,
            ),
    decreases n,
{
    if n > 0 {
        let before = follow_deals(board, mine, h, (n - 1) as nat);
        let after = follow_deals(board, mine, h, n);
        let last = (n - 1) as usize;
        lemma_follow_deals(board, mine, h, (n - 1) as nat);
        assert forall|i: int, j: int| 0 <= i < j < after.len() implies #[trigger] after[i]
            < #[trigger] after[j] by {
            if j == before.len() {
                assert(before.contains(before[i]));
            }
        }
        assert forall|m: usize| #[trigger] after.contains(m) <==> m < n && compatible(
            board,
            mine[m as int],
            h,
        ) by {
            if compatible(board, mine[n - 1], h) {
                assert(after[before.len() as int] == last);
                if before.contains(m) {
                    let i = choose|i: int| 0 <= i < before.len() && before[i] == m;
                    assert(after[i] == m);
                }
                if after.contains(m) && m != last {
                    let i = choose|i: int| 0 <= i < after.len() && after[i] == m;
                    assert(before[i] == m);
                }
            }
            assert(before.contains(m) <==> m < n - 1 && compatible(board, mine[m as int], h));
        }
    }
}

/// Whether our `m`-th hand and the opponent's `j`-th share no card with each
/// other or with the board.
pub open spec fn clear_of_each_other(
    board: Seq<u8>,
    mine: Seq<[u8; 2]>,
    theirs: Seq<[u8; 2]>,
    m: int,
    j: int,
) -> bool {
    &&& forall|a: int, b: int|
        0 <= a < 2 && 0 <= b < 2 ==> #[trigger] mine[m][a] != #[trigger] theirs[j][b]
    &&& forall|a: int, s: int|
        0 <= a < 2 && 0 <= s < board.len() ==> #[trigger] mine[m][a] != #[trigger] board[s]
    &&& forall|b: int, s: int|
        0 <= b < 2 && 0 <= s < board.len() ==> #[trigger] theirs[j][b] != #[trigger] board[s]
}

/// An opponent hand is dealt against exactly those hands of ours that share no
/// card with it or with the board, in the order of our range.
pub proof fn law_follow_deals_are_the_clear_hands(
    board: Seq<u8>,
    mine: Seq<[u8; 2]>,
    theirs: Seq<[u8; 2]>,
    j: int,
    m: usize,
)
    requires
        mine.len() <= usize::MAX,
        0 <= j < theirs.len(),
    ensures
        follow_deals(board, mine, theirs[j], mine.len()).contains(m) <==> m < mine.len()
            && clear_of_each_other(board, mine, theirs, m as int, j),
        forall|a: int, b: int|
            0 <= a < b < follow_deals(board, mine, theirs[j], mine.len()).len()
                ==> #[trigger] follow_deals(board, mine, theirs[j], mine.len())[a]
                < #[trigger] follow_deals(board, mine, theirs[j], mine.len())[b],
{
    lemma_follow_deals(board, mine, theirs[j], mine.len());
    if m < mine.len() {
        law_compatible_shares_nothing(board, mine[m as int], theirs[j]);
    }
}

proof fn lemma_followers(
    board: Seq<u8>,
    mine: Seq<[u8; 2]>,
    theirs: Seq<[u8; 2]>,
    guaranteed: Seq<bool>,
    n: nat,
)
    requires
        n <= theirs.len(),
    ensures
        ({
            let all = followers(board, mine, theirs, guaranteed, n);
            &&& forall|i: int, k: int|
                0 <= i < k < all.len() ==> (#[trigger] all[i]).0 < (#[trigger] all[k]).0
            &&& forall|i: int|
                0 <= i < all.len() ==> {
                    &&& 0 <= (#[trigger] all[i]).0 < n
                    &&& follows(board, mine, theirs, guaranteed, all[i].0)
                    &&& all[i].1 == follow_deals(board, mine, theirs[all[i].0], mine.len())
                }
            &&& forall|j: int|
                0 <= j < n && #[trigger] follows(board, mine, theirs, guaranteed, j)
                    ==> exists|i: int| 0 <= i < all.len() && (#[trigger] all[i]).0 == j
        }),
    decreases n,
{
    if n > 0 {
        let before = followers(board, mine, theirs, guaranteed, (n - 1) as nat);
        let all = followers(board, mine, theirs, guaranteed, n);
        lemma_followers(board, mine, theirs, guaranteed, (n - 1) as nat);
        assert forall|j: int|
            0 <= j < n && #[trigger] follows(board, mine, theirs, guaranteed, j) implies exists|
            i: int,
        |
            0 <= i < all.len() && (#[trigger] all[i]).0 == j by {
            if j == n - 1 {
                assert(all[before.len() as int].0 == j);
            } else {
                let i = choose|i: int| 0 <= i < before.len() && (#[trigger] before[i]).0 == j;
                assert(all[i].0 == j);
            }
        }
    }
}

/// The gadget reasons over an opponent hand exactly where it is guaranteed a
/// value and some hand of ours can be dealt against it, once for each such
/// hand, in the order of the opponent's range.
pub proof fn law_followers_can_follow(
    board: Seq<u8>,
    mine: Seq<[u8; 2]>,
    theirs: Seq<[u8; 2]>,
    guaranteed: Seq<bool>,
    j: int,
)
    requires
        mine.len() <= usize::MAX,
        guaranteed.len() == theirs.len(),
        0 <= j < theirs.len(),
    ensures
        ({
            let all = followers(board, mine, theirs, guaranteed, theirs.len());
            &&& (exists|i: int| 0 <= i < all.len() && (#[trigger] all[i]).0 == j) <==> guaranteed[j]
                && exists|m: int|
                0 <= m < mine.len() && #[trigger] clear_of_each_other(board, mine, theirs, m, j)
            &&& forall|i: int, k: int|
                0 <= i < k < all.len() ==> (#[trigger] all[i]).0 < (#[trigger] all[k]).0
            &&& forall|i: int|
                0 <= i < all.len() && (#[trigger] all[i]).0 == j ==> all[i].1 == follow_deals(
                    board,
                    mine,
                    theirs[j],
                    mine.len(),
                )
        }),
{
    let all = followers(board, mine, theirs, guaranteed, theirs.len());
    let deals = follow_deals(board, mine, theirs[j], mine.len());
    lemma_followers(board, mine, theirs, guaranteed, theirs.len());
    if exists|i: int| 0 <= i < all.len() && (#[trigger] all[i]).0 == j {
        assert(follows(board, mine, theirs, guaranteed, j));
        let m = deals[0];
        assert(deals.contains(m));
        law_follow_deals_are_the_clear_hands(board, mine, theirs, j, m);
        assert(clear_of_each_other(board, mine, theirs, m as int, j));
    }
    if guaranteed[j] && exists|m: int|
        0 <= m < mine.len() && #[trigger] clear_of_each_other(board, mine, theirs, m, j) {
        let m = choose|m: int|
            0 <= m < mine.len() && #[trigger] clear_of_each_other(board, mine, theirs, m, j);
        law_follow_deals_are_the_clear_hands(board, mine, theirs, j, m as usize);
        assert(deals.contains(m as usize));
        law_compatible_shares_nothing(board, mine[m], theirs[j]);
        assert(follows(board, mine, theirs, guaranteed, j));
    }
}

/// A choice's key is four bytes: the chooser, its two cards, lower first, and
/// the gadget's own byte.
pub proof fn law_choice_bytes_laid_out(opp: usize, hand: Seq<u8>)
    requires
        opp < 2,
        hand.len() == 2,
    ensures
        ({
            let bytes = choice_bytes(opp, hand);
            &&& bytes.len() == 4
            &&& bytes[0] == opp
            &&& bytes[1] <= bytes[2]
            &&& (bytes[1] == hand[0] && bytes[2] == hand[1]) || (bytes[1] == hand[1] && bytes[2]
                == hand[0])
            &&& bytes[3] == 166
        }),
{
}

/// The gadget's hands show their places and deals, in their order.
pub proof fn law_follow_hands_show_their_deals(hands: Seq<FollowHand>, i: int)
    requires
        0 <= i < hands.len(),
    ensures
        follow_views(hands).len() == hands.len(),
        follow_views(hands)[i].0 == hands[i].hand,
        follow_views(hands)[i].1 == hands[i].deals@,
{
}

/// The gadget's two players are the two seats, and the opponent is the one that
/// chooses among continuations.
pub proof fn law_gadget_seats(game: GadgetGame)
    requires
        game.wf(),
    ensures
        game.me + game.opp == 1,
        game.inner.chooser == game.opp,
        game.inner.k >= 1,
{
}

} // verus!
