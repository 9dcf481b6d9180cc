//! Card codec between Slumbot's strings ("Ac", "Td") and the engine's `u8`
//! encoding (`rank << 2 | suit`, ranks 0..=12 for 2..=A).

use crate::engine::DECK_SIZE;
use vstd::prelude::*;
use vstd::string::*;
use vstd::utf8::*;

verus! {

/// The card of a rank and a suit.
pub fn make_card(rank: u8, suit: u8) -> (card: u8)
    requires
        rank < 13,
        suit < 4,
    ensures
        card == rank * 4 + suit,
        card < DECK_SIZE,
{
    rank * 4 + suit
}

/// A card's rank, `0..=12` for 2..=A.
pub fn rank_of(card: u8) -> (rank: u8)
    ensures
        rank == card / 4,
{
    card / 4
}

/// A card's suit, `0..=3` for clubs, diamonds, hearts, spades.
pub fn suit_of(card: u8) -> (suit: u8)
    ensures
        suit == card % 4,
{
    card % 4
}

/// The letter of a rank, out of `23456789TJQKA`.
pub open spec fn rank_letter(rank: u8) -> char {
    if rank == 0 {
        '2'
    } else if rank == 1 {
        '3'
    } else if rank == 2 {
        '4'
    } else if rank == 3 {
        '5'
    } else if rank == 4 {
        '6'
    } else if rank == 5 {
        '7'
    } else if rank == 6 {
        '8'
    } else if rank == 7 {
        '9'
    } else if rank == 8 {
        'T'
    } else if rank == 9 {
        'J'
    } else if rank == 10 {
        'Q'
    } else if rank == 11 {
        'K'
    } else {
        'A'
    }
}

/// The letter of a suit, out of `cdhs`.
pub open spec fn suit_letter(suit: u8) -> char {
    if suit == 0 {
        'c'
    } else if suit == 1 {
        'd'
    } else if suit == 2 {
        'h'
    } else {
        's'
    }
}

/// A card's two letters.
pub open spec fn card_text(card: u8) -> Seq<char> {
    seq![rank_letter(card / 4), suit_letter(card % 4)]
}

/// The rank that a byte stands for.
pub open spec fn rank_of_byte(byte: u8) -> Option<u8> {
    if 50 <= byte <= 57 {
        Some((byte - 50) as u8)
    } else if byte == 84 {
        Some(8)
    } else if byte == 74 {
        Some(9)
    } else if byte == 81 {
        Some(10)
    } else if byte == 75 {
        Some(11)
    } else if byte == 65 {
        Some(12)
    } else {
        None
    }
}

/// The suit that a byte stands for.
pub open spec fn suit_of_byte(byte: u8) -> Option<u8> {
    if byte == 99 {
        Some(0)
    } else if byte == 100 {
        Some(1)
    } else if byte == 104 {
        Some(2)
    } else if byte == 115 {
        Some(3)
    } else {
        None
    }
}

/// The `Debug` text of a string, quotes and escapes included, as the standard
/// library's formatter writes it.
pub uninterp spec fn str_debug(text: Seq<char>) -> Seq<char>;

/// The standard library's `Debug` formatting of a `str`, through `format!`.
/// Claimed: the text depends on the string alone.
#[verifier::external_body]
fn debug_str(text: &str) -> (shown: String)
    ensures
        shown@ == str_debug(text@),
{
    format!("{:?}", text)
}

/// The card that a text stands for, or the error text.
pub open spec fn card_model(text: Seq<char>) -> Result<u8, Seq<char>> {
    let bytes = encode_utf8(text);
    if bytes.len() != 2 {
        Err("bad card "@ + str_debug(text))
    } else if rank_of_byte(bytes[0]) is None {
        Err("bad rank in "@ + str_debug(text))
    } else if suit_of_byte(bytes[1]) is None {
        Err("bad suit in "@ + str_debug(text))
    } else {
        Ok((rank_of_byte(bytes[0])->0 * 4 + suit_of_byte(bytes[1])->0) as u8)
    }
}

fn byte_rank(byte: u8) -> (rank: Option<u8>)
    ensures
        rank == rank_of_byte(byte),
{
    if 50 <= byte && byte <= 57 {
        Some(byte - 50)
    } else if byte == 84 {
        Some(8)
    } else if byte == 74 {
        Some(9)
    } else if byte == 81 {
        Some(10)
    } else if byte == 75 {
        Some(11)
    } else if byte == 65 {
        Some(12)
    } else {
        None
    }
}

fn byte_suit(byte: u8) -> (suit: Option<u8>)
    ensures
        suit == suit_of_byte(byte),
{
    if byte == 99 {
        Some(0)
    } else if byte == 100 {
        Some(1)
    } else if byte == 104 {
        Some(2)
    } else if byte == 115 {
        Some(3)
    } else {
        None
    }
}

fn card_error(what: &str, text: &str) -> (message: String)
    ensures
        message@ == what@ + str_debug(text@),
{
    let mut message: String = what.to_owned();
    let shown: String = debug_str(text);
    message.append(shown.as_str());
    message
}

/// Parse a two-character card like `"Ac"` or `"Td"`.
pub fn parse_card(s: &str) -> (r: Result<u8, String>)
    ensures
        match r {
            Ok(card) => card_model(s@) == Ok::<u8, Seq<char>>(card) && card < DECK_SIZE,
            Err(message) => card_model(s@) == Err::<u8, Seq<char>>(message@),
        },
{
    let bytes: &[u8] = s.as_bytes();
    if bytes.len() != 2 {
        return Err(card_error("bad card ", s));
    }
    match byte_rank(bytes[0]) {
        None => Err(card_error("bad rank in ", s)),
        Some(rank) => match byte_suit(bytes[1]) {
            None => Err(card_error("bad suit in ", s)),
            Some(suit) => Ok(make_card(rank, suit)),
        },
    }
}

/// Format a card back to Slumbot's notation.
pub fn card_str(card: u8) -> (text: String)
    requires
        card < DECK_SIZE,
    ensures
        text@ == card_text(card),
{
    proof {
        reveal_strlit("2");
        reveal_strlit("3");
        reveal_strlit("4");
        reveal_strlit("5");
        reveal_strlit("6");
        reveal_strlit("7");
        reveal_strlit("8");
        reveal_strlit("9");
        reveal_strlit("T");
        reveal_strlit("J");
        reveal_strlit("Q");
        reveal_strlit("K");
        reveal_strlit("A");
        reveal_strlit("c");
        reveal_strlit("d");
        reveal_strlit("h");
        reveal_strlit("s");
    }
    let rank: u8 = rank_of(card);
    let suit: u8 = suit_of(card);
    let first: &str = if rank == 0 {
        "2"
    } else if rank == 1 {
        "3"
    } else if rank == 2 {
        "4"
    } else if rank == 3 {
        "5"
    } else if rank == 4 {
        "6"
    } else if rank == 5 {
        "7"
    } else if rank == 6 {
        "8"
    } else if rank == 7 {
        "9"
    } else if rank == 8 {
        "T"
    } else if rank == 9 {
        "J"
    } else if rank == 10 {
        "Q"
    } else if rank == 11 {
        "K"
    } else {
        "A"
    };
    let second: &str = if suit == 0 {
        "c"
    } else if suit == 1 {
        "d"
    } else if suit == 2 {
        "h"
    } else {
        "s"
    };
    let mut text: String = first.to_owned();
    text.append(second);
    assert(text@ =~= card_text(card));
    text
}

/// Parse a hand or board list: every card, or the error of the first string
/// that is no card.
pub fn parse_cards(strs: &[String]) -> (r: Result<Vec<u8>, String>)
    ensures
        match r {
            Ok(cards) => cards@.len() == strs@.len() && forall|i: int|
                0 <= i < strs@.len() ==> card_model((#[trigger] strs@[i])@) == Ok::<u8, Seq<char>>(
                    cards@[i],
                ),
            Err(message) => exists|k: int|
                0 <= k < strs@.len() && card_model((#[trigger] strs@[k])@) == Err::<u8, Seq<char>>(
                    message@,
                ) && forall|i: int| 0 <= i < k ==> card_model((#[trigger] strs@[i])@) is Ok,
        },
{
    let mut cards: Vec<u8> = Vec::new();
    let mut k: usize = 0;
    while k < strs.len()
        invariant
            k <= strs@.len(),
            cards@.len() == k,
            forall|i: int|
                0 <= i < k ==> card_model((#[trigger] strs@[i])@) == Ok::<u8, Seq<char>>(cards@[i]),
        decreases strs@.len() - k,
    {
        match parse_card(strs[k].as_str()) {
            Ok(card) => {
                cards.push(card);
            },
            Err(message) => {
                return Err(message);
            },
        }
        k += 1;
    }
    Ok(cards)
}

/// The codec round-trips: every card's text parses back to the card, and a
/// text that parses to a card is that card's text.
pub proof fn law_card_round_trip(card: u8, text: Seq<char>)
    requires
        card < DECK_SIZE,
    ensures
        card_model(card_text(card)) == Ok::<u8, Seq<char>>(card),
        card_model(text) == Ok::<u8, Seq<char>>(card) ==> text == card_text(card),
{
    let own = card_text(card);
    assert(is_ascii_chars(own));
    is_ascii_chars_encode_utf8(own);
    if card_model(text) == Ok::<u8, Seq<char>>(card) {
        let bytes = encode_utf8(text);
        assert(bytes =~= encode_utf8(own));
        encode_utf8_decode_utf8(text);
        encode_utf8_decode_utf8(own);
    }
}

/// The letters of the ranks, from the deuce to the ace.
pub open spec fn rank_letters() -> Seq<char> {
    seq!['2', '3', '4', '5', '6', '7', '8', '9', 'T', 'J', 'Q', 'K', 'A']
}

/// The letters of the suits, in the order that numbers cards of one rank.
pub open spec fn suit_letters() -> Seq<char> {
    seq!['c', 'd', 'h', 's']
}

/// A card is written with the letters of its rank and its suit; four cards of a
/// rank are numbered in a row, and the deuces come first.
pub proof fn law_cards_are_lettered(card: u8)
    requires
        card < 52,
    ensures
        card_text(card) == seq![rank_letters()[card as int / 4], suit_letters()[card as int % 4]],
{
}

/// A byte stands for the rank or suit that it is the letter of, and for none
/// where it is no such letter.
pub proof fn law_letters_are_read_back(byte: u8, rank: u8, suit: u8)
    requires
        rank < 13,
        suit < 4,
    ensures
        rank_of_byte(byte) == Some(rank) <==> byte == rank_letters()[rank as int] as u8,
        suit_of_byte(byte) == Some(suit) <==> byte == suit_letters()[suit as int] as u8,
        rank_of_byte(byte) matches Some(r) ==> r < 13,
        suit_of_byte(byte) matches Some(s) ==> s < 4,
{
}

/// What is no card is refused for the first thing wrong with it: its length, its
/// rank, or its suit.
pub proof fn law_bad_cards_are_refused(text: Seq<char>)
    ensures
        ({
            let bytes = encode_utf8(text);
            let r = card_model(text);
            let ranked = exists|k: int| 0 <= k < 13 && bytes[0] == #[trigger] rank_letters()[k] as u8;
            let suited = exists|k: int| 0 <= k < 4 && bytes[1] == #[trigger] suit_letters()[k] as u8;
            &&& bytes.len() != 2 ==> r == Err::<u8, Seq<char>>("bad card "@ + str_debug(text))
            &&& bytes.len() == 2 && !ranked ==> r == Err::<u8, Seq<char>>(
                "bad rank in "@ + str_debug(text),
            )
            &&& bytes.len() == 2 && ranked && !suited ==> r == Err::<u8, Seq<char>>(
                "bad suit in "@ + str_debug(text),
            )
            &&& bytes.len() == 2 && ranked && suited ==> r is Ok && r->Ok_0 < 52
        }),
{
    let bytes = encode_utf8(text);
    if bytes.len() == 2 {
        if rank_of_byte(bytes[0]) is Some {
            let k = rank_of_byte(bytes[0])->0;
            law_letters_are_read_back(bytes[0], k, 0);
            assert(bytes[0] == rank_letters()[k as int] as u8);
        }
        if exists|k: int| 0 <= k < 13 && bytes[0] == #[trigger] rank_letters()[k] as u8 {
            let k = choose|k: int| 0 <= k < 13 && bytes[0] == #[trigger] rank_letters()[k] as u8;
            law_letters_are_read_back(bytes[0], k as u8, 0);
        }
        if suit_of_byte(bytes[1]) is Some {
            let k = suit_of_byte(bytes[1])->0;
            law_letters_are_read_back(bytes[1], 0, k);
            assert(bytes[1] == suit_letters()[k as int] as u8);
        }
        if exists|k: int| 0 <= k < 4 && bytes[1] == #[trigger] suit_letters()[k] as u8 {
            let k = choose|k: int| 0 <= k < 4 && bytes[1] == #[trigger] suit_letters()[k] as u8;
            law_letters_are_read_back(bytes[1], 0, k as u8);
        }
    }
}

} // verus!
