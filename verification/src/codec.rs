//! A verified byte form of the game state. Cards, players, and whole
//! games flatten to a length-prefixed byte sequence and parse back;
//! parsing the byte form of a value is proved to yield that value
//! exactly, with no bytes left over.

use crate::cards::{Card, CardKind, Color};
use crate::game::Game;
use crate::player::Player;
use std::collections::VecDeque;
use vstd::bytes::{
    lemma_auto_spec_u64_to_from_le_bytes, spec_u64_from_le_bytes, spec_u64_to_le_bytes,
};
use vstd::prelude::*;
use vstd::string::StringSliceAdditionalSpecFns;
use vstd::utf8::{decode_utf8, encode_utf8, valid_utf8};

verus! {

/// The byte tag a color is written as.
pub open spec fn color_tag(color: Color) -> u8 {
    match color {
        Color::Red => 0,
        Color::Blue => 1,
        Color::Green => 2,
        Color::Yellow => 3,
        Color::Wild => 4,
    }
}

/// The color a byte tag stands for, if any.
pub open spec fn tag_color(tag: u8) -> Option<Color> {
    if tag == 0 {
        Some(Color::Red)
    } else if tag == 1 {
        Some(Color::Blue)
    } else if tag == 2 {
        Some(Color::Green)
    } else if tag == 3 {
        Some(Color::Yellow)
    } else if tag == 4 {
        Some(Color::Wild)
    } else {
        None
    }
}

/// The byte tag a card kind is written as.
pub open spec fn kind_tag(kind: CardKind) -> u8 {
    match kind {
        CardKind::WildCard => 0,
        CardKind::DrawFour => 1,
        CardKind::DrawTwo => 2,
        CardKind::Cancel => 3,
        CardKind::Reverse => 4,
        CardKind::Zero => 5,
        CardKind::One => 6,
        CardKind::Two => 7,
        CardKind::Three => 8,
        CardKind::Four => 9,
        CardKind::Five => 10,
        CardKind::Six => 11,
        CardKind::Seven => 12,
        CardKind::Eight => 13,
        CardKind::Nine => 14,
    }
}

/// The card kind a byte tag stands for, if any.
pub open spec fn tag_kind(tag: u8) -> Option<CardKind> {
    if tag == 0 {
        Some(CardKind::WildCard)
    } else if tag == 1 {
        Some(CardKind::DrawFour)
    } else if tag == 2 {
        Some(CardKind::DrawTwo)
    } else if tag == 3 {
        Some(CardKind::Cancel)
    } else if tag == 4 {
        Some(CardKind::Reverse)
    } else if tag == 5 {
        Some(CardKind::Zero)
    } else if tag == 6 {
        Some(CardKind::One)
    } else if tag == 7 {
        Some(CardKind::Two)
    } else if tag == 8 {
        Some(CardKind::Three)
    } else if tag == 9 {
        Some(CardKind::Four)
    } else if tag == 10 {
        Some(CardKind::Five)
    } else if tag == 11 {
        Some(CardKind::Six)
    } else if tag == 12 {
        Some(CardKind::Seven)
    } else if tag == 13 {
        Some(CardKind::Eight)
    } else if tag == 14 {
        Some(CardKind::Nine)
    } else {
        None
    }
}

/// A card's byte form: its color tag, then its kind tag.
pub open spec fn spec_encode_card(card: Card) -> Seq<u8> {
    seq![color_tag(card.color), kind_tag(card.kind)]
}

/// Reads one card off the front of `bytes`, returning it with the
/// remaining bytes, or nothing when the front is no card.
pub open spec fn spec_decode_card(bytes: Seq<u8>) -> Option<(Card, Seq<u8>)> {
    if bytes.len() < 2 {
        None
    } else {
        match (tag_color(bytes[0]), tag_kind(bytes[1])) {
            (Some(color), Some(kind)) => Some((Card { color, kind }, bytes.skip(2))),
            _ => None,
        }
    }
}

/// A card list's byte form: each card's form in order.
pub open spec fn spec_encode_cards(cards: Seq<Card>) -> Seq<u8>
    decreases cards.len(),
{
    if cards.len() == 0 {
        Seq::empty()
    } else {
        spec_encode_card(cards[0]) + spec_encode_cards(cards.drop_first())
    }
}

/// Reads `n` cards off the front of `bytes`.
pub open spec fn spec_decode_cards(bytes: Seq<u8>, n: nat) -> Option<(Seq<Card>, Seq<u8>)>
    decreases n,
{
    if n == 0 {
        Some((Seq::empty(), bytes))
    } else {
        match spec_decode_card(bytes) {
            Some((card, rest)) => match spec_decode_cards(rest, (n - 1) as nat) {
                Some((cards, tail)) => Some((seq![card] + cards, tail)),
                None => None,
            },
            None => None,
        }
    }
}

/// Reads one little-endian 64-bit length or index off the front.
pub open spec fn spec_decode_u64(bytes: Seq<u8>) -> Option<(u64, Seq<u8>)> {
    if bytes.len() < 8 {
        None
    } else {
        Some((spec_u64_from_le_bytes(bytes.take(8)), bytes.skip(8)))
    }
}

/// A string's byte form: the byte length of its UTF-8 form, then those
/// bytes.
pub open spec fn spec_encode_string(name: Seq<char>) -> Seq<u8> {
    spec_u64_to_le_bytes(encode_utf8(name).len() as u64) + encode_utf8(name)
}

/// Reads one length-prefixed UTF-8 string off the front.
pub open spec fn spec_decode_string(bytes: Seq<u8>) -> Option<(Seq<char>, Seq<u8>)> {
    match spec_decode_u64(bytes) {
        Some((len, rest)) => if rest.len() < len {
            None
        } else if !valid_utf8(rest.take(len as int)) {
            None
        } else {
            Some((decode_utf8(rest.take(len as int)), rest.skip(len as int)))
        },
        None => None,
    }
}

/// A player's abstract value: name, turn index, and hand.
pub open spec fn player_model(player: Player) -> (Seq<char>, u64, Seq<Card>) {
    (player.name@, player.turn as u64, player.cards@)
}

/// A player's byte form: name, turn index, then the length-prefixed
/// hand.
pub open spec fn spec_encode_player(player: Player) -> Seq<u8> {
    spec_encode_string(player.name@) + spec_u64_to_le_bytes(player.turn as u64)
        + spec_u64_to_le_bytes(player.cards@.len() as u64) + spec_encode_cards(player.cards@)
}

/// Reads one player off the front of `bytes`. A turn index too large
/// for this machine is rejected.
pub open spec fn spec_decode_player(bytes: Seq<u8>) -> Option<
    ((Seq<char>, u64, Seq<Card>), Seq<u8>),
> {
    match spec_decode_string(bytes) {
        Some((name, r1)) => match spec_decode_u64(r1) {
            Some((turn, r2)) => if turn > usize::MAX as u64 {
                None
            } else {
                match spec_decode_u64(r2) {
                    Some((ncards, r3)) => match spec_decode_cards(r3, ncards as nat) {
                        Some((cards, r4)) => Some(((name, turn, cards), r4)),
                        None => None,
                    },
                    None => None,
                }
            },
            None => None,
        },
        None => None,
    }
}

/// A player list's byte form: each player's form in order.
pub open spec fn spec_encode_players(players: Seq<Player>) -> Seq<u8>
    decreases players.len(),
{
    if players.len() == 0 {
        Seq::empty()
    } else {
        spec_encode_player(players[0]) + spec_encode_players(players.drop_first())
    }
}

/// Reads `n` players off the front of `bytes`.
pub open spec fn spec_decode_players(bytes: Seq<u8>, n: nat) -> Option<
    (Seq<(Seq<char>, u64, Seq<Card>)>, Seq<u8>),
>
    decreases n,
{
    if n == 0 {
        Some((Seq::empty(), bytes))
    } else {
        match spec_decode_player(bytes) {
            Some((player, rest)) => match spec_decode_players(rest, (n - 1) as nat) {
                Some((players, tail)) => Some((seq![player] + players, tail)),
                None => None,
            },
            None => None,
        }
    }
}

/// A game's abstract value: its players' values, its deck, and its
/// face-up card.
pub open spec fn game_model(game: Game) -> (Seq<(Seq<char>, u64, Seq<Card>)>, Seq<Card>, Card) {
    (game.players@.map_values(|p: Player| player_model(p)), game.deck@, game.current_card)
}

/// A game's byte form: the length-prefixed player list, the
/// length-prefixed deck, then the face-up card.
pub open spec fn spec_encode_game(game: Game) -> Seq<u8> {
    spec_u64_to_le_bytes(game.players@.len() as u64) + spec_encode_players(game.players@)
        + spec_u64_to_le_bytes(game.deck@.len() as u64) + spec_encode_cards(game.deck@)
        + spec_encode_card(game.current_card)
}

/// Reads a whole game; trailing bytes are rejected.
pub open spec fn spec_decode_game(bytes: Seq<u8>) -> Option<
    (Seq<(Seq<char>, u64, Seq<Card>)>, Seq<Card>, Card),
> {
    match spec_decode_u64(bytes) {
        Some((nplayers, r1)) => match spec_decode_players(r1, nplayers as nat) {
            Some((players, r2)) => match spec_decode_u64(r2) {
                Some((ndeck, r3)) => match spec_decode_cards(r3, ndeck as nat) {
                    Some((deck, r4)) => match spec_decode_card(r4) {
                        Some((card, r5)) => if r5.len() == 0 {
                            Some((players, deck, card))
                        } else {
                            None
                        },
                        None => None,
                    },
                    None => None,
                },
                None => None,
            },
            None => None,
        },
        None => None,
    }
}

/// A player whose name and hand are small enough for their lengths to
/// be written as 64-bit values. Every player built at run time is.
pub open spec fn player_fits(player: Player) -> bool {
    encode_utf8(player.name@).len() <= u64::MAX && player.cards@.len() <= u64::MAX
}

/// A game small enough for its list lengths to be written as 64-bit
/// values. Every game built at run time is.
pub open spec fn game_fits(game: Game) -> bool {
    &&& game.players@.len() <= u64::MAX
    &&& game.deck@.len() <= u64::MAX
    &&& forall|i: int|
        0 <= i < game.players@.len() ==> player_fits(#[trigger] game.players@[i])
}

proof fn lemma_u64_round_trip(x: u64, rest: Seq<u8>)
    ensures
        spec_decode_u64(spec_u64_to_le_bytes(x) + rest) == Some((x, rest)),
{
    lemma_auto_spec_u64_to_from_le_bytes();
    assert((spec_u64_to_le_bytes(x) + rest).take(8) =~= spec_u64_to_le_bytes(x));
    assert((spec_u64_to_le_bytes(x) + rest).skip(8) =~= rest);
}

/// Round trip for one card: parsing its byte form gives it back, and
/// leaves exactly the appended bytes.
pub proof fn lemma_card_round_trip(card: Card, rest: Seq<u8>)
    ensures
        spec_decode_card(spec_encode_card(card) + rest) == Some((card, rest)),
{
    assert((spec_encode_card(card) + rest).skip(2) =~= rest);
}

proof fn lemma_cards_round_trip(cards: Seq<Card>, rest: Seq<u8>)
    ensures
        spec_decode_cards(spec_encode_cards(cards) + rest, cards.len()) == Some((cards, rest)),
    decreases cards.len(),
{
    if cards.len() == 0 {
        assert(spec_encode_cards(cards) + rest =~= rest);
        assert(cards =~= Seq::<Card>::empty());
    } else {
        let tail_bytes = spec_encode_cards(cards.drop_first()) + rest;
        lemma_card_round_trip(cards[0], tail_bytes);
        assert(spec_encode_cards(cards) + rest =~= spec_encode_card(cards[0]) + tail_bytes);
        lemma_cards_round_trip(cards.drop_first(), rest);
        assert(seq![cards[0]] + cards.drop_first() =~= cards);
    }
}

proof fn lemma_string_round_trip(name: Seq<char>, rest: Seq<u8>)
    requires
        encode_utf8(name).len() <= u64::MAX,
    ensures
        spec_decode_string(spec_encode_string(name) + rest) == Some((name, rest)),
{
    broadcast use vstd::utf8::encode_utf8_valid_utf8;
    broadcast use vstd::utf8::encode_utf8_decode_utf8;

    let bytes = encode_utf8(name);
    lemma_u64_round_trip(bytes.len() as u64, bytes + rest);
    assert(spec_encode_string(name) + rest =~= spec_u64_to_le_bytes(bytes.len() as u64) + (bytes
        + rest));
    assert((bytes + rest).take(bytes.len() as int) =~= bytes);
    assert((bytes + rest).skip(bytes.len() as int) =~= rest);
}

/// Round trip for one player: parsing its byte form gives back its
/// abstract value, and leaves exactly the appended bytes.
pub proof fn lemma_player_round_trip(player: Player, rest: Seq<u8>)
    requires
        player_fits(player),
    ensures
        spec_decode_player(spec_encode_player(player) + rest) == Some(
            (player_model(player), rest),
        ),
{
    let s_name = spec_encode_string(player.name@);
    let s_turn = spec_u64_to_le_bytes(player.turn as u64);
    let s_ncards = spec_u64_to_le_bytes(player.cards@.len() as u64);
    let s_cards = spec_encode_cards(player.cards@);
    assert(spec_encode_player(player) + rest =~= s_name + (s_turn + (s_ncards + (s_cards
        + rest))));
    lemma_string_round_trip(player.name@, s_turn + (s_ncards + (s_cards + rest)));
    lemma_u64_round_trip(player.turn as u64, s_ncards + (s_cards + rest));
    lemma_u64_round_trip(player.cards@.len() as u64, s_cards + rest);
    lemma_cards_round_trip(player.cards@, rest);
}

proof fn lemma_players_round_trip(players: Seq<Player>, rest: Seq<u8>)
    requires
        forall|i: int| 0 <= i < players.len() ==> player_fits(#[trigger] players[i]),
    ensures
        spec_decode_players(spec_encode_players(players) + rest, players.len()) == Some(
            (players.map_values(|p: Player| player_model(p)), rest),
        ),
    decreases players.len(),
{
    let models = players.map_values(|p: Player| player_model(p));
    if players.len() == 0 {
        assert(spec_encode_players(players) + rest =~= rest);
        assert(models =~= Seq::<(Seq<char>, u64, Seq<Card>)>::empty());
    } else {
        let tail_bytes = spec_encode_players(players.drop_first()) + rest;
        lemma_player_round_trip(players[0], tail_bytes);
        assert(spec_encode_players(players) + rest =~= spec_encode_player(players[0])
            + tail_bytes);
        assert(forall|i: int|
            0 <= i < players.drop_first().len() ==> player_fits(
                #[trigger] players.drop_first()[i],
            ));
        lemma_players_round_trip(players.drop_first(), rest);
        assert(seq![player_model(players[0])] + players.drop_first().map_values(
            |p: Player| player_model(p),
        ) =~= models);
    }
}

/// Round trip for a whole game: parsing its byte form yields exactly
/// its abstract value — the players' fields, the deck, and the face-up
/// card — with no bytes left over.
pub proof fn lemma_game_round_trip(game: Game)
    requires
        game_fits(game),
    ensures
        spec_decode_game(spec_encode_game(game)) == Some(game_model(game)),
{
    let s_players = spec_encode_players(game.players@);
    let s_ndeck = spec_u64_to_le_bytes(game.deck@.len() as u64);
    let s_deck = spec_encode_cards(game.deck@);
    let s_card = spec_encode_card(game.current_card);
    let empty = Seq::<u8>::empty();
    assert(spec_encode_game(game) =~= spec_u64_to_le_bytes(game.players@.len() as u64)
        + (s_players + (s_ndeck + (s_deck + (s_card + empty)))));
    lemma_u64_round_trip(game.players@.len() as u64, s_players + (s_ndeck + (s_deck + (s_card
        + empty))));
    lemma_players_round_trip(game.players@, s_ndeck + (s_deck + (s_card + empty)));
    lemma_u64_round_trip(game.deck@.len() as u64, s_deck + (s_card + empty));
    lemma_cards_round_trip(game.deck@, s_card + empty);
    lemma_card_round_trip(game.current_card, empty);
    assert(s_card + empty =~= s_card);
}

/// Encoding of list items appends at the tail, one item's bytes at a
/// time.
proof fn lemma_encode_cards_push(cards: Seq<Card>, card: Card)
    ensures
        spec_encode_cards(cards.push(card)) == spec_encode_cards(cards) + spec_encode_card(card),
    decreases cards.len(),
{
    if cards.len() == 0 {
        assert(cards.push(card).drop_first() =~= Seq::<Card>::empty());
        assert(cards.push(card)[0] == card);
        assert(spec_encode_cards(cards.push(card)) == spec_encode_card(card) + spec_encode_cards(
            Seq::<Card>::empty(),
        ));
        assert(spec_encode_cards(Seq::<Card>::empty()) =~= Seq::<u8>::empty());
        assert(spec_encode_cards(cards.push(card)) =~= spec_encode_cards(cards)
            + spec_encode_card(card));
    } else {
        assert(cards.push(card).drop_first() =~= cards.drop_first().push(card));
        lemma_encode_cards_push(cards.drop_first(), card);
        assert(spec_encode_cards(cards.push(card)) =~= spec_encode_cards(cards)
            + spec_encode_card(card));
    }
}

proof fn lemma_encode_players_push(players: Seq<Player>, player: Player)
    ensures
        spec_encode_players(players.push(player)) == spec_encode_players(players)
            + spec_encode_player(player),
    decreases players.len(),
{
    if players.len() == 0 {
        assert(players.push(player).drop_first() =~= Seq::<Player>::empty());
        assert(players.push(player)[0] == player);
        assert(spec_encode_players(players.push(player)) == spec_encode_player(player)
            + spec_encode_players(Seq::<Player>::empty()));
        assert(spec_encode_players(Seq::<Player>::empty()) =~= Seq::<u8>::empty());
        assert(spec_encode_players(players.push(player)) =~= spec_encode_players(players)
            + spec_encode_player(player));
    } else {
        assert(players.push(player).drop_first() =~= players.drop_first().push(player));
        lemma_encode_players_push(players.drop_first(), player);
        assert(spec_encode_players(players.push(player)) =~= spec_encode_players(players)
            + spec_encode_player(player));
    }
}

/// The tag byte a color is written as.
fn color_tag_of(color: Color) -> (tag: u8)
    ensures
        tag == color_tag(color),
{
    match color {
        Color::Red => 0,
        Color::Blue => 1,
        Color::Green => 2,
        Color::Yellow => 3,
        Color::Wild => 4,
    }
}

/// The tag byte a card kind is written as.
fn kind_tag_of(kind: CardKind) -> (tag: u8)
    ensures
        tag == kind_tag(kind),
{
    match kind {
        CardKind::WildCard => 0,
        CardKind::DrawFour => 1,
        CardKind::DrawTwo => 2,
        CardKind::Cancel => 3,
        CardKind::Reverse => 4,
        CardKind::Zero => 5,
        CardKind::One => 6,
        CardKind::Two => 7,
        CardKind::Three => 8,
        CardKind::Four => 9,
        CardKind::Five => 10,
        CardKind::Six => 11,
        CardKind::Seven => 12,
        CardKind::Eight => 13,
        CardKind::Nine => 14,
    }
}

fn push_u64(out: &mut Vec<u8>, x: u64)
    ensures
        final(out)@ == old(out)@ + spec_u64_to_le_bytes(x),
{
    let mut bytes = vstd::bytes::u64_to_le_bytes(x);
    out.append(&mut bytes);
}

fn push_card(out: &mut Vec<u8>, card: &Card)
    ensures
        final(out)@ == old(out)@ + spec_encode_card(*card),
{
    out.push(color_tag_of(card.color));
    out.push(kind_tag_of(card.kind));
    proof {
        assert(out@ =~= old(out)@ + spec_encode_card(*card));
    }
}

fn push_cards(out: &mut Vec<u8>, cards: &Vec<Card>)
    ensures
        final(out)@ == old(out)@ + spec_encode_cards(cards@),
{
    let mut i: usize = 0;
    proof {
        assert(out@ =~= old(out)@ + spec_encode_cards(cards@.take(0)));
    }
    while i < cards.len()
        invariant
            i <= cards@.len(),
            out@ == old(out)@ + spec_encode_cards(cards@.take(i as int)),
        decreases cards@.len() - i,
    {
        push_card(out, &cards[i]);
        proof {
            lemma_encode_cards_push(cards@.take(i as int), cards@[i as int]);
            assert(cards@.take(i as int + 1) =~= cards@.take(i as int).push(cards@[i as int]));
            assert(out@ =~= old(out)@ + spec_encode_cards(cards@.take(i as int + 1)));
        }
        i = i + 1;
    }
    proof {
        assert(cards@.take(cards@.len() as int) =~= cards@);
    }
}

fn push_deck(out: &mut Vec<u8>, deck: &VecDeque<Card>)
    ensures
        final(out)@ == old(out)@ + spec_encode_cards(deck@),
{
    let mut i: usize = 0;
    proof {
        assert(out@ =~= old(out)@ + spec_encode_cards(deck@.take(0)));
    }
    while i < deck.len()
        invariant
            i <= deck@.len(),
            out@ == old(out)@ + spec_encode_cards(deck@.take(i as int)),
        decreases deck@.len() - i,
    {
        push_card(out, &deck[i]);
        proof {
            lemma_encode_cards_push(deck@.take(i as int), deck@[i as int]);
            assert(deck@.take(i as int + 1) =~= deck@.take(i as int).push(deck@[i as int]));
            assert(out@ =~= old(out)@ + spec_encode_cards(deck@.take(i as int + 1)));
        }
        i = i + 1;
    }
    proof {
        assert(deck@.take(deck@.len() as int) =~= deck@);
    }
}

fn push_string(out: &mut Vec<u8>, name: &String)
    ensures
        final(out)@ == old(out)@ + spec_encode_string(name@),
{
    let bytes = name.as_str().as_bytes();
    push_u64(out, bytes.len() as u64);
    let mut tail = vstd::slice::slice_to_vec(bytes);
    out.append(&mut tail);
    proof {
        assert(out@ =~= old(out)@ + spec_encode_string(name@));
    }
}

fn push_player(out: &mut Vec<u8>, player: &Player)
    ensures
        final(out)@ == old(out)@ + spec_encode_player(*player),
{
    push_string(out, &player.name);
    push_u64(out, player.turn as u64);
    push_u64(out, player.cards.len() as u64);
    push_cards(out, &player.cards);
    proof {
        assert(out@ =~= old(out)@ + spec_encode_player(*player));
    }
}

/// One card's byte form.
pub fn encode_card(card: &Card) -> (out: Vec<u8>)
    ensures
        out@ == spec_encode_card(*card),
{
    let mut out: Vec<u8> = Vec::new();
    push_card(&mut out, card);
    proof {
        assert(out@ =~= spec_encode_card(*card));
    }
    out
}

/// One player's byte form.
pub fn encode_player(player: &Player) -> (out: Vec<u8>)
    ensures
        out@ == spec_encode_player(*player),
{
    let mut out: Vec<u8> = Vec::new();
    push_player(&mut out, player);
    proof {
        assert(out@ =~= spec_encode_player(*player));
    }
    out
}

/// A whole game's byte form.
pub fn encode_game(game: &Game) -> (out: Vec<u8>)
    ensures
        out@ == spec_encode_game(*game),
{
    let mut out: Vec<u8> = Vec::new();
    push_u64(&mut out, game.players.len() as u64);
    let mut i: usize = 0;
    proof {
        assert(out@ =~= Seq::<u8>::empty() + spec_u64_to_le_bytes(game.players@.len() as u64)
            + spec_encode_players(game.players@.take(0)));
    }
    while i < game.players.len()
        invariant
            i <= game.players@.len(),
            out@ == Seq::<u8>::empty() + spec_u64_to_le_bytes(game.players@.len() as u64)
                + spec_encode_players(game.players@.take(i as int)),
        decreases game.players@.len() - i,
    {
        push_player(&mut out, &game.players[i]);
        proof {
            lemma_encode_players_push(game.players@.take(i as int), game.players@[i as int]);
            assert(game.players@.take(i as int + 1) =~= game.players@.take(i as int).push(
                game.players@[i as int],
            ));
            assert(out@ =~= Seq::<u8>::empty() + spec_u64_to_le_bytes(game.players@.len() as u64)
                + spec_encode_players(game.players@.take(i as int + 1)));
        }
        i = i + 1;
    }
    proof {
        assert(game.players@.take(game.players@.len() as int) =~= game.players@);
    }
    push_u64(&mut out, game.deck.len() as u64);
    push_deck(&mut out, &game.deck);
    push_card(&mut out, &game.current_card);
    proof {
        assert(out@ =~= spec_encode_game(*game));
    }
    out
}

/// The color a tag byte stands for, if any.
fn tag_color_of(tag: u8) -> (r: Option<Color>)
    ensures
        r == tag_color(tag),
{
    if tag == 0 {
        Some(Color::Red)
    } else if tag == 1 {
        Some(Color::Blue)
    } else if tag == 2 {
        Some(Color::Green)
    } else if tag == 3 {
        Some(Color::Yellow)
    } else if tag == 4 {
        Some(Color::Wild)
    } else {
        None
    }
}

/// The card kind a tag byte stands for, if any.
fn tag_kind_of(tag: u8) -> (r: Option<CardKind>)
    ensures
        r == tag_kind(tag),
{
    if tag == 0 {
        Some(CardKind::WildCard)
    } else if tag == 1 {
        Some(CardKind::DrawFour)
    } else if tag == 2 {
        Some(CardKind::DrawTwo)
    } else if tag == 3 {
        Some(CardKind::Cancel)
    } else if tag == 4 {
        Some(CardKind::Reverse)
    } else if tag == 5 {
        Some(CardKind::Zero)
    } else if tag == 6 {
        Some(CardKind::One)
    } else if tag == 7 {
        Some(CardKind::Two)
    } else if tag == 8 {
        Some(CardKind::Three)
    } else if tag == 9 {
        Some(CardKind::Four)
    } else if tag == 10 {
        Some(CardKind::Five)
    } else if tag == 11 {
        Some(CardKind::Six)
    } else if tag == 12 {
        Some(CardKind::Seven)
    } else if tag == 13 {
        Some(CardKind::Eight)
    } else if tag == 14 {
        Some(CardKind::Nine)
    } else {
        None
    }
}

/// Relies on `str::from_utf8`: it succeeds exactly on valid UTF-8,
/// and the returned slice views those very bytes.
#[verifier::external_body]
fn str_from_utf8(bytes: &[u8]) -> (r: Option<&str>)
    ensures
        r is Some <==> valid_utf8(bytes@),
        (r matches Some(s) ==> s.spec_bytes() == bytes@),
{
    std::str::from_utf8(bytes).ok()
}

fn take_u64<'a>(bytes: &'a [u8]) -> (r: Option<(u64, &'a [u8])>)
    ensures
        r is Some <==> spec_decode_u64(bytes@) is Some,
        (r matches Some((x, rest)) ==> spec_decode_u64(bytes@) == Some((x, rest@))),
{
    if bytes.len() < 8 {
        return None;
    }
    let head = vstd::slice::slice_subrange(bytes, 0, 8);
    let x = vstd::bytes::u64_from_le_bytes(head);
    let rest = vstd::slice::slice_subrange(bytes, 8, bytes.len());
    proof {
        assert(bytes@.take(8) =~= head@);
        assert(bytes@.skip(8) =~= rest@);
    }
    Some((x, rest))
}

fn take_card<'a>(bytes: &'a [u8]) -> (r: Option<(Card, &'a [u8])>)
    ensures
        r is Some <==> spec_decode_card(bytes@) is Some,
        (r matches Some((card, rest)) ==> spec_decode_card(bytes@) == Some((card, rest@))),
{
    if bytes.len() < 2 {
        return None;
    }
    let b0 = *vstd::slice::slice_index_get(bytes, 0);
    let b1 = *vstd::slice::slice_index_get(bytes, 1);
    let color = match tag_color_of(b0) {
        Some(color) => color,
        None => {
            return None;
        },
    };
    let kind = match tag_kind_of(b1) {
        Some(kind) => kind,
        None => {
            return None;
        },
    };
    let rest = vstd::slice::slice_subrange(bytes, 2, bytes.len());
    proof {
        assert(bytes@.skip(2) =~= rest@);
    }
    Some((Card { color, kind }, rest))
}

fn take_cards<'a>(bytes: &'a [u8], n: u64) -> (r: Option<(Vec<Card>, &'a [u8])>)
    ensures
        r is Some <==> spec_decode_cards(bytes@, n as nat) is Some,
        (r matches Some((cards, rest)) ==> spec_decode_cards(bytes@, n as nat) == Some(
            (cards@, rest@),
        )),
{
    let mut cards: Vec<Card> = Vec::new();
    let mut cur: &[u8] = bytes;
    let mut i: u64 = 0;
    proof {
        assert(cards@ + spec_decode_cards(bytes@, n as nat)->Some_0.0 =~= spec_decode_cards(
            bytes@,
            n as nat,
        )->Some_0.0);
    }
    while i < n
        invariant
            i <= n,
            match spec_decode_cards(cur@, (n - i) as nat) {
                Some((tail_cards, rest)) => spec_decode_cards(bytes@, n as nat) == Some(
                    (cards@ + tail_cards, rest),
                ),
                None => spec_decode_cards(bytes@, n as nat) is None,
            },
        decreases n - i,
    {
        match take_card(cur) {
            Some((card, rest)) => {
                proof {
                    let k = (n - i) as nat;
                    if spec_decode_cards(rest@, (k - 1) as nat) is Some {
                        let (tail_cards, tail_rest) = spec_decode_cards(
                            rest@,
                            (k - 1) as nat,
                        )->Some_0;
                        assert(cards@ + (seq![card] + tail_cards) =~= cards@.push(card)
                            + tail_cards);
                    }
                }
                cards.push(card);
                cur = rest;
                i = i + 1;
            },
            None => {
                return None;
            },
        }
    }
    proof {
        assert(cards@ + Seq::<Card>::empty() =~= cards@);
    }
    Some((cards, cur))
}

fn take_string<'a>(bytes: &'a [u8]) -> (r: Option<(String, &'a [u8])>)
    ensures
        r is Some <==> spec_decode_string(bytes@) is Some,
        (r matches Some((s, rest)) ==> spec_decode_string(bytes@) == Some((s@, rest@))),
{
    let (len64, r1) = match take_u64(bytes) {
        Some(pair) => pair,
        None => {
            return None;
        },
    };
    if (r1.len() as u64) < len64 {
        return None;
    }
    let len = len64 as usize;
    let head = vstd::slice::slice_subrange(r1, 0, len);
    let rest = vstd::slice::slice_subrange(r1, len, r1.len());
    proof {
        assert(r1@.take(len as int) =~= head@);
        assert(r1@.skip(len as int) =~= rest@);
    }
    match str_from_utf8(head) {
        Some(s) => {
            proof {
                vstd::utf8::encode_utf8_decode_utf8(s@);
            }
            Some((s.to_owned(), rest))
        },
        None => None,
    }
}

fn take_player<'a>(bytes: &'a [u8]) -> (r: Option<(Player, &'a [u8])>)
    ensures
        r is Some <==> spec_decode_player(bytes@) is Some,
        (r matches Some((player, rest)) ==> spec_decode_player(bytes@) == Some(
            (player_model(player), rest@),
        )),
{
    let (name, r1) = match take_string(bytes) {
        Some(pair) => pair,
        None => {
            return None;
        },
    };
    let (turn64, r2) = match take_u64(r1) {
        Some(pair) => pair,
        None => {
            return None;
        },
    };
    if turn64 > usize::MAX as u64 {
        return None;
    }
    let (ncards, r3) = match take_u64(r2) {
        Some(pair) => pair,
        None => {
            return None;
        },
    };
    let (cards, r4) = match take_cards(r3, ncards) {
        Some(pair) => pair,
        None => {
            return None;
        },
    };
    Some((Player { name, turn: turn64 as usize, cards }, r4))
}

fn take_players<'a>(bytes: &'a [u8], n: u64) -> (r: Option<(Vec<Player>, &'a [u8])>)
    ensures
        r is Some <==> spec_decode_players(bytes@, n as nat) is Some,
        (r matches Some((players, rest)) ==> spec_decode_players(bytes@, n as nat) == Some(
            (players@.map_values(|p: Player| player_model(p)), rest@),
        )),
{
    let mut players: Vec<Player> = Vec::new();
    let mut cur: &[u8] = bytes;
    let mut i: u64 = 0;
    proof {
        assert(players@.map_values(|p: Player| player_model(p)) + spec_decode_players(
            bytes@,
            n as nat,
        )->Some_0.0 =~= spec_decode_players(bytes@, n as nat)->Some_0.0);
    }
    while i < n
        invariant
            i <= n,
            match spec_decode_players(cur@, (n - i) as nat) {
                Some((tail_players, rest)) => spec_decode_players(bytes@, n as nat) == Some(
                    (players@.map_values(|p: Player| player_model(p)) + tail_players, rest),
                ),
                None => spec_decode_players(bytes@, n as nat) is None,
            },
        decreases n - i,
    {
        match take_player(cur) {
            Some((player, rest)) => {
                proof {
                    let k = (n - i) as nat;
                    let models = players@.map_values(|p: Player| player_model(p));
                    if spec_decode_players(rest@, (k - 1) as nat) is Some {
                        let (tail_players, tail_rest) = spec_decode_players(
                            rest@,
                            (k - 1) as nat,
                        )->Some_0;
                        assert(models + (seq![player_model(player)] + tail_players)
                            =~= players@.push(player).map_values(|p: Player| player_model(p))
                            + tail_players);
                    }
                }
                players.push(player);
                cur = rest;
                i = i + 1;
            },
            None => {
                return None;
            },
        }
    }
    proof {
        assert(players@.map_values(|p: Player| player_model(p)) + Seq::<
            (Seq<char>, u64, Seq<Card>),
        >::empty() =~= players@.map_values(|p: Player| player_model(p)));
    }
    Some((players, cur))
}

/// Parses one card written by `encode_card`; trailing bytes are
/// rejected.
pub fn decode_card(bytes: &[u8]) -> (r: Option<Card>)
    ensures
        match spec_decode_card(bytes@) {
            Some((card, rest)) => if rest.len() == 0 {
                r == Some(card)
            } else {
                r is None
            },
            None => r is None,
        },
{
    match take_card(bytes) {
        Some((card, rest)) => {
            if rest.len() == 0 {
                Some(card)
            } else {
                None
            }
        },
        None => None,
    }
}

/// Parses one player written by `encode_player`; trailing bytes are
/// rejected.
pub fn decode_player(bytes: &[u8]) -> (r: Option<Player>)
    ensures
        match spec_decode_player(bytes@) {
            Some((model, rest)) => if rest.len() == 0 {
                r matches Some(player) && player_model(player) == model
            } else {
                r is None
            },
            None => r is None,
        },
{
    match take_player(bytes) {
        Some((player, rest)) => {
            if rest.len() == 0 {
                Some(player)
            } else {
                None
            }
        },
        None => None,
    }
}

/// Parses a whole game written by `encode_game`; trailing bytes are
/// rejected.
pub fn decode_game(bytes: &[u8]) -> (r: Option<Game>)
    ensures
        match spec_decode_game(bytes@) {
            Some(model) => r matches Some(game) && game_model(game) == model,
            None => r is None,
        },
{
    let (nplayers, r1) = match take_u64(bytes) {
        Some(pair) => pair,
        None => {
            return None;
        },
    };
    let (players, r2) = match take_players(r1, nplayers) {
        Some(pair) => pair,
        None => {
            return None;
        },
    };
    let (ndeck, r3) = match take_u64(r2) {
        Some(pair) => pair,
        None => {
            return None;
        },
    };
    let (deck_cards, r4) = match take_cards(r3, ndeck) {
        Some(pair) => pair,
        None => {
            return None;
        },
    };
    let (current_card, r5) = match take_card(r4) {
        Some(pair) => pair,
        None => {
            return None;
        },
    };
    if r5.len() != 0 {
        return None;
    }
    let mut deck: VecDeque<Card> = VecDeque::new();
    let mut i: usize = 0;
    while i < deck_cards.len()
        invariant
            i <= deck_cards@.len(),
            deck@ == deck_cards@.subrange(0, i as int),
        decreases deck_cards@.len() - i,
    {
        deck.push_back(deck_cards[i]);
        proof {
            assert(deck@ =~= deck_cards@.subrange(0, i as int + 1));
        }
        i = i + 1;
    }
    proof {
        assert(deck@ =~= deck_cards@);
    }
    Some(Game { players, deck, current_card })
}

} // verus!
