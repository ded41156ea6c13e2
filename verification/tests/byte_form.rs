use uno_core::codec::{
    decode_card, decode_game, decode_player, encode_card, encode_game, encode_player,
};
use uno_core::{Card, CardKind, Color, Game, Player};

#[test]
fn card_byte_form_is_two_tag_bytes() {
    let card = Card { color: Color::Red, kind: CardKind::Zero };
    assert_eq!(encode_card(&card), vec![0, 5]);
    let wild = Card { color: Color::Wild, kind: CardKind::DrawFour };
    assert_eq!(encode_card(&wild), vec![4, 1]);
}

#[test]
fn card_round_trip() {
    let colors = [Color::Red, Color::Blue, Color::Green, Color::Yellow, Color::Wild];
    let kinds = [
        CardKind::WildCard,
        CardKind::DrawFour,
        CardKind::DrawTwo,
        CardKind::Cancel,
        CardKind::Reverse,
        CardKind::Zero,
        CardKind::One,
        CardKind::Two,
        CardKind::Three,
        CardKind::Four,
        CardKind::Five,
        CardKind::Six,
        CardKind::Seven,
        CardKind::Eight,
        CardKind::Nine,
    ];
    for color in colors {
        for kind in kinds {
            let card = Card { color, kind };
            assert_eq!(decode_card(&encode_card(&card)), Some(card));
        }
    }
}

#[test]
fn decode_card_rejects_bad_input() {
    assert_eq!(decode_card(&[5, 0]), None);
    assert_eq!(decode_card(&[0, 15]), None);
    assert_eq!(decode_card(&[0]), None);
    assert_eq!(decode_card(&[]), None);
    assert_eq!(decode_card(&[0, 5, 7]), None);
}

#[test]
fn player_round_trip() {
    let mut player = Player::new();
    player.set_name("alice");
    player.set_turn(3);
    player.cards.push(Card { color: Color::Blue, kind: CardKind::Nine });
    player.cards.push(Card { color: Color::Wild, kind: CardKind::WildCard });
    let bytes = encode_player(&player);
    let back = decode_player(&bytes).unwrap();
    assert_eq!(back.name, "alice");
    assert_eq!(back.turn, 3);
    assert_eq!(back.cards, player.cards);
}

#[test]
fn fresh_player_round_trip() {
    let player = Player::new();
    let bytes = encode_player(&player);
    let back = decode_player(&bytes).unwrap();
    assert_eq!(back.name, "");
    assert_eq!(back.turn, 0);
    assert!(back.cards.is_empty());
}

#[test]
fn player_with_non_ascii_name_round_trip() {
    let mut player = Player::new();
    player.set_name("Åse 🂡");
    let bytes = encode_player(&player);
    let back = decode_player(&bytes).unwrap();
    assert_eq!(back.name, "Åse 🂡");
}

#[test]
fn decode_player_rejects_invalid_name_bytes() {
    // A name of declared length one whose single byte is no valid UTF-8.
    let mut bytes = vec![1, 0, 0, 0, 0, 0, 0, 0, 0xff];
    bytes.extend_from_slice(&[0; 16]);
    assert!(decode_player(&bytes).is_none());
}

#[test]
fn decode_player_rejects_truncated_input() {
    let mut player = Player::new();
    player.set_name("bob");
    let bytes = encode_player(&player);
    assert!(decode_player(&bytes[..bytes.len() - 1]).is_none());
}

#[test]
fn game_round_trip() {
    let mut game = Game::new();
    let mut player = Player::new();
    player.set_name("ada");
    player.set_turn(1);
    player.cards.push(game.card_from_deck_top().unwrap());
    game.players.push(player);
    let mut rival = Player::new();
    rival.set_name("bea");
    rival.set_turn(2);
    game.players.push(rival);

    let bytes = encode_game(&game);
    let back = decode_game(&bytes).unwrap();
    assert_eq!(back.players.len(), 2);
    assert_eq!(back.players[0].name, "ada");
    assert_eq!(back.players[0].turn, 1);
    assert_eq!(back.players[0].cards, game.players[0].cards);
    assert_eq!(back.players[1].name, "bea");
    assert_eq!(back.players[1].turn, 2);
    assert!(back.players[1].cards.is_empty());
    assert_eq!(back.deck, game.deck);
    assert_eq!(back.current_card, game.current_card);
}

#[test]
fn decode_game_rejects_trailing_bytes() {
    let game = Game::new();
    let mut bytes = encode_game(&game);
    bytes.push(0);
    assert!(decode_game(&bytes).is_none());
}

#[test]
fn decode_game_rejects_empty_input() {
    assert!(decode_game(&[]).is_none());
}
