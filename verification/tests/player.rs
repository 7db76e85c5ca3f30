use tictactoe::game::player::{PlayerBuilder, SymbolUsed};

#[test]
fn create_unique_players() {
    let mut builder = PlayerBuilder::new();
    builder
        .new_player('c')
        .expect("A first player shouldn't fail no matter what");
    builder
        .new_player('d')
        .expect("Unique symbol and should not fail");
}

#[test]
fn detect_repeated_symbols() {
    let mut builder = PlayerBuilder::new();
    builder
        .new_player('c')
        .expect("A first player shouldn't fail no matter what");
    let result = builder.new_player('c');
    assert_eq!(result, Err(SymbolUsed('c')));
}

#[test]
fn issued_players_never_share_id_or_symbol() {
    let mut builder = PlayerBuilder::new();
    let mut players = Vec::new();
    for symbol in ['a', 'b', 'c', 'd', 'e', 'f'] {
        players.push(builder.new_player(symbol).expect("fresh symbol"));
    }
    for i in 0..players.len() {
        for j in 0..players.len() {
            if i != j {
                assert_ne!(players[i].id, players[j].id);
                assert_ne!(players[i].symbol, players[j].symbol);
            }
        }
    }
}

#[test]
fn symbol_equality_does_not_decide_player_equality() {
    let mut builder = PlayerBuilder::new();
    let p1 = builder.new_player('x').expect("fresh symbol");
    let p2 = builder.new_player('o').expect("fresh symbol");
    assert_ne!(p1, p2);
    assert_eq!(p1, p1);
    assert_eq!(p1.get_symbol(), 'x');
    assert_eq!(p2.get_symbol(), 'o');
}
