use guinyot::serialization::{
    ClientStatement, InvalidCard, InvalidClientStatement, InvalidColl, InvalidNumero,
    InvalidTransferGame, InvalidTransferTag, TransferGame,
};
use guinyot::{Carta, Coll, Numero};

fn carta(coll: Coll, valor: Numero) -> Carta {
    Carta { coll, valor }
}

#[test]
fn numero_values() {
    assert_eq!(Numero::As.value(), 11);
    assert_eq!(Numero::Tres.value(), 10);
    assert_eq!(Numero::Rei.value(), 4);
    assert_eq!(Numero::Cavall.value(), 2);
    assert_eq!(Numero::Sota.value(), 3);
    assert_eq!(Numero::Dos.value(), 0);
    assert_eq!(Numero::Sete.value(), 0);
    let per_suit: u32 = Numero::ALL.iter().map(|n| n.value()).sum();
    assert_eq!(per_suit, 30);
}

#[test]
fn numero_all_in_order() {
    let all = Numero::ALL;
    assert_eq!(all[0], Numero::As);
    assert_eq!(all[6], Numero::Sete);
    assert_eq!(all[9], Numero::Rei);
}

#[test]
fn carta_serialize_bytes() {
    assert_eq!(carta(Coll::Copes, Numero::Tres).serialize(), [b'c', 2]);
    assert_eq!(carta(Coll::Monedes, Numero::As).serialize(), [b'm', 0]);
    assert_eq!(carta(Coll::Espases, Numero::Sota).serialize(), [b'e', 7]);
    assert_eq!(carta(Coll::Garrots, Numero::Rei).serialize(), [b'g', 9]);
    assert_eq!(Coll::Garrots.serialize(), [b'g']);
    assert_eq!(Numero::Cavall.serialize(), [8]);
}

#[test]
fn carta_roundtrip_every_card() {
    for coll in [Coll::Monedes, Coll::Copes, Coll::Espases, Coll::Garrots] {
        for valor in Numero::ALL {
            let c = carta(coll, valor);
            assert_eq!(Carta::deserialize(&c.serialize()), Ok(Some(c)));
            assert_eq!(Coll::deserialize(&coll.serialize()), Ok(coll));
            assert_eq!(Numero::deserialize(&valor.serialize()), Ok(valor));
        }
    }
}

#[test]
fn carta_deserialize_errors() {
    assert_eq!(Carta::deserialize(&[0, 0]), Ok(None));
    assert_eq!(Carta::deserialize(&[1]), Err(InvalidCard::IncorrectFormat));
    assert_eq!(Carta::deserialize(&[b'm', 1, 2]), Err(InvalidCard::IncorrectFormat));
    assert_eq!(
        Carta::deserialize(&[b'x', 1]),
        Err(InvalidCard::InvalidColl(InvalidColl::Unrecognized('x')))
    );
    assert_eq!(
        Carta::deserialize(&[b'm', 10]),
        Err(InvalidCard::InvalidNumero(InvalidNumero::Unrecognized(10)))
    );
    assert_eq!(
        Carta::deserialize(&[0, 3]),
        Err(InvalidCard::InvalidColl(InvalidColl::Unrecognized('\0')))
    );
}

#[test]
fn coll_and_numero_deserialize_errors() {
    assert_eq!(Coll::deserialize(&[]), Err(InvalidColl::InvalidAmountOfBytes(0)));
    assert_eq!(Coll::deserialize(b"mc"), Err(InvalidColl::InvalidAmountOfBytes(2)));
    assert_eq!(Coll::deserialize(b"e"), Ok(Coll::Espases));
    assert_eq!(Numero::deserialize(&[1, 2]), Err(InvalidNumero::InvalidAmountOfBytes(2)));
    assert_eq!(Numero::deserialize(&[255]), Err(InvalidNumero::Unrecognized(255)));
    assert_eq!(Numero::deserialize(&[6]), Ok(Numero::Sete));
}

#[test]
fn transfer_game_serialize_bytes() {
    let g = TransferGame {
        carta_atot: Some(carta(Coll::Monedes, Numero::As)),
        your_cards: vec![carta(Coll::Copes, Numero::Tres), carta(Coll::Garrots, Numero::Rei)],
        table_card: Some(carta(Coll::Espases, Numero::Dos)),
    };
    assert_eq!(g.serialize(), vec![b'm', 0, b'e', 1, 4, b'c', 2, b'g', 9]);

    let empty = TransferGame { carta_atot: None, your_cards: vec![], table_card: None };
    assert_eq!(empty.serialize(), vec![0, 0, 0, 0, 0]);

    let only_table = TransferGame {
        carta_atot: None,
        your_cards: vec![],
        table_card: Some(carta(Coll::Espases, Numero::Cinc)),
    };
    assert_eq!(only_table.serialize(), vec![0, 0, b'e', 4, 0]);
}

#[test]
fn transfer_game_roundtrip_keeps_table_card() {
    let g = TransferGame {
        carta_atot: Some(carta(Coll::Espases, Numero::Cinc)),
        your_cards: vec![
            carta(Coll::Copes, Numero::Tres),
            carta(Coll::Monedes, Numero::Sis),
            carta(Coll::Garrots, Numero::As),
        ],
        table_card: Some(carta(Coll::Garrots, Numero::Dos)),
    };
    let back = TransferGame::deserialize(&g.serialize()).unwrap();
    assert_eq!(back.carta_atot, g.carta_atot);
    assert_eq!(back.your_cards, g.your_cards);
    assert_eq!(back.table_card, g.table_card);

    let no_table = TransferGame { carta_atot: None, your_cards: vec![], table_card: None };
    let back = TransferGame::deserialize(&no_table.serialize()).unwrap();
    assert_eq!(back.carta_atot, None);
    assert_eq!(back.table_card, None);
    assert!(back.your_cards.is_empty());
}

#[test]
fn transfer_game_deserialize_reads_table_card() {
    let back = TransferGame::deserialize(&[0, 0, b'c', 1, 2, b'g', 3]).unwrap();
    assert_eq!(back.carta_atot, None);
    assert_eq!(back.table_card, Some(carta(Coll::Copes, Numero::Dos)));
    assert_eq!(back.your_cards, vec![carta(Coll::Garrots, Numero::Quatre)]);
}

#[test]
fn transfer_game_deserialize_errors() {
    assert_eq!(
        TransferGame::deserialize(&[0, 0, 0, 0]).err(),
        Some(InvalidTransferGame::NotEnoughBytes)
    );
    assert_eq!(
        TransferGame::deserialize(&[b'm', 0, 0, 0, 4, b'c', 2]).err(),
        Some(InvalidTransferGame::NotEnoughBytes)
    );
    assert_eq!(
        TransferGame::deserialize(&[0, 0, 0, 0, 2, 0, 0]).err(),
        Some(InvalidTransferGame::CartaWasNone(0))
    );
    assert_eq!(
        TransferGame::deserialize(&[0, 0, 0, 0, 4, b'c', 0, 0, 0]).err(),
        Some(InvalidTransferGame::CartaWasNone(1))
    );
    assert_eq!(
        TransferGame::deserialize(&[0, 0, 0, 0, 2, b'z', 0]).err(),
        Some(InvalidTransferGame::InvalidCarta(InvalidCard::InvalidColl(
            InvalidColl::Unrecognized('z')
        )))
    );
    assert_eq!(
        TransferGame::deserialize(&[b'q', 0, 0, 0, 0]).err(),
        Some(InvalidTransferGame::InvalidCarta(InvalidCard::InvalidColl(
            InvalidColl::Unrecognized('q')
        )))
    );
    assert_eq!(
        TransferGame::deserialize(&[0, 0, b'm', 12, 0]).err(),
        Some(InvalidTransferGame::InvalidCarta(InvalidCard::InvalidNumero(
            InvalidNumero::Unrecognized(12)
        )))
    );
}

#[test]
fn transfer_game_odd_length_byte_reads_whole_cards() {
    let back = TransferGame::deserialize(&[0, 0, 0, 0, 3, b'e', 9, 77]).unwrap();
    assert_eq!(back.your_cards, vec![carta(Coll::Espases, Numero::Rei)]);
}

#[test]
fn client_statement_serialize_and_roundtrip() {
    let cs = ClientStatement { played_card: carta(Coll::Espases, Numero::Sota) };
    assert_eq!(cs.serialize(), vec![b'e', 7]);
    let mut msg = vec![b'R'];
    msg.extend(cs.serialize());
    let back = ClientStatement::deserialize(&msg).unwrap();
    assert_eq!(back.played_card, cs.played_card);
}

#[test]
fn client_statement_deserialize_errors() {
    assert_eq!(
        ClientStatement::deserialize(&[]).err(),
        Some(InvalidClientStatement::NotEnoughBytes)
    );
    assert_eq!(
        ClientStatement::deserialize(&[b'S', b'e', 7]).err(),
        Some(InvalidClientStatement::NotResponseTag)
    );
    assert_eq!(
        ClientStatement::deserialize(&[b'X', b'e', 7]).err(),
        Some(InvalidClientStatement::InvalidTag(InvalidTransferTag::Unrecognized(b'X')))
    );
    assert_eq!(
        ClientStatement::deserialize(&[b'R', 0, 0]).err(),
        Some(InvalidClientStatement::MissingCard)
    );
    assert_eq!(
        ClientStatement::deserialize(&[b'R', 1]).err(),
        Some(InvalidClientStatement::InvalidCard(InvalidCard::IncorrectFormat))
    );
    assert_eq!(
        ClientStatement::deserialize(&[b'R', b'k', 1]).err(),
        Some(InvalidClientStatement::InvalidCard(InvalidCard::InvalidColl(
            InvalidColl::Unrecognized('k')
        )))
    );
}
