//! The byte formats of the messages that the server and the clients
//! exchange: message tags, cards, the state sent to a player and the card
//! a player answers with.

use vstd::prelude::*;

use crate::{Carta, Coll, Numero};

verus! {

/// The kind of a message, sent as its first byte.
#[derive(Clone, Copy, Debug, PartialEq, Eq, Structural)]
pub enum TransferTag {
    State,
    Info,
    Prompt,
    Response,
}

/// ASCII `S`, the header of a state message.
pub const STATE_BYTE: u8 = 83;
/// ASCII `I`, the header of an information message.
pub const INFO_BYTE: u8 = 73;
/// ASCII `P`, the header of a prompt.
pub const PROMPT_BYTE: u8 = 80;
/// ASCII `R`, the header of a response.
pub const RESPONSE_BYTE: u8 = 82;

/// The byte that stands for a tag: `S`, `I`, `P` or `R`.
pub open spec fn spec_tag_byte(t: TransferTag) -> u8 {
    match t {
        TransferTag::State => STATE_BYTE,
        TransferTag::Info => INFO_BYTE,
        TransferTag::Prompt => PROMPT_BYTE,
        TransferTag::Response => RESPONSE_BYTE,
    }
}

impl From<TransferTag> for u8 {
    fn from(value: TransferTag) -> (r: u8) {
        match value {
            TransferTag::State => STATE_BYTE,
            TransferTag::Info => INFO_BYTE,
            TransferTag::Prompt => PROMPT_BYTE,
            TransferTag::Response => RESPONSE_BYTE,
        }
    }
}

impl vstd::std_specs::convert::FromSpecImpl<TransferTag> for u8 {
    open spec fn obeys_from_spec() -> bool {
        true
    }

    open spec fn from_spec(value: TransferTag) -> u8 {
        spec_tag_byte(value)
    }
}

impl From<TransferTag> for char {
    fn from(value: TransferTag) -> (r: char) {
        u8::from(value) as char
    }
}

impl vstd::std_specs::convert::FromSpecImpl<TransferTag> for char {
    open spec fn obeys_from_spec() -> bool {
        true
    }

    open spec fn from_spec(value: TransferTag) -> char {
        spec_tag_byte(value) as char
    }
}

/// Why bytes are not a tag.
#[derive(Debug, PartialEq, Eq, Structural)]
pub enum InvalidTransferTag {
    InvalidAmountOfBytes(usize),
    Unrecognized(u8),
}

/// What the bytes `b` read as a tag give.
pub open spec fn spec_tag_deserialize(b: Seq<u8>) -> Result<TransferTag, InvalidTransferTag> {
    if b.len() != 1 {
        Err(InvalidTransferTag::InvalidAmountOfBytes(b.len() as usize))
    } else if b[0] == STATE_BYTE {
        Ok(TransferTag::State)
    } else if b[0] == INFO_BYTE {
        Ok(TransferTag::Info)
    } else if b[0] == PROMPT_BYTE {
        Ok(TransferTag::Prompt)
    } else if b[0] == RESPONSE_BYTE {
        Ok(TransferTag::Response)
    } else {
        Err(InvalidTransferTag::Unrecognized(b[0]))
    }
}

impl TransferTag {
    /// The number of bytes a tag takes.
    pub const BYTES_LENGTH: usize = 1;

    /// The tag as a one-byte message header.
    pub fn serialize(&self) -> (r: [u8; 1])
        ensures
            r@ == seq![spec_tag_byte(*self)],
    {
        let r = [u8::from(*self)];
        assert(r@ =~= seq![spec_tag_byte(*self)]);
        r
    }

    /// Reads a tag from exactly one byte.
    pub fn deserialize(b: &[u8]) -> (r: Result<Self, InvalidTransferTag>)
        ensures
            r == spec_tag_deserialize(b@),
    {
        if b.len() != 1 {
            return Err(InvalidTransferTag::InvalidAmountOfBytes(b.len()));
        }
        let x = b[0];
        if x == STATE_BYTE {
            Ok(Self::State)
        } else if x == INFO_BYTE {
            Ok(Self::Info)
        } else if x == PROMPT_BYTE {
            Ok(Self::Prompt)
        } else if x == RESPONSE_BYTE {
            Ok(Self::Response)
        } else {
            Err(InvalidTransferTag::Unrecognized(x))
        }
    }
}

/// Different tags are sent as different bytes, so a receiver can always
/// tell the kind of a message from its first byte.
pub proof fn lemma_tag_bytes_distinct(t1: TransferTag, t2: TransferTag)
    ensures
        t1 != t2 ==> spec_tag_byte(t1) != spec_tag_byte(t2),
{
}

/// Reading back the byte of a tag gives the tag.
pub proof fn lemma_tag_roundtrip(t: TransferTag)
    ensures
        spec_tag_deserialize(seq![spec_tag_byte(t)]) == Ok::<TransferTag, InvalidTransferTag>(t),
{
}


/// ASCII `m`, the byte of monedes.
pub const MONEDES_BYTE: u8 = 109;
/// ASCII `c`, the byte of copes.
pub const COPES_BYTE: u8 = 99;
/// ASCII `e`, the byte of espases.
pub const ESPASES_BYTE: u8 = 101;
/// ASCII `g`, the byte of garrots.
pub const GARROTS_BYTE: u8 = 103;

/// The byte that stands for a suit: its initial.
pub open spec fn spec_coll_byte(c: Coll) -> u8 {
    match c {
        Coll::Monedes => MONEDES_BYTE,
        Coll::Copes => COPES_BYTE,
        Coll::Espases => ESPASES_BYTE,
        Coll::Garrots => GARROTS_BYTE,
    }
}

/// The byte that stands for a rank: its position from the ace (0) to the
/// king (9).
pub open spec fn spec_numero_byte(n: Numero) -> u8 {
    match n {
        Numero::As => 0,
        Numero::Dos => 1,
        Numero::Tres => 2,
        Numero::Quatre => 3,
        Numero::Cinc => 4,
        Numero::Sis => 5,
        Numero::Sete => 6,
        Numero::Sota => 7,
        Numero::Cavall => 8,
        Numero::Rei => 9,
    }
}

/// The rank at position `b`, for `b` below ten.
pub open spec fn spec_numero_of_byte(b: u8) -> Numero {
    Numero::spec_all()[b as int]
}

/// The two bytes of a card: its suit, then its rank.
pub open spec fn spec_carta_bytes(c: Carta) -> Seq<u8> {
    seq![spec_coll_byte(c.coll), spec_numero_byte(c.valor)]
}

/// Why bytes are not a suit.
#[derive(Debug, PartialEq, Eq, Structural)]
pub enum InvalidColl {
    InvalidAmountOfBytes(usize),
    Unrecognized(char),
}

/// Why bytes are not a rank.
#[derive(Debug, PartialEq, Eq, Structural)]
pub enum InvalidNumero {
    InvalidAmountOfBytes(usize),
    Unrecognized(u8),
}

/// Why bytes are not a card.
#[derive(Debug, PartialEq, Eq, Structural)]
pub enum InvalidCard {
    IncorrectFormat,
    InvalidColl(InvalidColl),
    InvalidNumero(InvalidNumero),
}

/// What the bytes `b` read as a suit give.
pub open spec fn spec_coll_deserialize(b: Seq<u8>) -> Result<Coll, InvalidColl> {
    if b.len() != 1 {
        Err(InvalidColl::InvalidAmountOfBytes(b.len() as usize))
    } else if b[0] == MONEDES_BYTE {
        Ok(Coll::Monedes)
    } else if b[0] == COPES_BYTE {
        Ok(Coll::Copes)
    } else if b[0] == ESPASES_BYTE {
        Ok(Coll::Espases)
    } else if b[0] == GARROTS_BYTE {
        Ok(Coll::Garrots)
    } else {
        Err(InvalidColl::Unrecognized(b[0] as char))
    }
}

/// What the bytes `b` read as a rank give.
pub open spec fn spec_numero_deserialize(b: Seq<u8>) -> Result<Numero, InvalidNumero> {
    if b.len() != 1 {
        Err(InvalidNumero::InvalidAmountOfBytes(b.len() as usize))
    } else if b[0] >= 10 {
        Err(InvalidNumero::Unrecognized(b[0]))
    } else {
        Ok(spec_numero_of_byte(b[0]))
    }
}

/// What the bytes `b` read as a card give: two zero bytes stand for no
/// card; otherwise the suit is read before the rank.
pub open spec fn spec_carta_deserialize(b: Seq<u8>) -> Result<Option<Carta>, InvalidCard> {
    if b.len() != 2 {
        Err(InvalidCard::IncorrectFormat)
    } else if b[0] == 0 && b[1] == 0 {
        Ok(None)
    } else {
        match spec_coll_deserialize(seq![b[0]]) {
            Err(e) => Err(InvalidCard::InvalidColl(e)),
            Ok(coll) => match spec_numero_deserialize(seq![b[1]]) {
                Err(e) => Err(InvalidCard::InvalidNumero(e)),
                Ok(valor) => Ok(Some(Carta { coll, valor })),
            },
        }
    }
}

impl Coll {
    /// The number of bytes a suit takes.
    pub const BYTES_LENGTH: usize = 1;

    /// The suit as one byte.
    pub fn serialize(&self) -> (r: [u8; 1])
        ensures
            r@ == seq![spec_coll_byte(*self)],
    {
        let r = match self {
            Coll::Monedes => [MONEDES_BYTE],
            Coll::Copes => [COPES_BYTE],
            Coll::Espases => [ESPASES_BYTE],
            Coll::Garrots => [GARROTS_BYTE],
        };
        assert(r@ =~= seq![spec_coll_byte(*self)]);
        r
    }

    /// Reads a suit from exactly one byte.
    pub fn deserialize(b: &[u8]) -> (r: Result<Self, InvalidColl>)
        ensures
            r == spec_coll_deserialize(b@),
    {
        if b.len() != 1 {
            return Err(InvalidColl::InvalidAmountOfBytes(b.len()));
        }
        let x = b[0];
        if x == MONEDES_BYTE {
            Ok(Coll::Monedes)
        } else if x == COPES_BYTE {
            Ok(Coll::Copes)
        } else if x == ESPASES_BYTE {
            Ok(Coll::Espases)
        } else if x == GARROTS_BYTE {
            Ok(Coll::Garrots)
        } else {
            Err(InvalidColl::Unrecognized(x as char))
        }
    }
}

impl Numero {
    /// The number of bytes a rank takes.
    pub const BYTES_LENGTH: usize = 1;

    /// The rank as one byte.
    pub fn serialize(&self) -> (r: [u8; 1])
        ensures
            r@ == seq![spec_numero_byte(*self)],
            r@[0] < 10,
            Numero::ALL@[r@[0] as int] == *self,
    {
        let x: u8 = match self {
            Numero::As => 0,
            Numero::Dos => 1,
            Numero::Tres => 2,
            Numero::Quatre => 3,
            Numero::Cinc => 4,
            Numero::Sis => 5,
            Numero::Sete => 6,
            Numero::Sota => 7,
            Numero::Cavall => 8,
            Numero::Rei => 9,
        };
        let r = [x];
        assert(r@ =~= seq![spec_numero_byte(*self)]);
        r
    }

    /// Reads a rank from exactly one byte.
    pub fn deserialize(b: &[u8]) -> (r: Result<Self, InvalidNumero>)
        ensures
            r == spec_numero_deserialize(b@),
            r is Ok <==> (b@.len() == 1 && b@[0] < 10),
            r matches Ok(n) ==> Numero::ALL@[b@[0] as int] == n,
    {
        if b.len() != 1 {
            return Err(InvalidNumero::InvalidAmountOfBytes(b.len()));
        }
        let x = b[0];
        if x >= 10 {
            Err(InvalidNumero::Unrecognized(x))
        } else {
            let all = Numero::ALL;
            assert(all@ =~= Numero::spec_all());
            Ok(all[x as usize])
        }
    }
}

impl Carta {
    /// The number of bytes a card takes.
    pub const BYTES_LENGTH: usize = 2;

    /// The card as two bytes: its suit, then its rank.
    pub fn serialize(&self) -> (r: [u8; 2])
        ensures
            r@ == spec_carta_bytes(*self),
            r@[1] < 10,
            Numero::ALL@[r@[1] as int] == self.valor,
    {
        let c = self.coll.serialize();
        let v = self.valor.serialize();
        let r = [c[0], v[0]];
        assert(r@ =~= spec_carta_bytes(*self));
        r
    }

    /// Reads a card from exactly two bytes; two zero bytes give no card.
    pub fn deserialize(b: &[u8]) -> (r: Result<Option<Self>, InvalidCard>)
        ensures
            r == spec_carta_deserialize(b@),
    {
        if b.len() != 2 {
            return Err(InvalidCard::IncorrectFormat);
        }
        let c_b = b[0];
        let v_b = b[1];
        if c_b == 0 && v_b == 0 {
            return Ok(None);
        }
        let cs = [c_b];
        let vs = [v_b];
        assert(cs@ =~= seq![b@[0]]);
        assert(vs@ =~= seq![b@[1]]);
        let coll = match Coll::deserialize(&cs) {
            Ok(c) => c,
            Err(e) => return Err(InvalidCard::InvalidColl(e)),
        };
        let valor = match Numero::deserialize(&vs) {
            Ok(v) => v,
            Err(e) => return Err(InvalidCard::InvalidNumero(e)),
        };
        Ok(Some(Carta { coll, valor }))
    }
}

/// Reading back the byte of a suit gives the suit.
pub proof fn lemma_coll_roundtrip(c: Coll)
    ensures
        spec_coll_deserialize(seq![spec_coll_byte(c)]) == Ok::<Coll, InvalidColl>(c),
{
}

/// Reading back the byte of a rank gives the rank.
pub proof fn lemma_numero_roundtrip(n: Numero)
    ensures
        spec_numero_deserialize(seq![spec_numero_byte(n)]) == Ok::<Numero, InvalidNumero>(n),
{
}

/// A rank is sent as its position in the order of ranks, from the ace
/// (0) to the king (9): the byte of the rank at position `i` is `i`.
pub proof fn lemma_numero_byte_is_position(i: int)
    requires
        0 <= i < 10,
    ensures
        spec_numero_byte(Numero::ALL@[i]) == i,
{
    assert(Numero::ALL@ =~= Numero::spec_all());
}

/// A rank byte reads exactly when it is a position, below ten, and then
/// gives the rank at that position; every other byte is refused with
/// itself as the reason.
pub proof fn lemma_numero_deserialize_reads_positions(b: u8)
    ensures
        spec_numero_deserialize(seq![b]) is Ok <==> b < 10,
        b < 10 ==> spec_numero_deserialize(seq![b]) == Ok::<Numero, InvalidNumero>(Numero::ALL@[b as int]),
        b >= 10 ==> spec_numero_deserialize(seq![b]) == Err::<Numero, InvalidNumero>(InvalidNumero::Unrecognized(b)),
{
    assert(Numero::ALL@ =~= Numero::spec_all());
}

/// Reading back the two bytes of a card gives the card; a card is never
/// mistaken for the absence of one.
pub proof fn lemma_carta_roundtrip(c: Carta)
    ensures
        spec_carta_deserialize(spec_carta_bytes(c)) == Ok::<Option<Carta>, InvalidCard>(Some(c)),
{
    let b = spec_carta_bytes(c);
    assert(seq![b[0]] =~= seq![spec_coll_byte(c.coll)]);
    assert(seq![b[1]] =~= seq![spec_numero_byte(c.valor)]);
    lemma_coll_roundtrip(c.coll);
    lemma_numero_roundtrip(c.valor);
}

/// Information sent to each player
/// Only the information that's vital to be sent
/// Server -> Client
#[derive(Debug, Clone)]
pub struct TransferGame {
    pub carta_atot: Option<Carta>,
    pub your_cards: Vec<Carta>,
    /// The card the other player played
    pub table_card: Option<Carta>,
}

/// The state sent to a player, with its hand as a sequence.
pub struct TransferGameView {
    pub carta_atot: Option<Carta>,
    pub your_cards: Seq<Carta>,
    pub table_card: Option<Carta>,
}

impl View for TransferGame {
    type V = TransferGameView;

    open spec fn view(&self) -> TransferGameView {
        TransferGameView {
            carta_atot: self.carta_atot,
            your_cards: self.your_cards@,
            table_card: self.table_card,
        }
    }
}

/// Client -> Server
#[derive(Debug, Clone)]
pub struct ClientStatement {
    pub played_card: Carta,
}

/// Why bytes are not a game state.
#[derive(Debug, PartialEq, Eq, Structural)]
pub enum InvalidTransferGame {
    NotEnoughBytes,
    InvalidCarta(InvalidCard),
    CartaWasNone(usize),
}

/// Why bytes are not a player's answer.
#[derive(Debug, PartialEq, Eq, Structural)]
pub enum InvalidClientStatement {
    NotEnoughBytes,
    NotResponseTag,
    InvalidCard(InvalidCard),
    MissingCard,
    InvalidTag(InvalidTransferTag),
}

/// The bytes of an optional card: those of the card, or two zero bytes.
pub open spec fn spec_optional_carta_bytes(c: Option<Carta>) -> Seq<u8> {
    match c {
        Some(c) => spec_carta_bytes(c),
        None => seq![0u8, 0u8],
    }
}

/// The bytes of a sequence of cards, one card after the other.
pub open spec fn spec_cards_bytes(cs: Seq<Carta>) -> Seq<u8>
    decreases cs.len(),
{
    if cs.len() == 0 {
        Seq::empty()
    } else {
        spec_cards_bytes(cs.drop_last()) + spec_carta_bytes(cs.last())
    }
}

/// The byte that announces a hand: twice the number of its cards, where
/// that number is taken modulo 256.
pub open spec fn spec_hand_length_byte(n: nat) -> u8 {
    (2 * (n % 256)) as u8
}

/// The bytes of a game state: the trump card and the table card (each, when
/// absent, as two zero bytes), the length byte of the hand, and the cards
/// of the hand.
pub open spec fn spec_transfer_game_bytes(g: TransferGameView) -> Seq<u8> {
    spec_optional_carta_bytes(g.carta_atot) + spec_optional_carta_bytes(g.table_card) + seq![
        spec_hand_length_byte(g.your_cards.len()),
    ] + spec_cards_bytes(g.your_cards)
}

/// The offset at which the card of index `i` of a hand starts in a state.
pub open spec fn hand_card_offset(i: int) -> int {
    5 + 2 * i
}

/// The first `k` cards of the hand in the state `b`, or the error met on
/// the way: a card that does not read, or two zero bytes in place of a card.
pub open spec fn spec_hand_deserialize(b: Seq<u8>, k: nat) -> Result<Seq<Carta>, InvalidTransferGame>
    decreases k,
{
    if k == 0 {
        Ok(Seq::empty())
    } else {
        let i = k - 1;
        match spec_hand_deserialize(b, i as nat) {
            Err(e) => Err(e),
            Ok(cs) => match spec_carta_deserialize(
                b.subrange(hand_card_offset(i), hand_card_offset(i) + 2),
            ) {
                Err(e) => Err(InvalidTransferGame::InvalidCarta(e)),
                Ok(None) => Err(InvalidTransferGame::CartaWasNone(i as usize)),
                Ok(Some(c)) => Ok(cs.push(c)),
            },
        }
    }
}

/// What the bytes `b` read as a game state give. The length byte counts
/// bytes, so half of it is the number of cards read.
pub open spec fn spec_transfer_game_deserialize(b: Seq<u8>) -> Result<TransferGameView, InvalidTransferGame> {
    if b.len() < 5 {
        Err(InvalidTransferGame::NotEnoughBytes)
    } else {
        match spec_carta_deserialize(b.subrange(0, 2)) {
            Err(e) => Err(InvalidTransferGame::InvalidCarta(e)),
            Ok(carta_atot) => match spec_carta_deserialize(b.subrange(2, 4)) {
                Err(e) => Err(InvalidTransferGame::InvalidCarta(e)),
                Ok(table_card) => if b.len() < 5 + b[4] {
                    Err(InvalidTransferGame::NotEnoughBytes)
                } else {
                    match spec_hand_deserialize(b, (b[4] / 2) as nat) {
                        Err(e) => Err(e),
                        Ok(your_cards) => Ok(TransferGameView { carta_atot, your_cards, table_card }),
                    }
                },
            },
        }
    }
}

/// What the bytes `b`, tag included, read as a player's answer give.
pub open spec fn spec_client_statement_deserialize(b: Seq<u8>) -> Result<ClientStatement, InvalidClientStatement> {
    if b.len() == 0 {
        Err(InvalidClientStatement::NotEnoughBytes)
    } else {
        match spec_tag_deserialize(b.subrange(0, 1)) {
            Err(e) => Err(InvalidClientStatement::InvalidTag(e)),
            Ok(t) => if t != TransferTag::Response {
                Err(InvalidClientStatement::NotResponseTag)
            } else {
                match spec_carta_deserialize(b.subrange(1, b.len() as int)) {
                    Err(e) => Err(InvalidClientStatement::InvalidCard(e)),
                    Ok(None) => Err(InvalidClientStatement::MissingCard),
                    Ok(Some(c)) => Ok(ClientStatement { played_card: c }),
                }
            },
        }
    }
}

/// Once reading a hand has failed, reading more of it fails the same way.
proof fn lemma_hand_error_persists(b: Seq<u8>, k: nat, m: nat)
    requires
        k <= m,
        spec_hand_deserialize(b, k) is Err,
    ensures
        spec_hand_deserialize(b, m) == spec_hand_deserialize(b, k),
    decreases m - k,
{
    if k < m {
        lemma_hand_error_persists(b, k, (m - 1) as nat);
    }
}

proof fn lemma_cards_bytes_len(cs: Seq<Carta>)
    ensures
        spec_cards_bytes(cs).len() == 2 * cs.len(),
    decreases cs.len(),
{
    if cs.len() > 0 {
        lemma_cards_bytes_len(cs.drop_last());
    }
}

impl TransferGame {
    /// The state as bytes: trump card, table card, hand length, hand. A
    /// hand whose number of cards, modulo 256, is 128 or more overflows the
    /// length byte, which is refused.
    pub fn serialize(&self) -> (r: Vec<u8>)
        requires
            self.your_cards@.len() % 256 < 128,
        ensures
            r@ == spec_transfer_game_bytes(self@),
    {
        let mut out: Vec<u8> = Vec::new();

        let atot_bytes: [u8; 2] = match self.carta_atot {
            Some(c) => c.serialize(),
            None => [0u8; 2],
        };
        let table_card_bytes: [u8; 2] = match self.table_card {
            Some(c) => c.serialize(),
            None => [0u8; 2],
        };
        let len = self.your_cards.len();
        let len_byte = (len % 256) as u8;
        let mut user_cards: Vec<u8> = Vec::new();
        user_cards.push(2 * len_byte);
        let mut i: usize = 0;
        while i < len
            invariant
                i <= len,
                len == self.your_cards@.len(),
                user_cards@ == seq![spec_hand_length_byte(len as nat)]
                    + spec_cards_bytes(self.your_cards@.take(i as int)),
            decreases len - i,
        {
            let cb = self.your_cards[i].serialize();
            user_cards.push(cb[0]);
            user_cards.push(cb[1]);
            proof {
                let t = self.your_cards@.take(i + 1);
                assert(t.drop_last() =~= self.your_cards@.take(i as int));
                assert(t.last() == self.your_cards@[i as int]);
            }
            i = i + 1;
        }
        assert(self.your_cards@.take(len as int) =~= self.your_cards@);

        out.push(atot_bytes[0]);
        out.push(atot_bytes[1]);
        out.push(table_card_bytes[0]);
        out.push(table_card_bytes[1]);
        let mut k: usize = 0;
        let ghost before = out@;
        while k < user_cards.len()
            invariant
                k <= user_cards@.len(),
                before.len() == 4,
                out@ == before + user_cards@.take(k as int),
            decreases user_cards@.len() - k,
        {
            out.push(user_cards[k]);
            assert(user_cards@.take(k + 1) =~= user_cards@.take(k as int).push(user_cards@[k as int]));
            k = k + 1;
        }
        assert(user_cards@.take(user_cards@.len() as int) =~= user_cards@);
        assert(out@ =~= spec_transfer_game_bytes(self@));
        out
    }

    /// Reads a game state.
    pub fn deserialize(b: &[u8]) -> (r: Result<Self, InvalidTransferGame>)
        ensures
            match (r, spec_transfer_game_deserialize(b@)) {
                (Ok(g), Ok(v)) => g@ == v,
                (Err(e), Err(f)) => e == f,
                _ => false,
            },
    {
        if b.len() < 5 {
            return Err(InvalidTransferGame::NotEnoughBytes);
        }
        let carta_atot = match Carta::deserialize(&b[0..2]) {
            Ok(c) => c,
            Err(e) => return Err(InvalidTransferGame::InvalidCarta(e)),
        };
        let table_card = match Carta::deserialize(&b[2..4]) {
            Ok(c) => c,
            Err(e) => return Err(InvalidTransferGame::InvalidCarta(e)),
        };

        let hand_cards_amount = b[4];
        if b.len() < 2 + 2 + 1 + hand_cards_amount as usize {
            return Err(InvalidTransferGame::NotEnoughBytes);
        }
        let mut your_cards: Vec<Carta> = Vec::new();
        let count = hand_cards_amount as usize / Carta::BYTES_LENGTH;
        for i in 0..count
            invariant
                count == (b@[4] / 2) as nat,
                b@.len() >= 5 + b@[4],
                b@.len() >= 5,
                spec_carta_deserialize(b@.subrange(0, 2)) == Ok::<Option<Carta>, InvalidCard>(carta_atot),
                spec_carta_deserialize(b@.subrange(2, 4)) == Ok::<Option<Carta>, InvalidCard>(table_card),
                spec_hand_deserialize(b@, i as nat) == Ok::<Seq<Carta>, InvalidTransferGame>(your_cards@),
        {
            let j = 2 + 2 + 1 + i * 2;
            match Carta::deserialize(&b[j..j + 2]) {
                Ok(Some(c)) => your_cards.push(c),
                Ok(None) => {
                    proof {
                        lemma_hand_error_persists(b@, (i + 1) as nat, count as nat);
                    }
                    return Err(InvalidTransferGame::CartaWasNone(i));
                },
                Err(e) => {
                    proof {
                        lemma_hand_error_persists(b@, (i + 1) as nat, count as nat);
                    }
                    return Err(InvalidTransferGame::InvalidCarta(e));
                },
            }
        }

        Ok(Self { carta_atot, table_card, your_cards })
    }
}

impl ClientStatement {
    /// The answer as bytes: the two bytes of the card played. The tag is
    /// not part of them.
    pub fn serialize(&self) -> (r: Vec<u8>)
        ensures
            r@ == spec_carta_bytes(self.played_card),
    {
        let cb = self.played_card.serialize();
        let r = vstd::slice::slice_to_vec(&cb);
        r
    }

    /// Reads a player's answer: a response tag, then a card.
    pub fn deserialize(b: &[u8]) -> (r: Result<Self, InvalidClientStatement>)
        ensures
            r == spec_client_statement_deserialize(b@),
    {
        if b.is_empty() {
            return Err(InvalidClientStatement::NotEnoughBytes);
        }
        let tag = match TransferTag::deserialize(&b[0..1]) {
            Ok(t) => t,
            Err(e) => return Err(InvalidClientStatement::InvalidTag(e)),
        };
        if tag != TransferTag::Response {
            return Err(InvalidClientStatement::NotResponseTag);
        }
        match Carta::deserialize(&b[1..b.len()]) {
            Ok(Some(c)) => Ok(ClientStatement { played_card: c }),
            Ok(None) => Err(InvalidClientStatement::MissingCard),
            Err(e) => Err(InvalidClientStatement::InvalidCard(e)),
        }
    }
}

/// The bytes of the card of index `i` of a hand stand at `2 * i` in the
/// bytes of the hand.
proof fn lemma_cards_bytes_at(cs: Seq<Carta>, i: int)
    requires
        0 <= i < cs.len(),
    ensures
        spec_cards_bytes(cs).subrange(2 * i, 2 * i + 2) == spec_carta_bytes(cs[i]),
    decreases cs.len(),
{
    let front = cs.drop_last();
    let a = spec_cards_bytes(front);
    let c = spec_carta_bytes(cs.last());
    lemma_cards_bytes_len(front);
    assert(spec_cards_bytes(cs) == a + c);
    if i < cs.len() - 1 {
        lemma_cards_bytes_at(front, i);
        assert(front[i] == cs[i]);
        assert((a + c).subrange(2 * i, 2 * i + 2) =~= a.subrange(2 * i, 2 * i + 2));
    } else {
        assert((a + c).subrange(2 * i, 2 * i + 2) =~= c);
    }
}

/// Reading a hand out of bytes that hold its cards from offset 5 on gives
/// the hand, card by card.
proof fn lemma_hand_roundtrip(b: Seq<u8>, cs: Seq<Carta>, k: nat)
    requires
        k <= cs.len(),
        b.len() == 5 + 2 * cs.len(),
        b.subrange(5, b.len() as int) == spec_cards_bytes(cs),
    ensures
        spec_hand_deserialize(b, k) == Ok::<Seq<Carta>, InvalidTransferGame>(cs.take(k as int)),
    decreases k,
{
    if k == 0 {
        assert(cs.take(0) =~= Seq::<Carta>::empty());
    } else {
        let i = k - 1;
        lemma_hand_roundtrip(b, cs, i as nat);
        lemma_cards_bytes_at(cs, i);
        let sub = b.subrange(hand_card_offset(i), hand_card_offset(i) + 2);
        assert(sub =~= spec_cards_bytes(cs).subrange(2 * i, 2 * i + 2));
        lemma_carta_roundtrip(cs[i]);
        assert(spec_carta_deserialize(sub) == Ok::<Option<Carta>, InvalidCard>(Some(cs[i])));
        assert(cs.take(i).push(cs[i]) =~= cs.take(k as int));
    }
}

/// A state read back from its bytes is the state that was sent: the same
/// trump card, table card and hand. This holds for
/// every hand of fewer than 128 cards, for which the length byte counts the
/// hand exactly.
pub proof fn lemma_transfer_game_roundtrip(g: TransferGameView)
    requires
        g.your_cards.len() < 128,
    ensures
        spec_transfer_game_deserialize(spec_transfer_game_bytes(g)) == Ok::<TransferGameView, InvalidTransferGame>(
            TransferGameView { carta_atot: g.carta_atot, your_cards: g.your_cards, table_card: g.table_card },
        ),
{
    let b = spec_transfer_game_bytes(g);
    let cs = g.your_cards;
    lemma_cards_bytes_len(cs);
    assert(b.subrange(0, 2) =~= spec_optional_carta_bytes(g.carta_atot));
    assert(b.subrange(2, 4) =~= spec_optional_carta_bytes(g.table_card));
    match g.carta_atot {
        Some(c) => lemma_carta_roundtrip(c),
        None => {},
    }
    match g.table_card {
        Some(c) => lemma_carta_roundtrip(c),
        None => {},
    }
    assert(b[4] == 2 * cs.len());
    assert(b.subrange(5, b.len() as int) =~= spec_cards_bytes(cs));
    lemma_hand_roundtrip(b, cs, cs.len());
    assert(cs.take(cs.len() as int) =~= cs);
}

/// A player's answer, sent after a response tag, reads back as the same
/// answer.
pub proof fn lemma_client_statement_roundtrip(c: Carta)
    ensures
        spec_client_statement_deserialize(seq![spec_tag_byte(TransferTag::Response)] + spec_carta_bytes(c))
            == Ok::<ClientStatement, InvalidClientStatement>(ClientStatement { played_card: c }),
{
    let b = seq![spec_tag_byte(TransferTag::Response)] + spec_carta_bytes(c);
    assert(b.subrange(0, 1) =~= seq![spec_tag_byte(TransferTag::Response)]);
    assert(b.subrange(1, b.len() as int) =~= spec_carta_bytes(c));
    lemma_tag_roundtrip(TransferTag::Response);
    lemma_carta_roundtrip(c);
}

} // verus!
