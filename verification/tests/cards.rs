use spider::cards::{
    groups_fit_check, Card, CardColor, CardDecodeError, CardRange, CardRangeDecodeError, Groups, Suit,
};

fn card(suit: Suit, rank: u8, is_facing_up: bool) -> Card {
    Card { suit, rank, is_facing_up }
}

#[test]
fn suit_colors() {
    assert!(Suit::Hearts.get_color() == CardColor::Red);
    assert!(Suit::Diamonds.get_color() == CardColor::Red);
    assert!(Suit::Clubs.get_color() == CardColor::Black);
    assert!(Suit::Spades.get_color() == CardColor::Black);
}

#[test]
fn suit_from_char_and_symbol() {
    assert_eq!(Suit::from_char('♣'), Some(Suit::Clubs));
    assert_eq!(Suit::from_char('♥'), Some(Suit::Hearts));
    assert_eq!(Suit::from_char('♦'), Some(Suit::Diamonds));
    assert_eq!(Suit::from_char('♠'), Some(Suit::Spades));
    assert_eq!(Suit::from_char('S'), None);
    for suit in [Suit::Clubs, Suit::Hearts, Suit::Diamonds, Suit::Spades] {
        assert_eq!(Suit::from_char(suit.symbol()), Some(suit));
    }
    assert_eq!(Suit::Spades.to_string(), "♠");
    assert_eq!(Suit::Hearts.to_string(), "♥");
}

#[test]
fn rank_chars() {
    let expected = ['A', '2', '3', '4', '5', '6', '7', '8', '9', 'X', 'J', 'Q', 'K'];
    for rank in 0..13u8 {
        assert_eq!(Card::rank_to_char(rank), expected[rank as usize]);
        assert_eq!(Card::get_rank_from_char(expected[rank as usize]), Some(rank));
    }
    assert_eq!(Card::get_rank_from_char('1'), None);
    assert_eq!(Card::get_rank_from_char('0'), None);
    assert_eq!(Card::get_rank_from_char('T'), None);
    assert_eq!(Card::get_rank_from_char('a'), None);
}

#[test]
fn card_encode_decode() {
    let c = card(Suit::Spades, 12, true);
    assert_eq!(c.encode(), "♠K↑");
    assert_eq!(Card::decode("♠K↑"), Ok(c));
    let d = card(Suit::Diamonds, 4, false);
    assert_eq!(d.encode(), "♦5↓");
    assert_eq!(Card::decode("♦5↓"), Ok(d));
    for suit in [Suit::Clubs, Suit::Hearts, Suit::Diamonds, Suit::Spades] {
        for rank in 0..13u8 {
            for up in [true, false] {
                let c = card(suit, rank, up);
                assert_eq!(Card::decode(&c.encode()), Ok(c));
            }
        }
    }
}

#[test]
fn card_decode_errors() {
    assert_eq!(Card::decode("♠K"), Err(CardDecodeError::WrongLength));
    assert_eq!(Card::decode("♠K↑↑"), Err(CardDecodeError::WrongLength));
    assert_eq!(Card::decode(""), Err(CardDecodeError::WrongLength));
    assert_eq!(Card::decode("SK↑"), Err(CardDecodeError::UnexpectedSuit));
    assert_eq!(Card::decode("S1x"), Err(CardDecodeError::UnexpectedSuit));
    assert_eq!(Card::decode("♠1↑"), Err(CardDecodeError::UnexpectedRank));
    assert_eq!(Card::decode("♠1x"), Err(CardDecodeError::UnexpectedRank));
    assert_eq!(Card::decode("♠Kx"), Err(CardDecodeError::UnexpectedFacing));
    assert_eq!(CardDecodeError::WrongLength.message(), "Expected 3 length string");
    assert_eq!(CardDecodeError::UnexpectedSuit.message(), "Unexpected suit");
    assert_eq!(CardDecodeError::UnexpectedRank.message(), "Unexpected rank");
    assert_eq!(CardDecodeError::UnexpectedFacing.message(), "Unexpected is_facing_up");
}

#[test]
fn card_display() {
    assert_eq!(card(Suit::Hearts, 0, true).to_string(), "A♥");
    assert_eq!(card(Suit::Clubs, 9, true).to_string(), "X♣");
    assert_eq!(card(Suit::Clubs, 9, false).to_string(), "██");
    assert_eq!(card(Suit::Clubs, 200, false).to_string(), "██");
}

#[test]
fn card_range_len_first_last() {
    let r = CardRange::new(Suit::Hearts, 12, 0, true);
    assert_eq!(r.len(), 13);
    assert_eq!(r.first(), Some(card(Suit::Hearts, 12, true)));
    assert_eq!(r.last(), Some(card(Suit::Hearts, 0, true)));
    let single = CardRange::new(Suit::Clubs, 3, 3, false);
    assert_eq!(single.len(), 1);
    assert_eq!(single.first(), single.last());
    let empty = CardRange::new(Suit::Clubs, 2, 5, true);
    assert_eq!(empty.len(), 0);
    assert_eq!(empty.first(), None);
    assert_eq!(empty.last(), None);
}

#[test]
fn card_range_next_hands_out_from_the_top() {
    let mut r = CardRange::new(Suit::Spades, 3, 1, true);
    assert_eq!(r.next(), Some(card(Suit::Spades, 3, true)));
    assert_eq!(r.len(), 2);
    assert_eq!(r.next(), Some(card(Suit::Spades, 2, true)));
    assert_eq!(r.next(), Some(card(Suit::Spades, 1, true)));
    assert_eq!(r.len(), 0);
    assert_eq!(r.next(), None);
    assert_eq!(r.first(), None);
    let mut z = CardRange::new(Suit::Spades, 0, 0, true);
    assert_eq!(z.next(), Some(card(Suit::Spades, 0, true)));
    assert_eq!(z.next(), None);
    assert_eq!(z.len(), 0);
}

#[test]
fn card_range_contains_rank() {
    let single = CardRange::new(Suit::Clubs, 4, 4, true);
    assert!(single.contains_rank(4));
    assert!(!single.contains_rank(3));
    // the first card is the highest and the last the lowest: a longer range holds no rank
    // between them in that order
    let r = CardRange::new(Suit::Clubs, 5, 3, true);
    assert!(!r.contains_rank(4));
    assert!(!r.contains_rank(5));
    assert!(!CardRange::new(Suit::Clubs, 2, 5, true).contains_rank(3));
}

#[test]
fn card_range_encode_decode() {
    let r = CardRange::new(Suit::Hearts, 12, 4, false);
    assert_eq!(r.encode(), "♥K-5↓");
    assert_eq!(CardRange::decode("♥K-5↓"), Ok(r));
    assert_eq!(CardRange::decode("♣A-A↑"), Ok(CardRange::new(Suit::Clubs, 0, 0, true)));
    assert_eq!(CardRange::decode("♣2xA↑"), Ok(CardRange::new(Suit::Clubs, 1, 0, true)));
    assert_eq!(CardRange::decode(&CardRange::new(Suit::Diamonds, 9, 2, true).encode()),
        Ok(CardRange::new(Suit::Diamonds, 9, 2, true)));
}

#[test]
fn card_range_decode_errors() {
    assert_eq!(CardRange::decode("♥K-5"), Err(CardRangeDecodeError::WrongLength));
    assert_eq!(CardRange::decode("HK-5↓"), Err(CardRangeDecodeError::BadSuit));
    assert_eq!(CardRange::decode("♥1-1↓"), Err(CardRangeDecodeError::BadToRank));
    assert_eq!(CardRange::decode("♥1-5↓"), Err(CardRangeDecodeError::BadFromRank));
    assert_eq!(CardRange::decode("♥K-5x"), Err(CardRangeDecodeError::UnexpectedFacing));
    assert_eq!(CardRangeDecodeError::WrongLength.message(), "Expected 5 length string");
    assert_eq!(CardRangeDecodeError::BadSuit.message(), "Bad suit");
    assert_eq!(CardRangeDecodeError::BadToRank.message(), "Bad to rank");
    assert_eq!(CardRangeDecodeError::BadFromRank.message(), "Bad from rank");
    assert_eq!(CardRangeDecodeError::UnexpectedFacing.message(), "Unexpected is_facing_up");
}

#[test]
fn groups_split_stack_into_runs() {
    let stack = vec![
        card(Suit::Clubs, 9, false),
        card(Suit::Clubs, 8, false),
        card(Suit::Spades, 7, true),
        card(Suit::Spades, 6, true),
        card(Suit::Spades, 5, true),
        card(Suit::Hearts, 4, true),
        card(Suit::Hearts, 2, true),
    ];
    let mut groups = Groups(&stack);
    assert_eq!(groups.next(), Some(CardRange::new(Suit::Clubs, 9, 9, false)));
    assert_eq!(groups.0.len(), 6);
    assert_eq!(groups.next(), Some(CardRange::new(Suit::Clubs, 8, 8, false)));
    assert_eq!(groups.next(), Some(CardRange::new(Suit::Spades, 7, 5, true)));
    assert_eq!(groups.next(), Some(CardRange::new(Suit::Hearts, 4, 4, true)));
    assert_eq!(groups.next(), Some(CardRange::new(Suit::Hearts, 2, 2, true)));
    assert_eq!(groups.next(), None);
    assert_eq!(groups.0.len(), 0);
    assert_eq!(Groups(&stack).last(), Some(CardRange::new(Suit::Hearts, 2, 2, true)));
    assert_eq!(Groups(&[]).last(), None);
}

#[test]
fn groups_cover_the_stack_in_order() {
    let stack = vec![
        card(Suit::Diamonds, 12, false),
        card(Suit::Diamonds, 11, true),
        card(Suit::Diamonds, 10, true),
        card(Suit::Clubs, 9, true),
        card(Suit::Clubs, 8, true),
        card(Suit::Clubs, 8, true),
    ];
    let mut groups = Groups(&stack);
    let mut cards = Vec::new();
    while let Some(mut g) = groups.next() {
        while let Some(c) = g.next() {
            cards.push(c);
        }
    }
    assert_eq!(cards, stack);
}

#[test]
fn groups_last_full_suit() {
    let mut stack = vec![card(Suit::Hearts, 3, false)];
    for rank in (0..13u8).rev() {
        stack.push(card(Suit::Spades, rank, true));
    }
    let last = Groups(&stack).last().unwrap();
    assert_eq!(last.len(), 13);
    assert_eq!(last, CardRange::new(Suit::Spades, 12, 0, true));
}

#[test]
fn card_range_next_keeps_suit_and_orientation() {
    let mut r = CardRange::new(Suit::Diamonds, 2, 1, false);
    assert_eq!(r.next(), Some(card(Suit::Diamonds, 2, false)));
    assert_eq!(r.next(), Some(card(Suit::Diamonds, 1, false)));
    assert_eq!(r.next(), None);
    assert_eq!(r.next(), None);
    assert_eq!(r.suit, Suit::Diamonds);
    assert!(!r.is_facing_up);
}

#[test]
fn card_range_next_fields() {
    let mut r = CardRange::new(Suit::Clubs, 4, 3, true);
    r.next();
    assert_eq!(r, CardRange { suit: Suit::Clubs, high: 3, low: 3, exhausted: false, is_facing_up: true });
    r.next();
    assert_eq!(r, CardRange { suit: Suit::Clubs, high: 3, low: 3, exhausted: true, is_facing_up: true });
    r.next();
    assert_eq!(r, CardRange { suit: Suit::Clubs, high: 3, low: 3, exhausted: true, is_facing_up: true });
}

#[test]
fn groups_fit_check_finds_overflowing_breaks() {
    let ok = vec![card(Suit::Clubs, 5, true), card(Suit::Clubs, 4, true)];
    assert!(groups_fit_check(&ok));
    assert!(groups_fit_check(&[]));
    // face down, so the rank is never incremented
    let hidden = vec![card(Suit::Clubs, 255, false), card(Suit::Clubs, 255, false)];
    assert!(groups_fit_check(&hidden));
    let bad = vec![card(Suit::Clubs, 5, true), card(Suit::Clubs, 255, true)];
    assert!(!groups_fit_check(&bad));
    let other_suit = vec![card(Suit::Clubs, 5, true), card(Suit::Hearts, 255, true)];
    assert!(groups_fit_check(&other_suit));
    let later = vec![
        card(Suit::Hearts, 9, false),
        card(Suit::Spades, 7, true),
        card(Suit::Spades, 255, true),
    ];
    assert!(!groups_fit_check(&later));
}
