use vstd::prelude::*;

verus! {

/// Marker character of a card that lies face up.
pub const FACE_UP_CHAR: char = '↑';

/// Marker character of a card that lies face down.
pub const FACE_DOWN_CHAR: char = '↓';

/// The four suits of a French deck.
#[derive(Copy, Clone, PartialEq, Eq, Structural, Debug)]
pub enum Suit {
    Clubs,
    Hearts,
    Diamonds,
    Spades,
}

/// The colour of a suit.
#[derive(Copy, Clone, PartialEq, Eq, Structural, Debug)]
pub enum CardColor {
    Red,
    Black,
}

/// Hearts and diamonds are red, clubs and spades black.
pub open spec fn suit_color(suit: Suit) -> CardColor {
    match suit {
        Suit::Hearts | Suit::Diamonds => CardColor::Red,
        Suit::Clubs | Suit::Spades => CardColor::Black,
    }
}

/// The symbol that stands for a suit in text.
pub open spec fn suit_symbol(suit: Suit) -> char {
    match suit {
        Suit::Clubs => '♣',
        Suit::Hearts => '♥',
        Suit::Diamonds => '♦',
        Suit::Spades => '♠',
    }
}

/// The suit whose symbol is `c`, if any.
pub open spec fn suit_of_char(c: char) -> Option<Suit> {
    if c == '♣' {
        Some(Suit::Clubs)
    } else if c == '♥' {
        Some(Suit::Hearts)
    } else if c == '♦' {
        Some(Suit::Diamonds)
    } else if c == '♠' {
        Some(Suit::Spades)
    } else {
        None
    }
}

/// The character of a rank: `A`, `2`..`9`, `X`, `J`, `Q`, `K` for ranks 0 to 12.
pub open spec fn rank_char(rank: u8) -> char
    recommends
        rank < 13,
{
    if rank == 0 {
        'A'
    } else if 1 <= rank <= 8 {
        ((rank + 49) as u8) as char
    } else if rank == 9 {
        'X'
    } else if rank == 10 {
        'J'
    } else if rank == 11 {
        'Q'
    } else {
        'K'
    }
}

/// The rank whose character is `c`, if any.
pub open spec fn rank_of_char(c: char) -> Option<u8> {
    if c == 'A' {
        Some(0u8)
    } else if '2' <= c <= '9' {
        Some((c as int - 49) as u8)
    } else if c == 'X' {
        Some(9u8)
    } else if c == 'J' {
        Some(10u8)
    } else if c == 'Q' {
        Some(11u8)
    } else if c == 'K' {
        Some(12u8)
    } else {
        None
    }
}

/// The marker of a card's orientation.
pub open spec fn face_char(is_facing_up: bool) -> char {
    if is_facing_up {
        FACE_UP_CHAR
    } else {
        FACE_DOWN_CHAR
    }
}

/// The orientation that a marker stands for, if any.
pub open spec fn face_of_char(c: char) -> Option<bool> {
    if c == FACE_UP_CHAR {
        Some(true)
    } else if c == FACE_DOWN_CHAR {
        Some(false)
    } else {
        None
    }
}

impl Suit {
    /// The colour of the suit.
    pub fn get_color(&self) -> (color: CardColor)
        ensures
            color == suit_color(*self),
    {
        match self {
            Suit::Hearts | Suit::Diamonds => CardColor::Red,
            Suit::Clubs | Suit::Spades => CardColor::Black,
        }
    }

    /// The suit whose symbol is `v`, if any.
    pub fn from_char(v: char) -> (suit: Option<Suit>)
        ensures
            suit == suit_of_char(v),
    {
        match v {
            '♣' => Some(Suit::Clubs),
            '♥' => Some(Suit::Hearts),
            '♦' => Some(Suit::Diamonds),
            '♠' => Some(Suit::Spades),
            _ => None,
        }
    }

    /// The symbol of the suit.
    pub fn symbol(&self) -> (c: char)
        ensures
            c == suit_symbol(*self),
    {
        match self {
            Suit::Clubs => '♣',
            Suit::Hearts => '♥',
            Suit::Diamonds => '♦',
            Suit::Spades => '♠',
        }
    }

    /// The text shown for the suit: its symbol.
    pub fn to_string(&self) -> (s: String)
        ensures
            s@ == seq![suit_symbol(*self)],
    {
        let mut s = String::new();
        push_char(&mut s, self.symbol());
        s
    }
}


/// A playing card: its suit, its rank (0 is the ace, 12 the king) and whether it lies face up.
#[derive(Copy, Clone, PartialEq, Eq, Structural, Debug)]
pub struct Card {
    pub suit: Suit,
    pub rank: u8,
    pub is_facing_up: bool,
}

/// Why a card could not be read from its three-character code.
#[derive(Copy, Clone, PartialEq, Eq, Structural, Debug)]
pub enum CardDecodeError {
    /// The text is not three characters long.
    WrongLength,
    /// The first character is no suit symbol.
    UnexpectedSuit,
    /// The second character is no rank character.
    UnexpectedRank,
    /// The third character is no orientation marker.
    UnexpectedFacing,
}

/// The three-character code of a card: suit symbol, rank character, orientation marker.
pub open spec fn card_code(card: Card) -> Seq<char> {
    seq![suit_symbol(card.suit), rank_char(card.rank), face_char(card.is_facing_up)]
}

/// What reading a card from the characters `s` gives.
pub open spec fn decode_card(s: Seq<char>) -> Result<Card, CardDecodeError> {
    if s.len() != 3 {
        Err(CardDecodeError::WrongLength)
    } else {
        match suit_of_char(s[0]) {
            None => Err(CardDecodeError::UnexpectedSuit),
            Some(suit) => match rank_of_char(s[1]) {
                None => Err(CardDecodeError::UnexpectedRank),
                Some(rank) => match face_of_char(s[2]) {
                    None => Err(CardDecodeError::UnexpectedFacing),
                    Some(is_facing_up) => Ok(Card { suit, rank, is_facing_up }),
                },
            },
        }
    }
}

/// The text shown for a card: rank and suit when it lies face up, two full blocks otherwise.
pub open spec fn card_display(card: Card) -> Seq<char> {
    if card.is_facing_up {
        seq![rank_char(card.rank), suit_symbol(card.suit)]
    } else {
        seq!['█', '█']
    }
}

impl CardDecodeError {
    /// The message that goes with the error.
    pub fn message(&self) -> (m: &'static str)
        ensures
            *self == CardDecodeError::WrongLength ==> m@ == "Expected 3 length string"@,
            *self == CardDecodeError::UnexpectedSuit ==> m@ == "Unexpected suit"@,
            *self == CardDecodeError::UnexpectedRank ==> m@ == "Unexpected rank"@,
            *self == CardDecodeError::UnexpectedFacing ==> m@ == "Unexpected is_facing_up"@,
    {
        match self {
            CardDecodeError::WrongLength => "Expected 3 length string",
            CardDecodeError::UnexpectedSuit => "Unexpected suit",
            CardDecodeError::UnexpectedRank => "Unexpected rank",
            CardDecodeError::UnexpectedFacing => "Unexpected is_facing_up",
        }
    }
}

/// Reads an orientation marker.
fn face_from_char(c: char) -> (r: Option<bool>)
    ensures
        r == face_of_char(c),
{
    if c == FACE_UP_CHAR {
        Some(true)
    } else if c == FACE_DOWN_CHAR {
        Some(false)
    } else {
        None
    }
}

/// Writes an orientation marker.
fn face_to_char(is_facing_up: bool) -> (c: char)
    ensures
        c == face_char(is_facing_up),
{
    if is_facing_up {
        FACE_UP_CHAR
    } else {
        FACE_DOWN_CHAR
    }
}

impl Card {
    fn get_rank_char(&self) -> (c: char)
        requires
            self.rank < 13,
        ensures
            c == rank_char(self.rank),
    {
        Self::rank_to_char(self.rank)
    }

    /// The character of a rank from 0 (ace) to 12 (king).
    pub fn rank_to_char(rank: u8) -> (c: char)
        requires
            rank < 13,
        ensures
            c == rank_char(rank),
    {
        if rank == 0 {
            'A'
        } else if rank >= 1 && rank <= 8 {
            (rank + 49u8) as char  // 49 is the code of '1'
        } else if rank == 9 {
            'X'
        } else if rank == 10 {
            'J'
        } else if rank == 11 {
            'Q'
        } else {
            'K'
        }
    }

    /// The rank whose character is `c`, if any.
    pub fn get_rank_from_char(c: char) -> (rank: Option<u8>)
        ensures
            rank == rank_of_char(c),
    {
        match c {
            'A' => Some(0),
            '2'..='9' => Some(c as u8 - 49u8),
            'X' => Some(9),
            'J' => Some(10),
            'Q' => Some(11),
            'K' => Some(12),
            _ => None,
        }
    }

    /// The three-character code of the card, as it is stored.
    pub fn encode(&self) -> (s: String)
        requires
            self.rank < 13,
        ensures
            s@ == card_code(*self),
    {
        let mut s = String::new();
        push_char(&mut s, self.suit.symbol());
        push_char(&mut s, self.get_rank_char());
        push_char(&mut s, face_to_char(self.is_facing_up));
        s
    }

    /// Reads a card from its three-character code.
    pub fn decode(s: &str) -> (r: Result<Card, CardDecodeError>)
        ensures
            r == decode_card(s@),
    {
        if s.unicode_len() != 3 {
            return Err(CardDecodeError::WrongLength);
        }
        let suit = s.get_char(0);
        let rank = s.get_char(1);
        let is_facing_up = s.get_char(2);
        let suit = match Suit::from_char(suit) {
            Some(suit) => suit,
            None => return Err(CardDecodeError::UnexpectedSuit),
        };
        let rank = match Card::get_rank_from_char(rank) {
            Some(rank) => rank,
            None => return Err(CardDecodeError::UnexpectedRank),
        };
        let is_facing_up = match face_from_char(is_facing_up) {
            Some(up) => up,
            None => return Err(CardDecodeError::UnexpectedFacing),
        };
        Ok(Card { suit, rank, is_facing_up })
    }

    /// The text shown for the card.
    pub fn to_string(&self) -> (s: String)
        requires
            self.is_facing_up ==> self.rank < 13,
        ensures
            s@ == card_display(*self),
    {
        let mut s = String::new();
        if self.is_facing_up {
            push_char(&mut s, self.get_rank_char());
            push_char(&mut s, self.suit.symbol());
        } else {
            push_char(&mut s, '█');
            push_char(&mut s, '█');
        }
        s
    }
}


/// A run of cards of one suit and one orientation, handed out from the highest rank down.
///
/// The ranks still to come are those from `high` down to `low`, none once `exhausted` is set:
/// the states of a reversed inclusive range of ranks.
#[derive(Copy, Clone, PartialEq, Eq, Structural, Debug)]
pub struct CardRange {
    pub suit: Suit,
    pub high: u8,
    pub low: u8,
    pub exhausted: bool,
    pub is_facing_up: bool,
}

/// Why a range of cards could not be read from its five-character code.
#[derive(Copy, Clone, PartialEq, Eq, Structural, Debug)]
pub enum CardRangeDecodeError {
    /// The text is not five characters long.
    WrongLength,
    /// The first character is no suit symbol.
    BadSuit,
    /// The fourth character, the lowest rank, is no rank character.
    BadToRank,
    /// The second character, the highest rank, is no rank character.
    BadFromRank,
    /// The fifth character is no orientation marker.
    UnexpectedFacing,
}

impl CardRange {
    /// How many cards are still to come.
    pub open spec fn count(self) -> nat {
        if self.exhausted || self.high < self.low {
            0
        } else {
            (self.high - self.low + 1) as nat
        }
    }

    /// The ranks still to come, highest first.
    pub open spec fn ranks(self) -> Seq<u8> {
        Seq::new(self.count(), |i: int| (self.high - i) as u8)
    }

    /// The cards still to come, in the order in which they are handed out.
    pub open spec fn cards(self) -> Seq<Card> {
        self.ranks().map_values(
            |rank: u8| Card { suit: self.suit, rank, is_facing_up: self.is_facing_up },
        )
    }

    /// The range after one card is handed out: the highest rank drops by one, or, on the last
    /// card, the range is marked exhausted; an empty range stays as it is.
    pub open spec fn advanced(self) -> CardRange {
        if self.count() == 0 {
            self
        } else if self.low < self.high {
            CardRange { high: (self.high - 1) as u8, ..self }
        } else {
            CardRange { exhausted: true, ..self }
        }
    }

    /// The five-character code of a range: suit, highest rank, `-`, lowest rank, orientation.
    pub open spec fn code(self) -> Seq<char> {
        seq![
            suit_symbol(self.suit),
            rank_char(self.high),
            '-',
            rank_char(self.low),
            face_char(self.is_facing_up),
        ]
    }
}

/// What reading a range of cards from the characters `s` gives.
pub open spec fn decode_card_range(s: Seq<char>) -> Result<CardRange, CardRangeDecodeError> {
    if s.len() != 5 {
        Err(CardRangeDecodeError::WrongLength)
    } else {
        match suit_of_char(s[0]) {
            None => Err(CardRangeDecodeError::BadSuit),
            Some(suit) => match rank_of_char(s[3]) {
                None => Err(CardRangeDecodeError::BadToRank),
                Some(low) => match rank_of_char(s[1]) {
                    None => Err(CardRangeDecodeError::BadFromRank),
                    Some(high) => match face_of_char(s[4]) {
                        None => Err(CardRangeDecodeError::UnexpectedFacing),
                        Some(is_facing_up) => Ok(
                            CardRange { suit, high, low, exhausted: false, is_facing_up },
                        ),
                    },
                },
            },
        }
    }
}

impl CardRangeDecodeError {
    /// The message that goes with the error.
    pub fn message(&self) -> (m: &'static str)
        ensures
            *self == CardRangeDecodeError::WrongLength ==> m@ == "Expected 5 length string"@,
            *self == CardRangeDecodeError::BadSuit ==> m@ == "Bad suit"@,
            *self == CardRangeDecodeError::BadToRank ==> m@ == "Bad to rank"@,
            *self == CardRangeDecodeError::BadFromRank ==> m@ == "Bad from rank"@,
            *self == CardRangeDecodeError::UnexpectedFacing ==> m@ == "Unexpected is_facing_up"@,
    {
        match self {
            CardRangeDecodeError::WrongLength => "Expected 5 length string",
            CardRangeDecodeError::BadSuit => "Bad suit",
            CardRangeDecodeError::BadToRank => "Bad to rank",
            CardRangeDecodeError::BadFromRank => "Bad from rank",
            CardRangeDecodeError::UnexpectedFacing => "Unexpected is_facing_up",
        }
    }
}

impl CardRange {
    /// The cards of `suit` and orientation `is_facing_up` from rank `from` down to rank `to`.
    pub fn new(suit: Suit, from: u8, to: u8, is_facing_up: bool) -> (r: CardRange)
        ensures
            r == (CardRange { suit, high: from, low: to, exhausted: false, is_facing_up }),
    {
        CardRange { suit, high: from, low: to, exhausted: false, is_facing_up }
    }

    /// How many cards are still to come.
    pub fn len(&self) -> (n: usize)
        ensures
            n == self.count(),
    {
        if self.exhausted || self.high < self.low {
            0
        } else {
            (self.high - self.low) as usize + 1
        }
    }

    /// Whether `rank` lies between the rank of the first card still to come and that of the
    /// last one, in that order.
    pub fn contains_rank(&self, rank: u8) -> (b: bool)
        requires
            self.count() > 0 ==> self.high < 255,
        ensures
            b == (self.count() > 0 && self.cards()[0].rank <= rank && rank <= self.cards().last().rank),
    {
        let first_card = self.first();
        let last_card = self.clone().last();
        match (first_card, last_card) {
            (Some(first), Some(last)) => first.rank <= rank && rank <= last.rank,
            _ => false,
        }
    }

    /// The card that comes next, if any, without handing it out.
    pub fn first(&self) -> (card: Option<Card>)
        ensures
            card == (if self.count() > 0 { Some(self.cards()[0]) } else { None::<Card> }),
    {
        let mut rank = self.clone();
        match rank.next_rank() {
            Some(r) => Some(Card { rank: r, suit: self.suit, is_facing_up: self.is_facing_up }),
            None => None,
        }
    }

    /// Takes the highest rank still to come.
    fn next_rank(&mut self) -> (r: Option<u8>)
        ensures
            *final(self) == old(self).advanced(),
            final(self).suit == old(self).suit,
            final(self).is_facing_up == old(self).is_facing_up,
            final(self).ranks() == (if old(self).count() > 0 { old(self).ranks().drop_first() } else { old(self).ranks() }),
            r == (if old(self).count() > 0 { Some(old(self).ranks()[0]) } else { None::<u8> }),
    {
        if self.exhausted || self.high < self.low {
            None
        } else if self.low < self.high {
            let r = self.high;
            self.high = self.high - 1;
            assert(self.ranks() =~= old(self).ranks().drop_first());
            Some(r)
        } else {
            self.exhausted = true;
            assert(self.ranks() =~= old(self).ranks().drop_first());
            Some(self.high)
        }
    }

    /// Hands out the next card: the one of the highest rank still to come.
    pub fn next(&mut self) -> (card: Option<Card>)
        ensures
            *final(self) == old(self).advanced(),
            final(self).suit == old(self).suit,
            final(self).is_facing_up == old(self).is_facing_up,
            final(self).cards() == (if old(self).count() > 0 { old(self).cards().drop_first() } else { old(self).cards() }),
            card == (if old(self).count() > 0 { Some(old(self).cards()[0]) } else { None::<Card> }),
    {
        let r = self.next_rank();
        proof {
            assert(self.cards() =~= (if old(self).count() > 0 { old(self).cards().drop_first() } else { old(self).cards() }));
        }
        match r {
            Some(e) => Some(Card { suit: self.suit, rank: e, is_facing_up: self.is_facing_up }),
            None => None,
        }
    }

    /// The card of the lowest rank still to come.
    pub fn last(self) -> (card: Option<Card>)
        requires
            self.count() > 0 ==> self.high < 255,
        ensures
            card == (if self.count() > 0 { Some(self.cards().last()) } else { None::<Card> }),
    {
        let mut ranks = self.clone();
        let first_rank = match ranks.next_rank() {
            Some(r) => r,
            None => return None,
        };
        let len = self.len();
        Some(Card { rank: first_rank + 1 - len as u8, suit: self.suit, is_facing_up: self.is_facing_up })
    }

    /// The five-character code of the range, as it is stored.
    pub fn encode(&self) -> (s: String)
        requires
            self.count() > 0,
            self.high < 13,
            self.low < 13,
        ensures
            s@ == self.code(),
    {
        let mut s = String::new();
        push_char(&mut s, self.suit.symbol());
        push_char(&mut s, Card::rank_to_char(self.high));
        push_char(&mut s, '-');
        push_char(&mut s, Card::rank_to_char(self.low));
        push_char(&mut s, face_to_char(self.is_facing_up));
        s
    }

    /// Reads a range of cards from its five-character code; the third character is not read.
    pub fn decode(s: &str) -> (r: Result<CardRange, CardRangeDecodeError>)
        ensures
            r == decode_card_range(s@),
    {
        if s.unicode_len() != 5 {
            return Err(CardRangeDecodeError::WrongLength);
        }
        let suit = s.get_char(0);
        let from = s.get_char(1);
        let to = s.get_char(3);
        let is_facing_up = s.get_char(4);
        let suit = match Suit::from_char(suit) {
            Some(suit) => suit,
            None => return Err(CardRangeDecodeError::BadSuit),
        };
        let low = match Card::get_rank_from_char(to) {
            Some(r) => r,
            None => return Err(CardRangeDecodeError::BadToRank),
        };
        let high = match Card::get_rank_from_char(from) {
            Some(r) => r,
            None => return Err(CardRangeDecodeError::BadFromRank),
        };
        let is_facing_up = match face_from_char(is_facing_up) {
            Some(up) => up,
            None => return Err(CardRangeDecodeError::UnexpectedFacing),
        };
        Ok(CardRange { suit, high, low, exhausted: false, is_facing_up })
    }
}


/// Whether card `i` of `s` continues the run that starts at card 0: the run lies face up,
/// and card `i` is face up, of the suit of card `i - 1` and one rank below it.
pub open spec fn continues_run(s: Seq<Card>, i: int) -> bool {
    &&& s[0].is_facing_up
    &&& s[i].is_facing_up
    &&& s[i].suit == s[i - 1].suit
    &&& s[i].rank + 1 == s[i - 1].rank
}

/// The index of the first card at or after `i` that does not continue the run, or the length.
pub open spec fn run_end(s: Seq<Card>, i: int) -> int
    decreases s.len() - i,
{
    if i < 1 || i >= s.len() || !continues_run(s, i) {
        i
    } else {
        run_end(s, i + 1)
    }
}

/// How many cards from the start of `s` form its first group.
pub open spec fn run_len(s: Seq<Card>) -> int {
    run_end(s, 1)
}

/// The group that starts `s`, as a range of cards.
pub open spec fn group_of(s: Seq<Card>) -> CardRange {
    CardRange {
        suit: s[0].suit,
        high: s[0].rank,
        low: s[run_len(s) - 1].rank,
        exhausted: false,
        is_facing_up: s[0].is_facing_up,
    }
}

/// Whether the test of the card that ends the first group of `s` stays within `u8`: the test
/// adds one to that card's rank once it has found it face up and of the run's suit.
pub open spec fn group_break_fits(s: Seq<Card>) -> bool {
    let n = run_len(s);
    n < s.len() ==> !(s[0].is_facing_up && s[n].is_facing_up && s[n].suit == s[n - 1].suit
        && s[n].rank == 255)
}

/// Whether every group of `s`, taken in turn, can be split off without overflow.
pub open spec fn groups_fit(s: Seq<Card>) -> bool
    decreases s.len(),
{
    if s.len() == 0 {
        true
    } else {
        proof {
            lemma_run_end(s, 1);
        }
        group_break_fits(s) && groups_fit(s.skip(run_len(s)))
    }
}

/// The groups of `s`, from its start to its end.
pub open spec fn all_groups(s: Seq<Card>) -> Seq<CardRange>
    decreases s.len(),
{
    if s.len() == 0 {
        Seq::empty()
    } else {
        proof {
            lemma_run_end(s, 1);
        }
        seq![group_of(s)] + all_groups(s.skip(run_len(s)))
    }
}

/// The last group of `s`, if `s` holds any card.
pub open spec fn last_group(s: Seq<Card>) -> Option<CardRange>
    decreases s.len(),
{
    if s.len() == 0 {
        None
    } else {
        proof {
            lemma_run_end(s, 1);
        }
        let rest = s.skip(run_len(s));
        if rest.len() == 0 {
            Some(group_of(s))
        } else {
            last_group(rest)
        }
    }
}

/// `run_end` lies between `i` and the length; every card before it continues the run and
/// the card at it, if any, does not.
pub proof fn lemma_run_end(s: Seq<Card>, i: int)
    requires
        1 <= i <= s.len(),
    ensures
        i <= run_end(s, i) <= s.len(),
        forall|j: int| i <= j < run_end(s, i) ==> #[trigger] continues_run(s, j),
        run_end(s, i) < s.len() ==> !continues_run(s, run_end(s, i)),
    decreases s.len() - i,
{
    if i < s.len() && continues_run(s, i) {
        lemma_run_end(s, i + 1);
    }
}

/// The cards of one run share the first card's suit and orientation and go down one rank at a time.
proof fn lemma_run_cards(s: Seq<Card>, j: int)
    requires
        s.len() > 0,
        0 <= j < run_len(s),
    ensures
        s[j].suit == s[0].suit,
        s[j].is_facing_up == s[0].is_facing_up,
        s[j].rank == s[0].rank - j,
    decreases j,
{
    lemma_run_end(s, 1);
    if j > 0 {
        lemma_run_cards(s, j - 1);
        assert(continues_run(s, j));
    }
}

/// The first group of `s` holds exactly the cards of the first run of `s`, and the card after
/// the run, if any, does not continue it.
pub proof fn lemma_group_is_run(s: Seq<Card>)
    requires
        s.len() > 0,
    ensures
        1 <= run_len(s) <= s.len(),
        group_of(s).cards() == s.take(run_len(s)),
        run_len(s) < s.len() ==> !continues_run(s, run_len(s)),
{
    lemma_run_end(s, 1);
    let n = run_len(s);
    let g = group_of(s);
    lemma_run_cards(s, n - 1);
    assert(g.count() == n);
    assert forall|j: int| 0 <= j < n implies g.cards()[j] == s[j] by {
        lemma_run_cards(s, j);
    }
    assert(g.cards() =~= s.take(n));
}

/// The groups of `s`, one after the other, hold exactly the cards of `s` in their order.
pub proof fn lemma_groups_partition(s: Seq<Card>)
    ensures
        all_groups(s).map_values(|g: CardRange| g.cards()).flatten() == s,
    decreases s.len(),
{
    if s.len() > 0 {
        lemma_group_is_run(s);
        let n = run_len(s);
        let rest = s.skip(n);
        lemma_groups_partition(rest);
        let gs = all_groups(s).map_values(|g: CardRange| g.cards());
        assert(gs.drop_first() =~= all_groups(rest).map_values(|g: CardRange| g.cards()));
        assert(gs.first() == s.take(n));
        assert(s =~= s.take(n) + rest);
    } else {
        assert(all_groups(s).map_values(|g: CardRange| g.cards()) =~= Seq::<Seq<Card>>::empty());
    }
}

/// The last group of `s` is the last of its groups.
pub proof fn lemma_last_group(s: Seq<Card>)
    ensures
        last_group(s) == (if s.len() == 0 { None } else { Some(all_groups(s).last()) }),
    decreases s.len(),
{
    if s.len() > 0 {
        lemma_run_end(s, 1);
        let rest = s.skip(run_len(s));
        lemma_last_group(rest);
        if rest.len() == 0 {
            assert(all_groups(rest) =~= Seq::<CardRange>::empty());
        }
    }
}


/// Cards whose ranks all stay below 255 can always be split into groups without overflow.
pub proof fn lemma_low_ranks_fit(s: Seq<Card>)
    requires
        forall|i: int| 0 <= i < s.len() ==> #[trigger] s[i].rank < 255,
    ensures
        groups_fit(s),
    decreases s.len(),
{
    if s.len() > 0 {
        lemma_run_end(s, 1);
        let rest = s.skip(run_len(s));
        assert forall|i: int| 0 <= i < rest.len() implies #[trigger] rest[i].rank < 255 by {
            assert(rest[i] == s[i + run_len(s)]);
        }
        lemma_low_ranks_fit(rest);
    }
}

/// A run that goes on from card `i` up to card `k` keeps `run_end` at or past `k`.
proof fn lemma_run_end_reaches(s: Seq<Card>, i: int, k: int)
    requires
        1 <= i <= k <= s.len(),
        forall|j: int| i <= j < k ==> #[trigger] continues_run(s, j),
    ensures
        run_end(s, i) >= k,
    decreases k - i,
{
    lemma_run_end(s, i);
    if i < k {
        lemma_run_end_reaches(s, i + 1, k);
    }
}

/// The first group of a stack is its longest run from the top: if its first `k` cards lie face
/// up, each of the suit of the card before it and one rank below it, the group holds at least
/// those `k` cards; it holds exactly the cards at the front of the stack; and the card after it,
/// if any, does not continue it that way.
pub proof fn lemma_first_group_is_longest_run(s: Seq<Card>, k: int)
    requires
        1 <= k <= s.len(),
        forall|i: int|
            #![trigger s[i]]
            1 <= i < k ==> s[0].is_facing_up && s[i].is_facing_up && s[i].suit == s[i - 1].suit
                && s[i].rank + 1 == s[i - 1].rank,
    ensures
        group_of(s).count() >= k,
        group_of(s).cards() == s.take(group_of(s).count() as int),
        group_of(s).count() < s.len() ==> !({
            let n = group_of(s).count() as int;
            s[0].is_facing_up && s[n].is_facing_up && s[n].suit == s[n - 1].suit && s[n].rank + 1
                == s[n - 1].rank
        }),
{
    lemma_group_is_run(s);
    assert forall|j: int| 1 <= j < k implies #[trigger] continues_run(s, j) by {
        assert(s[j] == s[j]);
    }
    lemma_run_end_reaches(s, 1, k);
    assert(group_of(s).cards().len() == group_of(s).count());
}

/// Whether card `top` of `s` lies face up and card `i` lies face up, of the suit of card `i - 1`
/// and one rank below it.
spec fn linked(s: Seq<Card>, top: int, i: int) -> bool {
    s[top].is_facing_up && s[i].is_facing_up && s[i].suit == s[i - 1].suit && s[i].rank + 1 == s[i
        - 1].rank
}

/// Whether the last `k` cards of `s` lie face up, each of the suit of the card before it and one
/// rank below it.
spec fn ends_in_run(s: Seq<Card>, k: int) -> bool {
    forall|i: int| s.len() - k < i < s.len() ==> #[trigger] linked(s, s.len() - k, i)
}

/// Dropping cards from the top that lie above the final run keeps the final run.
proof fn lemma_ends_in_run_skip(s: Seq<Card>, k: int, n: int)
    requires
        1 <= k,
        0 <= n <= s.len() - k,
        ends_in_run(s, k),
    ensures
        ends_in_run(s.skip(n), k),
{
    let rest = s.skip(n);
    assert forall|i: int| rest.len() - k < i < rest.len() implies #[trigger] linked(
        rest,
        rest.len() - k,
        i,
    ) by {
        assert(linked(s, s.len() - k, i + n));
        assert(rest[i] == s[i + n]);
        assert(rest[i - 1] == s[i - 1 + n]);
        assert(rest[rest.len() - k] == s[s.len() - k]);
    }
}

/// When the first group reaches into the final run, it runs to the end of the stack.
proof fn lemma_first_group_reaches_end(s: Seq<Card>, k: int)
    requires
        1 <= k <= s.len(),
        ends_in_run(s, k),
        run_len(s) > s.len() - k,
    ensures
        run_len(s) == s.len(),
{
    lemma_run_end(s, 1);
    let n = run_len(s);
    let m = s.len() - k;
    if n < s.len() {
        if m >= 1 {
            assert(continues_run(s, m));
        }
        assert(linked(s, m, n));
        assert(continues_run(s, n));
    }
}

/// The last group holds at least the final run of `k` cards.
proof fn lemma_last_group_covers(s: Seq<Card>, k: int)
    requires
        1 <= k <= s.len(),
        ends_in_run(s, k),
    ensures
        last_group(s) is Some,
        last_group(s)->0.count() >= k,
    decreases s.len(),
{
    lemma_group_is_run(s);
    let n = run_len(s);
    let rest = s.skip(n);
    assert(group_of(s).cards().len() == group_of(s).count());
    if n <= s.len() - k {
        lemma_ends_in_run_skip(s, k, n);
        lemma_last_group_covers(rest, k);
    } else {
        lemma_first_group_reaches_end(s, k);
        assert(rest.len() == 0);
    }
}

/// The last group of a stack holds at least the run at its bottom: if its last `k` cards lie face
/// up, each of the suit of the card before it and one rank below it, the last group holds at
/// least `k` cards.
pub proof fn lemma_last_group_holds_final_run(s: Seq<Card>, k: int)
    requires
        1 <= k <= s.len(),
        forall|i: int|
            #![trigger s[i]]
            s.len() - k < i < s.len() ==> s[s.len() - k].is_facing_up && s[i].is_facing_up
                && s[i].suit == s[i - 1].suit && s[i].rank + 1 == s[i - 1].rank,
    ensures
        last_group(s) is Some,
        last_group(s)->0.count() >= k,
{
    assert forall|i: int| s.len() - k < i < s.len() implies #[trigger] linked(s, s.len() - k, i) by {
        assert(s[i] == s[i]);
    }
    lemma_last_group_covers(s, k);
}
/// The cards of a stack, handed out group by group: each group is the longest run at the front
/// of what is left, of cards face up, of one suit, one rank below the other.
pub struct Groups<'a>(pub &'a [Card]);

impl<'a> Groups<'a> {
    /// Splits the first group off the cards that are left and hands it out.
    pub fn next(&mut self) -> (group: Option<CardRange>)
        requires
            group_break_fits(old(self).0@),
        ensures
            old(self).0@.len() == 0 ==> group is None && final(self).0@ == old(self).0@,
            old(self).0@.len() > 0 ==> group == Some(group_of(old(self).0@)) && final(self).0@
                == old(self).0@.skip(run_len(old(self).0@)),
    {
        if self.0.len() == 0 {
            return None;
        }
        let ghost s = self.0@;
        let first = self.0[0];
        let mut last = first;
        let mut last_index: usize = 0;
        let mut index: usize = 1;
        let mut done = false;
        proof {
            lemma_run_end(s, 1);
        }
        while index < self.0.len() && !done
            invariant
                s == self.0@,
                s.len() > 0,
                first == s[0],
                1 <= index <= s.len(),
                last_index + 1 == index,
                last == s[last_index as int],
                group_break_fits(s),
                done ==> run_len(s) == index,
                !done ==> run_end(s, index as int) == run_len(s),
            decreases s.len() - index + (if done { 0int } else { 1int }),
        {
            let card = self.0[index];
            if first.is_facing_up && card.is_facing_up && card.suit == last.suit
                && card.rank + 1 == last.rank {
                last = card;
                last_index = index;
                index = index + 1;
            } else {
                done = true;
            }
        }
        let len = self.0.len();
        self.0 = &self.0[last_index + 1..len];
        assert(self.0@ =~= s.skip(run_len(s)));
        Some(CardRange { suit: first.suit, is_facing_up: first.is_facing_up, high: first.rank, low: last.rank, exhausted: false })
    }

    /// Hands out every group in turn and gives back the last one.
    pub fn last(self) -> (group: Option<CardRange>)
        requires
            groups_fit(self.0@),
        ensures
            group == last_group(self.0@),
    {
        let ghost s = self.0@;
        let mut groups = self;
        let mut last: Option<CardRange> = None;
        loop
            invariant
                groups_fit(groups.0@),
                last_group(s) == (if groups.0@.len() == 0 { last } else { last_group(groups.0@) }),
            ensures
                last_group(s) == last,
            decreases groups.0@.len(),
        {
            let ghost before = groups.0@;
            proof {
                if before.len() > 0 {
                    lemma_run_end(before, 1);
                }
            }
            match groups.next() {
                Some(g) => {
                    last = Some(g);
                },
                None => {
                    break;
                },
            }
        }
        last
    }
}


/// Whether `cards` can be split into groups without overflow, group after group.
pub fn groups_fit_check(cards: &[Card]) -> (b: bool)
    ensures
        b == groups_fit(cards@),
{
    let mut rest = cards;
    loop
        invariant
            groups_fit(cards@) == groups_fit(rest@),
        decreases rest@.len(),
    {
        if rest.len() == 0 {
            return true;
        }
        let ghost s = rest@;
        proof {
            lemma_run_end(s, 1);
        }
        let first = rest[0];
        let mut last = first;
        let mut index: usize = 1;
        let mut done = false;
        while index < rest.len() && !done
            invariant
                s == rest@,
                s.len() > 0,
                first == s[0],
                1 <= index <= s.len(),
                last == s[index - 1],
                done ==> run_len(s) == index,
                !done ==> run_end(s, index as int) == run_len(s),
            decreases s.len() - index + (if done { 0int } else { 1int }),
        {
            let card = rest[index];
            if first.is_facing_up && card.is_facing_up && card.suit == last.suit && card.rank < 255
                && card.rank + 1 == last.rank {
                last = card;
                index = index + 1;
            } else {
                done = true;
            }
        }
        if index < rest.len() {
            let card = rest[index];
            if first.is_facing_up && card.is_facing_up && card.suit == last.suit && card.rank == 255 {
                return false;
            }
        }
        let len = rest.len();
        rest = &rest[index..len];
        assert(rest@ =~= s.skip(run_len(s)));
    }
}

/// Reading back the character of a rank gives the rank, and a character that reads as a rank
/// is the character of that rank.
pub proof fn lemma_rank_char_roundtrip(rank: u8, c: char)
    ensures
        rank < 13 ==> rank_of_char(rank_char(rank)) == Some(rank),
        rank_of_char(c) == Some(rank) ==> rank < 13 && rank_char(rank) == c,
{
}

/// Reading back the symbol of a suit gives the suit, and a character that reads as a suit is
/// the symbol of that suit.
pub proof fn lemma_suit_symbol_roundtrip(suit: Suit, c: char)
    ensures
        suit_of_char(suit_symbol(suit)) == Some(suit),
        suit_of_char(c) == Some(suit) ==> suit_symbol(suit) == c,
{
}

/// Reading back the code of a card gives the card, and text that reads as a card is the code
/// of that card.
pub proof fn lemma_card_code_roundtrip(card: Card, s: Seq<char>)
    ensures
        card.rank < 13 ==> decode_card(card_code(card)) == Ok::<Card, CardDecodeError>(card),
        decode_card(s) == Ok::<Card, CardDecodeError>(card) ==> card.rank < 13 && card_code(card) == s,
{
    lemma_rank_char_roundtrip(card.rank, rank_char(card.rank));
    lemma_suit_symbol_roundtrip(card.suit, suit_symbol(card.suit));
    if s.len() == 3 {
        lemma_rank_char_roundtrip(card.rank, s[1]);
        lemma_suit_symbol_roundtrip(card.suit, s[0]);
    }
    if decode_card(s) == Ok::<Card, CardDecodeError>(card) {
        assert(card_code(card) =~= s);
    }
}

/// Reading back the code of a range that holds cards gives the range, and text that reads as
/// a range, with `-` as its third character, is the code of that range.
pub proof fn lemma_card_range_code_roundtrip(range: CardRange, s: Seq<char>)
    ensures
        range.count() > 0 && range.high < 13 && range.low < 13 ==> decode_card_range(range.code())
            == Ok::<CardRange, CardRangeDecodeError>(range),
        decode_card_range(s) == Ok::<CardRange, CardRangeDecodeError>(range) ==> range.high < 13
            && range.low < 13 && (s[2] == '-' ==> range.code() == s),
{
    lemma_rank_char_roundtrip(range.high, rank_char(range.high));
    lemma_rank_char_roundtrip(range.low, rank_char(range.low));
    lemma_suit_symbol_roundtrip(range.suit, suit_symbol(range.suit));
    if s.len() == 5 {
        lemma_rank_char_roundtrip(range.high, s[1]);
        lemma_rank_char_roundtrip(range.low, s[3]);
        lemma_suit_symbol_roundtrip(range.suit, s[0]);
    }
    if decode_card_range(s) == Ok::<CardRange, CardRangeDecodeError>(range) && s[2] == '-' {
        assert(range.code() =~= s);
    }
}

/// A card that lies face up shows two characters: the character of its rank, which reads back
/// as that rank, then the symbol of its suit, which reads back as that suit. Every card that
/// lies face down shows the same two full blocks.
pub proof fn lemma_card_display(card: Card, other: Card)
    ensures
        card.is_facing_up && card.rank < 13 ==> card_display(card).len() == 2 && rank_of_char(
            card_display(card)[0],
        ) == Some(card.rank) && suit_of_char(card_display(card)[1]) == Some(card.suit),
        card.is_facing_up ==> card_display(card) == seq![rank_char(card.rank), suit_symbol(card.suit)],
        !card.is_facing_up ==> card_display(card) == seq!['█', '█'],
        !card.is_facing_up && !other.is_facing_up ==> card_display(card) == card_display(other),
{
    lemma_rank_char_roundtrip(card.rank, rank_char(card.rank));
    lemma_suit_symbol_roundtrip(card.suit, suit_symbol(card.suit));
}

/// The characters of the ranks from ace to king, and the symbols of the suits.
pub proof fn lemma_char_tables(rank: u8, suit: Suit)
    ensures
        rank < 13 ==> rank_char(rank) == seq!['A', '2', '3', '4', '5', '6', '7', '8', '9', 'X', 'J', 'Q', 'K'][rank as int],
        suit == Suit::Clubs ==> suit_symbol(suit) == '♣',
        suit == Suit::Hearts ==> suit_symbol(suit) == '♥',
        suit == Suit::Diamonds ==> suit_symbol(suit) == '♦',
        suit == Suit::Spades ==> suit_symbol(suit) == '♠',
        face_char(true) == '↑',
        face_char(false) == '↓',
{
}

/// Hearts and diamonds share one colour, clubs and spades the other.
pub proof fn lemma_suit_colors(a: Suit, b: Suit)
    ensures
        suit_color(Suit::Hearts) == CardColor::Red,
        suit_color(a) == suit_color(b) <==> ((a == Suit::Hearts || a == Suit::Diamonds) == (b
            == Suit::Hearts || b == Suit::Diamonds)),
{
}

/// Reading a card fails for the length first, then the suit, then the rank, then the
/// orientation.
pub proof fn lemma_decode_card_errors(s: Seq<char>)
    ensures
        (decode_card(s) == Err::<Card, CardDecodeError>(CardDecodeError::WrongLength)) <==> s.len() != 3,
        (decode_card(s) == Err::<Card, CardDecodeError>(CardDecodeError::UnexpectedSuit)) <==> (s.len() == 3
            && suit_of_char(s[0]) is None),
        (decode_card(s) == Err::<Card, CardDecodeError>(CardDecodeError::UnexpectedRank)) <==> (s.len() == 3
            && suit_of_char(s[0]) is Some && rank_of_char(s[1]) is None),
        (decode_card(s) == Err::<Card, CardDecodeError>(CardDecodeError::UnexpectedFacing)) <==> (s.len()
            == 3 && suit_of_char(s[0]) is Some && rank_of_char(s[1]) is Some && face_of_char(s[2]) is None),
{
}

/// Reading a range fails for the length first, then the suit, then the lowest rank (fourth
/// character), then the highest rank (second character), then the orientation.
pub proof fn lemma_decode_card_range_errors(s: Seq<char>)
    ensures
        (decode_card_range(s) == Err::<CardRange, CardRangeDecodeError>(CardRangeDecodeError::WrongLength))
            <==> s.len() != 5,
        (decode_card_range(s) == Err::<CardRange, CardRangeDecodeError>(CardRangeDecodeError::BadSuit))
            <==> (s.len() == 5 && suit_of_char(s[0]) is None),
        (decode_card_range(s) == Err::<CardRange, CardRangeDecodeError>(CardRangeDecodeError::BadToRank))
            <==> (s.len() == 5 && suit_of_char(s[0]) is Some && rank_of_char(s[3]) is None),
        (decode_card_range(s) == Err::<CardRange, CardRangeDecodeError>(
            CardRangeDecodeError::BadFromRank,
        )) <==> (s.len() == 5 && suit_of_char(s[0]) is Some && rank_of_char(s[3]) is Some
            && rank_of_char(s[1]) is None),
        (decode_card_range(s) == Err::<CardRange, CardRangeDecodeError>(
            CardRangeDecodeError::UnexpectedFacing,
        )) <==> (s.len() == 5 && suit_of_char(s[0]) is Some && rank_of_char(s[3]) is Some
            && rank_of_char(s[1]) is Some && face_of_char(s[4]) is None),
        decode_card_range(s) is Ok ==> decode_card_range(s)->Ok_0.high == rank_of_char(s[1])->0
            && decode_card_range(s)->Ok_0.low == rank_of_char(s[3])->0 && !decode_card_range(
            s,
        )->Ok_0.exhausted,
{
}

/// A new range from rank `from` down to rank `to` holds the cards of those ranks, highest first,
/// all of its suit and orientation, and none when `to` lies above `from`; each card handed out
/// takes one off the front.
pub proof fn lemma_card_range_cards(suit: Suit, from: u8, to: u8, is_facing_up: bool)
    ensures
        ({
            let r = CardRange { suit, high: from, low: to, exhausted: false, is_facing_up };
            &&& r.cards().len() == (if to <= from { from - to + 1 } else { 0 })
            &&& forall|i: int|
                0 <= i < r.cards().len() ==> #[trigger] r.cards()[i] == (Card {
                    suit,
                    rank: (from - i) as u8,
                    is_facing_up,
                })
            &&& r.count() > 0 ==> r.advanced().cards() == r.cards().drop_first()
        }),
{
    let r = CardRange { suit, high: from, low: to, exhausted: false, is_facing_up };
    if r.count() > 0 {
        assert(r.advanced().cards() =~= r.cards().drop_first());
    }
}

/// Appends `c` to `s`: a call of `String::push`, which adds one character at the end.
#[verifier::external_body]
fn push_char(s: &mut String, c: char)
    ensures
        final(s)@ == old(s)@.push(c),
{
    s.push(c);
}

} // verus!
