//! Trading cards announced on the bus: the tab-separated message that
//! describes a card, and the marquee that shows new cards one slot at a time.
use std::collections::VecDeque;
use vstd::prelude::*;
use vstd::string::StringSliceAdditionalSpecFns;
use vstd::utf8::{decode_utf8, encode_utf8, is_char_boundary, valid_utf8};
use crate::codec::str_from_utf8;
use crate::text::{
    chars_of, parse_int, parse_int_chars, split, split_chars, string_from_chars, views,
};

verus! {

/// Slots in the marquee.
pub const CARD_SLOTS: usize = 11;

/// Ticks that must pass between two cards entering the marquee.
pub const CARD_SPACING: u64 = 300;

/// Frames of animation recorded for each card.
pub const CARD_FRAMES: u32 = 20;

/// Ticks after which a card has crossed the marquee (its position,
/// `ticks / 200 - 7`, passes 8).
pub const CARD_LIFETIME: u64 = 3000;

/// Why a card message was refused.
#[derive(PartialEq, Eq, Structural, Clone, Copy, Debug)]
pub enum CardError {
    /// The message is not UTF-8.
    Utf8,
    /// The message has fewer fields than a card needs.
    NotEnoughFields,
    /// A colour component or a number does not parse.
    BadNumber,
}

/// A colour's red, green and blue components as parsed.
#[derive(PartialEq, Eq, Structural, Clone, Copy, Debug)]
pub struct CardColor {
    pub r: i64,
    pub g: i64,
    pub b: i64,
}

/// A card as the bus describes it; colours are the red, green and blue
/// components as parsed.
#[derive(Clone, Debug)]
pub struct Card {
    pub frames: u32,
    pub encoded: String,
    pub owner: String,
    pub owner_id: String,
    pub name: String,
    pub ty: String,
    pub depicted_subject: String,
    pub element: String,
    pub color: CardColor,
    pub faction: String,
    pub faction_color: CardColor,
    pub equity: i64,
    pub boost_level: String,
    pub rarity: String,
    pub rarity_level: i64,
    pub body_text: String,
    pub base_image_name: String,
    pub set: String,
    pub minted_date: String,
    pub flags: String,
}

/// What parsing two hexadecimal digits out of a field's bytes gives.
pub enum HexSlice {
    /// Slicing the field there would panic.
    Panics,
    Fails,
    Value(int),
}

/// The bytes as characters, one per byte.
pub open spec fn byte_chars(b: Seq<u8>) -> Seq<char> {
    b.map_values(|x: u8| x as char)
}

/// `i64::from_str_radix(&field[start..start + 2], 16)` on a field whose
/// UTF-8 bytes are `b`.
pub open spec fn hex_slice(b: Seq<u8>, start: int) -> HexSlice {
    if !(start + 2 <= b.len() && is_char_boundary(b, start) && is_char_boundary(b, start + 2)) {
        HexSlice::Panics
    } else {
        match parse_int(byte_chars(b.subrange(start, start + 2)), 16, i64::MIN as int, i64::MAX as int) {
            Some(v) => HexSlice::Value(v),
            None => HexSlice::Fails,
        }
    }
}

/// What parsing a `#rrggbb` colour field gives: its three components in
/// turn, stopping at the first that fails or would panic.
pub enum ColorParse {
    Panics,
    Fails,
    Rgb(int, int, int),
}

pub open spec fn color_parse(field: Seq<char>) -> ColorParse {
    let b = encode_utf8(field);
    match hex_slice(b, 1) {
        HexSlice::Panics => ColorParse::Panics,
        HexSlice::Fails => ColorParse::Fails,
        HexSlice::Value(r) => match hex_slice(b, 3) {
            HexSlice::Panics => ColorParse::Panics,
            HexSlice::Fails => ColorParse::Fails,
            HexSlice::Value(g) => match hex_slice(b, 5) {
                HexSlice::Panics => ColorParse::Panics,
                HexSlice::Fails => ColorParse::Fails,
                HexSlice::Value(bl) => ColorParse::Rgb(r, g, bl),
            },
        },
    }
}

/// What a card message gives.
pub enum CardParse {
    /// Slicing a colour field would panic.
    Panics,
    Fails(CardError),
    /// The fields split at tabs, and the parsed colours and numbers.
    Parsed(Seq<Seq<char>>, (int, int, int), (int, int, int), int, int),
}

pub open spec fn parse_i64(s: Seq<char>) -> Option<int> {
    parse_int(s, 10, i64::MIN as int, i64::MAX as int)
}

/// The outcome of reading the card message `s` field by field: owner,
/// owner id, name, type, depicted subject, element, colour, faction,
/// faction colour, equity, boost level, rarity, rarity level, body text,
/// base image, set, minting date and flags, in that order, with each
/// number parsed as soon as its field is read.
pub open spec fn card_parse(s: Seq<char>) -> CardParse {
    let f = split(s, '\t');
    if f.len() < 7 {
        CardParse::Fails(CardError::NotEnoughFields)
    } else {
        match color_parse(f[6]) {
            ColorParse::Panics => CardParse::Panics,
            ColorParse::Fails => CardParse::Fails(CardError::BadNumber),
            ColorParse::Rgb(r, g, b) => if f.len() < 9 {
                CardParse::Fails(CardError::NotEnoughFields)
            } else {
                match color_parse(f[8]) {
                    ColorParse::Panics => CardParse::Panics,
                    ColorParse::Fails => CardParse::Fails(CardError::BadNumber),
                    ColorParse::Rgb(fr, fg, fb) => if f.len() < 10 {
                        CardParse::Fails(CardError::NotEnoughFields)
                    } else {
                        match parse_i64(f[9]) {
                            None => CardParse::Fails(CardError::BadNumber),
                            Some(equity) => if f.len() < 13 {
                                CardParse::Fails(CardError::NotEnoughFields)
                            } else {
                                match parse_i64(f[12]) {
                                    None => CardParse::Fails(CardError::BadNumber),
                                    Some(rl) => if f.len() < 18 {
                                        CardParse::Fails(CardError::NotEnoughFields)
                                    } else {
                                        CardParse::Parsed(f, (r, g, b), (fr, fg, fb), equity, rl)
                                    },
                                }
                            },
                        }
                    },
                }
            },
        }
    }
}

/// The outcome for message bytes: `Fails(Utf8)` where they are not UTF-8.
pub open spec fn card_message(data: Seq<u8>) -> CardParse {
    if valid_utf8(data) {
        card_parse(decode_utf8(data))
    } else {
        CardParse::Fails(CardError::Utf8)
    }
}

/// Whether `c` is the card that message `s` with fields `f` describes.
pub open spec fn card_from_fields(
    c: Card,
    s: Seq<char>,
    f: Seq<Seq<char>>,
    color: (int, int, int),
    faction_color: (int, int, int),
    equity: int,
    rarity_level: int,
) -> bool {
    &&& c.frames == CARD_FRAMES
    &&& c.encoded@ == s
    &&& c.owner@ == f[0]
    &&& c.owner_id@ == f[1]
    &&& c.name@ == f[2]
    &&& c.ty@ == f[3]
    &&& c.depicted_subject@ == f[4]
    &&& c.element@ == f[5]
    &&& c.color.r == color.0 && c.color.g == color.1 && c.color.b == color.2
    &&& c.faction@ == f[7]
    &&& c.faction_color.r == faction_color.0 && c.faction_color.g == faction_color.1
        && c.faction_color.b == faction_color.2
    &&& c.equity == equity
    &&& c.boost_level@ == f[10]
    &&& c.rarity@ == f[11]
    &&& c.rarity_level == rarity_level
    &&& c.body_text@ == f[13]
    &&& c.base_image_name@ == f[14]
    &&& c.set@ == f[15]
    &&& c.minted_date@ == f[16]
    &&& c.flags@ == f[17]
}

/// A card read from a message holds the message's tab-separated fields in
/// their order: owner, owner id, name, type, depicted subject, element,
/// colour, faction, faction colour, equity, boost level, rarity, rarity
/// level, body text, base image, set, minting date and flags; the message
/// itself is kept whole.
pub proof fn law_card_fields(data: Seq<u8>, c: Card)
    requires
        card_message(data) matches CardParse::Parsed(f, col, fcol, eq, rl) && card_from_fields(
            c,
            decode_utf8(data),
            f,
            col,
            fcol,
            eq,
            rl,
        ),
    ensures
        ({
            let s = decode_utf8(data);
            let f = split(s, '\t');
            &&& valid_utf8(data)
            &&& f.len() >= 18
            &&& c.encoded@ == s
            &&& c.frames == CARD_FRAMES
            &&& c.owner@ == f[0]
            &&& c.owner_id@ == f[1]
            &&& c.name@ == f[2]
            &&& c.ty@ == f[3]
            &&& c.depicted_subject@ == f[4]
            &&& c.element@ == f[5]
            &&& color_parse(f[6]) == ColorParse::Rgb(c.color.r as int, c.color.g as int, c.color.b as int)
            &&& c.faction@ == f[7]
            &&& color_parse(f[8]) == ColorParse::Rgb(
                c.faction_color.r as int,
                c.faction_color.g as int,
                c.faction_color.b as int,
            )
            &&& parse_i64(f[9]) == Some(c.equity as int)
            &&& c.boost_level@ == f[10]
            &&& c.rarity@ == f[11]
            &&& parse_i64(f[12]) == Some(c.rarity_level as int)
            &&& c.body_text@ == f[13]
            &&& c.base_image_name@ == f[14]
            &&& c.set@ == f[15]
            &&& c.minted_date@ == f[16]
            &&& c.flags@ == f[17]
        }),
{
}

/// Parses two hexadecimal digits at `start` of the field whose text is `fs`.
fn hex_at(fs: &str, start: usize) -> (r: Option<Option<i64>>)
    requires
        start <= 5,
    ensures
        match hex_slice(fs.spec_bytes(), start as int) {
            HexSlice::Panics => r is None,
            HexSlice::Fails => r == Some(None::<i64>),
            HexSlice::Value(v) => r matches Some(Some(x)) && x == v,
        },
{
    let b = fs.as_bytes();
    if !(start + 2 <= b.len() && fs.is_char_boundary(start) && fs.is_char_boundary(start + 2)) {
        return None;
    }
    let mut cs: Vec<char> = Vec::new();
    cs.push(b[start] as char);
    cs.push(b[start + 1] as char);
    assert(cs@ =~= byte_chars(b@.subrange(start as int, start + 2)));
    match parse_int_chars(cs.as_slice(), 16, i64::MIN as i128, i64::MAX as i128) {
        Some(v) => Some(Some(v as i64)),
        None => Some(None),
    }
}

/// Parses a `#rrggbb` colour field: `None` where slicing would panic.
fn color_at(field: &[char]) -> (r: Option<Option<CardColor>>)
    ensures
        match color_parse(field@) {
            ColorParse::Panics => r is None,
            ColorParse::Fails => r == Some(None::<CardColor>),
            ColorParse::Rgb(a, b, c) => r matches Some(Some(t)) && t.r == a && t.g == b && t.b
                == c,
        },
{
    let s = string_from_chars(field);
    let fs = s.as_str();
    assert(fs.spec_bytes() == encode_utf8(field@));
    let r = match hex_at(fs, 1) {
        None => return None,
        Some(None) => return Some(None),
        Some(Some(v)) => v,
    };
    let g = match hex_at(fs, 3) {
        None => return None,
        Some(None) => return Some(None),
        Some(Some(v)) => v,
    };
    let b = match hex_at(fs, 5) {
        None => return None,
        Some(None) => return Some(None),
        Some(Some(v)) => v,
    };
    Some(Some(CardColor { r, g, b }))
}

fn parse_i64_chars(s: &[char]) -> (r: Option<i64>)
    ensures
        match r {
            Some(v) => parse_i64(s@) == Some(v as int),
            None => parse_i64(s@) is None,
        },
{
    match parse_int_chars(s, 10, i64::MIN as i128, i64::MAX as i128) {
        Some(v) => Some(v as i64),
        None => None,
    }
}

impl Card {
    /// Reads a card message: `Err` where it is not UTF-8, has too few
    /// fields, or a colour or number does not parse.
    pub fn parse(data: &[u8]) -> (r: Result<Card, CardError>)
        requires
            !(card_message(data@) is Panics),
        ensures
            match card_message(data@) {
                CardParse::Panics => false,
                CardParse::Fails(e) => r == Err::<Card, CardError>(e),
                CardParse::Parsed(f, color, fcolor, equity, rl) => r matches Ok(c)
                    && card_from_fields(c, decode_utf8(data@), f, color, fcolor, equity, rl),
            },
    {
        match Self::parse_outcome(data) {
            Some(r) => r,
            None => Err(CardError::BadNumber),
        }
    }

    /// Whether reading this card message would panic on a colour field.
    pub fn parse_panics(data: &[u8]) -> (b: bool)
        ensures
            b == (card_message(data@) is Panics),
    {
        Self::parse_outcome(data).is_none()
    }

    fn parse_outcome(data: &[u8]) -> (r: Option<Result<Card, CardError>>)
        ensures
            match card_message(data@) {
                CardParse::Panics => r is None,
                CardParse::Fails(e) => r == Some(Err::<Card, CardError>(e)),
                CardParse::Parsed(f, color, fcolor, equity, rl) => r matches Some(Ok(c))
                    && card_from_fields(c, decode_utf8(data@), f, color, fcolor, equity, rl),
            },
    {
        let s = match str_from_utf8(data) {
            Some(s) => s,
            None => return Some(Err(CardError::Utf8)),
        };
        let chars = chars_of(s);
        let f = split_chars(chars.as_slice(), '\t');
        let ghost fv = views(f@);
        assert(fv == split(s@, '\t'));
        if f.len() < 7 {
            return Some(Err(CardError::NotEnoughFields));
        }
        assert(f@[6]@ == fv[6]);
        let color = match color_at(f[6].as_slice()) {
            None => return None,
            Some(None) => return Some(Err(CardError::BadNumber)),
            Some(Some(c)) => c,
        };
        if f.len() < 9 {
            return Some(Err(CardError::NotEnoughFields));
        }
        assert(f@[8]@ == fv[8]);
        let faction_color = match color_at(f[8].as_slice()) {
            None => return None,
            Some(None) => return Some(Err(CardError::BadNumber)),
            Some(Some(c)) => c,
        };
        if f.len() < 10 {
            return Some(Err(CardError::NotEnoughFields));
        }
        assert(f@[9]@ == fv[9]);
        let equity = match parse_i64_chars(f[9].as_slice()) {
            None => return Some(Err(CardError::BadNumber)),
            Some(v) => v,
        };
        if f.len() < 13 {
            return Some(Err(CardError::NotEnoughFields));
        }
        assert(f@[12]@ == fv[12]);
        let rarity_level = match parse_i64_chars(f[12].as_slice()) {
            None => return Some(Err(CardError::BadNumber)),
            Some(v) => v,
        };
        if f.len() < 18 {
            return Some(Err(CardError::NotEnoughFields));
        }
        assert forall|i: int| 0 <= i < 18 implies #[trigger] f@[i]@ == fv[i] by {}
        let card = Card {
            frames: CARD_FRAMES,
            encoded: s.to_owned(),
            owner: string_from_chars(f[0].as_slice()),
            owner_id: string_from_chars(f[1].as_slice()),
            name: string_from_chars(f[2].as_slice()),
            ty: string_from_chars(f[3].as_slice()),
            depicted_subject: string_from_chars(f[4].as_slice()),
            element: string_from_chars(f[5].as_slice()),
            color,
            faction: string_from_chars(f[7].as_slice()),
            faction_color,
            equity,
            boost_level: string_from_chars(f[10].as_slice()),
            rarity: string_from_chars(f[11].as_slice()),
            rarity_level,
            body_text: string_from_chars(f[13].as_slice()),
            base_image_name: string_from_chars(f[14].as_slice()),
            set: string_from_chars(f[15].as_slice()),
            minted_date: string_from_chars(f[16].as_slice()),
            flags: string_from_chars(f[17].as_slice()),
        };
        Some(Ok(card))
    }
}

/// One place in the marquee: the card it shows, the tick at which the card
/// entered (while it is crossing), and whether its owner's name is drawn
/// raised.
pub struct Slot {
    pub card: Option<Card>,
    pub active: Option<u64>,
    pub height_offset: bool,
}

/// What the marquee holds.
pub struct MarqueeView {
    pub slots: Seq<Slot>,
    pub queue: Seq<Card>,
    pub most_recent: u64,
    pub height_offset: bool,
}

/// The lowest free slot, if any.
pub open spec fn first_free(slots: Seq<Slot>) -> Option<int> {
    if exists|i: int| 0 <= i < slots.len() && slots[i].active is None {
        Some(choose|i: int| 0 <= i < slots.len() && slots[i].active is None && forall|j: int| 0 <= j < i ==> slots[j].active is Some)
    } else {
        None
    }
}

/// The marquee after `card` enters slot `i` at `tick`: the slot takes the
/// card, the tick and the current height offset, which then flips, and the
/// tick becomes the most recent entry.
pub open spec fn entered(m: MarqueeView, i: int, card: Card, tick: u64) -> MarqueeView {
    MarqueeView {
        slots: m.slots.update(i, Slot { card: Some(card), active: Some(tick), height_offset: m.height_offset }),
        height_offset: !m.height_offset,
        most_recent: tick,
        ..m
    }
}

/// Whether enough ticks have passed since the last card entered.
pub open spec fn spaced(m: MarqueeView, tick: u64) -> bool {
    tick - m.most_recent > CARD_SPACING
}

/// No card enters within `CARD_SPACING` ticks of the one before it: after
/// an entry at `t`, the marquee is not spaced at any `t2` up to
/// `t + CARD_SPACING`.
pub proof fn law_entries_spaced(m: MarqueeView, i: int, card: Card, t: u64, t2: u64)
    requires
        t <= t2 <= t + CARD_SPACING,
    ensures
        !spaced(entered(m, i, card, t), t2),
{
}

/// The cards that cross the screen one after another, each held back until
/// the previous one has moved on.
pub struct Marquee {
    slots: Vec<Slot>,
    queue: VecDeque<Card>,
    most_recent: u64,
    height_offset: bool,
}

impl View for Marquee {
    type V = MarqueeView;

    closed spec fn view(&self) -> MarqueeView {
        MarqueeView {
            slots: self.slots@,
            queue: self.queue@,
            most_recent: self.most_recent,
            height_offset: self.height_offset,
        }
    }
}

impl Marquee {
    pub open spec fn inv(&self) -> bool {
        &&& self@.slots.len() == CARD_SLOTS
        &&& forall|i: int| 0 <= i < CARD_SLOTS ==> ((#[trigger] self@.slots[i]).active matches Some(t) ==> t <= self@.most_recent)
    }

    /// An empty marquee.
    pub fn new() -> (m: Self)
        ensures
            m.inv(),
            m@.queue.len() == 0,
            m@.most_recent == 0,
            !m@.height_offset,
            forall|i: int| 0 <= i < CARD_SLOTS ==> (#[trigger] m@.slots[i]).card is None && m@.slots[i].active is None
                && !m@.slots[i].height_offset,
    {
        let mut slots: Vec<Slot> = Vec::new();
        let mut k: usize = 0;
        while k < CARD_SLOTS
            invariant
                k <= CARD_SLOTS,
                slots@.len() == k,
                forall|i: int| 0 <= i < k ==> (#[trigger] slots@[i]).card is None && slots@[i].active is None
                    && !slots@[i].height_offset,
            decreases CARD_SLOTS - k,
        {
            slots.push(Slot { card: None, active: None, height_offset: false });
            k = k + 1;
        }
        Marquee { slots, queue: VecDeque::new(), most_recent: 0, height_offset: false }
    }

    /// The slot `i`.
    pub fn slot(&self, i: usize) -> (s: &Slot)
        requires
            self.inv(),
            i < CARD_SLOTS,
        ensures
            *s == self@.slots[i as int],
    {
        &self.slots[i]
    }

    /// The tick at which the last card entered.
    pub fn most_recent(&self) -> (t: u64)
        ensures
            t == self@.most_recent,
    {
        self.most_recent
    }

    fn free_slot(&self) -> (r: Option<usize>)
        requires
            self.inv(),
        ensures
            match first_free(self@.slots) {
                Some(i) => r == Some(i as usize),
                None => r is None,
            },
    {
        let mut i: usize = 0;
        while i < CARD_SLOTS
            invariant
                self.inv(),
                i <= CARD_SLOTS,
                forall|j: int| 0 <= j < i ==> self@.slots[j].active is Some,
            decreases CARD_SLOTS - i,
        {
            if self.slots[i].active.is_none() {
                let ghost c = choose|k: int| 0 <= k < self@.slots.len() && self@.slots[k].active is None && forall|j: int| 0 <= j < k ==> self@.slots[j].active is Some;
                assert(c == i) by {
                    if c < i {
                        assert(self@.slots[c].active is Some);
                    } else if c > i {
                        assert(self@.slots[i as int].active is Some);
                    }
                }
                return Some(i);
            }
            i = i + 1;
        }
        None
    }

    fn set_slot(&mut self, i: usize, card: Card, tick: u64)
        requires
            old(self).inv(),
            i < CARD_SLOTS,
            tick >= old(self)@.most_recent,
        ensures
            final(self).inv(),
            final(self)@ == entered(old(self)@, i as int, card, tick),
    {
        let ho = self.height_offset;
        self.slots.set(i, Slot { card: Some(card), active: Some(tick), height_offset: ho });
        self.height_offset = !self.height_offset;
        self.most_recent = tick;
    }

    /// Adds a new card at `tick`: it enters the lowest free slot where
    /// enough ticks have passed since the last entry (the slot is
    /// returned), and otherwise waits at the back of the queue.
    pub fn add(&mut self, tick: u64, card: Card) -> (r: Option<usize>)
        requires
            old(self).inv(),
            tick >= old(self)@.most_recent,
        ensures
            final(self).inv(),
            (spaced(old(self)@, tick) && first_free(old(self)@.slots) is Some) ==> r == Some(
                first_free(old(self)@.slots).unwrap() as usize,
            ) && final(self)@ == entered(old(self)@, first_free(old(self)@.slots).unwrap(), card, tick),
            !(spaced(old(self)@, tick) && first_free(old(self)@.slots) is Some) ==> r is None
                && final(self)@ == (MarqueeView { queue: old(self)@.queue.push(card), ..old(self)@ }),
    {
        if tick - self.most_recent > CARD_SPACING {
            if let Some(i) = self.free_slot() {
                self.set_slot(i, card, tick);
                return Some(i);
            }
        }
        self.queue.push_back(card);
        None
    }

    /// Lets the longest-waiting card enter the lowest free slot, where
    /// enough ticks have passed since the last entry; returns that slot.
    pub fn schedule(&mut self, tick: u64) -> (r: Option<usize>)
        requires
            old(self).inv(),
            tick >= old(self)@.most_recent,
        ensures
            final(self).inv(),
            (spaced(old(self)@, tick) && first_free(old(self)@.slots) is Some && old(self)@.queue.len()
                > 0) ==> r == Some(first_free(old(self)@.slots).unwrap() as usize) && final(self)@
                == entered(
                MarqueeView { queue: old(self)@.queue.drop_first(), ..old(self)@ },
                first_free(old(self)@.slots).unwrap(),
                old(self)@.queue[0],
                tick,
            ),
            !(spaced(old(self)@, tick) && first_free(old(self)@.slots) is Some && old(self)@.queue.len()
                > 0) ==> r is None && final(self)@ == old(self)@,
    {
        if tick - self.most_recent > CARD_SPACING {
            if let Some(i) = self.free_slot() {
                if let Some(c) = self.queue.pop_front() {
                    assert(self.queue@ =~= old(self)@.queue.drop_first());
                    self.set_slot(i, c, tick);
                    return Some(i);
                }
            }
        }
        None
    }

    /// Frees every slot whose card has been crossing for more than
    /// `CARD_LIFETIME` ticks.
    pub fn expire(&mut self, tick: u64)
        requires
            old(self).inv(),
            tick >= old(self)@.most_recent,
        ensures
            final(self).inv(),
            final(self)@.queue == old(self)@.queue,
            final(self)@.most_recent == old(self)@.most_recent,
            final(self)@.height_offset == old(self)@.height_offset,
            forall|i: int|
                0 <= i < CARD_SLOTS ==> #[trigger] final(self)@.slots[i] == (match old(self)@.slots[i].active {
                    Some(t) => if tick - t > CARD_LIFETIME {
                        Slot { active: None, ..old(self)@.slots[i] }
                    } else {
                        old(self)@.slots[i]
                    },
                    None => old(self)@.slots[i],
                }),
    {
        let mut i: usize = 0;
        while i < CARD_SLOTS
            invariant
                self.inv(),
                i <= CARD_SLOTS,
                tick >= self@.most_recent,
                self@.queue == old(self)@.queue,
                self@.most_recent == old(self)@.most_recent,
                self@.height_offset == old(self)@.height_offset,
                old(self).inv(),
                forall|j: int|
                    0 <= j < CARD_SLOTS ==> #[trigger] self@.slots[j] == (if j < i {
                        match old(self)@.slots[j].active {
                            Some(t) => if tick - t > CARD_LIFETIME {
                                Slot { active: None, ..old(self)@.slots[j] }
                            } else {
                                old(self)@.slots[j]
                            },
                            None => old(self)@.slots[j],
                        }
                    } else {
                        old(self)@.slots[j]
                    }),
            decreases CARD_SLOTS - i,
        {
            if let Some(t) = self.slots[i].active {
                if tick - t > CARD_LIFETIME {
                    let old_slot = self.slots.remove(i);
                    self.slots.insert(i, Slot { active: None, ..old_slot });
                }
            }
            i = i + 1;
        }
    }
}

/// Characters per line of a card's body text.
pub const BODY_LINE: usize = 25;

/// Line `i` of body text `t`: its characters `25 i` to `25 i + 25`.
pub open spec fn body_line(t: Seq<char>, i: int) -> Seq<char> {
    t.subrange(
        i * BODY_LINE,
        if (i + 1) * BODY_LINE <= t.len() {
            (i + 1) * BODY_LINE
        } else {
            t.len() as int
        },
    )
}

/// A card's body text cut into lines of 25 characters (the last may be
/// shorter; no lines for empty text).
pub fn body_lines(text: &str) -> (lines: Vec<String>)
    ensures
        lines@.len() * BODY_LINE >= text@.len(),
        lines@.len() * BODY_LINE < text@.len() + BODY_LINE,
        forall|i: int| 0 <= i < lines@.len() ==> #[trigger] lines@[i]@ == body_line(text@, i),
{
    let cs = chars_of(text);
    let n = cs.len();
    let mut lines: Vec<String> = Vec::new();
    let mut start: usize = 0;
    if n == 0 {
        return lines;
    }
    loop
        invariant_except_break
            n == cs@.len() == text@.len(),
            cs@ == text@,
            start < n,
            start == lines@.len() * BODY_LINE,
            forall|i: int| 0 <= i < lines@.len() ==> #[trigger] lines@[i]@ == body_line(text@, i),
        ensures
            lines@.len() * BODY_LINE >= text@.len(),
            lines@.len() * BODY_LINE < text@.len() + BODY_LINE,
            forall|i: int| 0 <= i < lines@.len() ==> #[trigger] lines@[i]@ == body_line(text@, i),
        decreases n - start,
    {
        let end = if n - start >= BODY_LINE {
            start + BODY_LINE
        } else {
            n
        };
        let mut piece: Vec<char> = Vec::new();
        let mut k = start;
        while k < end
            invariant
                start <= k <= end <= n == cs@.len(),
                piece@ == cs@.subrange(start as int, k as int),
            decreases end - k,
        {
            piece.push(cs[k]);
            k = k + 1;
        }
        let ghost i = lines@.len() as int;
        assert(piece@ == body_line(text@, i));
        lines.push(string_from_chars(piece.as_slice()));
        if end == n {
            break;
        }
        start = end;
    }
    lines
}

/// The factions that have a stamp on their cards.
#[derive(PartialEq, Eq, Structural, Clone, Copy, Debug)]
pub enum Faction {
    Nate,
    Lever,
    Tony,
}

/// The stamp for a card's faction name, if it has one.
pub fn faction_stamp(faction: &str) -> (r: Option<Faction>)
    ensures
        r == (if faction@ == seq!['n', 'a', 't', 'e'] {
            Some(Faction::Nate)
        } else if faction@ == seq!['l', 'e', 'v', 'e', 'r'] {
            Some(Faction::Lever)
        } else if faction@ == seq!['t', 'o', 'n', 'y'] {
            Some(Faction::Tony)
        } else {
            None
        }),
{
    let c = chars_of(faction);
    if c.len() == 4 && c[0] == 'n' && c[1] == 'a' && c[2] == 't' && c[3] == 'e' {
        assert(c@ =~= seq!['n', 'a', 't', 'e']);
        Some(Faction::Nate)
    } else if c.len() == 5 && c[0] == 'l' && c[1] == 'e' && c[2] == 'v' && c[3] == 'e' && c[4] == 'r' {
        assert(c@ =~= seq!['l', 'e', 'v', 'e', 'r']);
        assert(c@ != seq!['n', 'a', 't', 'e']);
        Some(Faction::Lever)
    } else if c.len() == 4 && c[0] == 't' && c[1] == 'o' && c[2] == 'n' && c[3] == 'y' {
        assert(c@ =~= seq!['t', 'o', 'n', 'y']);
        assert(c@ != seq!['n', 'a', 't', 'e']) by {
            assert(c@[0] != seq!['n', 'a', 't', 'e'][0]);
        }
        Some(Faction::Tony)
    } else {
        assert(c@ != seq!['n', 'a', 't', 'e']) by {
            if c@.len() == 4 {
                let s = seq!['n', 'a', 't', 'e'];
                if c@ == s {
                    assert(c@[0] == 'n' && c@[1] == 'a' && c@[2] == 't' && c@[3] == 'e');
                }
            }
        }
        assert(c@ != seq!['l', 'e', 'v', 'e', 'r']) by {
            let s = seq!['l', 'e', 'v', 'e', 'r'];
            if c@ == s {
                assert(c@[0] == 'l' && c@[1] == 'e' && c@[2] == 'v' && c@[3] == 'e' && c@[4] == 'r');
            }
        }
        assert(c@ != seq!['t', 'o', 'n', 'y']) by {
            let s = seq!['t', 'o', 'n', 'y'];
            if c@ == s {
                assert(c@[0] == 't' && c@[1] == 'o' && c@[2] == 'n' && c@[3] == 'y');
            }
        }
        None
    }
}

/// The store key of the list of cards that the owner with id `owner_id`
/// holds.
pub fn inventory_key(owner_id: &str) -> (k: String)
    ensures
        k@ == "tcg-inventory:"@ + owner_id@,
{
    let mut k = String::new();
    k.append("tcg-inventory:");
    k.append(owner_id);
    k
}


/// The frames left after `k` frames are taken from `left`: one fewer per
/// frame while any are left.
pub open spec fn frames_left_after(left: nat, k: nat) -> nat
    decreases k,
{
    if k == 0 {
        left
    } else if frames_left_after(left, (k - 1) as nat) > 0 {
        (frames_left_after(left, (k - 1) as nat) - 1) as nat
    } else {
        0
    }
}

/// Taking `k` frames, one call after another, from a recording with `n`
/// left leaves `n - min(k, n)`; the recording is finished exactly when
/// `k >= n`, and frames taken after that change nothing.
pub proof fn law_countdown(n: nat, k: nat)
    ensures
        frames_left_after(n, k) == n - (if k <= n {
            k
        } else {
            n
        }),
        (frames_left_after(n, k) == 0) <==> k >= n,
        frames_left_after(frames_left_after(n, k), 1) == frames_left_after(n, k + 1),
    decreases k,
{
    if k > 0 {
        law_countdown(n, (k - 1) as nat);
    }
    assert(frames_left_after(frames_left_after(n, k), 0) == frames_left_after(n, k));
}

/// How many frames of a card's animation are still to be recorded.
pub struct FrameCountdown {
    pub frames: u32,
    pub frames_left: u32,
}

impl FrameCountdown {
    /// A recording of `frames` frames, none taken yet.
    pub fn new(frames: u32) -> (c: Self)
        ensures
            c.frames == frames,
            c.frames_left == frames,
    {
        FrameCountdown { frames, frames_left: frames }
    }

    /// Takes the next frame: `true`, with one frame fewer left, while
    /// frames are left; `false`, with nothing changed, once none are.
    pub fn take_frame(&mut self) -> (taken: bool)
        ensures
            taken == (old(self).frames_left > 0),
            final(self).frames == old(self).frames,
            final(self).frames_left == frames_left_after(old(self).frames_left as nat, 1),
    {
        assert(frames_left_after(self.frames_left as nat, 0) == self.frames_left);
        if self.frames_left > 0 {
            self.frames_left = self.frames_left - 1;
            true
        } else {
            false
        }
    }

    /// Whether every frame has been taken.
    pub fn is_finished(&self) -> (b: bool)
        ensures
            b == (self.frames_left == 0),
    {
        self.frames_left == 0
    }
}

} // verus!
