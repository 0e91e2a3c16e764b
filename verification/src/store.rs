//! What the store keeps for a finished card: its animation with the card
//! message embedded as PNG text (through `web_image_meta`), under a fresh
//! random id (through `uuid`), and the key of its owner's list of cards.
use vstd::prelude::*;
use crate::tcg::{inventory_key, Card};

verus! {

/// The keyword of the text chunk that carries the card message.
pub open spec fn card_keyword() -> Seq<char> {
    seq!['l', 'c', 'o', 'l', 'o', 'n', 'q', 't', 'c', 'g']
}

/// The eight bytes that open every PNG file.
pub open spec fn png_signature() -> Seq<u8> {
    seq![137u8, 80u8, 78u8, 71u8, 13u8, 10u8, 26u8, 10u8]
}

/// The image that `web_image_meta::png::add_text_chunk` makes of PNG bytes
/// `data` with a text chunk `keyword` holding `text`, or `None` where it
/// reports an error.
pub uninterp spec fn png_with_text(data: Seq<u8>, keyword: Seq<char>, text: Seq<char>) -> Option<Seq<u8>>;

#[verifier::external_type_specification]
#[verifier::external_body]
pub struct ExImageMetaError(web_image_meta::Error);

/// `web_image_meta::png::add_text_chunk`.
///
/// Trusted: the function computes from its arguments alone, and its result
/// is named `png_with_text`. Its source refuses data that does not start
/// with the PNG signature, and a keyword that is empty or longer than 79
/// bytes; what else it checks (that the PNG decodes, before and after) and
/// the bytes it produces are not stated.
#[verifier::external_body]
fn add_png_text(data: &[u8], keyword: &str, text: &str) -> (r: Result<Vec<u8>, web_image_meta::Error>)
    ensures
        match r {
            Ok(v) => png_with_text(data@, keyword@, text@) == Some(v@),
            Err(_) => png_with_text(data@, keyword@, text@) is None,
        },
        (data@.len() < 8 || data@.subrange(0, 8) != png_signature()) ==> r is Err,
        (keyword@.len() == 0 || vstd::utf8::encode_utf8(keyword@).len() > 79) ==> r is Err,
{
    web_image_meta::png::add_text_chunk(data, keyword, text)
}

/// Whether `c` is a lowercase hexadecimal digit.
pub open spec fn is_lower_hex(c: char) -> bool {
    ('0' <= c <= '9') || ('a' <= c <= 'f')
}

/// Whether `s` is a random (version 4) UUID written as `uuid` writes one:
/// 36 characters, hyphens at positions 8, 13, 18 and 23, lowercase
/// hexadecimal digits elsewhere, version digit `4` at position 14 and a
/// variant digit `8`, `9`, `a` or `b` at position 19.
pub open spec fn is_v4_uuid_text(s: Seq<char>) -> bool {
    &&& s.len() == 36
    &&& forall|i: int|
        0 <= i < 36 ==> if i == 8 || i == 13 || i == 18 || i == 23 {
            s[i] == '-'
        } else {
            is_lower_hex(#[trigger] s[i])
        }
    &&& s[14] == '4'
    &&& (s[19] == '8' || s[19] == '9' || s[19] == 'a' || s[19] == 'b')
}

/// `uuid::Uuid::new_v4().to_string()`.
///
/// Trusted: the crate draws the bits at random and sets the version and
/// variant, and its `Display` writes the hyphenated lowercase form. Which
/// id comes back is chance and is not stated.
#[verifier::external_body]
fn new_card_id() -> (s: String)
    ensures
        is_v4_uuid_text(s@),
{
    uuid::Uuid::new_v4().to_string()
}

/// Why a card could not be filed.
#[derive(PartialEq, Eq, Structural, Clone, Copy, Debug)]
pub enum StoreError {
    /// The card's text could not be added to its image.
    Image,
}

/// A finished card as the store files it.
pub struct CardRecord {
    /// The id under which the image is filed and which the owner's list
    /// receives.
    pub id: String,
    /// The animation, with the card message in a `lcolonqtcg` text chunk.
    pub image: Vec<u8>,
    /// The key of the owner's list of cards.
    pub inventory_key: String,
}

/// The record for `card` with animation `png` under id `id`: `Err` where
/// the text chunk cannot be added.
pub fn record_with_id(png: &[u8], card: &Card, id: String) -> (r: Result<CardRecord, StoreError>)
    ensures
        match png_with_text(png@, card_keyword(), card.encoded@) {
            Some(img) => r matches Ok(rec) && rec.id@ == id@ && rec.image@ == img
                && rec.inventory_key@ == "tcg-inventory:"@ + card.owner_id@,
            None => r == Err::<CardRecord, StoreError>(StoreError::Image),
        },
{
    let keyword = "lcolonqtcg";
    proof {
        reveal_strlit("lcolonqtcg");
    }
    assert(keyword@ =~= card_keyword());
    match add_png_text(png, keyword, card.encoded.as_str()) {
        Ok(image) => Ok(CardRecord { id, image, inventory_key: inventory_key(card.owner_id.as_str()) }),
        Err(_) => Err(StoreError::Image),
    }
}

/// The record for `card` with animation `png` under a fresh random id.
pub fn card_record(png: &[u8], card: &Card) -> (r: Result<CardRecord, StoreError>)
    ensures
        match png_with_text(png@, card_keyword(), card.encoded@) {
            Some(img) => r matches Ok(rec) && is_v4_uuid_text(rec.id@) && rec.image@ == img
                && rec.inventory_key@ == "tcg-inventory:"@ + card.owner_id@,
            None => r == Err::<CardRecord, StoreError>(StoreError::Image),
        },
{
    record_with_id(png, card, new_card_id())
}

} // verus!
