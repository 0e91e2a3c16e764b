//! The quote overlay: a quote that a bus message starts, later messages
//! rewrite, and a reset removes.
use vstd::prelude::*;
use crate::codec::{base64_standard_decode, decode_base64, string_from_utf8_lossy, utf8_lossy};

verus! {

/// A quote on screen and the tick at which it appeared.
pub struct Quote {
    pub text: String,
    pub start_time: u64,
}

/// The text that a Base64 message field carries, invalid UTF-8 replaced.
pub open spec fn message_text(data_b64: Seq<char>) -> Option<Seq<char>> {
    match base64_standard_decode(data_b64) {
        Some(b) => Some(utf8_lossy(b)),
        None => None,
    }
}

/// The quote overlay's state.
pub struct Overlay {
    pub quote: Option<Quote>,
}

fn decode_text(data_b64: &str) -> (r: Option<String>)
    ensures
        match r {
            Some(s) => message_text(data_b64@) == Some(s@),
            None => message_text(data_b64@) is None,
        },
{
    match decode_base64(data_b64) {
        Some(b) => Some(string_from_utf8_lossy(b.as_slice())),
        None => None,
    }
}

impl Overlay {
    /// No quote.
    pub fn new() -> (o: Self)
        ensures
            o.quote is None,
    {
        Overlay { quote: None }
    }

    /// Removes the quote.
    pub fn reset(&mut self)
        ensures
            final(self).quote is None,
    {
        self.quote = None;
    }

    /// Starts a quote with the message's text at `tick`; `None`, with
    /// nothing changed, where the field is not Base64.
    pub fn handle_start(&mut self, tick: u64, data_b64: &str) -> (r: Option<()>)
        ensures
            r is Some <==> message_text(data_b64@) is Some,
            match message_text(data_b64@) {
                Some(t) => final(self).quote matches Some(q) && q.text@ == t && q.start_time == tick,
                None => final(self).quote == old(self).quote,
            },
    {
        let text = decode_text(data_b64)?;
        self.quote = Some(Quote { text, start_time: tick });
        Some(())
    }

    /// Replaces the text of the quote on screen, if any, with the
    /// message's; `None`, with nothing changed, where the field is not
    /// Base64.
    pub fn handle_update(&mut self, data_b64: &str) -> (r: Option<()>)
        ensures
            r is Some <==> message_text(data_b64@) is Some,
            match (message_text(data_b64@), old(self).quote) {
                (Some(t), Some(q)) => final(self).quote matches Some(nq) && nq.text@ == t
                    && nq.start_time == q.start_time,
                _ => final(self).quote == old(self).quote,
            },
    {
        let text = decode_text(data_b64)?;
        match self.quote.take() {
            Some(q) => {
                self.quote = Some(Quote { text, start_time: q.start_time });
            },
            None => {},
        }
        Some(())
    }

    /// The file path that a save message carries; `None` where the field is
    /// not Base64.
    pub fn save_path(data_b64: &str) -> (r: Option<String>)
        ensures
            match r {
                Some(s) => message_text(data_b64@) == Some(s@),
                None => message_text(data_b64@) is None,
            },
    {
        decode_text(data_b64)
    }
}

} // verus!
