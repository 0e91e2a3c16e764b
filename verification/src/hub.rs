//! The overlay's shared state and what it does with each message of the
//! binary bus: the switches and the editor and music information change
//! here; what needs the renderer is handed back as an action.
use vstd::prelude::*;
use vstd::utf8::{decode_utf8, valid_utf8};
use crate::bus::{classify, topic_of, BusEvent, Info};
use crate::bytes::le_i32;
use crate::toggle::{flipped, message_name, Toggle, Toggles};

verus! {

/// What the renderer still has to do with a message.
#[derive(PartialEq, Eq, Structural, Clone, Copy, Debug)]
pub enum Action {
    /// Reset every overlay; the switches are already cleared.
    Reset,
    /// Decode the message as a face-tracking update.
    Tracking,
    /// Show the message's background frame.
    BackgroundFrame,
    /// Decode the message as the editor's cursor position.
    EmacsCursor,
    /// Decode the message as a chat line.
    Chat,
    /// Nothing: the shared state took the message.
    Handled,
    /// Warn: the message is for the shared state but does not decode.
    Malformed,
    /// Nothing here: the message is for one of the overlays, or for none.
    Pass,
}

/// What the shared state holds: the switches, the heart rate and the music
/// credit.
pub struct SharedView {
    pub toggles: Map<Seq<char>, Toggle>,
    pub heartrate: int,
    pub music: Option<Seq<char>>,
}

/// The action for a message of topic `topic` carrying `data`.
pub open spec fn action_for(topic: Option<BusEvent>, data: Seq<u8>) -> Action {
    match topic {
        Some(BusEvent::Reset) => Action::Reset,
        Some(BusEvent::Tracking) => Action::Tracking,
        Some(BusEvent::BackgroundFrame) => Action::BackgroundFrame,
        Some(BusEvent::Toggle) | Some(BusEvent::ToggleSet) | Some(BusEvent::ToggleUnset) => if message_name(
            data,
        ) is Some {
            Action::Handled
        } else {
            Action::Malformed
        },
        Some(BusEvent::InfoEmacs) => if data.len() >= 4 {
            Action::Handled
        } else {
            Action::Malformed
        },
        Some(BusEvent::InfoEmacsCursor) => Action::EmacsCursor,
        Some(BusEvent::InfoCreditsMusic) => if valid_utf8(data) {
            Action::Handled
        } else {
            Action::Malformed
        },
        Some(BusEvent::InfoCreditsMusicClear) => Action::Handled,
        Some(BusEvent::Chat) => Action::Chat,
        _ => Action::Pass,
    }
}

/// The shared state after a message of topic `topic` carrying `data`
/// arrives at `tick`.
pub open spec fn shared_after(s: SharedView, topic: Option<BusEvent>, data: Seq<u8>, tick: u64) -> SharedView {
    match topic {
        Some(BusEvent::Reset) => SharedView { toggles: Map::empty(), ..s },
        Some(BusEvent::Toggle) => match message_name(data) {
            Some(nm) => SharedView { toggles: flipped(s.toggles, nm, tick), ..s },
            None => s,
        },
        Some(BusEvent::ToggleSet) => match message_name(data) {
            Some(nm) => SharedView { toggles: s.toggles.insert(nm, Toggle { val: true, set_time: tick }), ..s },
            None => s,
        },
        Some(BusEvent::ToggleUnset) => match message_name(data) {
            Some(nm) => SharedView { toggles: s.toggles.insert(nm, Toggle { val: false, set_time: tick }), ..s },
            None => s,
        },
        Some(BusEvent::InfoEmacs) => if data.len() >= 4 {
            SharedView { heartrate: le_i32(data), ..s }
        } else {
            s
        },
        Some(BusEvent::InfoCreditsMusic) => if valid_utf8(data) {
            SharedView { music: Some(decode_utf8(data)), ..s }
        } else {
            s
        },
        Some(BusEvent::InfoCreditsMusicClear) => SharedView { music: None, ..s },
        _ => s,
    }
}

/// The switches and the information that the bus sets directly.
pub struct Shared {
    pub toggles: Toggles,
    pub info: Info,
}

impl View for Shared {
    type V = SharedView;

    open spec fn view(&self) -> SharedView {
        SharedView {
            toggles: self.toggles@,
            heartrate: self.info.emacs_heartrate as int,
            music: match self.info.muzak_author {
                Some(a) => Some(a@),
                None => None,
            },
        }
    }
}

impl Shared {
    pub open spec fn inv(&self) -> bool {
        self.toggles.inv()
    }

    /// No switches, no heart rate yet and no music credit.
    pub fn new() -> (s: Self)
        ensures
            s.inv(),
            s@ == (SharedView { toggles: Map::empty(), heartrate: 0, music: None }),
    {
        Shared { toggles: Toggles::new(), info: Info::new() }
    }

    /// Clears the switches.
    pub fn reset(&mut self)
        requires
            old(self).inv(),
        ensures
            final(self).inv(),
            final(self)@ == (SharedView { toggles: Map::empty(), ..old(self)@ }),
    {
        self.toggles.reset();
    }

    /// Takes a message of topic `event` carrying `data` at `tick`, and says
    /// what the renderer still has to do with it.
    pub fn handle(&mut self, tick: u64, event: &[u8], data: &[u8]) -> (a: Action)
        requires
            old(self).inv(),
        ensures
            final(self).inv(),
            a == action_for(topic_of(event@), data@),
            final(self)@ == shared_after(old(self)@, topic_of(event@), data@, tick),
    {
        match classify(event) {
            Some(BusEvent::Reset) => {
                self.reset();
                Action::Reset
            },
            Some(BusEvent::Tracking) => Action::Tracking,
            Some(BusEvent::BackgroundFrame) => Action::BackgroundFrame,
            Some(BusEvent::Toggle) => {
                self.toggles.handle(tick, data);
                named_action(data)
            },
            Some(BusEvent::ToggleSet) => {
                self.toggles.handle_set(tick, data, true);
                named_action(data)
            },
            Some(BusEvent::ToggleUnset) => {
                self.toggles.handle_set(tick, data, false);
                named_action(data)
            },
            Some(BusEvent::InfoEmacs) => {
                if self.info.handle_emacs(data) {
                    Action::Handled
                } else {
                    Action::Malformed
                }
            },
            Some(BusEvent::InfoEmacsCursor) => Action::EmacsCursor,
            Some(BusEvent::InfoCreditsMusic) => {
                if self.info.handle_credits_music(data) {
                    Action::Handled
                } else {
                    Action::Malformed
                }
            },
            Some(BusEvent::InfoCreditsMusicClear) => {
                self.info.clear_credits_music();
                Action::Handled
            },
            Some(BusEvent::Chat) => Action::Chat,
            _ => Action::Pass,
        }
    }
}

/// `Handled` where the message bytes are a UTF-8 name, else `Malformed`.
fn named_action(data: &[u8]) -> (a: Action)
    ensures
        a == (if message_name(data@) is Some {
            Action::Handled
        } else {
            Action::Malformed
        }),
{
    if crate::codec::str_from_utf8(data).is_some() {
        Action::Handled
    } else {
        Action::Malformed
    }
}

} // verus!
