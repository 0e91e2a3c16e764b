//! The overlay's bus topics and the small pieces of state that their
//! messages set directly: the editor heart rate and the music credit.
use vstd::prelude::*;
use vstd::utf8::{decode_utf8, encode_utf8, valid_utf8};
use crate::bytes::{le_i32, read_i32_le};
use crate::codec::str_from_utf8;

verus! {

/// The topics that the overlay subscribes to and acts on.
#[derive(PartialEq, Eq, Structural, Clone, Copy, Debug)]
pub enum BusEvent {
    Reset,
    Tracking,
    BackgroundFrame,
    Toggle,
    ToggleSet,
    ToggleUnset,
    InfoEmacs,
    InfoEmacsCursor,
    InfoCreditsMusic,
    InfoCreditsMusicClear,
    Chat,
    AvatarText,
    Shader,
    ShaderChat,
    AutomataSpawn,
    TcgGenerate,
}

/// The topic name of each event, as it travels on the bus.
pub open spec fn topic_name(e: BusEvent) -> Seq<char> {
    match e {
        BusEvent::Reset => "overlay reset"@,
        BusEvent::Tracking => "overlay tracking"@,
        BusEvent::BackgroundFrame => "overlay background frame"@,
        BusEvent::Toggle => "overlay toggle"@,
        BusEvent::ToggleSet => "overlay toggle set"@,
        BusEvent::ToggleUnset => "overlay toggle unset"@,
        BusEvent::InfoEmacs => "overlay info emacs"@,
        BusEvent::InfoEmacsCursor => "overlay info emacs cursor"@,
        BusEvent::InfoCreditsMusic => "overlay info credits music"@,
        BusEvent::InfoCreditsMusicClear => "overlay info credits music clear"@,
        BusEvent::Chat => "overlay chat"@,
        BusEvent::AvatarText => "overlay avatar text"@,
        BusEvent::Shader => "overlay shader"@,
        BusEvent::ShaderChat => "overlay shader chat"@,
        BusEvent::AutomataSpawn => "overlay automata spawn"@,
        BusEvent::TcgGenerate => "overlay tcg generate"@,
    }
}

/// The topic bytes of each event.
pub open spec fn topic_bytes(e: BusEvent) -> Seq<u8> {
    encode_utf8(topic_name(e))
}

/// Different topics travel under different names, so a topic's bytes
/// name exactly one event.
pub proof fn lemma_topic_bytes_distinct(e1: BusEvent, e2: BusEvent)
    ensures
        topic_bytes(e1) == topic_bytes(e2) ==> e1 == e2,
{
    if topic_bytes(e1) == topic_bytes(e2) {
        vstd::utf8::encode_utf8_decode_utf8(topic_name(e1));
        vstd::utf8::encode_utf8_decode_utf8(topic_name(e2));
        let a = topic_name(e1);
        let b = topic_name(e2);
        assert(a == b);
        reveal_strlit("overlay reset");
        reveal_strlit("overlay tracking");
        reveal_strlit("overlay background frame");
        reveal_strlit("overlay toggle");
        reveal_strlit("overlay toggle set");
        reveal_strlit("overlay toggle unset");
        reveal_strlit("overlay info emacs");
        reveal_strlit("overlay info emacs cursor");
        reveal_strlit("overlay info credits music");
        reveal_strlit("overlay info credits music clear");
        reveal_strlit("overlay chat");
        reveal_strlit("overlay avatar text");
        reveal_strlit("overlay shader");
        reveal_strlit("overlay shader chat");
        reveal_strlit("overlay automata spawn");
        reveal_strlit("overlay tcg generate");
        assert(a.len() == b.len());
        assert(a[8] == b[8]);
        assert(a[9] == b[9]);
    }
}

fn bytes_eq(a: &[u8], b: &[u8]) -> (r: bool)
    ensures
        r == (a@ == b@),
{
    if a.len() != b.len() {
        return false;
    }
    let n = a.len();
    let mut i: usize = 0;
    while i < n
        invariant
            n == a@.len() == b@.len(),
            i <= n,
            forall|j: int| 0 <= j < i ==> a@[j] == b@[j],
        decreases n - i,
    {
        if a[i] != b[i] {
            return false;
        }
        i = i + 1;
    }
    assert(a@ =~= b@);
    true
}

/// Whether `event` is the topic of `e`.
fn is_topic(event: &[u8], e: BusEvent) -> (r: bool)
    ensures
        r == (event@ == topic_bytes(e)),
{
    let name: &str = match e {
        BusEvent::Reset => "overlay reset",
        BusEvent::Tracking => "overlay tracking",
        BusEvent::BackgroundFrame => "overlay background frame",
        BusEvent::Toggle => "overlay toggle",
        BusEvent::ToggleSet => "overlay toggle set",
        BusEvent::ToggleUnset => "overlay toggle unset",
        BusEvent::InfoEmacs => "overlay info emacs",
        BusEvent::InfoEmacsCursor => "overlay info emacs cursor",
        BusEvent::InfoCreditsMusic => "overlay info credits music",
        BusEvent::InfoCreditsMusicClear => "overlay info credits music clear",
        BusEvent::Chat => "overlay chat",
        BusEvent::AvatarText => "overlay avatar text",
        BusEvent::Shader => "overlay shader",
        BusEvent::ShaderChat => "overlay shader chat",
        BusEvent::AutomataSpawn => "overlay automata spawn",
        BusEvent::TcgGenerate => "overlay tcg generate",
    };
    bytes_eq(event, name.as_bytes())
}

/// The topics in the order in which the overlay subscribes to them.
pub open spec fn topics() -> Seq<BusEvent> {
    seq![
        BusEvent::Reset,
        BusEvent::Tracking,
        BusEvent::BackgroundFrame,
        BusEvent::Toggle,
        BusEvent::ToggleSet,
        BusEvent::ToggleUnset,
        BusEvent::InfoEmacs,
        BusEvent::InfoEmacsCursor,
        BusEvent::InfoCreditsMusic,
        BusEvent::InfoCreditsMusicClear,
        BusEvent::Chat,
        BusEvent::AvatarText,
        BusEvent::Shader,
        BusEvent::ShaderChat,
        BusEvent::AutomataSpawn,
        BusEvent::TcgGenerate,
    ]
}

/// The topics that the overlay subscribes to, in order.
pub fn subscriptions() -> (v: Vec<BusEvent>)
    ensures
        v@ == topics(),
{
    let v = vec![
        BusEvent::Reset,
        BusEvent::Tracking,
        BusEvent::BackgroundFrame,
        BusEvent::Toggle,
        BusEvent::ToggleSet,
        BusEvent::ToggleUnset,
        BusEvent::InfoEmacs,
        BusEvent::InfoEmacsCursor,
        BusEvent::InfoCreditsMusic,
        BusEvent::InfoCreditsMusicClear,
        BusEvent::Chat,
        BusEvent::AvatarText,
        BusEvent::Shader,
        BusEvent::ShaderChat,
        BusEvent::AutomataSpawn,
        BusEvent::TcgGenerate,
    ];
    assert(v@ =~= topics());
    v
}

/// The topic name of `e`.
pub fn topic(e: BusEvent) -> (s: &'static str)
    ensures
        s@ == topic_name(e),
{
    match e {
        BusEvent::Reset => "overlay reset",
        BusEvent::Tracking => "overlay tracking",
        BusEvent::BackgroundFrame => "overlay background frame",
        BusEvent::Toggle => "overlay toggle",
        BusEvent::ToggleSet => "overlay toggle set",
        BusEvent::ToggleUnset => "overlay toggle unset",
        BusEvent::InfoEmacs => "overlay info emacs",
        BusEvent::InfoEmacsCursor => "overlay info emacs cursor",
        BusEvent::InfoCreditsMusic => "overlay info credits music",
        BusEvent::InfoCreditsMusicClear => "overlay info credits music clear",
        BusEvent::Chat => "overlay chat",
        BusEvent::AvatarText => "overlay avatar text",
        BusEvent::Shader => "overlay shader",
        BusEvent::ShaderChat => "overlay shader chat",
        BusEvent::AutomataSpawn => "overlay automata spawn",
        BusEvent::TcgGenerate => "overlay tcg generate",
    }
}

/// The topic that travels as `event`, if any.
pub open spec fn topic_of(event: Seq<u8>) -> Option<BusEvent> {
    if exists|e: BusEvent| event == topic_bytes(e) {
        Some(choose|e: BusEvent| event == topic_bytes(e))
    } else {
        None
    }
}

/// The topic whose bytes are `event`, if it is one of the overlay's.
pub fn classify(event: &[u8]) -> (r: Option<BusEvent>)
    ensures
        forall|e: BusEvent| (r == Some(e)) <==> event@ == #[trigger] topic_bytes(e),
        r == topic_of(event@),
{
    let all = subscriptions();
    let n = all.len();
    let mut i: usize = 0;
    while i < n
        invariant
            all@ == topics(),
            n == all@.len(),
            i <= n,
            forall|j: int| 0 <= j < i ==> event@ != topic_bytes(#[trigger] topics()[j]),
        decreases n - i,
    {
        if is_topic(event, all[i]) {
            let found = all[i];
            assert forall|e: BusEvent| (Some(found) == Some(e)) <==> event@ == #[trigger] topic_bytes(e) by {
                lemma_topic_bytes_distinct(found, e);
            }
            let ghost c = choose|e: BusEvent| event@ == topic_bytes(e);
            assert(event@ == topic_bytes(c));
            return Some(found);
        }
        i = i + 1;
    }
    assert forall|e: BusEvent| event@ != #[trigger] topic_bytes(e) by {
        let k: int = match e {
            BusEvent::Reset => 0,
            BusEvent::Tracking => 1,
            BusEvent::BackgroundFrame => 2,
            BusEvent::Toggle => 3,
            BusEvent::ToggleSet => 4,
            BusEvent::ToggleUnset => 5,
            BusEvent::InfoEmacs => 6,
            BusEvent::InfoEmacsCursor => 7,
            BusEvent::InfoCreditsMusic => 8,
            BusEvent::InfoCreditsMusicClear => 9,
            BusEvent::Chat => 10,
            BusEvent::AvatarText => 11,
            BusEvent::Shader => 12,
            BusEvent::ShaderChat => 13,
            BusEvent::AutomataSpawn => 14,
            BusEvent::TcgGenerate => 15,
        };
        assert(topics()[k] == e);
    }
    None
}

/// Editor and music information shown by the overlay.
pub struct Info {
    pub emacs_heartrate: i32,
    pub muzak_author: Option<String>,
}

impl Info {
    /// No heart rate yet and no music credit.
    pub fn new() -> (i: Self)
        ensures
            i.emacs_heartrate == 0,
            i.muzak_author is None,
    {
        Info { emacs_heartrate: 0, muzak_author: None }
    }

    /// Takes the editor's heart rate from a message: a little-endian `i32`.
    /// `false`, with nothing changed, where the message is shorter.
    pub fn handle_emacs(&mut self, data: &[u8]) -> (ok: bool)
        ensures
            ok == (data@.len() >= 4),
            ok ==> final(self).emacs_heartrate == le_i32(data@),
            !ok ==> final(self).emacs_heartrate == old(self).emacs_heartrate,
            final(self).muzak_author == old(self).muzak_author,
    {
        if data.len() < 4 {
            return false;
        }
        self.emacs_heartrate = read_i32_le(data);
        true
    }

    /// Takes the music credit from a message: its UTF-8 text. `false`, with
    /// nothing changed, where it is not UTF-8.
    pub fn handle_credits_music(&mut self, data: &[u8]) -> (ok: bool)
        ensures
            ok == valid_utf8(data@),
            ok ==> (final(self).muzak_author matches Some(a) && a@ == decode_utf8(data@)),
            !ok ==> final(self).muzak_author == old(self).muzak_author,
            final(self).emacs_heartrate == old(self).emacs_heartrate,
    {
        match str_from_utf8(data) {
            Some(nm) => {
                self.muzak_author = Some(nm.to_owned());
                true
            },
            None => false,
        }
    }

    /// Clears the music credit.
    pub fn clear_credits_music(&mut self)
        ensures
            final(self).muzak_author is None,
            final(self).emacs_heartrate == old(self).emacs_heartrate,
    {
        self.muzak_author = None;
    }
}

/// The credit line under the shader: "shader by A" where a shader is
/// running, "music by B" where music is credited, joined by ", ".
pub open spec fn credits_spec(shader_author: Option<Seq<char>>, music_author: Option<Seq<char>>) -> Seq<char> {
    match (shader_author, music_author) {
        (Some(a), Some(b)) => "shader by "@ + a + ", "@ + "music by "@ + b,
        (Some(a), None) => "shader by "@ + a,
        (None, Some(b)) => "music by "@ + b,
        (None, None) => Seq::empty(),
    }
}

/// The credit line under the shader.
pub fn credits_line(shader_author: Option<&str>, music_author: Option<&str>) -> (s: String)
    ensures
        s@ == credits_spec(
            match shader_author {
                Some(a) => Some(a@),
                None => None,
            },
            match music_author {
                Some(b) => Some(b@),
                None => None,
            },
        ),
{
    let mut s = String::new();
    match shader_author {
        Some(a) => {
            s.append("shader by ");
            s.append(a);
            match music_author {
                Some(b) => {
                    s.append(", ");
                    s.append("music by ");
                    s.append(b);
                },
                None => {},
            }
        },
        None => match music_author {
            Some(b) => {
                s.append("music by ");
                s.append(b);
            },
            None => {},
        },
    }
    assert(s@ =~= credits_spec(
        match shader_author {
            Some(a) => Some(a@),
            None => None,
        },
        match music_author {
            Some(b) => Some(b@),
            None => None,
        },
    ));
    s
}

} // verus!
