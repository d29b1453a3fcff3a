//! The static virtual channels of the session: arbitration, curtain and those
//! that are declared only for their presence.

use crate::text::parse::{pieces, same_chars, split, trim, trimmed};
use crate::text::{chars_of, encode_utf16, utf16};
use crate::wire::{
    bytes32, contents, le32_at, lemma_unit_bytes, push_u32, push_units, push_zeros, u32_at,
    unit_bytes, zero_bytes,
};
use vstd::prelude::*;

verus! {

/// The server's arbitration event that says the host is in use.
pub const HOST_IN_USE: u32 = 1;

/// The arbitration event with which a client takes a busy host over.
pub const TAKE_OVER: u32 = 5;

/// Length of a take-over event.
pub const TAKE_OVER_LEN: u32 = 1036;

/// How many UTF-16 units the name field of a take-over event has.
pub const NAME_UNITS: usize = 512;

/// An arbitration event: tag, length, type, argument.
pub open spec fn arbitration_event(event_type: u32, arg2: u32) -> Seq<u8> {
    bytes32(2) + bytes32(16) + bytes32(event_type) + bytes32(arg2)
}

/// The units of a name that the name field has room for.
pub open spec fn name_units(name: Seq<char>) -> Seq<u16> {
    let u = utf16(name);
    if u.len() <= NAME_UNITS {
        u
    } else {
        u.take(NAME_UNITS as int)
    }
}

/// A take-over event: tag, length, type, and the client's machine name in a
/// zero-padded field.
pub open spec fn takeover_event(client_name: Seq<char>) -> Seq<u8> {
    let units = name_units(client_name);
    bytes32(2) + bytes32(TAKE_OVER_LEN) + bytes32(TAKE_OVER) + unit_bytes(units) + zero_bytes(
        (2 * (NAME_UNITS - units.len())) as nat,
    )
}

/// The event of a server's arbitration payload; a short payload has none.
pub open spec fn server_event(payload: Seq<u8>) -> u32 {
    if payload.len() >= 12 {
        le32_at(payload, 8)
    } else {
        0
    }
}

/// The session-arbitration channel ("sessarb"). The server withholds the
/// shadow-attach (and thus all graphics) until the client arbitrates the session
/// over it. Each of the two answers is sent at most once.
#[derive(Debug, Clone, Copy, PartialEq, Eq, Structural)]
pub struct ArbitrationChannel {
    pub replies_sent: u32,
    pub takeover_sent: bool,
}

impl Default for ArbitrationChannel {
    fn default() -> (r: Self)
        ensures
            r == (ArbitrationChannel { replies_sent: 0, takeover_sent: false }),
    {
        ArbitrationChannel { replies_sent: 0, takeover_sent: false }
    }
}

/// How the client answers arbitration events.
#[derive(Debug)]
pub struct ArbitrationPolicy {
    /// Whether a busy host may be taken over.
    pub takeover: bool,
    /// The machine name that a take-over carries.
    pub client_name: String,
    /// The type of a follow-up event.
    pub reply: Option<u32>,
}

impl ArbitrationChannel {
    /// The channel after a server event, and what is sent in answer.
    pub open spec fn answer(self, event: u32, policy: ArbitrationPolicy) -> (
        ArbitrationChannel,
        Seq<Seq<u8>>,
    ) {
        if event == HOST_IN_USE && !self.takeover_sent && policy.takeover {
            (
                ArbitrationChannel { takeover_sent: true, ..self },
                seq![takeover_event(policy.client_name@)],
            )
        } else if policy.reply matches Some(t) && self.replies_sent == 0 {
            (
                ArbitrationChannel { replies_sent: 1, ..self },
                seq![arbitration_event(policy.reply.unwrap(), 0)],
            )
        } else {
            (self, Seq::empty())
        }
    }

    /// Build the 16-byte arbitration event payload.
    pub fn event(event_type: u32, arg2: u32) -> (v: Vec<u8>)
        ensures
            v@ == arbitration_event(event_type, arg2),
            v@.len() == 16,
    {
        let mut v: Vec<u8> = Vec::new();
        push_u32(&mut v, 2);  // tag
        push_u32(&mut v, 16);  // length
        push_u32(&mut v, event_type);
        push_u32(&mut v, arg2);
        assert(v@ =~= arbitration_event(event_type, arg2));
        v
    }

    /// Build the take-over event. It carries the requesting client's machine name
    /// in a 512-unit zero-padded field; the server then grants the host and
    /// attaches the shadow.
    pub fn takeover(client_name: &str) -> (v: Vec<u8>)
        ensures
            v@ == takeover_event(client_name@),
            v@.len() == TAKE_OVER_LEN,
    {
        let mut v: Vec<u8> = Vec::new();
        push_u32(&mut v, 2);  // tag
        push_u32(&mut v, TAKE_OVER_LEN);  // length
        push_u32(&mut v, TAKE_OVER);  // type
        let mut units: Vec<u16> = encode_utf16(client_name);
        if units.len() > NAME_UNITS {
            units.truncate(NAME_UNITS);
        }
        proof {
            assert(units@ == name_units(client_name@));
            lemma_unit_bytes(units@);
        }
        push_units(&mut v, units.as_slice());
        push_zeros(&mut v, 2 * (NAME_UNITS - units.len()));
        assert(v@ =~= takeover_event(client_name@));
        v
    }

    /// Answer an arbitration event of the server. A busy host is taken over where
    /// the policy allows it; else a follow-up event completes the arbitration where
    /// the policy has one.
    pub fn process(&mut self, payload: &[u8], policy: &ArbitrationPolicy) -> (r: Vec<Vec<u8>>)
        ensures
            (*final(self), contents(r@)) == old(self).answer(server_event(payload@), *policy),
    {
        let event: u32 = if payload.len() >= 12 {
            u32_at(payload, 8)
        } else {
            0
        };
        let mut out: Vec<Vec<u8>> = Vec::new();
        if event == HOST_IN_USE && !self.takeover_sent && policy.takeover {
            self.takeover_sent = true;
            out.push(ArbitrationChannel::takeover(policy.client_name.as_str()));
            assert(contents(out@) =~= seq![takeover_event(policy.client_name@)]);
            return out;
        }
        if let Some(reply) = policy.reply {
            if self.replies_sent == 0 {
                self.replies_sent = 1;
                out.push(ArbitrationChannel::event(reply, 0));
                assert(contents(out@) =~= seq![arbitration_event(reply, 0)]);
                return out;
            }
        }
        assert(contents(out@) =~= Seq::empty());
        out
    }
}

/// The channel after a run of server events, and all that is sent in answer.
pub open spec fn arbitrate(
    c: ArbitrationChannel,
    events: Seq<u32>,
    policy: ArbitrationPolicy,
) -> (ArbitrationChannel, Seq<Seq<u8>>)
    decreases events.len(),
{
    if events.len() == 0 {
        (c, Seq::empty())
    } else {
        let (before, sent) = arbitrate(c, events.drop_last(), policy);
        let (after, more) = before.answer(events.last(), policy);
        (after, sent + more)
    }
}

/// Whatever the server says, and however often, a channel sends at most one
/// take-over and one follow-up.
pub proof fn law_arbitration_answers_at_most_twice(events: Seq<u32>, policy: ArbitrationPolicy)
    ensures
        ({
            let start = ArbitrationChannel { replies_sent: 0, takeover_sent: false };
            let (end, sent) = arbitrate(start, events, policy);
            &&& sent.len() == end.replies_sent + if end.takeover_sent {
                1int
            } else {
                0int
            }
            &&& end.replies_sent <= 1
        }),
    decreases events.len(),
{
    if events.len() > 0 {
        law_arbitration_answers_at_most_twice(events.drop_last(), policy);
    }
}

/// A curtain event: one field, the type.
pub open spec fn curtain_event(type_code: u32) -> Seq<u8> {
    bytes32(1) + bytes32(12) + bytes32(type_code)
}

/// The type of the event that draws the curtain, unless configured otherwise.
pub const CURTAIN_ON: u32 = 5;

/// The type of the event that opens the curtain, unless configured otherwise.
pub const CURTAIN_OFF: u32 = 6;

/// Curtain (privacy) channel ("curtain"). Drawing the curtain makes the server
/// both blank the remote machine's physical screen and block the console's local
/// keyboard and mouse; opening it restores both.
#[derive(Debug)]
pub struct CurtainChannel;

impl CurtainChannel {
    fn event(type_code: u32) -> (v: Vec<u8>)
        ensures
            v@ == curtain_event(type_code),
    {
        let mut v: Vec<u8> = Vec::new();
        push_u32(&mut v, 1);  // field count
        push_u32(&mut v, 12);  // total byte length
        push_u32(&mut v, type_code);
        assert(v@ =~= curtain_event(type_code));
        v
    }

    /// The event that draws the curtain; `configured` overrides its type.
    pub fn enable(configured: Option<u32>) -> (v: Vec<u8>)
        ensures
            v@ == curtain_event(
                match configured {
                    Some(t) => t,
                    None => CURTAIN_ON,
                },
            ),
    {
        match configured {
            Some(t) => CurtainChannel::event(t),
            None => CurtainChannel::event(CURTAIN_ON),
        }
    }

    /// The event that opens the curtain; `configured` overrides its type.
    pub fn disable(configured: Option<u32>) -> (v: Vec<u8>)
        ensures
            v@ == curtain_event(
                match configured {
                    Some(t) => t,
                    None => CURTAIN_OFF,
                },
            ),
    {
        match configured {
            Some(t) => CurtainChannel::event(t),
            None => CurtainChannel::event(CURTAIN_OFF),
        }
    }
}

/// A channel to declare.
#[derive(Debug, Clone, Copy, PartialEq, Eq, Structural)]
pub enum Channel {
    /// Declared only for its presence in the negotiation.
    Passive(ChannelName),
    Clipboard,
    Curtain,
    Arbitration,
}

/// The names of the channels that are declared.
#[derive(Debug, Clone, Copy, PartialEq, Eq, Structural)]
pub enum ChannelName {
    Rdpdr,
    Rdpsnd,
    Cliprdr,
    Curtain,
    Sessarb,
    Dynres,
    Dskcfg,
    Drdynvc,
}

impl ChannelName {
    pub open spec fn text(self) -> Seq<char> {
        match self {
            ChannelName::Rdpdr => "rdpdr"@,
            ChannelName::Rdpsnd => "rdpsnd"@,
            ChannelName::Cliprdr => "cliprdr"@,
            ChannelName::Curtain => "curtain"@,
            ChannelName::Sessarb => "sessarb"@,
            ChannelName::Dynres => "dynres"@,
            ChannelName::Dskcfg => "dskcfg"@,
            ChannelName::Drdynvc => "drdynvc"@,
        }
    }

    /// The name as it is declared.
    pub fn as_str(&self) -> (r: &'static str)
        ensures
            r@ == self.text(),
    {
        match self {
            ChannelName::Rdpdr => "rdpdr",
            ChannelName::Rdpsnd => "rdpsnd",
            ChannelName::Cliprdr => "cliprdr",
            ChannelName::Curtain => "curtain",
            ChannelName::Sessarb => "sessarb",
            ChannelName::Dynres => "dynres",
            ChannelName::Dskcfg => "dskcfg",
            ChannelName::Drdynvc => "drdynvc",
        }
    }
}

impl Channel {
    pub open spec fn channel_name(self) -> ChannelName {
        match self {
            Channel::Passive(n) => n,
            Channel::Clipboard => ChannelName::Cliprdr,
            Channel::Curtain => ChannelName::Curtain,
            Channel::Arbitration => ChannelName::Sessarb,
        }
    }

    /// The name under which the channel is declared.
    pub fn name(&self) -> (r: ChannelName)
        ensures
            r == self.channel_name(),
    {
        match self {
            Channel::Passive(n) => *n,
            Channel::Clipboard => ChannelName::Cliprdr,
            Channel::Curtain => ChannelName::Curtain,
            Channel::Arbitration => ChannelName::Sessarb,
        }
    }
}

/// Which channels the client serves.
#[derive(Debug, Clone, Copy, PartialEq, Eq, Structural)]
pub struct ChannelSettings {
    /// Arbitrate the session: declare the full set.
    pub arbitration: bool,
    /// Declare a small passive set.
    pub passive: bool,
    pub clipboard: bool,
    pub curtain: bool,
}

/// The channels to declare, in order. With arbitration it is the full set in the
/// order that the server expects, where the clipboard and the curtain are served
/// only if they are asked for.
pub open spec fn channels_for(s: ChannelSettings) -> Seq<Channel> {
    if s.arbitration {
        seq![
            Channel::Passive(ChannelName::Rdpdr),
            Channel::Passive(ChannelName::Rdpsnd),
            if s.clipboard {
                Channel::Clipboard
            } else {
                Channel::Passive(ChannelName::Cliprdr)
            },
            if s.curtain {
                Channel::Curtain
            } else {
                Channel::Passive(ChannelName::Curtain)
            },
            Channel::Arbitration,
            Channel::Passive(ChannelName::Dynres),
            Channel::Passive(ChannelName::Dskcfg),
            Channel::Passive(ChannelName::Drdynvc),
        ]
    } else if s.passive {
        seq![
            Channel::Passive(ChannelName::Cliprdr),
            Channel::Passive(ChannelName::Rdpsnd),
            Channel::Passive(ChannelName::Rdpdr),
            Channel::Passive(ChannelName::Drdynvc),
        ]
    } else {
        Seq::empty()
    }
}

/// The channels to declare.
pub fn declared_channels(s: ChannelSettings) -> (r: Vec<Channel>)
    ensures
        r@ == channels_for(s),
{
    let mut v: Vec<Channel> = Vec::new();
    if s.arbitration {
        v.push(Channel::Passive(ChannelName::Rdpdr));
        v.push(Channel::Passive(ChannelName::Rdpsnd));
        if s.clipboard {
            v.push(Channel::Clipboard);
        } else {
            v.push(Channel::Passive(ChannelName::Cliprdr));
        }
        if s.curtain {
            v.push(Channel::Curtain);
        } else {
            v.push(Channel::Passive(ChannelName::Curtain));
        }
        v.push(Channel::Arbitration);
        v.push(Channel::Passive(ChannelName::Dynres));
        v.push(Channel::Passive(ChannelName::Dskcfg));
        v.push(Channel::Passive(ChannelName::Drdynvc));
    } else if s.passive {
        v.push(Channel::Passive(ChannelName::Cliprdr));
        v.push(Channel::Passive(ChannelName::Rdpsnd));
        v.push(Channel::Passive(ChannelName::Rdpdr));
        v.push(Channel::Passive(ChannelName::Drdynvc));
    }
    assert(v@ =~= channels_for(s));
    v
}

/// With arbitration the server sees the same channel names in the same order,
/// whatever else is asked for: it assigns channel ids in that order.
pub proof fn law_channel_order_is_fixed(a: ChannelSettings, b: ChannelSettings, i: int)
    requires
        a.arbitration,
        b.arbitration,
        0 <= i < 8,
    ensures
        channels_for(a).len() == channels_for(b).len() == 8,
        channels_for(a)[i].channel_name() == channels_for(b)[i].channel_name(),
{
}

/// The command of a dynamic virtual channel PDU: the high half of its first byte.
pub open spec fn dvc_command_name(first: u8) -> Seq<char> {
    let cmd = first / 0x10;
    if cmd == 1 {
        "CREATE"@
    } else if cmd == 2 {
        "DATA_FIRST"@
    } else if cmd == 3 {
        "DATA"@
    } else if cmd == 4 {
        "CLOSE"@
    } else if cmd == 5 {
        "CAPABILITY_REQUEST"@
    } else if cmd == 6 {
        "DATA_FIRST_COMPRESSED"@
    } else if cmd == 7 {
        "DATA_COMPRESSED"@
    } else if cmd == 8 {
        "SOFT_SYNC_REQUEST"@
    } else {
        "?"@
    }
}

/// The name of a dynamic virtual channel PDU's command.
pub fn dvc_command(first: u8) -> (r: &'static str)
    ensures
        r@ == dvc_command_name(first),
{
    match first / 0x10 {
        1 => "CREATE",
        2 => "DATA_FIRST",
        3 => "DATA",
        4 => "CLOSE",
        5 => "CAPABILITY_REQUEST",
        6 => "DATA_FIRST_COMPRESSED",
        7 => "DATA_COMPRESSED",
        8 => "SOFT_SYNC_REQUEST",
        _ => "?",
    }
}

/// Whether a wish to see the traffic of channels covers `name`: "1" covers all,
/// else it is a list of names with commas between them.
pub open spec fn wanted(want: Seq<char>, name: Seq<char>) -> bool {
    want == "1"@ || exists|i: int|
        0 <= i < pieces(want, ',').len() && trimmed(#[trigger] pieces(want, ',')[i]) == name
}

/// Whether the traffic of the channel `name` is to be shown.
pub fn wants_dump(want: &str, name: &str) -> (r: bool)
    ensures
        r == wanted(want@, name@),
{
    let all: Vec<char> = chars_of("1");
    let chars: Vec<char> = chars_of(want);
    let wanted_name: Vec<char> = chars_of(name);
    if same_chars(chars.as_slice(), all.as_slice()) {
        return true;
    }
    let parts: Vec<Vec<char>> = split(chars.as_slice(), ',');
    let mut i: usize = 0;
    while i < parts.len()
        invariant
            i <= parts@.len(),
            wanted_name@ == name@,
            parts@.len() == pieces(want@, ',').len(),
            forall|k: int| 0 <= k < parts@.len() ==> parts@[k]@ == #[trigger] pieces(want@, ',')[k],
            forall|k: int| 0 <= k < i ==> trimmed(#[trigger] pieces(want@, ',')[k]) != name@,
        decreases parts@.len() - i,
    {
        assert(parts@[i as int]@ == pieces(want@, ',')[i as int]);
        if same_chars(trim(parts[i].as_slice()), wanted_name.as_slice()) {
            return true;
        }
        i = i + 1;
    }
    false
}

} // verus!
