//! Lifecycle topics: `<team>/features/lifecycle/<device>/<handler>`.
use crate::io::topics::component_topic::{joined, lemma_split_joined};
use crate::io::topics::{NoTeamIdSet, Topic};
use crate::text::{
    chars_of, cut_points, field_is, int_text, lemma_int_text_chars, lemma_nat_text,
    lemma_parse_int_text, lemma_separators, parse_i32, parse_int, separators, split,
};
use std::convert::TryFrom;
use vstd::prelude::*;
use vstd::std_specs::convert::TryFromSpecImpl;

verus! {

/// Why a text is no lifecycle topic.
#[derive(Clone, Copy, Debug, Eq, PartialEq, Structural)]
pub enum LifeCycleTopicBuildError {
    /// The text is not `<team>/features/lifecycle/<device>/<handler>` with an
    /// unsigned team number of 32 bits, a known device and a known handler.
    InvalidFormat,
}

/// The error for a text that names no device.
#[derive(Debug)]
pub struct UnknownDevice {
    /// The text that was given.
    pub device: String,
}

/// Who a lifecycle event is about.
#[derive(Clone, Copy, Debug, Eq, Hash, PartialEq, Structural)]
pub enum Device {
    Controller,
    Simulator,
}

impl Device {
    /// The lower-case name of the device, as topics spell it.
    pub open spec fn text(self) -> Seq<char> {
        match self {
            Device::Controller => "controller"@,
            Device::Simulator => "simulator"@,
        }
    }

    /// The device that `s` names, if any.
    pub open spec fn named(s: Seq<char>) -> Option<Device> {
        if s == "controller"@ {
            Some(Device::Controller)
        } else if s == "simulator"@ {
            Some(Device::Simulator)
        } else {
            None
        }
    }

    /// Every device is named by its own text, which holds no `/`.
    pub proof fn lemma_text(self)
        ensures
            Device::named(self.text()) == Some(self),
            !self.text().contains('/'),
    {
        reveal_strlit("controller");
        reveal_strlit("simulator");
        let t = self.text();
        assert(t.len() == 10 ==> t[0] == 'c');
        assert(t.len() == 9 ==> t[0] == 's');
        if t.contains('/') {
            let i = choose|i: int| 0 <= i < t.len() && t[i] == '/';
            assert(t[i] == '/');
        }
    }

    /// The lower-case name of the device.
    pub fn as_str(&self) -> (s: &'static str)
        ensures
            s@ == self.text(),
    {
        match self {
            Device::Controller => "controller",
            Device::Simulator => "simulator",
        }
    }

    /// The lower-case name of the device, owned.
    pub fn to_string(&self) -> (s: String)
        ensures
            s@ == self.text(),
    {
        String::from_str(self.as_str())
    }

    /// Reads a device from the characters of `chars` from `from` up to `to`.
    pub fn from_chars(chars: &Vec<char>, from: usize, to: usize) -> (device: Option<Device>)
        requires
            from <= to <= chars.len(),
        ensures
            device == Device::named(chars@.subrange(from as int, to as int)),
    {
        if field_is(chars, from, to, "controller") {
            Some(Device::Controller)
        } else if field_is(chars, from, to, "simulator") {
            Some(Device::Simulator)
        } else {
            None
        }
    }
}

impl<'a> TryFrom<&'a str> for Device {
    type Error = UnknownDevice;

    /// Reads a device from its lower-case name. Any other text is refused, and
    /// the error carries that text.
    fn try_from(value: &'a str) -> (device: Result<Self, Self::Error>)
        ensures
            match device {
                Ok(d) => Device::named(value@) == Some(d),
                Err(e) => Device::named(value@).is_none() && e.device@ == value@,
            },
    {
        let chars = chars_of(value);
        assert(chars@.subrange(0, chars@.len() as int) =~= value@);
        match Device::from_chars(&chars, 0, chars.len()) {
            Some(d) => Ok(d),
            None => Err(UnknownDevice { device: String::from_str(value) }),
        }
    }
}

impl<'a> TryFromSpecImpl<&'a str> for Device {
    open spec fn obeys_try_from_spec() -> bool {
        false
    }

    open spec fn try_from_spec(v: &'a str) -> Result<Self, Self::Error> {
        arbitrary()
    }
}

/// The error for a text that names no handler.
#[derive(Debug)]
pub struct UnknownHandler {
    /// The text that was given.
    pub handler: String,
}

/// What happened to a device.
#[derive(Clone, Copy, Debug, Eq, Hash, PartialEq, Structural)]
pub enum Handler {
    Connect,
    Disconnect,
}

impl Handler {
    /// The lower-case name of the handler, as topics spell it.
    pub open spec fn text(self) -> Seq<char> {
        match self {
            Handler::Connect => "onconnect"@,
            Handler::Disconnect => "ondisconnect"@,
        }
    }

    /// The handler that `s` names, if any.
    pub open spec fn named(s: Seq<char>) -> Option<Handler> {
        if s == "onconnect"@ {
            Some(Handler::Connect)
        } else if s == "ondisconnect"@ {
            Some(Handler::Disconnect)
        } else {
            None
        }
    }

    /// Every handler is named by its own text, which holds no `/`.
    pub proof fn lemma_text(self)
        ensures
            Handler::named(self.text()) == Some(self),
            !self.text().contains('/'),
    {
        reveal_strlit("onconnect");
        reveal_strlit("ondisconnect");
        let t = self.text();
        assert(t.len() == 9 || t.len() == 12);
        if t.contains('/') {
            let i = choose|i: int| 0 <= i < t.len() && t[i] == '/';
            assert(t[i] == '/');
        }
    }

    /// The lower-case name of the handler.
    pub fn as_str(&self) -> (s: &'static str)
        ensures
            s@ == self.text(),
    {
        match self {
            Handler::Connect => "onconnect",
            Handler::Disconnect => "ondisconnect",
        }
    }

    /// The lower-case name of the handler, owned.
    pub fn to_string(&self) -> (s: String)
        ensures
            s@ == self.text(),
    {
        String::from_str(self.as_str())
    }

    /// Reads a handler from the characters of `chars` from `from` up to `to`.
    pub fn from_chars(chars: &Vec<char>, from: usize, to: usize) -> (handler: Option<Handler>)
        requires
            from <= to <= chars.len(),
        ensures
            handler == Handler::named(chars@.subrange(from as int, to as int)),
    {
        if field_is(chars, from, to, "onconnect") {
            Some(Handler::Connect)
        } else if field_is(chars, from, to, "ondisconnect") {
            Some(Handler::Disconnect)
        } else {
            None
        }
    }
}

impl<'a> TryFrom<&'a str> for Handler {
    type Error = UnknownHandler;

    /// Reads a handler from its lower-case name. Any other text is refused,
    /// and the error carries that text.
    fn try_from(value: &'a str) -> (handler: Result<Self, Self::Error>)
        ensures
            match handler {
                Ok(h) => Handler::named(value@) == Some(h),
                Err(e) => Handler::named(value@).is_none() && e.handler@ == value@,
            },
    {
        let chars = chars_of(value);
        assert(chars@.subrange(0, chars@.len() as int) =~= value@);
        match Handler::from_chars(&chars, 0, chars.len()) {
            Some(h) => Ok(h),
            None => Err(UnknownHandler { handler: String::from_str(value) }),
        }
    }
}

impl<'a> TryFromSpecImpl<&'a str> for Handler {
    open spec fn obeys_try_from_spec() -> bool {
        false
    }

    open spec fn try_from_spec(v: &'a str) -> Result<Self, Self::Error> {
        arbitrary()
    }
}

/// The topic of one lifecycle event, for one team.
#[derive(Clone, Copy, Debug, Eq, Hash, PartialEq, Structural)]
pub struct LifeCycleTopic {
    pub team_id: Option<i32>,
    pub device: Device,
    pub handler: Handler,
}

/// The team number that the field `s` holds: digits only, and no more than
/// 32 bits hold.
pub open spec fn team_number(s: Seq<char>) -> Option<int> {
    if s.len() > 0 && (s[0] == '+' || s[0] == '-') {
        None
    } else {
        parse_int(s)
    }
}

impl LifeCycleTopic {
    /// The topic of `handler` on `device`, with no team set.
    pub fn new(device: Device, handler: Handler) -> (topic: Self)
        ensures
            topic == (LifeCycleTopic { team_id: None, device, handler }),
    {
        Self { team_id: None, device, handler }
    }

    /// The text of a topic that has a team.
    pub open spec fn text(self) -> Seq<char>
        recommends
            self.team_id.is_some(),
    {
        joined(
            int_text(self.team_id.unwrap() as int),
            "features"@,
            "lifecycle"@,
            self.device.text(),
            self.handler.text(),
        )
    }

    /// What the text `s` is read as: a topic where it is an unsigned team
    /// number, `features`, `lifecycle`, a device and a handler, joined by `/`.
    pub open spec fn parsed(s: Seq<char>) -> Result<LifeCycleTopic, LifeCycleTopicBuildError> {
        let parts = split(s, '/');
        if parts.len() == 5 && team_number(parts[0]).is_some() && parts[1] == "features"@
            && parts[2] == "lifecycle"@ && Device::named(parts[3]).is_some() && Handler::named(
            parts[4],
        ).is_some() {
            Ok(
                LifeCycleTopic {
                    team_id: Some(team_number(parts[0]).unwrap() as i32),
                    device: Device::named(parts[3]).unwrap(),
                    handler: Handler::named(parts[4]).unwrap(),
                },
            )
        } else {
            Err(LifeCycleTopicBuildError::InvalidFormat)
        }
    }

    /// Reading the text of a topic whose team is not negative gives the topic
    /// back.
    pub proof fn lemma_round_trip(self)
        requires
            self.team_id.is_some(),
            self.team_id.unwrap() >= 0,
        ensures
            LifeCycleTopic::parsed(self.text()) == Ok::<LifeCycleTopic, LifeCycleTopicBuildError>(
                self,
            ),
    {
        let team = self.team_id.unwrap() as int;
        let a = int_text(team);
        reveal_strlit("features");
        reveal_strlit("lifecycle");
        let b = "features"@;
        let c = "lifecycle"@;
        lemma_int_text_chars(team, '/');
        self.device.lemma_text();
        self.handler.lemma_text();
        if b.contains('/') {
            let i = choose|i: int| 0 <= i < b.len() && b[i] == '/';
            assert(b[i] == '/');
        }
        if c.contains('/') {
            let i = choose|i: int| 0 <= i < c.len() && c[i] == '/';
            assert(c[i] == '/');
        }
        lemma_split_joined(a, b, c, self.device.text(), self.handler.text());
        lemma_parse_int_text(team);
        lemma_nat_text(team as nat);
        assert(crate::text::is_digit(a[0]));
    }

    /// The text of the topic.
    pub fn to_string(&self) -> (s: String)
        requires
            self.team_id.is_some(),
        ensures
            s@ == self.text(),
    {
        let mut s = String::new();
        match self.team_id {
            Some(t) => crate::text::push_i32(&mut s, t),
            None => {},
        }
        proof {
            reveal_strlit("/features/lifecycle/");
            reveal_strlit("features");
            reveal_strlit("lifecycle");
            reveal_strlit("/");
        }
        s.append("/features/lifecycle/");
        s.append(self.device.as_str());
        s.append("/");
        s.append(self.handler.as_str());
        assert(s@ =~= self.text());
        s
    }
}

impl Topic for LifeCycleTopic {
    open spec fn team(&self) -> Option<i32> {
        self.team_id
    }

    fn team_id(&self) -> (team: Result<i32, NoTeamIdSet>) {
        match self.team_id {
            Some(team_id) => Ok(team_id),
            None => Err(NoTeamIdSet),
        }
    }

    fn set_team_id(&mut self, team_id: i32)
        ensures
            *final(self) == (LifeCycleTopic {
                team_id: Some(team_id),
                device: old(self).device,
                handler: old(self).handler,
            }),
    {
        self.team_id = Some(team_id)
    }
}

impl<'a> TryFrom<&'a str> for LifeCycleTopic {
    type Error = LifeCycleTopicBuildError;

    /// Reads a topic from its text.
    fn try_from(value: &'a str) -> (topic: Result<Self, Self::Error>)
        ensures
            topic == LifeCycleTopic::parsed(value@),
    {
        let chars = chars_of(value);
        let cuts = cut_points(&chars, '/');
        let ghost s = value@;
        let ghost marks = separators(s, '/', s.len() as int);
        proof {
            lemma_separators(s, '/', s.len() as int);
            assert(cuts@.len() == marks.len());
            assert forall|k: int| 0 <= k < cuts@.len() implies cuts@[k] == marks[k] by {
                assert(cuts@.map_values(|p: usize| p as int)[k] == marks[k]);
            }
        }
        if cuts.len() != 4 {
            return Err(LifeCycleTopicBuildError::InvalidFormat);
        }
        let ghost parts = split(s, '/');
        let c0 = cuts[0];
        let c1 = cuts[1];
        let c2 = cuts[2];
        let c3 = cuts[3];
        proof {
            assert(marks[0] < marks[1] < marks[2] < marks[3]);
            assert(parts[0] == s.subrange(0, c0 as int));
            assert(parts[1] == s.subrange(c0 + 1, c1 as int));
            assert(parts[2] == s.subrange(c1 + 1, c2 as int));
            assert(parts[3] == s.subrange(c2 + 1, c3 as int));
            assert(parts[4] == s.subrange(c3 + 1, s.len() as int));
        }
        if c0 > 0 && (chars[0] == '+' || chars[0] == '-') {
            assert(parts[0][0] == chars@[0]);
            return Err(LifeCycleTopicBuildError::InvalidFormat);
        }
        assert(c0 > 0 ==> parts[0][0] == chars@[0]);
        let team = match parse_i32(&chars, 0, c0) {
            Some(v) => v,
            None => {
                return Err(LifeCycleTopicBuildError::InvalidFormat);
            },
        };
        if !field_is(&chars, c0 + 1, c1, "features") {
            return Err(LifeCycleTopicBuildError::InvalidFormat);
        }
        if !field_is(&chars, c1 + 1, c2, "lifecycle") {
            return Err(LifeCycleTopicBuildError::InvalidFormat);
        }
        let device = match Device::from_chars(&chars, c2 + 1, c3) {
            Some(d) => d,
            None => {
                return Err(LifeCycleTopicBuildError::InvalidFormat);
            },
        };
        let handler = match Handler::from_chars(&chars, c3 + 1, chars.len()) {
            Some(h) => h,
            None => {
                return Err(LifeCycleTopicBuildError::InvalidFormat);
            },
        };
        Ok(LifeCycleTopic { team_id: Some(team), device, handler })
    }
}

impl<'a> TryFromSpecImpl<&'a str> for LifeCycleTopic {
    open spec fn obeys_try_from_spec() -> bool {
        true
    }

    open spec fn try_from_spec(v: &'a str) -> Result<Self, Self::Error> {
        LifeCycleTopic::parsed(v@)
    }
}

} // verus!
