//! Component identifiers and the capabilities that every state type has.
use crate::intersections::group::{GroupChannels, GroupId, GroupKind};
use crate::intersections::intersection::IntersectionChannels;
use std::convert::TryFrom;
use vstd::prelude::*;
use vstd::std_specs::convert::TryFromSpecImpl;

verus! {

/// The error for a text that names no component kind.
#[derive(Debug)]
pub struct ComponentKindBuildError {
    /// The text that was given.
    pub kind: String,
}

/// What a component is.
#[derive(Clone, Copy, Debug, Eq, Hash, PartialEq, Structural)]
pub enum ComponentKind {
    Light,
    Sensor,
    Gate,
    Deck,
}

impl ComponentKind {
    /// The lower-case name of the kind, as topics and configuration spell it.
    pub open spec fn text(self) -> Seq<char> {
        match self {
            ComponentKind::Light => "light"@,
            ComponentKind::Sensor => "sensor"@,
            ComponentKind::Gate => "gate"@,
            ComponentKind::Deck => "deck"@,
        }
    }

    /// The kind that `s` names, if any.
    pub open spec fn named(s: Seq<char>) -> Option<ComponentKind> {
        if s == "light"@ {
            Some(ComponentKind::Light)
        } else if s == "sensor"@ {
            Some(ComponentKind::Sensor)
        } else if s == "gate"@ {
            Some(ComponentKind::Gate)
        } else if s == "deck"@ {
            Some(ComponentKind::Deck)
        } else {
            None
        }
    }

    /// Every kind is named by its own text, which holds no `/`.
    pub proof fn lemma_text(self)
        ensures
            ComponentKind::named(self.text()) == Some(self),
            !self.text().contains('/'),
    {
        reveal_strlit("light");
        reveal_strlit("sensor");
        reveal_strlit("gate");
        reveal_strlit("deck");
        let t = self.text();
        assert(t.len() == 5 ==> t[0] == 'l');
        assert(t.len() == 6 ==> t[0] == 's');
        assert(t.len() == 4 ==> (t[0] == 'g' || t[0] == 'd'));
        if t.contains('/') {
            let i = choose|i: int| 0 <= i < t.len() && t[i] == '/';
            assert(t[i] == '/');
        }
    }

    /// A text names at most the kind whose text it is.
    pub proof fn lemma_named(s: Seq<char>)
        ensures
            ComponentKind::named(s) matches Some(k) ==> k.text() == s,
    {
    }

    /// The lower-case name of the kind.
    pub fn as_str(&self) -> (s: &'static str)
        ensures
            s@ == self.text(),
    {
        match self {
            ComponentKind::Light => "light",
            ComponentKind::Sensor => "sensor",
            ComponentKind::Gate => "gate",
            ComponentKind::Deck => "deck",
        }
    }

    /// The lower-case name of the kind, owned.
    pub fn to_string(&self) -> (s: String)
        ensures
            s@ == self.text(),
    {
        String::from_str(self.as_str())
    }

    /// Reads a kind from the characters of `chars` from `from` up to `to`.
    pub fn from_chars(chars: &Vec<char>, from: usize, to: usize) -> (kind: Option<ComponentKind>)
        requires
            from <= to <= chars.len(),
        ensures
            kind == ComponentKind::named(chars@.subrange(from as int, to as int)),
    {
        if crate::text::field_is(chars, from, to, "light") {
            Some(ComponentKind::Light)
        } else if crate::text::field_is(chars, from, to, "sensor") {
            Some(ComponentKind::Sensor)
        } else if crate::text::field_is(chars, from, to, "gate") {
            Some(ComponentKind::Gate)
        } else if crate::text::field_is(chars, from, to, "deck") {
            Some(ComponentKind::Deck)
        } else {
            None
        }
    }
}

impl<'a> TryFrom<&'a str> for ComponentKind {
    type Error = ComponentKindBuildError;

    /// Reads a kind from its lower-case name. Any other text is refused, and
    /// the error carries that text.
    fn try_from(value: &'a str) -> (kind: Result<Self, Self::Error>)
        ensures
            match kind {
                Ok(k) => ComponentKind::named(value@) == Some(k),
                Err(e) => ComponentKind::named(value@).is_none() && e.kind@ == value@,
            },
    {
        let chars = crate::text::chars_of(value);
        assert(chars@.subrange(0, chars@.len() as int) =~= value@);
        match ComponentKind::from_chars(&chars, 0, chars.len()) {
            Some(k) => Ok(k),
            None => Err(ComponentKindBuildError { kind: String::from_str(value) }),
        }
    }
}

impl<'a> TryFromSpecImpl<&'a str> for ComponentKind {
    open spec fn obeys_try_from_spec() -> bool {
        false
    }

    open spec fn try_from_spec(v: &'a str) -> Result<Self, Self::Error> {
        arbitrary()
    }
}

/// The identifier of a component within its group: its kind and its number.
#[derive(Clone, Copy, Debug, Eq, Hash, PartialEq, Structural)]
pub struct ComponentId {
    pub kind: ComponentKind,
    pub id: i32,
}

impl ComponentId {
    /// The text of the identifier: `<kind>/<id>`.
    pub open spec fn text(self) -> Seq<char> {
        self.kind.text() + seq!['/'] + crate::text::int_text(self.id as int)
    }

    /// Appends the text of the identifier to `out`.
    pub fn push_to(&self, out: &mut String)
        ensures
            final(out)@ == old(out)@ + self.text(),
    {
        proof {
            reveal_strlit("/");
        }
        out.append(self.kind.as_str());
        out.append("/");
        crate::text::push_i32(out, self.id);
        assert(out@ =~= old(out)@ + self.text());
    }

    /// The text of the identifier: `<kind>/<id>`.
    pub fn to_string(&self) -> (s: String)
        ensures
            s@ == self.text(),
    {
        let mut s = String::new();
        self.push_to(&mut s);
        assert(s@ =~= self.text());
        s
    }
}

/// The identifier of a component within an installation: its group and its
/// identifier within the group.
#[derive(Clone, Copy, Debug, Eq, Hash, PartialEq, Structural)]
pub struct ComponentUid {
    pub group_id: GroupId,
    pub component_id: ComponentId,
}

impl ComponentUid {
    /// The identifier of component `component_kind`/`component_id` in group
    /// `group_kind`/`group_id`.
    pub fn new(
        group_kind: GroupKind,
        group_id: i32,
        component_kind: ComponentKind,
        component_id: i32,
    ) -> (uid: Self)
        ensures
            uid == (ComponentUid {
                group_id: GroupId { kind: group_kind, id: group_id },
                component_id: ComponentId { kind: component_kind, id: component_id },
            }),
    {
        Self {
            group_id: GroupId { kind: group_kind, id: group_id },
            component_id: ComponentId { kind: component_kind, id: component_id },
        }
    }

    /// The text of the identifier:
    /// `<group_kind>/<group_id>/<component_kind>/<component_id>`.
    pub open spec fn text(self) -> Seq<char> {
        self.group_id.text() + seq!['/'] + self.component_id.text()
    }

    /// Appends the text of the identifier to `out`.
    pub fn push_to(&self, out: &mut String)
        ensures
            final(out)@ == old(out)@ + self.text(),
    {
        proof {
            reveal_strlit("/");
        }
        self.group_id.push_to(out);
        out.append("/");
        self.component_id.push_to(out);
        assert(out@ =~= old(out)@ + self.text());
    }

    /// The text of the identifier.
    pub fn to_string(&self) -> (s: String)
        ensures
            s@ == self.text(),
    {
        let mut s = String::new();
        self.push_to(&mut s);
        assert(s@ =~= self.text());
        s
    }
}

/// What every state type offers: a code of 32 bits for each state, from which
/// the state can be read back.
pub trait ComponentState: Copy + Sized {
    /// The integer that stands for the state in payloads.
    spec fn code(self) -> int;

    /// The state that `code` stands for, if any.
    spec fn decoded(code: int) -> Option<Self>;

    /// How many states there are.
    spec fn states() -> int;

    /// Decoding undoes encoding; the codes are the numbers from 0 up to the
    /// number of states, and no other integer decodes.
    proof fn lemma_codec(code: int)
        ensures
            Self::decoded(code) matches Some(s) ==> s.code() == code,
            Self::decoded(code).is_some() <==> 0 <= code < Self::states(),
            forall|s: Self| #[trigger] Self::decoded(s.code()) == Some(s),
            0 < Self::states() <= i32::MAX,
    ;

    /// The integer that stands for the state.
    fn to_int(self) -> (code: i32)
        ensures
            code == self.code(),
    ;

    /// The state that `code` stands for, if any.
    fn from_int(code: i32) -> (state: Option<Self>)
        ensures
            state == Self::decoded(code as int),
    ;

    /// Whether two states are the same.
    fn same(self, other: Self) -> (same: bool)
        ensures
            same == (self == other),
    ;
}

/// What every component offers: its identity, its state with the instant at
/// which it was set, and the means to set it.
///
/// Setting the state writes the state and the instant together and then tells
/// it exactly once on the component's own channel, on the channels of its
/// group and on those of its intersection.
pub trait Component<S: ComponentState>: Sized {
    /// The state of the component.
    spec fn current(&self) -> S;

    /// The state that a reset sets.
    spec fn initial(&self) -> S;

    /// The instant at which the state was last set.
    spec fn since(&self) -> int;

    /// The identifier of the component within the installation.
    spec fn identity(&self) -> ComponentUid;

    /// The events on the component's own channel that nobody has taken out.
    spec fn pending(&self) -> Seq<ComponentUid>;

    /// The events on the component's own channel that nobody has taken out.
    fn receiver(&self) -> (events: &Vec<ComponentUid>)
        ensures
            events@ == self.pending(),
    ;

    /// The group that the component belongs to.
    fn group(&self) -> (group: GroupId)
        ensures
            group == self.identity().group_id,
    ;

    /// The current state.
    fn state(&self) -> (state: S)
        ensures
            state == self.current(),
    ;

    /// The state that a reset sets.
    fn initial_state(&self) -> (state: S)
        ensures
            state == self.initial(),
    ;

    /// Writes the state and the instant, and sends nothing.
    fn set_state_internal(&mut self, state: S, now: i64)
        ensures
            final(self).current() == state,
            final(self).since() == now,
            final(self).initial() == old(self).initial(),
            final(self).identity() == old(self).identity(),
            final(self).pending() == old(self).pending(),
    ;

    /// The instant at which the state was last set.
    fn timestamp(&self) -> (timestamp: i64)
        ensures
            timestamp == self.since(),
    ;

    /// The identifier of the component within its group.
    fn id(&self) -> (id: ComponentId)
        ensures
            id == self.identity().component_id,
    ;

    /// Sets the state at `now` and tells it, once on every channel.
    fn set_state(
        &mut self,
        state: S,
        now: i64,
        group: &mut GroupChannels,
        intersection: &mut IntersectionChannels,
    )
        ensures
            final(self).current() == state,
            final(self).since() == now,
            final(self).initial() == old(self).initial(),
            final(self).identity() == old(self).identity(),
            final(self).pending() == old(self).pending().push(old(self).identity()),
            final(group)@ == old(group)@.send_actuator(old(self).identity()),
            final(intersection)@ == old(intersection)@.send_state(old(self).identity()),
    ;

    /// The identifier of the component within the installation.
    fn uid(&self) -> (uid: ComponentUid)
        ensures
            uid == self.identity(),
    ;

    /// Sets the initial state at `now` and tells it, once on every channel.
    fn reset(
        &mut self,
        now: i64,
        group: &mut GroupChannels,
        intersection: &mut IntersectionChannels,
    )
        ensures
            final(self).current() == old(self).initial(),
            final(self).since() == now,
            final(self).initial() == old(self).initial(),
            final(self).identity() == old(self).identity(),
            final(self).pending() == old(self).pending().push(old(self).identity()),
            final(group)@ == old(group)@.send_actuator(old(self).identity()),
            final(intersection)@ == old(intersection)@.send_state(old(self).identity()),
    ;

    /// Whether at `now` the component is in `state` and has been since at
    /// least `duration` milliseconds.
    fn triggered_for(&self, duration: u64, state: S, now: i64) -> (triggered: bool)
        ensures
            triggered == (self.current() == state && now - self.since() >= duration),
    ;
}

} // verus!
