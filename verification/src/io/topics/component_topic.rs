//! Component topics: `<team>/<group_kind>/<group_id>/<component_kind>/<component_id>`.
use crate::intersections::component::{ComponentId, ComponentKind, ComponentUid};
use crate::intersections::group::{GroupId, GroupKind};
use crate::io::topics::{NoTeamIdSet, Topic};
use crate::text::{
    chars_of, cut_points, int_text, lemma_int_text_chars, lemma_parse_int_text, lemma_separators,
    lemma_split_cons, lemma_split_single, parse_i32, parse_int, separators, split,
};
use std::convert::TryFrom;
use vstd::prelude::*;
use vstd::std_specs::convert::{FromSpecImpl, TryFromSpecImpl};

verus! {

/// Why a text is no component topic: the number of its fields, or the first
/// field that cannot be read.
#[derive(Clone, Copy, Debug, Eq, PartialEq, Structural)]
pub enum ComponentTopicBuildError {
    /// The text does not have five fields.
    InvalidAmountOfTopicParts,
    /// The first field is no number of 32 bits.
    InvalidTeamId,
    /// The second field names no group kind.
    InvalidGroupKind,
    /// The third field is no number of 32 bits.
    InvalidGroupId,
    /// The fourth field names no component kind.
    InvalidComponentKind,
    /// The fifth field is no number of 32 bits.
    InvalidComponentId,
}

/// The topic of one component, for one team.
#[derive(Clone, Copy, Debug, Eq, Hash, PartialEq, Structural)]
pub struct ComponentTopic {
    pub team_id: Option<i32>,
    pub uid: ComponentUid,
}

/// The five fields of a component topic, joined by `/`.
pub open spec fn joined(
    team: Seq<char>,
    group_kind: Seq<char>,
    group_id: Seq<char>,
    component_kind: Seq<char>,
    component_id: Seq<char>,
) -> Seq<char> {
    team.push('/') + (group_kind.push('/') + (group_id.push('/') + (component_kind.push('/')
        + component_id)))
}

/// Cutting five joined fields at `/` gives the fields back, where none of the
/// first four holds a `/` and the fifth holds none either.
pub proof fn lemma_split_joined(
    a: Seq<char>,
    b: Seq<char>,
    c: Seq<char>,
    d: Seq<char>,
    e: Seq<char>,
)
    requires
        !a.contains('/'),
        !b.contains('/'),
        !c.contains('/'),
        !d.contains('/'),
        !e.contains('/'),
    ensures
        split(joined(a, b, c, d, e), '/') == seq![a, b, c, d, e],
{
    lemma_split_single(e, '/');
    lemma_split_cons(d, e, '/');
    lemma_split_cons(c, d.push('/') + e, '/');
    lemma_split_cons(b, c.push('/') + (d.push('/') + e), '/');
    lemma_split_cons(a, b.push('/') + (c.push('/') + (d.push('/') + e)), '/');
    assert(split(joined(a, b, c, d, e), '/') =~= seq![a, b, c, d, e]);
}

impl ComponentTopic {
    /// The text of the team: its number, or `None` where no team is set.
    pub open spec fn team_text(self) -> Seq<char> {
        match self.team_id {
            Some(t) => int_text(t as int),
            None => "None"@,
        }
    }

    /// The text of the topic.
    pub open spec fn text(self) -> Seq<char> {
        joined(
            self.team_text(),
            self.uid.group_id.kind.text(),
            int_text(self.uid.group_id.id as int),
            self.uid.component_id.kind.text(),
            int_text(self.uid.component_id.id as int),
        )
    }

    /// What the text `s` is read as: the topic of its five fields, or the
    /// first thing that is wrong with it.
    pub open spec fn parsed(s: Seq<char>) -> Result<ComponentTopic, ComponentTopicBuildError> {
        let parts = split(s, '/');
        if parts.len() != 5 {
            Err(ComponentTopicBuildError::InvalidAmountOfTopicParts)
        } else if parse_int(parts[0]).is_none() {
            Err(ComponentTopicBuildError::InvalidTeamId)
        } else if GroupKind::named(parts[1]).is_none() {
            Err(ComponentTopicBuildError::InvalidGroupKind)
        } else if parse_int(parts[2]).is_none() {
            Err(ComponentTopicBuildError::InvalidGroupId)
        } else if ComponentKind::named(parts[3]).is_none() {
            Err(ComponentTopicBuildError::InvalidComponentKind)
        } else if parse_int(parts[4]).is_none() {
            Err(ComponentTopicBuildError::InvalidComponentId)
        } else {
            Ok(
                ComponentTopic {
                    team_id: Some(parse_int(parts[0]).unwrap() as i32),
                    uid: ComponentUid {
                        group_id: GroupId {
                            kind: GroupKind::named(parts[1]).unwrap(),
                            id: parse_int(parts[2]).unwrap() as i32,
                        },
                        component_id: ComponentId {
                            kind: ComponentKind::named(parts[3]).unwrap(),
                            id: parse_int(parts[4]).unwrap() as i32,
                        },
                    },
                },
            )
        }
    }

    /// Reading the text of a topic that has a team gives the topic back.
    pub proof fn lemma_round_trip(self)
        requires
            self.team_id.is_some(),
        ensures
            ComponentTopic::parsed(self.text()) == Ok::<ComponentTopic, ComponentTopicBuildError>(
                self,
            ),
    {
        let a = int_text(self.team_id.unwrap() as int);
        let b = self.uid.group_id.kind.text();
        let c = int_text(self.uid.group_id.id as int);
        let d = self.uid.component_id.kind.text();
        let e = int_text(self.uid.component_id.id as int);
        lemma_int_text_chars(self.team_id.unwrap() as int, '/');
        lemma_int_text_chars(self.uid.group_id.id as int, '/');
        lemma_int_text_chars(self.uid.component_id.id as int, '/');
        self.uid.group_id.kind.lemma_text();
        self.uid.component_id.kind.lemma_text();
        lemma_split_joined(a, b, c, d, e);
        lemma_parse_int_text(self.team_id.unwrap() as int);
        lemma_parse_int_text(self.uid.group_id.id as int);
        lemma_parse_int_text(self.uid.component_id.id as int);
    }

    /// The text of the topic.
    pub fn to_string(&self) -> (s: String)
        ensures
            s@ == self.text(),
    {
        proof {
            reveal_strlit("/");
        }
        let mut s = String::new();
        match self.team_id {
            Some(t) => crate::text::push_i32(&mut s, t),
            None => s.append("None"),
        }
        s.append("/");
        s.append(self.uid.group_id.kind.as_str());
        s.append("/");
        crate::text::push_i32(&mut s, self.uid.group_id.id);
        s.append("/");
        s.append(self.uid.component_id.kind.as_str());
        s.append("/");
        crate::text::push_i32(&mut s, self.uid.component_id.id);
        assert(s@ =~= self.text());
        s
    }
}

impl Topic for ComponentTopic {
    open spec fn team(&self) -> Option<i32> {
        self.team_id
    }

    fn team_id(&self) -> (team: Result<i32, NoTeamIdSet>) {
        match self.team_id {
            Some(team_id) => Ok(team_id),
            None => Err(NoTeamIdSet),
        }
    }

    fn set_team_id(&mut self, team_id: i32)
        ensures
            *final(self) == (ComponentTopic { team_id: Some(team_id), uid: old(self).uid }),
    {
        self.team_id = Some(team_id)
    }
}

impl<'a> TryFrom<&'a str> for ComponentTopic {
    type Error = ComponentTopicBuildError;

    /// Reads a topic from its text: five fields between `/`, of which the
    /// first, third and fifth are numbers and the second and fourth name a
    /// group kind and a component kind.
    fn try_from(value: &'a str) -> (topic: Result<Self, Self::Error>)
        ensures
            topic == ComponentTopic::parsed(value@),
    {
        let chars = chars_of(value);
        let cuts = cut_points(&chars, '/');
        let ghost s = value@;
        let ghost marks = separators(s, '/', s.len() as int);
        proof {
            lemma_separators(s, '/', s.len() as int);
            assert(cuts@.len() == marks.len());
            assert forall|k: int| 0 <= k < cuts@.len() implies cuts@[k] == marks[k] by {
                assert(cuts@.map_values(|p: usize| p as int)[k] == marks[k]);
            }
        }
        if cuts.len() != 4 {
            return Err(ComponentTopicBuildError::InvalidAmountOfTopicParts);
        }
        let ghost parts = split(s, '/');
        let c0 = cuts[0];
        let c1 = cuts[1];
        let c2 = cuts[2];
        let c3 = cuts[3];
        proof {
            assert(marks[0] < marks[1] < marks[2] < marks[3]);
            assert(parts[0] == s.subrange(0, c0 as int));
            assert(parts[1] == s.subrange(c0 + 1, c1 as int));
            assert(parts[2] == s.subrange(c1 + 1, c2 as int));
            assert(parts[3] == s.subrange(c2 + 1, c3 as int));
            assert(parts[4] == s.subrange(c3 + 1, s.len() as int));
        }
        let team = match parse_i32(&chars, 0, c0) {
            Some(v) => v,
            None => {
                return Err(ComponentTopicBuildError::InvalidTeamId);
            },
        };
        let group_kind = match GroupKind::from_chars(&chars, c0 + 1, c1) {
            Some(k) => k,
            None => {
                return Err(ComponentTopicBuildError::InvalidGroupKind);
            },
        };
        let group_id = match parse_i32(&chars, c1 + 1, c2) {
            Some(v) => v,
            None => {
                return Err(ComponentTopicBuildError::InvalidGroupId);
            },
        };
        let component_kind = match ComponentKind::from_chars(&chars, c2 + 1, c3) {
            Some(k) => k,
            None => {
                return Err(ComponentTopicBuildError::InvalidComponentKind);
            },
        };
        let component_id = match parse_i32(&chars, c3 + 1, chars.len()) {
            Some(v) => v,
            None => {
                return Err(ComponentTopicBuildError::InvalidComponentId);
            },
        };
        Ok(
            ComponentTopic {
                team_id: Some(team),
                uid: ComponentUid {
                    group_id: GroupId { kind: group_kind, id: group_id },
                    component_id: ComponentId { kind: component_kind, id: component_id },
                },
            },
        )
    }
}

impl<'a> TryFromSpecImpl<&'a str> for ComponentTopic {
    open spec fn obeys_try_from_spec() -> bool {
        true
    }

    open spec fn try_from_spec(v: &'a str) -> Result<Self, Self::Error> {
        ComponentTopic::parsed(v@)
    }
}

impl From<ComponentUid> for ComponentTopic {
    /// The topic of a component, with no team set.
    fn from(uid: ComponentUid) -> (topic: Self) {
        Self { team_id: None, uid }
    }
}

impl FromSpecImpl<ComponentUid> for ComponentTopic {
    open spec fn obeys_from_spec() -> bool {
        true
    }

    open spec fn from_spec(uid: ComponentUid) -> Self {
        ComponentTopic { team_id: None, uid }
    }
}

} // verus!
