//! The in-memory document model: groups, players, and the whitelist
//! that holds both in source declaration order.

use vstd::prelude::*;
use crate::Span;
use crate::perms::GroupPermission;

verus! {

/// Mathematical content of a `Group`: name, permission tags in stored
/// order, and the source byte span.
#[verifier::ext_equal]
pub struct GroupData {
    pub name: Seq<char>,
    pub permissions: Seq<GroupPermission>,
    pub start: int,
    pub end: int,
}

/// Mathematical content of a `Player`.
#[verifier::ext_equal]
pub struct PlayerData {
    pub steam_id: u64,
    pub group: Seq<char>,
    pub comment: Seq<char>,
    pub start: int,
    pub end: int,
}

/// A named bundle of permission tags, with the byte span of its source
/// line when it was parsed rather than built programmatically.
#[derive(Debug)]
pub struct Group {
    pub name: String,
    pub permissions: Vec<GroupPermission>,
    pub span: Span,
}

impl View for Group {
    type V = GroupData;

    open spec fn view(&self) -> GroupData {
        GroupData {
            name: self.name@,
            permissions: self.permissions@,
            start: self.span.start as int,
            end: self.span.end as int,
        }
    }
}

impl Group {
    /// Build a group programmatically; its span defaults to `(0, 0)`.
    pub fn new(name: &str, permissions: Vec<GroupPermission>) -> (g: Self)
        ensures
            g@.name == name@,
            g@.permissions == permissions@,
            g@.start == 0 && g@.end == 0,
    {
        Self { name: name.to_owned(), permissions, span: Span::zero() }
    }

    /// Attach the source span recorded by the parser.
    pub fn set_span(&mut self, span: Span)
        ensures
            final(self)@ == (GroupData {
                start: span.start as int,
                end: span.end as int,
                ..old(self)@
            }),
    {
        self.span = span;
    }
}

/// A numeric identity bound to a group name plus a free-text comment,
/// with the byte span of its source line when parsed.
#[derive(Debug)]
pub struct Player {
    pub steam_id: u64,
    pub group: String,
    pub comment: String,
    pub span: Span,
}

impl View for Player {
    type V = PlayerData;

    open spec fn view(&self) -> PlayerData {
        PlayerData {
            steam_id: self.steam_id,
            group: self.group@,
            comment: self.comment@,
            start: self.span.start as int,
            end: self.span.end as int,
        }
    }
}

impl Player {
    /// Build a player programmatically; its span defaults to `(0, 0)`.
    pub fn new(steam_id: u64, group: &str, comment: &str) -> (p: Self)
        ensures
            p@.steam_id == steam_id,
            p@.group == group@,
            p@.comment == comment@,
            p@.start == 0 && p@.end == 0,
    {
        Self {
            steam_id,
            group: group.to_owned(),
            comment: comment.to_owned(),
            span: Span::zero(),
        }
    }

    /// Attach the source span recorded by the parser.
    pub fn set_span(&mut self, span: Span)
        ensures
            final(self)@ == (PlayerData {
                start: span.start as int,
                end: span.end as int,
                ..old(self)@
            }),
    {
        self.span = span;
    }
}

/// The full parsed configuration: all groups and all players, each in
/// source declaration order. Duplicates are legal data; only the
/// linter checks player-to-group references.
#[derive(Debug)]
pub struct Whitelist {
    pub groups: Vec<Group>,
    pub players: Vec<Player>,
}

impl Whitelist {
    /// The groups' mathematical content, in order.
    pub open spec fn groups_data(&self) -> Seq<GroupData> {
        self.groups@.map_values(|g: Group| g@)
    }

    /// The players' mathematical content, in order.
    pub open spec fn players_data(&self) -> Seq<PlayerData> {
        self.players@.map_values(|p: Player| p@)
    }

    pub fn new(groups: Vec<Group>, players: Vec<Player>) -> (w: Self)
        ensures
            w.groups_data() == groups@.map_values(|g: Group| g@),
            w.players_data() == players@.map_values(|p: Player| p@),
    {
        Self { groups, players }
    }
}

} // verus!
