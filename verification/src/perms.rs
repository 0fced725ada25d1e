//! The closed permission vocabulary: a bidirectional mapping between
//! canonical lowercase tokens and in-memory tags, with `Unknown` as the
//! catch-all for unrecognized tokens.

use vstd::prelude::*;
use crate::text::str_eq;

verus! {

#[derive(Clone, Copy, Debug, PartialEq, Eq, Structural)]
pub enum GroupPermission {
    Unknown,
    StartVote,
    ChangeMap,
    Pause,
    Cheat,
    Private,
    Balance,
    Chat,
    Kick,
    Ban,
    Config,
    Cameraman,
    Immunity,
    ManageServer,
    FeatureTest,
    Reserve,
    Demos,
    Debug,
    TeamChange,
    ForceTeamChange,
    CanSeedAdminChat,
}

impl GroupPermission {
    /// The canonical token of a tag. `Unknown` has no token and renders
    /// as the empty string. The token for `StartVote` is historically
    /// misspelled and kept that way for compatibility.
    pub open spec fn token(self) -> Seq<char> {
        match self {
            GroupPermission::Unknown => ""@,
            GroupPermission::StartVote => "startbote"@,
            GroupPermission::ChangeMap => "changemap"@,
            GroupPermission::Pause => "pause"@,
            GroupPermission::Cheat => "cheat"@,
            GroupPermission::Private => "private"@,
            GroupPermission::Balance => "balance"@,
            GroupPermission::Chat => "chat"@,
            GroupPermission::Kick => "kick"@,
            GroupPermission::Ban => "ban"@,
            GroupPermission::Config => "config"@,
            GroupPermission::Cameraman => "cameraman"@,
            GroupPermission::Immunity => "immunity"@,
            GroupPermission::ManageServer => "manageserver"@,
            GroupPermission::FeatureTest => "featuretest"@,
            GroupPermission::Reserve => "reserve"@,
            GroupPermission::Demos => "demos"@,
            GroupPermission::Debug => "debug"@,
            GroupPermission::TeamChange => "teamchange"@,
            GroupPermission::ForceTeamChange => "forceteamchange"@,
            GroupPermission::CanSeedAdminChat => "canseedadminchat"@,
        }
    }

    /// The tag a token denotes; `Unknown` for anything outside the
    /// canonical table.
    pub open spec fn spec_from_token(s: Seq<char>) -> GroupPermission {
        if s == "startbote"@ {
            GroupPermission::StartVote
        } else if s == "changemap"@ {
            GroupPermission::ChangeMap
        } else if s == "pause"@ {
            GroupPermission::Pause
        } else if s == "cheat"@ {
            GroupPermission::Cheat
        } else if s == "private"@ {
            GroupPermission::Private
        } else if s == "balance"@ {
            GroupPermission::Balance
        } else if s == "chat"@ {
            GroupPermission::Chat
        } else if s == "kick"@ {
            GroupPermission::Kick
        } else if s == "ban"@ {
            GroupPermission::Ban
        } else if s == "config"@ {
            GroupPermission::Config
        } else if s == "cameraman"@ {
            GroupPermission::Cameraman
        } else if s == "immunity"@ {
            GroupPermission::Immunity
        } else if s == "manageserver"@ {
            GroupPermission::ManageServer
        } else if s == "featuretest"@ {
            GroupPermission::FeatureTest
        } else if s == "reserve"@ {
            GroupPermission::Reserve
        } else if s == "demos"@ {
            GroupPermission::Demos
        } else if s == "debug"@ {
            GroupPermission::Debug
        } else if s == "teamchange"@ {
            GroupPermission::TeamChange
        } else if s == "forceteamchange"@ {
            GroupPermission::ForceTeamChange
        } else if s == "canseedadminchat"@ {
            GroupPermission::CanSeedAdminChat
        } else {
            GroupPermission::Unknown
        }
    }

    /// Map a token to its tag; total, never fails.
    pub fn from_string(value: &str) -> (r: Self)
        ensures
            r == Self::spec_from_token(value@),
    {
        if str_eq(value, "startbote") {
            Self::StartVote
        } else if str_eq(value, "changemap") {
            Self::ChangeMap
        } else if str_eq(value, "pause") {
            Self::Pause
        } else if str_eq(value, "cheat") {
            Self::Cheat
        } else if str_eq(value, "private") {
            Self::Private
        } else if str_eq(value, "balance") {
            Self::Balance
        } else if str_eq(value, "chat") {
            Self::Chat
        } else if str_eq(value, "kick") {
            Self::Kick
        } else if str_eq(value, "ban") {
            Self::Ban
        } else if str_eq(value, "config") {
            Self::Config
        } else if str_eq(value, "cameraman") {
            Self::Cameraman
        } else if str_eq(value, "immunity") {
            Self::Immunity
        } else if str_eq(value, "manageserver") {
            Self::ManageServer
        } else if str_eq(value, "featuretest") {
            Self::FeatureTest
        } else if str_eq(value, "reserve") {
            Self::Reserve
        } else if str_eq(value, "demos") {
            Self::Demos
        } else if str_eq(value, "debug") {
            Self::Debug
        } else if str_eq(value, "teamchange") {
            Self::TeamChange
        } else if str_eq(value, "forceteamchange") {
            Self::ForceTeamChange
        } else if str_eq(value, "canseedadminchat") {
            Self::CanSeedAdminChat
        } else {
            Self::Unknown
        }
    }

    /// Render a tag as its canonical token; `Unknown` renders as the
    /// empty string.
    pub fn to_whitelist(&self) -> (r: String)
        ensures
            r@ == self.token(),
    {
        let value = match self {
            Self::Unknown => "",
            Self::StartVote => "startbote",
            Self::ChangeMap => "changemap",
            Self::Pause => "pause",
            Self::Cheat => "cheat",
            Self::Private => "private",
            Self::Balance => "balance",
            Self::Chat => "chat",
            Self::Kick => "kick",
            Self::Ban => "ban",
            Self::Config => "config",
            Self::Cameraman => "cameraman",
            Self::Immunity => "immunity",
            Self::ManageServer => "manageserver",
            Self::FeatureTest => "featuretest",
            Self::Reserve => "reserve",
            Self::Demos => "demos",
            Self::Debug => "debug",
            Self::TeamChange => "teamchange",
            Self::ForceTeamChange => "forceteamchange",
            Self::CanSeedAdminChat => "canseedadminchat",
        };
        value.to_owned()
    }
}

/// Every canonical permission token maps to a tag whose rendering is
/// that same token: decoding then encoding is the identity on the
/// canonical table.
pub proof fn lemma_token_round_trip(t: Seq<char>)
    requires
        GroupPermission::spec_from_token(t) != GroupPermission::Unknown,
    ensures
        GroupPermission::spec_from_token(t).token() == t,
{
}

} // verus!
