//! The canonical serializer: renders a document back to text. Group
//! lines come first in stored order; players are then partitioned into
//! maximal runs of adjacent entries with the same group name, each run
//! prefixed by a `// <group>` banner.

use vstd::prelude::*;
use crate::model::{Group, GroupData, Player, PlayerData, Whitelist};
use crate::perms::GroupPermission;
use crate::text::{dec_str, str_eq, u64_to_string};

verus! {

/// The permission tokens of `ps[i..]`, joined by commas.
pub open spec fn render_perms(ps: Seq<GroupPermission>, i: int) -> Seq<char>
    decreases ps.len() - i when 0 <= i
{
    if i >= ps.len() {
        Seq::empty()
    } else if i == ps.len() - 1 {
        ps[i].token()
    } else {
        ps[i].token() + ","@ + render_perms(ps, i + 1)
    }
}

/// One group declaration line.
pub open spec fn render_group(g: GroupData) -> Seq<char> {
    "Group="@ + g.name + ":"@ + render_perms(g.permissions, 0)
}

/// The group lines of `gs[i..]`, joined by single newlines.
pub open spec fn render_groups(gs: Seq<GroupData>, i: int) -> Seq<char>
    decreases gs.len() - i when 0 <= i
{
    if i >= gs.len() {
        Seq::empty()
    } else if i == gs.len() - 1 {
        render_group(gs[i])
    } else {
        render_group(gs[i]) + "\n"@ + render_groups(gs, i + 1)
    }
}

/// One player declaration line.
pub open spec fn render_player(p: PlayerData) -> Seq<char> {
    "Admin="@ + dec_str(p.steam_id as nat) + ":"@ + p.group + " // "@ + p.comment
}

/// First index at or after `j` whose player no longer references
/// `key`, or the length when the run reaches the end.
pub open spec fn run_end_from(ps: Seq<PlayerData>, key: Seq<char>, j: int) -> int
    decreases ps.len() - j when 0 <= j
{
    if j >= ps.len() {
        ps.len() as int
    } else if ps[j].group != key {
        j
    } else {
        run_end_from(ps, key, j + 1)
    }
}

pub proof fn lemma_run_end_from_bounds(ps: Seq<PlayerData>, key: Seq<char>, j: int)
    requires
        0 <= j <= ps.len(),
    ensures
        j <= run_end_from(ps, key, j) <= ps.len(),
        forall|k: int| j <= k < run_end_from(ps, key, j) ==> #[trigger] ps[k].group == key,
        run_end_from(ps, key, j) < ps.len() ==> ps[run_end_from(ps, key, j)].group != key,
    decreases ps.len() - j,
{
    if j < ps.len() && ps[j].group == key {
        lemma_run_end_from_bounds(ps, key, j + 1);
    }
}

/// The player lines of `ps[i..e]`, joined by single newlines.
pub open spec fn render_run_players(ps: Seq<PlayerData>, i: int, e: int) -> Seq<char>
    decreases e - i when i <= e
{
    if i >= e {
        Seq::empty()
    } else if i == e - 1 {
        render_player(ps[i])
    } else {
        render_player(ps[i]) + "\n"@ + render_run_players(ps, i + 1, e)
    }
}

/// The player blocks of `ps[i..]`: maximal adjacent same-group runs,
/// each a `// <group>` banner followed by its player lines, runs
/// separated by one blank line.
pub open spec fn render_runs(ps: Seq<PlayerData>, i: int) -> Seq<char>
    decreases ps.len() - i when 0 <= i via render_runs_dec
{
    if i >= ps.len() {
        Seq::empty()
    } else {
        let e = run_end_from(ps, ps[i].group, i + 1);
        let block = "// "@ + ps[i].group + "\n"@ + render_run_players(ps, i, e);
        if e >= ps.len() {
            block
        } else {
            block + "\n\n"@ + render_runs(ps, e)
        }
    }
}

#[via_fn]
proof fn render_runs_dec(ps: Seq<PlayerData>, i: int) {
    if 0 <= i < ps.len() {
        lemma_run_end_from_bounds(ps, ps[i].group, i + 1);
    }
}

/// The whole document: group lines, one blank line, player blocks.
pub open spec fn render_doc(gs: Seq<GroupData>, ps: Seq<PlayerData>) -> Seq<char> {
    render_groups(gs, 0) + "\n\n"@ + render_runs(ps, 0)
}

impl Group {
    /// Render this group as its declaration line.
    pub fn to_whitelist(&self) -> (r: String)
        ensures
            r@ == render_group(self@),
    {
        let mut s = "Group=".to_owned();
        s.append(self.name.as_str());
        s.append(":");
        let perms = perms_join(&self.permissions, 0);
        s.append(perms.as_str());
        proof {
            assert("Group="@ + self@.name + ":"@ + render_perms(self@.permissions, 0)
                =~= ("Group="@ + self@.name) + ":"@ + render_perms(self@.permissions, 0));
        }
        s
    }
}

fn perms_join(ps: &Vec<GroupPermission>, i: usize) -> (r: String)
    requires
        i <= ps@.len(),
    ensures
        r@ == render_perms(ps@, i as int),
    decreases ps@.len() - i,
{
    if i >= ps.len() {
        String::new()
    } else if i == ps.len() - 1 {
        ps[i].to_whitelist()
    } else {
        let mut s = ps[i].to_whitelist();
        s.append(",");
        let rest = perms_join(ps, i + 1);
        s.append(rest.as_str());
        proof {
            assert(ps@[i as int].token() + ","@ + render_perms(ps@, i + 1int)
                =~= (ps@[i as int].token() + ","@) + render_perms(ps@, i + 1int));
        }
        s
    }
}

impl Player {
    /// Render this player as its declaration line.
    pub fn to_whitelist(&self) -> (r: String)
        ensures
            r@ == render_player(self@),
    {
        let mut s = "Admin=".to_owned();
        let id = u64_to_string(self.steam_id);
        s.append(id.as_str());
        s.append(":");
        s.append(self.group.as_str());
        s.append(" // ");
        s.append(self.comment.as_str());
        proof {
            assert("Admin="@ + dec_str(self@.steam_id as nat) + ":"@ + self@.group
                + " // "@ + self@.comment
                =~= (((("Admin="@ + dec_str(self@.steam_id as nat)) + ":"@) + self@.group)
                    + " // "@) + self@.comment);
        }
        s
    }
}

fn groups_join(gs: &Vec<Group>, i: usize) -> (r: String)
    requires
        i <= gs@.len(),
    ensures
        r@ == render_groups(gs@.map_values(|g: Group| g@), i as int),
    decreases gs@.len() - i,
{
    let ghost data = gs@.map_values(|g: Group| g@);
    if i >= gs.len() {
        String::new()
    } else if i == gs.len() - 1 {
        gs[i].to_whitelist()
    } else {
        let mut s = gs[i].to_whitelist();
        s.append("\n");
        let rest = groups_join(gs, i + 1);
        s.append(rest.as_str());
        proof {
            assert(render_group(data[i as int]) + "\n"@ + render_groups(data, i + 1int)
                =~= (render_group(data[i as int]) + "\n"@) + render_groups(data, i + 1int));
        }
        s
    }
}

/// Index just past the run of players adjacent to `ps[i]` that share
/// its group name.
fn run_end(ps: &Vec<Player>, i: usize) -> (e: usize)
    requires
        i < ps@.len(),
    ensures
        i < e <= ps@.len(),
        e == run_end_from(ps@.map_values(|p: Player| p@), ps@[i as int]@.group, i + 1),
    decreases ps@.len() - i,
{
    let ghost data = ps@.map_values(|p: Player| p@);
    let ghost key = ps@[i as int]@.group;
    let n = ps.len();
    let mut j: usize = i + 1;
    while j < ps.len()
        invariant
            i + 1 <= j <= ps@.len(),
            data == ps@.map_values(|p: Player| p@),
            key == ps@[i as int]@.group,
            run_end_from(data, key, i + 1) == run_end_from(data, key, j as int),
        decreases ps@.len() - j,
    {
        if !str_eq(ps[j].group.as_str(), ps[i].group.as_str()) {
            proof {
                assert(data[j as int].group != key);
            }
            return j;
        }
        proof {
            assert(data[j as int].group == key);
        }
        j = j + 1;
    }
    j
}

fn players_join(ps: &Vec<Player>, i: usize, e: usize) -> (r: String)
    requires
        i <= e <= ps@.len(),
    ensures
        r@ == render_run_players(ps@.map_values(|p: Player| p@), i as int, e as int),
    decreases e - i,
{
    let ghost data = ps@.map_values(|p: Player| p@);
    if i >= e {
        String::new()
    } else if i == e - 1 {
        ps[i].to_whitelist()
    } else {
        let mut s = ps[i].to_whitelist();
        s.append("\n");
        let rest = players_join(ps, i + 1, e);
        s.append(rest.as_str());
        proof {
            assert(render_player(data[i as int]) + "\n"@
                + render_run_players(data, i + 1int, e as int)
                =~= (render_player(data[i as int]) + "\n"@)
                    + render_run_players(data, i + 1int, e as int));
        }
        s
    }
}

fn runs_join(ps: &Vec<Player>, i: usize) -> (r: String)
    requires
        i <= ps@.len(),
    ensures
        r@ == render_runs(ps@.map_values(|p: Player| p@), i as int),
    decreases ps@.len() - i,
{
    let ghost data = ps@.map_values(|p: Player| p@);
    if i >= ps.len() {
        String::new()
    } else {
        let e = run_end(ps, i);
        let mut s = "// ".to_owned();
        s.append(ps[i].group.as_str());
        s.append("\n");
        let body = players_join(ps, i, e);
        s.append(body.as_str());
        proof {
            assert(s@ =~= "// "@ + data[i as int].group + "\n"@
                + render_run_players(data, i as int, e as int));
        }
        if e < ps.len() {
            s.append("\n\n");
            let rest = runs_join(ps, e);
            s.append(rest.as_str());
            proof {
                let block = "// "@ + data[i as int].group + "\n"@
                    + render_run_players(data, i as int, e as int);
                assert(s@ =~= block + "\n\n"@ + render_runs(data, e as int));
            }
        }
        s
    }
}

impl Whitelist {
    /// Render the whole document: group lines in stored order, a blank
    /// line, then the players partitioned into adjacent same-group
    /// runs, each with its banner, runs separated by one blank line.
    pub fn to_string(&self) -> (r: String)
        ensures
            r@ == render_doc(self.groups_data(), self.players_data()),
    {
        let mut s = groups_join(&self.groups, 0);
        s.append("\n\n");
        let players = runs_join(&self.players, 0);
        s.append(players.as_str());
        proof {
            assert(render_groups(self.groups_data(), 0) + "\n\n"@
                + render_runs(self.players_data(), 0)
                =~= (render_groups(self.groups_data(), 0) + "\n\n"@)
                    + render_runs(self.players_data(), 0));
        }
        s
    }
}

} // verus!
