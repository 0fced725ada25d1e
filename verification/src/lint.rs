//! The validator: checks referential integrity between players and
//! groups. Group names are matched case-insensitively; the first
//! player whose group is not declared yields a diagnostic carrying the
//! player's source span resolved to a line and column.

use vstd::prelude::*;
use crate::Span;
use crate::model::Whitelist;
use crate::text::{dec_str, str_eq, u64_to_string};
use vstd::string::StringSliceAdditionalSpecFns;

verus! {

/// The case-folded form of a string, as `str::to_lowercase` computes
/// it; it depends on the characters alone.
pub uninterp spec fn lower_of(s: Seq<char>) -> Seq<char>;

/// Relies on str::to_lowercase: the case-folded text is a function of
/// the characters alone.
#[verifier::external_body]
fn lowercase(s: &str) -> (r: String)
    ensures
        r@ == lower_of(s@),
{
    s.to_lowercase()
}

/// Player `i` references some declared group, compared by case-folded
/// name.
pub open spec fn player_group_valid(w: Whitelist, i: int) -> bool {
    exists|j: int|
        0 <= j < w.groups_data().len() && lower_of(#[trigger] w.groups_data()[j].name)
            == lower_of(w.players_data()[i].group)
}

/// Player `i` is the first whose group reference is invalid.
pub open spec fn first_invalid_at(w: Whitelist, i: int) -> bool {
    &&& 0 <= i < w.players_data().len()
    &&& !player_group_valid(w, i)
    &&& forall|k: int| 0 <= k < i ==> player_group_valid(w, k)
}

/// The diagnostic text for an invalid group reference.
pub open spec fn lint_message(steam_id: u64, group: Seq<char>) -> Seq<char> {
    "player `"@ + dec_str(steam_id as nat) + "` has an invalid group name `"@ + group
        + "`"@
}

/// Newlines among the first `upto` bytes.
pub open spec fn count_newlines(b: Seq<u8>, upto: int) -> int
    decreases upto,
{
    if upto <= 0 {
        0
    } else {
        count_newlines(b, upto - 1) + if b[upto - 1] == 10 {
            1int
        } else {
            0int
        }
    }
}

/// Byte index where the line containing offset `upto` begins.
pub open spec fn line_start(b: Seq<u8>, upto: int) -> int
    decreases upto,
{
    if upto <= 0 {
        0
    } else if b[upto - 1] == 10 {
        upto
    } else {
        line_start(b, upto - 1)
    }
}

/// A referential-integrity violation: a message naming the player and
/// the missing group, the player's source byte span, the file path,
/// and the span's start resolved to a 1-based line and column.
pub struct LintError {
    pub message: String,
    pub span: Span,
    pub path: String,
    pub line: usize,
    pub col: usize,
}

impl LintError {
    /// The diagnostic as one displayable string:
    /// `<path>:<line>:<col>: <message>`.
    pub fn to_message(&self) -> (r: String)
        ensures
            r@ == self.path@ + ":"@ + dec_str(self.line as nat) + ":"@ + dec_str(
                self.col as nat,
            ) + ": "@ + self.message@,
    {
        let mut s = self.path.clone();
        s.append(":");
        let ln = u64_to_string(self.line as u64);
        s.append(ln.as_str());
        s.append(":");
        let cl = u64_to_string(self.col as u64);
        s.append(cl.as_str());
        s.append(": ");
        s.append(self.message.as_str());
        proof {
            assert(self.path@ + ":"@ + dec_str(self.line as nat) + ":"@ + dec_str(
                self.col as nat,
            ) + ": "@ + self.message@ =~= ((((self.path@ + ":"@) + dec_str(
                self.line as nat,
            )) + ":"@) + dec_str(self.col as nat) + ": "@) + self.message@);
        }
        s
    }
}

fn build_message(steam_id: u64, group: &str) -> (r: String)
    ensures
        r@ == lint_message(steam_id, group@),
{
    let mut s = "player `".to_owned();
    let id = u64_to_string(steam_id);
    s.append(id.as_str());
    s.append("` has an invalid group name `");
    s.append(group);
    s.append("`");
    proof {
        assert(lint_message(steam_id, group@) =~= ((("player `"@ + dec_str(
            steam_id as nat,
        )) + "` has an invalid group name `"@) + group@) + "`"@);
    }
    s
}

/// The 1-based line and column of byte offset `start` in `contents`,
/// clamped to the end of the text.
fn locate(contents: &str, start: usize) -> (rc: (usize, usize))
    requires
        contents.spec_bytes().len() < usize::MAX,
    ensures
        ({
            let b = contents.spec_bytes();
            let c = if start <= b.len() {
                start as int
            } else {
                b.len() as int
            };
            rc.0 == 1 + count_newlines(b, c) && rc.1 == 1 + c - line_start(b, c)
        }),
{
    let bytes = contents.as_bytes();
    let n = bytes.len();
    let c = if start <= n {
        start
    } else {
        n
    };
    let mut line: usize = 1;
    let mut ls: usize = 0;
    let mut i: usize = 0;
    while i < c
        invariant
            i <= c <= n,
            n == bytes@.len(),
            bytes@ == contents.spec_bytes(),
            n < usize::MAX,
            line == 1 + count_newlines(bytes@, i as int),
            line <= 1 + i,
            ls == line_start(bytes@, i as int),
            ls <= i,
        decreases c - i,
    {
        if bytes[i] == 10 {
            line = line + 1;
            ls = i + 1;
        }
        i = i + 1;
    }
    (line, c - ls + 1)
}

/// Check that every player references a declared group, matching
/// names case-insensitively; stop at the first violation. The error
/// identifies the player and the missing group, carries the player's
/// span, `file_path`, and the span's start located in `contents`.
pub fn lint_groups(whitelist: &Whitelist, file_path: &str, contents: &str) -> (r:
    Result<(), LintError>)
    requires
        contents.spec_bytes().len() < usize::MAX,
    ensures
        (match r {
            Ok(()) => forall|i: int|
                0 <= i < whitelist.players_data().len() ==> player_group_valid(
                    *whitelist,
                    i,
                ),
            Err(err) => exists|i: int|
                {
                    let b = contents.spec_bytes();
                    let p = whitelist.players_data()[i];
                    let c = if p.start <= b.len() {
                        p.start
                    } else {
                        b.len() as int
                    };
                    &&& #[trigger] first_invalid_at(*whitelist, i)
                    &&& err.message@ == lint_message(p.steam_id, p.group)
                    &&& err.span.start == p.start
                    &&& err.span.end == p.end
                    &&& err.path@ == file_path@
                    &&& err.line == 1 + count_newlines(b, c)
                    &&& err.col == 1 + c - line_start(b, c)
                },
        }),
{
    let ghost w = *whitelist;
    let ng = whitelist.groups.len();
    let mut keys: Vec<String> = Vec::new();
    let mut j: usize = 0;
    while j < ng
        invariant
            j <= ng,
            ng == w.groups_data().len(),
            w == *whitelist,
            keys@.len() == j,
            forall|t: int|
                0 <= t < j ==> (#[trigger] keys@[t])@ == lower_of(
                    w.groups_data()[t].name,
                ),
        decreases ng - j,
    {
        let key = lowercase(whitelist.groups[j].name.as_str());
        keys.push(key);
        j = j + 1;
    }
    let np = whitelist.players.len();
    let mut i: usize = 0;
    while i < np
        invariant
            i <= np,
            np == w.players_data().len(),
            ng == w.groups_data().len(),
            w == *whitelist,
            keys@.len() == ng,
            contents.spec_bytes().len() < usize::MAX,
            forall|t: int|
                0 <= t < ng ==> (#[trigger] keys@[t])@ == lower_of(
                    w.groups_data()[t].name,
                ),
            forall|k: int| 0 <= k < i ==> player_group_valid(w, k),
        decreases np - i,
    {
        let pkey = lowercase(whitelist.players[i].group.as_str());
        let mut found = false;
        let mut t: usize = 0;
        while t < ng && !found
            invariant
                t <= ng,
                ng == w.groups_data().len(),
                w == *whitelist,
                keys@.len() == ng,
                pkey@ == lower_of(w.players_data()[i as int].group),
                forall|u: int|
                    0 <= u < ng ==> (#[trigger] keys@[u])@ == lower_of(
                        w.groups_data()[u].name,
                    ),
                !found ==> forall|u: int|
                    0 <= u < t ==> lower_of(#[trigger] w.groups_data()[u].name)
                        != lower_of(w.players_data()[i as int].group),
                found ==> player_group_valid(w, i as int),
            decreases ng - t + (if found { 0int } else { 1int }),
        {
            if str_eq(keys[t].as_str(), pkey.as_str()) {
                found = true;
            } else {
                t = t + 1;
            }
        }
        if !found {
            let p = &whitelist.players[i];
            let message = build_message(p.steam_id, p.group.as_str());
            let (line, col) = locate(contents, p.span.start);
            proof {
                assert(!player_group_valid(w, i as int));
                assert(first_invalid_at(w, i as int));
            }
            return Err(LintError {
                message,
                span: p.span,
                path: file_path.to_owned(),
                line,
                col,
            });
        }
        i = i + 1;
    }
    Ok(())
}

} // verus!
