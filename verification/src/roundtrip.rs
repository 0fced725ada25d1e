//! Round-trip laws: text rendered from the model parses back to the
//! same model content. Stated per vocabulary entry, per permission
//! list, per identifier, and per declaration line; the conditions are
//! the lossless cases (canonical tokens, benign names and comments).

use vstd::prelude::*;
use crate::model::{GroupData, PlayerData};
use crate::parse::{
    all_digits, coerced_id, digit_val, digits_val, is_blank, is_comment_line,
    is_digit, is_group_line, is_player_line, group_of_line, parse_doc,
    parse_from, parse_line, parse_perm_list, player_of_line, split_perm_tokens,
    ParseOutcome,
};
use crate::perms::GroupPermission;
use crate::render::{
    lemma_run_end_from_bounds, render_doc, render_group, render_groups,
    render_perms, render_player, render_run_players, render_runs, run_end_from,
};
use crate::text::{
    byte_len, dec_str, digit_char, find_idx, find_sub, lemma_find_idx_absent,
    lemma_find_idx_concat, lemma_find_idx_shift, lemma_find_sub_shift,
};

verus! {

/// A canonical token is non-empty and free of list and line separators.
pub open spec fn token_clean(t: Seq<char>) -> bool {
    t.len() > 0 && forall|i: int| 0 <= i < t.len() ==> (t[i] != ',' && t[i] != '\n')
}

/// Every tag of the sequence is a canonical one.
pub open spec fn canonical(ps: Seq<GroupPermission>) -> bool {
    forall|i: int| 0 <= i < ps.len() ==> ps[i] != GroupPermission::Unknown
}

/// Free of newlines, so it stays on one line when rendered.
pub open spec fn newline_free(s: Seq<char>) -> bool {
    forall|i: int| 0 <= i < s.len() ==> s[i] != '\n'
}

/// A group name that renders losslessly: it stays on its line and does
/// not swallow the name/permission separator.
pub open spec fn name_clean(s: Seq<char>) -> bool {
    forall|i: int| 0 <= i < s.len() ==> (s[i] != '\n' && s[i] != ':')
}

/// The first ` // ` of the rendered tail is the separator itself, so
/// the group reference and the comment can be told apart again.
pub open spec fn separator_first(group: Seq<char>, comment: Seq<char>) -> bool {
    find_sub(group + " // "@ + comment, 0, " // "@) == Some(group.len() as int)
}

/// A canonical tag's token decodes back to the tag, and is clean.
#[verifier::rlimit(50)]
pub proof fn lemma_token_facts(p: GroupPermission)
    requires
        p != GroupPermission::Unknown,
    ensures
        GroupPermission::spec_from_token(p.token()) == p,
        token_clean(p.token()),
{
    reveal_strlit("startbote");
    reveal_strlit("changemap");
    reveal_strlit("pause");
    reveal_strlit("cheat");
    reveal_strlit("private");
    reveal_strlit("balance");
    reveal_strlit("chat");
    reveal_strlit("kick");
    reveal_strlit("ban");
    reveal_strlit("config");
    reveal_strlit("cameraman");
    reveal_strlit("immunity");
    reveal_strlit("manageserver");
    reveal_strlit("featuretest");
    reveal_strlit("reserve");
    reveal_strlit("demos");
    reveal_strlit("debug");
    reveal_strlit("teamchange");
    reveal_strlit("forceteamchange");
    reveal_strlit("canseedadminchat");
    assert("startbote"@ =~= seq!['s', 't', 'a', 'r', 't', 'b', 'o', 't', 'e']);
    assert("changemap"@ =~= seq!['c', 'h', 'a', 'n', 'g', 'e', 'm', 'a', 'p']);
    assert("pause"@ =~= seq!['p', 'a', 'u', 's', 'e']);
    assert("cheat"@ =~= seq!['c', 'h', 'e', 'a', 't']);
    assert("private"@ =~= seq!['p', 'r', 'i', 'v', 'a', 't', 'e']);
    assert("balance"@ =~= seq!['b', 'a', 'l', 'a', 'n', 'c', 'e']);
    assert("chat"@ =~= seq!['c', 'h', 'a', 't']);
    assert("kick"@ =~= seq!['k', 'i', 'c', 'k']);
    assert("ban"@ =~= seq!['b', 'a', 'n']);
    assert("config"@ =~= seq!['c', 'o', 'n', 'f', 'i', 'g']);
    assert("cameraman"@ =~= seq!['c', 'a', 'm', 'e', 'r', 'a', 'm', 'a', 'n']);
    assert("immunity"@ =~= seq!['i', 'm', 'm', 'u', 'n', 'i', 't', 'y']);
    assert("manageserver"@ =~= seq!['m', 'a', 'n', 'a', 'g', 'e', 's', 'e', 'r', 'v', 'e', 'r']);
    assert("featuretest"@ =~= seq!['f', 'e', 'a', 't', 'u', 'r', 'e', 't', 'e', 's', 't']);
    assert("reserve"@ =~= seq!['r', 'e', 's', 'e', 'r', 'v', 'e']);
    assert("demos"@ =~= seq!['d', 'e', 'm', 'o', 's']);
    assert("debug"@ =~= seq!['d', 'e', 'b', 'u', 'g']);
    assert("teamchange"@ =~= seq!['t', 'e', 'a', 'm', 'c', 'h', 'a', 'n', 'g', 'e']);
    assert("forceteamchange"@ =~= seq!['f', 'o', 'r', 'c', 'e', 't', 'e', 'a', 'm', 'c', 'h', 'a', 'n', 'g', 'e']);
    assert("canseedadminchat"@ =~= seq!['c', 'a', 'n', 's', 'e', 'e', 'd', 'a', 'd', 'm', 'i', 'n', 'c', 'h', 'a', 't']);
    assert("changemap"@[1] == 'h');
    assert("cameraman"@[1] == 'a');
    assert("demos"@[2] == 'm');
    assert("debug"@[2] == 'b');
    assert("startbote"@[0] == 's');
    assert("startbote"@.len() == 9);
    assert("changemap"@[0] == 'c');
    assert("changemap"@.len() == 9);
    assert("pause"@[0] == 'p');
    assert("pause"@.len() == 5);
    assert("cheat"@[0] == 'c');
    assert("cheat"@.len() == 5);
    assert("private"@[0] == 'p');
    assert("private"@.len() == 7);
    assert("balance"@[0] == 'b');
    assert("balance"@.len() == 7);
    assert("chat"@[0] == 'c');
    assert("chat"@.len() == 4);
    assert("kick"@[0] == 'k');
    assert("kick"@.len() == 4);
    assert("ban"@[0] == 'b');
    assert("ban"@.len() == 3);
    assert("config"@[0] == 'c');
    assert("config"@.len() == 6);
    assert("cameraman"@[0] == 'c');
    assert("cameraman"@.len() == 9);
    assert("immunity"@[0] == 'i');
    assert("immunity"@.len() == 8);
    assert("manageserver"@[0] == 'm');
    assert("manageserver"@.len() == 12);
    assert("featuretest"@[0] == 'f');
    assert("featuretest"@.len() == 11);
    assert("reserve"@[0] == 'r');
    assert("reserve"@.len() == 7);
    assert("demos"@[0] == 'd');
    assert("demos"@.len() == 5);
    assert("debug"@[0] == 'd');
    assert("debug"@.len() == 5);
    assert("teamchange"@[0] == 't');
    assert("teamchange"@.len() == 10);
    assert("forceteamchange"@[0] == 'f');
    assert("forceteamchange"@.len() == 15);
    assert("canseedadminchat"@[0] == 'c');
    assert("canseedadminchat"@.len() == 16);
}

/// The decimal rendering of `n` is all digits and reads back as `n`.
pub proof fn lemma_dec_str_digits(n: nat)
    ensures
        all_digits(dec_str(n)),
        digits_val(dec_str(n)) == n,
        dec_str(n).len() >= 1,
    decreases n,
{
    if n < 10 {
        let s = seq![digit_char(n as int)];
        assert(is_digit(s[0]));
        assert(s.drop_last() =~= Seq::<char>::empty());
        assert(s.last() == digit_char(n as int));
        assert(digits_val(Seq::<char>::empty()) == 0);
        assert(digits_val(s) == digit_val(digit_char(n as int)));
        assert(digit_val(digit_char(n as int)) == n);
    } else {
        lemma_dec_str_digits(n / 10);
        let a = dec_str(n / 10);
        let c = digit_char((n % 10) as int);
        assert(dec_str(n) == a + seq![c]);
        assert((a + seq![c]).drop_last() =~= a);
        assert((a + seq![c]).last() == c);
        assert(digit_val(c) == n % 10);
        assert(all_digits(a + seq![c])) by {
            assert(forall|i: int|
                0 <= i < a.len() ==> (a + seq![c])[i] == a[i]);
        }
    }
}

/// A canonical permission list splits back into the same tags.
proof fn lemma_split_round_trip(ps: Seq<GroupPermission>, i: int)
    requires
        0 <= i < ps.len(),
        canonical(ps),
    ensures
        split_perm_tokens(render_perms(ps, i)) == ps.skip(i),
    decreases ps.len() - i,
{
    let t = ps[i].token();
    lemma_token_facts(ps[i]);
    if i == ps.len() - 1 {
        lemma_find_idx_absent(t, ',');
        assert(split_perm_tokens(t) =~= seq![GroupPermission::spec_from_token(t)]);
        assert(ps.skip(i) =~= seq![ps[i]]);
    } else {
        reveal_strlit(",");
        let rest = render_perms(ps, i + 1);
        let s = render_perms(ps, i);
        assert(s =~= t + (","@ + rest));
        assert((","@ + rest)[0] == ',');
        lemma_find_idx_concat(t, ","@ + rest, ',');
        let c = find_idx(s, 0, ',');
        assert(c == t.len());
        assert(c < s.len());
        assert(s.subrange(0, c) =~= t);
        assert(s.subrange(c + 1, s.len() as int) =~= rest);
        lemma_split_round_trip(ps, i + 1);
        assert(seq![ps[i]] + ps.skip(i + 1) =~= ps.skip(i));
    }
}

/// A rendered permission list has no newline.
proof fn lemma_render_perms_clean(ps: Seq<GroupPermission>, i: int)
    requires
        0 <= i <= ps.len(),
        canonical(ps),
    ensures
        newline_free(render_perms(ps, i)),
    decreases ps.len() - i,
{
    if i < ps.len() {
        lemma_token_facts(ps[i]);
        if i < ps.len() - 1 {
            reveal_strlit(",");
            lemma_render_perms_clean(ps, i + 1);
            let t = ps[i].token();
            let rest = render_perms(ps, i + 1);
            let s = render_perms(ps, i);
            assert(s =~= t + (","@ + rest));
            assert(forall|j: int| 0 <= j < s.len() ==> s[j] != '\n') by {
                assert(forall|j: int| 0 <= j < t.len() ==> s[j] == t[j]);
                assert(s[t.len() as int] == ',');
                assert(forall|j: int|
                    t.len() + 1 <= j < s.len() ==> s[j] == rest[j - t.len() - 1]);
            }
        }
    }
}

/// A canonical permission list renders and parses back unchanged.
pub proof fn lemma_perm_list_round_trip(ps: Seq<GroupPermission>)
    requires
        canonical(ps),
    ensures
        parse_perm_list(render_perms(ps, 0)) == ps,
{
    if ps.len() == 0 {
        assert(parse_perm_list(render_perms(ps, 0)) =~= ps);
    } else {
        lemma_token_facts(ps[0]);
        lemma_split_round_trip(ps, 0);
        assert(render_perms(ps, 0).len() > 0) by {
            let t = ps[0].token();
            if ps.len() > 1 {
                assert(render_perms(ps, 0) =~= t + (","@ + render_perms(ps, 1)));
            }
        }
        assert(ps.skip(0) =~= ps);
    }
}

/// A lossless group declaration line parses back to the same group,
/// with the line's own span.
pub proof fn lemma_group_line_round_trip(g: GroupData, off: int, ln: int)
    requires
        name_clean(g.name),
        canonical(g.permissions),
    ensures
        ({
            let line = render_group(g);
            parse_line(line, off, ln) == (ParseOutcome::Good {
                groups: seq![
                    GroupData {
                        name: g.name,
                        permissions: g.permissions,
                        start: off,
                        end: off + byte_len(line),
                    },
                ],
                players: Seq::empty(),
            })
        }),
{
    reveal_strlit("Group=");
    reveal_strlit(":");
    reveal_strlit("//");
    let pr = render_perms(g.permissions, 0);
    let line = render_group(g);
    assert(line =~= "Group="@ + (g.name + (":"@ + pr)));
    assert(line.len() >= 7);
    assert(!is_blank(line));
    assert(line[0] == 'G');
    assert(!is_comment_line(line)) by {
        if is_comment_line(line) {
            assert(line.subrange(0, 2)[0] == line[0]);
        }
    }
    assert(line.subrange(0, 6) =~= "Group="@);
    lemma_find_idx_shift(line, 6, ':');
    assert(line.subrange(6, line.len() as int) =~= g.name + (":"@ + pr));
    assert((":"@ + pr)[0] == ':');
    lemma_find_idx_concat(g.name, ":"@ + pr, ':');
    let c = find_idx(line, 6, ':');
    assert(c == 6 + g.name.len());
    assert(is_group_line(line));
    assert(line.subrange(6, c) =~= g.name);
    assert(line.subrange(c + 1, line.len() as int) =~= pr);
    lemma_perm_list_round_trip(g.permissions);
    let gd = group_of_line(line, off, off + byte_len(line));
    assert(gd =~= (GroupData {
        name: g.name,
        permissions: g.permissions,
        start: off,
        end: off + byte_len(line),
    }));
    assert(parse_line(line, off, ln) =~= (ParseOutcome::Good {
        groups: seq![gd],
        players: Seq::empty(),
    }));
}

/// A lossless player declaration line parses back to the same player,
/// with the line's own span.
pub proof fn lemma_player_line_round_trip(p: PlayerData, off: int, ln: int)
    requires
        newline_free(p.group),
        newline_free(p.comment),
        separator_first(p.group, p.comment),
    ensures
        ({
            let line = render_player(p);
            parse_line(line, off, ln) == (ParseOutcome::Good {
                groups: Seq::empty(),
                players: seq![
                    PlayerData {
                        steam_id: p.steam_id,
                        group: p.group,
                        comment: p.comment,
                        start: off,
                        end: off + byte_len(line),
                    },
                ],
            })
        }),
{
    reveal_strlit("Admin=");
    reveal_strlit("Group=");
    reveal_strlit(":");
    reveal_strlit(" // ");
    reveal_strlit("//");
    let d = dec_str(p.steam_id as nat);
    lemma_dec_str_digits(p.steam_id as nat);
    let tail = p.group + " // "@ + p.comment;
    let line = render_player(p);
    assert(line =~= "Admin="@ + (d + (":"@ + tail)));
    assert(line.len() >= 7 + d.len());
    assert(!is_blank(line));
    assert(line[0] == 'A');
    assert(!is_comment_line(line)) by {
        if is_comment_line(line) {
            assert(line.subrange(0, 2)[0] == line[0]);
        }
    }
    assert(line.subrange(0, 6) =~= "Admin="@);
    assert(!is_group_line(line)) by {
        assert("Group="@[0] != "Admin="@[0]);
    }
    assert(forall|i: int| 0 <= i < d.len() ==> d[i] != ':') by {
        assert(forall|i: int| 0 <= i < d.len() ==> is_digit(#[trigger] d[i]));
    }
    lemma_find_idx_shift(line, 6, ':');
    assert(line.subrange(6, line.len() as int) =~= d + (":"@ + tail));
    assert((":"@ + tail)[0] == ':');
    lemma_find_idx_concat(d, ":"@ + tail, ':');
    let c = find_idx(line, 6, ':');
    assert(c == 6 + d.len());
    assert(c < line.len());
    assert(line.subrange(6, c) =~= d);
    assert(coerced_id(d) == p.steam_id);
    lemma_find_sub_shift(line, c + 1, " // "@);
    assert(line.subrange(c + 1, line.len() as int) =~= tail);
    assert(find_sub(line, c + 1, " // "@) == Some(c + 1 + p.group.len()));
    assert(is_player_line(line));
    let dd = c + 1 + p.group.len();
    assert(line.subrange(c + 1, dd as int) =~= p.group);
    assert(line.subrange(dd + 4, line.len() as int) =~= p.comment);
    let pd = player_of_line(line, off, off + byte_len(line));
    assert(pd =~= (PlayerData {
        steam_id: p.steam_id,
        group: p.group,
        comment: p.comment,
        start: off,
        end: off + byte_len(line),
    }));
    assert(parse_line(line, off, ln) =~= (ParseOutcome::Good {
        groups: Seq::empty(),
        players: seq![pd],
    }));
}

/// Concatenation preserves freedom from newlines.
proof fn lemma_nl_free_concat(a: Seq<char>, b: Seq<char>)
    requires
        newline_free(a),
        newline_free(b),
    ensures
        newline_free(a + b),
{
    assert(forall|j: int|
        0 <= j < (a + b).len() ==> #[trigger] (a + b)[j] != '\n');
}

/// A rendered group declaration stays on one line.
proof fn lemma_group_line_nl_free(g: GroupData)
    requires
        name_clean(g.name),
        canonical(g.permissions),
    ensures
        newline_free(render_group(g)),
{
    reveal_strlit("Group=");
    reveal_strlit(":");
    assert(newline_free("Group="@)) by {
        assert("Group="@ =~= seq!['G', 'r', 'o', 'u', 'p', '=']);
    }
    assert(newline_free(":"@)) by {
        assert(":"@ =~= seq![':']);
    }
    lemma_render_perms_clean(g.permissions, 0);
    lemma_nl_free_concat(":"@, render_perms(g.permissions, 0));
    lemma_nl_free_concat(g.name, ":"@ + render_perms(g.permissions, 0));
    lemma_nl_free_concat("Group="@, g.name + (":"@ + render_perms(g.permissions, 0)));
    assert(render_group(g) =~= "Group="@ + (g.name + (":"@ + render_perms(
        g.permissions,
        0,
    ))));
}

/// A rendered player declaration stays on one line.
proof fn lemma_player_line_nl_free(p: PlayerData)
    requires
        newline_free(p.group),
        newline_free(p.comment),
    ensures
        newline_free(render_player(p)),
{
    reveal_strlit("Admin=");
    reveal_strlit(":");
    reveal_strlit(" // ");
    assert(newline_free("Admin="@)) by {
        assert("Admin="@ =~= seq!['A', 'd', 'm', 'i', 'n', '=']);
    }
    assert(newline_free(":"@)) by {
        assert(":"@ =~= seq![':']);
    }
    assert(newline_free(" // "@)) by {
        assert(" // "@ =~= seq![' ', '/', '/', ' ']);
    }
    let d = dec_str(p.steam_id as nat);
    lemma_dec_str_digits(p.steam_id as nat);
    assert(newline_free(d)) by {
        assert(forall|i: int| 0 <= i < d.len() ==> is_digit(#[trigger] d[i]));
    }
    lemma_nl_free_concat(" // "@, p.comment);
    lemma_nl_free_concat(p.group, " // "@ + p.comment);
    lemma_nl_free_concat(":"@, p.group + (" // "@ + p.comment));
    lemma_nl_free_concat(d, ":"@ + (p.group + (" // "@ + p.comment)));
    lemma_nl_free_concat("Admin="@, d + (":"@ + (p.group + (" // "@ + p.comment))));
    assert(render_player(p) =~= "Admin="@ + (d + (":"@ + (p.group + (" // "@
        + p.comment)))));
}

/// A run banner stays on one line and parses as a comment.
proof fn lemma_banner_facts(group: Seq<char>, off: int, ln: int)
    requires
        newline_free(group),
    ensures
        newline_free("// "@ + group),
        parse_line("// "@ + group, off, ln) == (ParseOutcome::Good {
            groups: Seq::empty(),
            players: Seq::empty(),
        }),
{
    reveal_strlit("// ");
    reveal_strlit("//");
    assert("// "@ =~= seq!['/', '/', ' ']);
    assert(newline_free("// "@));
    lemma_nl_free_concat("// "@, group);
    let line = "// "@ + group;
    assert(line.subrange(0, 2) =~= "//"@);
    assert(is_comment_line(line));
}

/// Consuming one line: parsing `line + newline + rest` is parsing the
/// line, then the rest one byte and one line later.
proof fn lemma_parse_step(line: Seq<char>, rest: Seq<char>, off: int, ln: int)
    requires
        newline_free(line),
    ensures
        parse_from(line + "\n"@ + rest, off, ln) == (match parse_line(line, off, ln) {
            ParseOutcome::Bad { line: l, offset: o } => ParseOutcome::Bad {
                line: l,
                offset: o,
            },
            ParseOutcome::Good { groups: g1, players: p1 } => {
                match parse_from(rest, off + byte_len(line) + 1, ln + 1) {
                    ParseOutcome::Bad { line: l, offset: o } => ParseOutcome::Bad {
                        line: l,
                        offset: o,
                    },
                    ParseOutcome::Good { groups: g2, players: p2 } => ParseOutcome::Good {
                        groups: g1 + g2,
                        players: p1 + p2,
                    },
                }
            },
        }),
{
    reveal_strlit("\n");
    let s = line + "\n"@ + rest;
    assert(s =~= line + ("\n"@ + rest));
    assert(("\n"@ + rest)[0] == '\n');
    lemma_find_idx_concat(line, "\n"@ + rest, '\n');
    assert(find_idx(s, 0, '\n') == line.len());
    assert(s.subrange(0, line.len() as int) =~= line);
    assert(s.subrange(line.len() as int + 1, s.len() as int) =~= rest);
}

/// A final line without a newline parses as just that line.
proof fn lemma_parse_last(line: Seq<char>, off: int, ln: int)
    requires
        newline_free(line),
    ensures
        parse_from(line, off, ln) == parse_line(line, off, ln),
{
    lemma_find_idx_absent(line, '\n');
    assert(line.subrange(0, line.len() as int) =~= line);
}

/// Same names and permissions in order, spans aside.
pub open spec fn groups_match(a: Seq<GroupData>, b: Seq<GroupData>) -> bool {
    a.len() == b.len() && forall|i: int|
        0 <= i < a.len() ==> ((#[trigger] a[i]).name == b[i].name && a[i].permissions
            == b[i].permissions)
}

/// Same ids, group references and comments in order, spans aside.
pub open spec fn players_match(a: Seq<PlayerData>, b: Seq<PlayerData>) -> bool {
    a.len() == b.len() && forall|i: int|
        0 <= i < a.len() ==> ((#[trigger] a[i]).steam_id == b[i].steam_id && a[i].group
            == b[i].group && a[i].comment == b[i].comment)
}

/// Every group of the document renders losslessly.
pub open spec fn groups_clean(gs: Seq<GroupData>) -> bool {
    forall|i: int|
        0 <= i < gs.len() ==> (name_clean((#[trigger] gs[i]).name) && canonical(
            gs[i].permissions,
        ))
}

/// Every player of the document renders losslessly.
pub open spec fn players_clean(ps: Seq<PlayerData>) -> bool {
    forall|i: int|
        0 <= i < ps.len() ==> (newline_free((#[trigger] ps[i]).group) && newline_free(
            ps[i].comment,
        ) && separator_first(ps[i].group, ps[i].comment))
}

/// Rendering reads nothing but the matched content.
proof fn lemma_render_groups_match(a: Seq<GroupData>, b: Seq<GroupData>, i: int)
    requires
        groups_match(a, b),
        0 <= i <= a.len(),
    ensures
        render_groups(a, i) == render_groups(b, i),
    decreases a.len() - i,
{
    if i < a.len() {
        lemma_render_groups_match(a, b, i + 1);
        assert(render_group(a[i]) == render_group(b[i]));
    }
}

proof fn lemma_run_end_match(a: Seq<PlayerData>, b: Seq<PlayerData>, key: Seq<char>, j: int)
    requires
        players_match(a, b),
        0 <= j,
    ensures
        run_end_from(a, key, j) == run_end_from(b, key, j),
    decreases a.len() - j,
{
    if j < a.len() && a[j].group == key {
        lemma_run_end_match(a, b, key, j + 1);
    }
}

proof fn lemma_render_run_players_match(
    a: Seq<PlayerData>,
    b: Seq<PlayerData>,
    i: int,
    e: int,
)
    requires
        players_match(a, b),
        0 <= i,
        i <= e <= a.len(),
    ensures
        render_run_players(a, i, e) == render_run_players(b, i, e),
    decreases e - i,
{
    if i < e {
        lemma_render_run_players_match(a, b, i + 1, e);
        assert(render_player(a[i]) == render_player(b[i]));
    }
}

proof fn lemma_render_runs_match(a: Seq<PlayerData>, b: Seq<PlayerData>, i: int)
    requires
        players_match(a, b),
        0 <= i <= a.len(),
    ensures
        render_runs(a, i) == render_runs(b, i),
    decreases a.len() - i,
{
    if i < a.len() {
        let e = run_end_from(a, a[i].group, i + 1);
        lemma_run_end_from_bounds(a, a[i].group, i + 1);
        lemma_run_end_match(a, b, a[i].group, i + 1);
        lemma_render_run_players_match(a, b, i, e);
        if e < a.len() {
            lemma_render_runs_match(a, b, e);
        }
    }
}

/// What remains of a run at player `j`: its player lines to `e`, then
/// the following runs, if any.
spec fn run_tail_text(ps: Seq<PlayerData>, j: int, e: int) -> Seq<char> {
    render_run_players(ps, j, e) + if e < ps.len() {
        "\n\n"@ + render_runs(ps, e)
    } else {
        Seq::empty()
    }
}

/// The rendered runs from player `i` on parse back to those players.
proof fn lemma_parse_runs(ps: Seq<PlayerData>, i: int, off: int, ln: int)
    requires
        0 <= i <= ps.len(),
        players_clean(ps),
    ensures
        (match parse_from(render_runs(ps, i), off, ln) {
            ParseOutcome::Good { groups: g2, players: p2 } => g2.len() == 0
                && players_match(p2, ps.skip(i)),
            ParseOutcome::Bad { .. } => false,
        }),
    decreases ps.len() - i, 1int,
{
    if i >= ps.len() {
        assert(render_runs(ps, i) =~= Seq::<char>::empty());
        lemma_parse_last(Seq::empty(), off, ln);
        assert(is_blank(Seq::<char>::empty()));
        assert(ps.skip(i) =~= Seq::<PlayerData>::empty());
        assert(players_match(Seq::empty(), ps.skip(i)));
    } else {
        let e = run_end_from(ps, ps[i].group, i + 1);
        lemma_run_end_from_bounds(ps, ps[i].group, i + 1);
        let banner = "// "@ + ps[i].group;
        lemma_banner_facts(ps[i].group, off, ln);
        let body = run_tail_text(ps, i, e);
        assert(render_runs(ps, i) =~= banner + "\n"@ + body);
        lemma_parse_step(banner, body, off, ln);
        lemma_parse_run_tail(ps, i, e, off + byte_len(banner) + 1, ln + 1);
        match parse_from(body, off + byte_len(banner) + 1, ln + 1) {
            ParseOutcome::Good { groups: g2, players: p2 } => {
                assert(Seq::<GroupData>::empty() + g2 =~= g2);
                assert(Seq::<PlayerData>::empty() + p2 =~= p2);
            },
            ParseOutcome::Bad { .. } => {},
        }
    }
}

/// The player lines of a run from `j`, and everything after, parse
/// back to the players from `j` on.
proof fn lemma_parse_run_tail(ps: Seq<PlayerData>, j: int, e: int, off: int, ln: int)
    requires
        0 <= j < e <= ps.len(),
        players_clean(ps),
    ensures
        (match parse_from(run_tail_text(ps, j, e), off, ln) {
            ParseOutcome::Good { groups: g2, players: p2 } => g2.len() == 0
                && players_match(p2, ps.skip(j)),
            ParseOutcome::Bad { .. } => false,
        }),
    decreases ps.len() - j, 0int,
{
    let line = render_player(ps[j]);
    lemma_player_line_nl_free(ps[j]);
    lemma_player_line_round_trip(ps[j], off, ln);
    let pd = PlayerData {
        steam_id: ps[j].steam_id,
        group: ps[j].group,
        comment: ps[j].comment,
        start: off,
        end: off + byte_len(line),
    };
    if j < e - 1 {
        let rest = run_tail_text(ps, j + 1, e);
        assert(run_tail_text(ps, j, e) =~= line + "\n"@ + rest);
        lemma_parse_step(line, rest, off, ln);
        lemma_parse_run_tail(ps, j + 1, e, off + byte_len(line) + 1, ln + 1);
        match parse_from(rest, off + byte_len(line) + 1, ln + 1) {
            ParseOutcome::Good { groups: g2, players: p2 } => {
                assert(Seq::<GroupData>::empty() + g2 =~= g2);
                lemma_players_match_cons(pd, ps[j], p2, ps, j);
            },
            ParseOutcome::Bad { .. } => {},
        }
    } else {
        if e < ps.len() {
            let u = render_runs(ps, e);
            reveal_strlit("\n\n");
            reveal_strlit("\n");
            assert("\n\n"@ =~= seq!['\n', '\n']);
            assert("\n"@ =~= seq!['\n']);
            assert(run_tail_text(ps, j, e) =~= line + "\n"@ + ("\n"@ + u));
            lemma_parse_step(line, "\n"@ + u, off, ln);
            let off1 = off + byte_len(line) + 1;
            assert("\n"@ + u =~= Seq::<char>::empty() + "\n"@ + u);
            lemma_parse_step(Seq::empty(), u, off1, ln + 1);
            assert(is_blank(Seq::<char>::empty()));
            assert(byte_len(Seq::<char>::empty()) == 0);
            lemma_parse_runs(ps, e, off1 + byte_len(Seq::<char>::empty()) + 1, ln + 2);
            match parse_from(u, off1 + byte_len(Seq::<char>::empty()) + 1, ln + 2) {
                ParseOutcome::Good { groups: g2, players: p2 } => {
                    assert(Seq::<GroupData>::empty() + g2 =~= g2);
                    assert(Seq::<PlayerData>::empty() + p2 =~= p2);
                    assert(Seq::<GroupData>::empty() + (Seq::<GroupData>::empty() + g2)
                        =~= g2);
                    lemma_players_match_cons(pd, ps[j], p2, ps, j);
                },
                ParseOutcome::Bad { .. } => {},
            }
        } else {
            assert(run_tail_text(ps, j, e) =~= line);
            lemma_parse_last(line, off, ln);
            assert(ps.skip(j) =~= seq![ps[j]]);
            assert(players_match(seq![pd], ps.skip(j)));
        }
    }
}

/// Prepending the parsed head player keeps the contents matched.
proof fn lemma_players_match_cons(
    pd: PlayerData,
    orig: PlayerData,
    p2: Seq<PlayerData>,
    ps: Seq<PlayerData>,
    j: int,
)
    requires
        0 <= j < ps.len(),
        orig == ps[j],
        pd.steam_id == orig.steam_id,
        pd.group == orig.group,
        pd.comment == orig.comment,
        players_match(p2, ps.skip(j + 1)),
    ensures
        players_match(seq![pd] + p2, ps.skip(j)),
{
    let a = seq![pd] + p2;
    let b = ps.skip(j);
    assert(a.len() == b.len());
    assert forall|t: int|
        0 <= t < a.len() implies ((#[trigger] a[t]).steam_id == b[t].steam_id
        && a[t].group == b[t].group && a[t].comment == b[t].comment) by {
        if t == 0 {
            assert(a[0] == pd);
            assert(b[0] == ps[j]);
        } else {
            assert(a[t] == p2[t - 1]);
            assert(b[t] == ps.skip(j + 1)[t - 1]);
            assert(p2[t - 1].steam_id == ps.skip(j + 1)[t - 1].steam_id);
        }
    }
}

/// What remains of the document at group `i`: its group lines, the
/// separating blank line, and the player blocks.
spec fn groups_tail_text(gs: Seq<GroupData>, ps: Seq<PlayerData>, i: int) -> Seq<char> {
    render_groups(gs, i) + "\n\n"@ + render_runs(ps, 0)
}

/// The rendered document from group `i` on parses back to those groups
/// and all the players.
proof fn lemma_parse_groups(gs: Seq<GroupData>, ps: Seq<PlayerData>, i: int, off: int, ln: int)
    requires
        0 <= i < gs.len(),
        groups_clean(gs),
        players_clean(ps),
    ensures
        (match parse_from(groups_tail_text(gs, ps, i), off, ln) {
            ParseOutcome::Good { groups: g2, players: p2 } => groups_match(g2, gs.skip(i))
                && players_match(p2, ps),
            ParseOutcome::Bad { .. } => false,
        }),
    decreases gs.len() - i,
{
    let line = render_group(gs[i]);
    lemma_group_line_nl_free(gs[i]);
    lemma_group_line_round_trip(gs[i], off, ln);
    let gd = GroupData {
        name: gs[i].name,
        permissions: gs[i].permissions,
        start: off,
        end: off + byte_len(line),
    };
    if i < gs.len() - 1 {
        let rest = groups_tail_text(gs, ps, i + 1);
        assert(groups_tail_text(gs, ps, i) =~= line + "\n"@ + rest);
        lemma_parse_step(line, rest, off, ln);
        lemma_parse_groups(gs, ps, i + 1, off + byte_len(line) + 1, ln + 1);
        match parse_from(rest, off + byte_len(line) + 1, ln + 1) {
            ParseOutcome::Good { groups: g2, players: p2 } => {
                assert(Seq::<PlayerData>::empty() + p2 =~= p2);
                lemma_groups_match_cons(gd, gs[i], g2, gs, i);
            },
            ParseOutcome::Bad { .. } => {},
        }
    } else {
        let u = render_runs(ps, 0);
        reveal_strlit("\n\n");
        reveal_strlit("\n");
        assert("\n\n"@ =~= seq!['\n', '\n']);
        assert("\n"@ =~= seq!['\n']);
        assert(groups_tail_text(gs, ps, i) =~= line + "\n"@ + ("\n"@ + u));
        lemma_parse_step(line, "\n"@ + u, off, ln);
        let off1 = off + byte_len(line) + 1;
        assert("\n"@ + u =~= Seq::<char>::empty() + "\n"@ + u);
        lemma_parse_step(Seq::empty(), u, off1, ln + 1);
        assert(is_blank(Seq::<char>::empty()));
        assert(byte_len(Seq::<char>::empty()) == 0);
        lemma_parse_runs(ps, 0, off1 + byte_len(Seq::<char>::empty()) + 1, ln + 2);
        match parse_from(u, off1 + byte_len(Seq::<char>::empty()) + 1, ln + 2) {
            ParseOutcome::Good { groups: g2, players: p2 } => {
                assert(Seq::<PlayerData>::empty() + p2 =~= p2);
                assert(Seq::<PlayerData>::empty() + (Seq::<PlayerData>::empty() + p2)
                    =~= p2);
                assert(Seq::<GroupData>::empty() + g2 =~= g2);
                assert(gs.skip(i) =~= seq![gs[i]]);
                assert(ps.skip(0) =~= ps);
                assert(players_match(p2, ps));
                assert(groups_match(seq![gd] + g2, gs.skip(i)));
            },
            ParseOutcome::Bad { .. } => {},
        }
    }
}

/// Prepending the parsed head group keeps the contents matched.
proof fn lemma_groups_match_cons(
    gd: GroupData,
    orig: GroupData,
    g2: Seq<GroupData>,
    gs: Seq<GroupData>,
    i: int,
)
    requires
        0 <= i < gs.len(),
        orig == gs[i],
        gd.name == orig.name,
        gd.permissions == orig.permissions,
        groups_match(g2, gs.skip(i + 1)),
    ensures
        groups_match(seq![gd] + g2, gs.skip(i)),
{
    let a = seq![gd] + g2;
    let b = gs.skip(i);
    assert(a.len() == b.len());
    assert forall|t: int|
        0 <= t < a.len() implies ((#[trigger] a[t]).name == b[t].name && a[t].permissions
        == b[t].permissions) by {
        if t == 0 {
            assert(a[0] == gd);
            assert(b[0] == gs[i]);
        } else {
            assert(a[t] == g2[t - 1]);
            assert(b[t] == gs.skip(i + 1)[t - 1]);
            assert(g2[t - 1].name == gs.skip(i + 1)[t - 1].name);
        }
    }
}

/// The round-trip law: a document whose groups and players render
/// losslessly parses back from its own rendering, and re-rendering the
/// parsed document reproduces the same text.
pub proof fn lemma_render_parse_round_trip(gs: Seq<GroupData>, ps: Seq<PlayerData>)
    requires
        groups_clean(gs),
        players_clean(ps),
    ensures
        (match parse_doc(render_doc(gs, ps)) {
            ParseOutcome::Good { groups: g2, players: p2 } => render_doc(g2, p2)
                == render_doc(gs, ps),
            ParseOutcome::Bad { .. } => false,
        }),
{
    let text = render_doc(gs, ps);
    if gs.len() == 0 {
        let u = render_runs(ps, 0);
        reveal_strlit("\n\n");
        reveal_strlit("\n");
        assert("\n\n"@ =~= seq!['\n', '\n']);
        assert("\n"@ =~= seq!['\n']);
        assert(render_groups(gs, 0) =~= Seq::<char>::empty());
        assert(text =~= Seq::<char>::empty() + "\n"@ + (Seq::<char>::empty() + "\n"@
            + u));
        lemma_parse_step(Seq::empty(), Seq::<char>::empty() + "\n"@ + u, 0, 1);
        assert(is_blank(Seq::<char>::empty()));
        assert(byte_len(Seq::<char>::empty()) == 0);
        lemma_parse_step(Seq::empty(), u, 0 + byte_len(Seq::<char>::empty()) + 1, 2);
        lemma_parse_runs(ps, 0, 2, 3);
        assert(0 + byte_len(Seq::<char>::empty()) + 1 + byte_len(Seq::<char>::empty())
            + 1 == 2);
        match parse_from(u, 2, 3) {
            ParseOutcome::Good { groups: g2, players: p2 } => {
                assert(Seq::<GroupData>::empty() + (Seq::<GroupData>::empty() + g2)
                    =~= g2);
                assert(Seq::<PlayerData>::empty() + (Seq::<PlayerData>::empty() + p2)
                    =~= p2);
                assert(ps.skip(0) =~= ps);
                assert(players_match(p2, ps));
                assert(groups_match(g2, gs));
            },
            ParseOutcome::Bad { .. } => {},
        }
    } else {
        assert(text == groups_tail_text(gs, ps, 0));
        lemma_parse_groups(gs, ps, 0, 0, 1);
        assert(gs.skip(0) =~= gs);
    }
    match parse_doc(text) {
        ParseOutcome::Good { groups: g2, players: p2 } => {
            lemma_render_groups_match(g2, gs, 0);
            lemma_render_runs_match(p2, ps, 0);
        },
        ParseOutcome::Bad { .. } => {
            assert(false);
        },
    }
}

} // verus!
