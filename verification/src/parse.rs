//! The parser: drives the line-oriented grammar over raw text, builds
//! the document model and attaches source byte spans.
//!
//! Grammar, per line: a group declaration
//! `Group=<name>:<comma-separated permission tokens>`, a player
//! declaration `Admin=<id>:<group-name> // <comment>`, a standalone
//! `//` comment line, or a blank line. Any other line fails the whole
//! parse. Unrecognized permission tokens become `Unknown` and
//! non-numeric or out-of-range player ids become `0`; neither is a
//! parse error.

use vstd::prelude::*;
use crate::Span;
use crate::model::{Group, GroupData, Player, PlayerData, Whitelist};
use crate::perms::GroupPermission;
use crate::text::{
    byte_len, byte_len_range, find_idx, find_in, find_sub, lemma_byte_len_add,
    lemma_byte_len_bounds, lemma_find_idx_props, lemma_find_idx_shift,
    lemma_find_sub_props, lemma_find_sub_shift,
};

verus! {

/// An ASCII decimal digit.
pub open spec fn is_digit(c: char) -> bool {
    48 <= c as u32 <= 57
}

pub open spec fn digit_val(c: char) -> int {
    c as u32 - 48
}

pub open spec fn all_digits(s: Seq<char>) -> bool {
    forall|i: int| 0 <= i < s.len() ==> is_digit(#[trigger] s[i])
}

/// Numeric value of a digit string, most significant digit first.
pub open spec fn digits_val(s: Seq<char>) -> int
    decreases s.len(),
{
    if s.len() == 0 {
        0
    } else {
        digits_val(s.drop_last()) * 10 + digit_val(s.last())
    }
}

/// The player-id coercion: a non-empty all-digit string that fits in
/// 64 bits keeps its value; anything else becomes `0`.
pub open spec fn coerced_id(s: Seq<char>) -> u64 {
    if s.len() > 0 && all_digits(s) && digits_val(s) <= u64::MAX {
        digits_val(s) as u64
    } else {
        0u64
    }
}

pub open spec fn is_blank(line: Seq<char>) -> bool {
    line.len() == 0
}

pub open spec fn is_comment_line(line: Seq<char>) -> bool {
    line.len() >= 2 && line.subrange(0, 2) == "//"@
}

pub open spec fn has_group_prefix(line: Seq<char>) -> bool {
    line.len() >= 6 && line.subrange(0, 6) == "Group="@
}

pub open spec fn has_player_prefix(line: Seq<char>) -> bool {
    line.len() >= 6 && line.subrange(0, 6) == "Admin="@
}

/// A group declaration: the `Group=` prefix and a colon after the name.
pub open spec fn is_group_line(line: Seq<char>) -> bool {
    has_group_prefix(line) && find_idx(line, 6, ':') < line.len()
}

/// A player declaration: the `Admin=` prefix, a colon after the id,
/// and the ` // ` comment separator after the group name.
pub open spec fn is_player_line(line: Seq<char>) -> bool {
    &&& has_player_prefix(line)
    &&& find_idx(line, 6, ':') < line.len()
    &&& find_sub(line, find_idx(line, 6, ':') + 1, " // "@) is Some
}

/// Permission tokens of a non-empty list text, split on commas; every
/// token (even an empty one) yields a tag.
pub open spec fn split_perm_tokens(s: Seq<char>) -> Seq<GroupPermission>
    decreases s.len() via split_perm_tokens_dec
{
    let c = find_idx(s, 0, ',');
    if c == s.len() {
        seq![GroupPermission::spec_from_token(s)]
    } else {
        seq![GroupPermission::spec_from_token(s.subrange(0, c))]
            + split_perm_tokens(s.subrange(c + 1, s.len() as int))
    }
}

#[via_fn]
proof fn split_perm_tokens_dec(s: Seq<char>) {
    lemma_find_idx_props(s, 0, ',');
}

/// The permission list of a group line: empty text means no
/// permissions, otherwise the comma-split tokens.
pub open spec fn parse_perm_list(s: Seq<char>) -> Seq<GroupPermission> {
    if s.len() == 0 {
        Seq::empty()
    } else {
        split_perm_tokens(s)
    }
}

/// Content of a group line whose source bytes are `[start, end)`.
pub open spec fn group_of_line(line: Seq<char>, start: int, end: int) -> GroupData {
    let c = find_idx(line, 6, ':');
    GroupData {
        name: line.subrange(6, c),
        permissions: parse_perm_list(line.subrange(c + 1, line.len() as int)),
        start,
        end,
    }
}

/// Content of a player line whose source bytes are `[start, end)`.
pub open spec fn player_of_line(line: Seq<char>, start: int, end: int) -> PlayerData {
    let c = find_idx(line, 6, ':');
    let d = match find_sub(line, c + 1, " // "@) {
        Some(k) => k,
        None => 0,
    };
    PlayerData {
        steam_id: coerced_id(line.subrange(6, c)),
        group: line.subrange(c + 1, d),
        comment: line.subrange(d + 4, line.len() as int),
        start,
        end,
    }
}

/// What parsing yields: the collected entities, or the location of the
/// first line that matches no grammar production.
#[verifier::ext_equal]
pub enum ParseOutcome {
    Good { groups: Seq<GroupData>, players: Seq<PlayerData> },
    Bad { line: int, offset: int },
}

/// One line, starting at byte `off`, as line number `ln`.
pub open spec fn parse_line(line: Seq<char>, off: int, ln: int) -> ParseOutcome {
    if is_blank(line) || is_comment_line(line) {
        ParseOutcome::Good { groups: Seq::empty(), players: Seq::empty() }
    } else if is_group_line(line) {
        ParseOutcome::Good {
            groups: seq![group_of_line(line, off, off + byte_len(line))],
            players: Seq::empty(),
        }
    } else if is_player_line(line) {
        ParseOutcome::Good {
            groups: Seq::empty(),
            players: seq![player_of_line(line, off, off + byte_len(line))],
        }
    } else {
        ParseOutcome::Bad { line: ln, offset: off }
    }
}

/// The suffix `s`, whose first character sits at byte `off` on line
/// `ln`, split at newlines and parsed line by line. All-or-nothing:
/// the first ill-formed line poisons the whole outcome.
pub open spec fn parse_from(s: Seq<char>, off: int, ln: int) -> ParseOutcome
    decreases s.len() via parse_from_dec
{
    let e = find_idx(s, 0, '\n');
    let line = s.subrange(0, e);
    let head = parse_line(line, off, ln);
    if e == s.len() {
        head
    } else {
        match head {
            ParseOutcome::Bad { line: l, offset: o } => ParseOutcome::Bad {
                line: l,
                offset: o,
            },
            ParseOutcome::Good { groups: g1, players: p1 } => {
                match parse_from(
                    s.subrange(e + 1, s.len() as int),
                    off + byte_len(line) + 1,
                    ln + 1,
                ) {
                    ParseOutcome::Bad { line: l, offset: o } => ParseOutcome::Bad {
                        line: l,
                        offset: o,
                    },
                    ParseOutcome::Good { groups: g2, players: p2 } => ParseOutcome::Good {
                        groups: g1 + g2,
                        players: p1 + p2,
                    },
                }
            },
        }
    }
}

#[via_fn]
proof fn parse_from_dec(s: Seq<char>, off: int, ln: int) {
    lemma_find_idx_props(s, 0, '\n');
}

/// The whole text, parsed from its first byte as line one.
pub open spec fn parse_doc(s: Seq<char>) -> ParseOutcome {
    parse_from(s, 0, 1)
}

/// A structural grammar mismatch: the 1-based number and starting byte
/// offset of the first line that matches no production.
#[derive(Clone, Copy, Debug, PartialEq, Eq, Structural)]
pub struct ParseError {
    pub line: usize,
    pub offset: usize,
}

/// The characters of `text`, for indexed scanning.
fn chars_of(text: &str) -> (v: Vec<char>)
    ensures
        v@ == text@,
{
    let n = text.unicode_len();
    let mut v: Vec<char> = Vec::new();
    let mut i: usize = 0;
    while i < n
        invariant
            i <= n,
            n == text@.len(),
            v@ == text@.take(i as int),
        decreases n - i,
    {
        let c = text.get_char(i);
        v.push(c);
        proof {
            assert(v@ =~= text@.take(i + 1int));
        }
        i = i + 1;
    }
    proof {
        assert(text@.take(n as int) =~= text@);
    }
    v
}

/// True when `chars[i..]` starts with the pattern.
fn has_at(chars: &Vec<char>, i: usize, pat: &str) -> (r: bool)
    requires
        i <= chars@.len(),
    ensures
        r == (i + pat@.len() <= chars@.len()
            && chars@.subrange(i as int, i as int + pat@.len() as int) == pat@),
{
    let m = pat.unicode_len();
    let n = chars.len();
    if n - i < m {
        return false;
    }
    let mut j: usize = 0;
    while j < m
        invariant
            j <= m,
            m == pat@.len(),
            n == chars@.len(),
            i + m <= n,
            forall|k: int| 0 <= k < j ==> chars@[i + k] == pat@[k],
        decreases m - j,
    {
        if chars[i + j] != pat.get_char(j) {
            proof {
                assert(chars@.subrange(i as int, i as int + pat@.len() as int)[j as int]
                    != pat@[j as int]);
            }
            return false;
        }
        j = j + 1;
    }
    proof {
        assert(chars@.subrange(i as int, i as int + pat@.len() as int) =~= pat@);
    }
    true
}

/// First ` // ` separator in `chars[lo..hi]`, as an absolute index.
fn find_sep(chars: &Vec<char>, lo: usize, hi: usize) -> (r: Option<usize>)
    requires
        lo <= hi <= chars@.len(),
    ensures
        ({
            let f = find_sub(chars@.subrange(lo as int, hi as int), 0, " // "@);
            match r {
                Some(k) => lo <= k && k + 4 <= hi && f == Some(k - lo as int),
                None => f is None,
            }
        }),
{
    let ghost sub = chars@.subrange(lo as int, hi as int);
    let ghost pat = " // "@;
    proof {
        reveal_strlit(" // ");
        lemma_find_sub_props(sub, 0, pat);
    }
    let mut k: usize = lo;
    while hi - k >= 4
        invariant
            lo <= k <= hi <= chars@.len(),
            sub == chars@.subrange(lo as int, hi as int),
            pat == " // "@,
            pat.len() == 4,
            pat[0] == ' ' && pat[1] == '/' && pat[2] == '/' && pat[3] == ' ',
            forall|j: int|
                0 <= j < k - lo ==> #[trigger] sub.subrange(j, j + 4) != pat,
        decreases hi - k,
    {
        if chars[k] == ' ' && chars[k + 1] == '/' && chars[k + 2] == '/'
            && chars[k + 3] == ' ' {
            proof {
                assert(sub.subrange(k - lo as int, k - lo as int + 4) =~= pat);
                lemma_find_sub_props(sub, 0, pat);
                let f = find_sub(sub, 0, pat);
                match f {
                    Some(fk) => {
                        assert(fk == k - lo) by {
                            if fk < k - lo {
                                assert(sub.subrange(fk, fk + 4) == pat);
                            }
                            if fk > k - lo {
                                assert(sub.subrange(k - lo as int, k - lo as int + 4)
                                    != pat);
                            }
                        }
                    },
                    None => {
                        assert(sub.subrange(k - lo as int, k - lo as int + 4) != pat);
                    },
                }
            }
            return Some(k);
        }
        proof {
            let j = k - lo as int;
            assert(sub.subrange(j, j + 4) != pat) by {
                let w = sub.subrange(j, j + 4);
                assert(w[0] == chars@[k as int]);
                assert(w[1] == chars@[k + 1int]);
                assert(w[2] == chars@[k + 2int]);
                assert(w[3] == chars@[k + 3int]);
            }
        }
        k = k + 1;
    }
    proof {
        lemma_find_sub_props(sub, 0, pat);
        match find_sub(sub, 0, pat) {
            Some(fk) => {
                assert(sub.subrange(fk, fk + 4) == pat);
                assert(fk + 4 <= sub.len());
                assert(fk < k - lo);
                assert(false);
            },
            None => {},
        }
    }
    None
}

/// Value of the id text `chars[lo..hi]` under the lenient coercion.
fn parse_id(chars: &Vec<char>, lo: usize, hi: usize) -> (r: u64)
    requires
        lo <= hi <= chars@.len(),
    ensures
        r == coerced_id(chars@.subrange(lo as int, hi as int)),
{
    let ghost sub = chars@.subrange(lo as int, hi as int);
    if lo == hi {
        return 0;
    }
    let mut acc: u64 = 0;
    let mut i: usize = lo;
    while i < hi
        invariant
            lo <= i <= hi <= chars@.len(),
            sub == chars@.subrange(lo as int, hi as int),
            all_digits(sub.take(i - lo)),
            acc == digits_val(sub.take(i - lo)),
        decreases hi - i,
    {
        let v = chars[i] as u32;
        if v < 48 || v > 57 {
            proof {
                assert(!is_digit(sub[i - lo]));
                assert(!all_digits(sub));
            }
            return 0;
        }
        let d = (v - 48) as u64;
        proof {
            assert(is_digit(sub[i - lo]));
            assert(sub.take(i - lo + 1).drop_last() =~= sub.take(i - lo));
            assert(sub.take(i - lo + 1).last() == sub[i - lo]);
        }
        let stepped = match acc.checked_mul(10) {
            Some(x) => x.checked_add(d),
            None => None,
        };
        match stepped {
            Some(next) => {
                acc = next;
            },
            None => {
                proof {
                    let over = digits_val(sub.take(i - lo + 1));
                    assert(over > u64::MAX);
                    if all_digits(sub) {
                        lemma_digits_val_monotone(sub, i - lo + 1);
                        assert(digits_val(sub) >= over);
                    }
                }
                return 0;
            },
        }
        proof {
            assert(forall|j: int|
                0 <= j < i - lo + 1 ==> is_digit(#[trigger] sub.take(i - lo + 1)[j]));
        }
        i = i + 1;
    }
    proof {
        assert(sub.take(hi - lo as int) =~= sub);
    }
    acc
}

/// Digit prefixes only grow: the value of a longer all-digit prefix is
/// at least the value of a shorter one.
proof fn lemma_digits_val_nonneg(s: Seq<char>)
    requires
        all_digits(s),
    ensures
        digits_val(s) >= 0,
    decreases s.len(),
{
    if s.len() > 0 {
        assert(all_digits(s.drop_last())) by {
            assert(forall|j: int|
                0 <= j < s.len() - 1 ==> is_digit(#[trigger] s.drop_last()[j]));
        }
        lemma_digits_val_nonneg(s.drop_last());
    }
}

proof fn lemma_digits_val_monotone(s: Seq<char>, i: int)
    requires
        all_digits(s),
        0 <= i <= s.len(),
    ensures
        digits_val(s) >= digits_val(s.take(i)),
    decreases s.len() - i,
{
    if i < s.len() {
        assert(all_digits(s.take(i))) by {
            assert(forall|j: int| 0 <= j < i ==> is_digit(#[trigger] s.take(i)[j]));
        }
        lemma_digits_val_nonneg(s.take(i));
        assert(s.take(i + 1).drop_last() =~= s.take(i));
        assert(s.take(i + 1).last() == s[i]);
        assert(digits_val(s.take(i + 1)) >= digits_val(s.take(i)));
        lemma_digits_val_monotone(s, i + 1);
    } else {
        assert(s.take(i) =~= s);
    }
}

/// Permission tags of the list text `chars[lo..hi]`.
fn parse_perms(chars: &Vec<char>, text: &str, lo: usize, hi: usize) -> (r: Vec<
    GroupPermission,
>)
    requires
        chars@ == text@,
        lo <= hi <= chars@.len(),
    ensures
        r@ == parse_perm_list(chars@.subrange(lo as int, hi as int)),
{
    let ghost whole = chars@.subrange(lo as int, hi as int);
    let mut r: Vec<GroupPermission> = Vec::new();
    if lo == hi {
        return r;
    }
    let mut cur: usize = lo;
    let mut c = find_in(chars, cur, hi, ',');
    while c < hi
        invariant
            lo <= cur <= c <= hi <= chars@.len(),
            chars@ == text@,
            whole == chars@.subrange(lo as int, hi as int),
            whole.len() > 0,
            c - cur == find_idx(chars@.subrange(cur as int, hi as int), 0, ','),
            split_perm_tokens(whole) =~= r@
                + split_perm_tokens(chars@.subrange(cur as int, hi as int)),
        decreases hi - c,
    {
        let ghost rest = chars@.subrange(cur as int, hi as int);
        proof {
            lemma_find_idx_props(rest, 0, ',');
        }
        let tok = text.substring_char(cur, c);
        let perm = GroupPermission::from_string(tok);
        let ghost old_r = r@;
        r.push(perm);
        proof {
            let next = chars@.subrange(c + 1int, hi as int);
            assert(tok@ =~= rest.subrange(0, c - cur as int));
            assert(rest.subrange(c - cur as int + 1, rest.len() as int) =~= next);
            assert(split_perm_tokens(rest)
                == seq![perm] + split_perm_tokens(next));
            assert(old_r + (seq![perm] + split_perm_tokens(next))
                =~= r@ + split_perm_tokens(next));
        }
        cur = c + 1;
        c = find_in(chars, cur, hi, ',');
    }
    let ghost rest = chars@.subrange(cur as int, hi as int);
    proof {
        lemma_find_idx_props(rest, 0, ',');
        assert(rest.len() > 0 ==> find_idx(rest, 0, ',') == rest.len());
    }
    let tok = text.substring_char(cur, hi);
    let perm = GroupPermission::from_string(tok);
    let ghost old_r = r@;
    r.push(perm);
    proof {
        assert(tok@ =~= rest);
        assert(split_perm_tokens(rest)
            =~= seq![GroupPermission::spec_from_token(rest)]);
        assert(old_r + split_perm_tokens(rest) =~= r@);
        assert(parse_perm_list(whole) == split_perm_tokens(whole));
    }
    r
}

/// What one line contributes to the document.
enum LineItem {
    Nothing,
    G(Group),
    P(Player),
}

/// Parse the single line `chars[pos..e]`, whose first byte offset is
/// `boff`, whose UTF-8 length is `lb`, as line number `ln`.
fn parse_one_line(
    chars: &Vec<char>,
    text: &str,
    pos: usize,
    e: usize,
    boff: usize,
    lb: usize,
    ln: usize,
) -> (r: Result<LineItem, ParseError>)
    requires
        chars@ == text@,
        pos <= e <= chars@.len(),
        lb == byte_len(text@.subrange(pos as int, e as int)),
        boff + lb <= usize::MAX,
    ensures
        ({
            let line = text@.subrange(pos as int, e as int);
            match r {
                Ok(item) => match item {
                    LineItem::Nothing => parse_line(line, boff as int, ln as int)
                        == (ParseOutcome::Good {
                        groups: Seq::empty(),
                        players: Seq::empty(),
                    }),
                    LineItem::G(g) => parse_line(line, boff as int, ln as int)
                        == (ParseOutcome::Good {
                        groups: seq![g@],
                        players: Seq::empty(),
                    }),
                    LineItem::P(p) => parse_line(line, boff as int, ln as int)
                        == (ParseOutcome::Good {
                        groups: Seq::empty(),
                        players: seq![p@],
                    }),
                },
                Err(err) => {
                    &&& parse_line(line, boff as int, ln as int)
                        == (ParseOutcome::Bad { line: ln as int, offset: boff as int })
                    &&& err.line == ln
                    &&& err.offset == boff
                },
            }
        }),
{
    let ghost line = text@.subrange(pos as int, e as int);
    if e == pos {
        proof {
            assert(is_blank(line));
        }
        return Ok(LineItem::Nothing);
    }
    let is_cmt = e - pos >= 2 && has_at(chars, pos, "//");
    proof {
        reveal_strlit("//");
        if e - pos >= 2 {
            assert(line.subrange(0, 2) =~= chars@.subrange(pos as int, pos + 2int));
        }
        assert(is_cmt == is_comment_line(line));
    }
    if is_cmt {
        return Ok(LineItem::Nothing);
    }
    let is_grp = e - pos >= 6 && has_at(chars, pos, "Group=");
    let is_ply = !is_grp && e - pos >= 6 && has_at(chars, pos, "Admin=");
    proof {
        reveal_strlit("Group=");
        reveal_strlit("Admin=");
        if e - pos >= 6 {
            assert(line.subrange(0, 6) =~= chars@.subrange(pos as int, pos + 6int));
        }
        assert(is_grp == has_group_prefix(line));
        assert("Group="@[0] != "Admin="@[0]);
        assert(is_ply == has_player_prefix(line));
    }
    if is_grp {
        let c = find_in(chars, pos + 6, e, ':');
        proof {
            lemma_find_idx_shift(line, 6, ':');
            assert(line.subrange(6, line.len() as int)
                =~= chars@.subrange(pos + 6int, e as int));
            assert(find_idx(line, 6, ':') == c - pos);
        }
        if c == e {
            proof {
                assert(!is_group_line(line));
                assert(!is_player_line(line));
            }
            return Err(ParseError { line: ln, offset: boff });
        }
        let name = text.substring_char(pos + 6, c).to_owned();
        let permissions = parse_perms(chars, text, c + 1, e);
        let g = Group { name, permissions, span: Span { start: boff, end: boff + lb } };
        proof {
            assert(is_group_line(line));
            let gd = group_of_line(line, boff as int, boff as int + byte_len(line));
            assert(g@.name =~= gd.name);
            assert(line.subrange(c - pos as int + 1, line.len() as int)
                =~= chars@.subrange(c + 1int, e as int));
            assert(g@.permissions =~= gd.permissions);
            assert(g@ =~= gd);
            assert(parse_line(line, boff as int, ln as int) =~= (ParseOutcome::Good {
                groups: seq![g@],
                players: Seq::empty(),
            }));
        }
        return Ok(LineItem::G(g));
    }
    if is_ply {
        let c = find_in(chars, pos + 6, e, ':');
        proof {
            lemma_find_idx_shift(line, 6, ':');
            assert(line.subrange(6, line.len() as int)
                =~= chars@.subrange(pos + 6int, e as int));
            assert(find_idx(line, 6, ':') == c - pos);
        }
        if c == e {
            proof {
                assert(!is_group_line(line));
                assert(!is_player_line(line));
            }
            return Err(ParseError { line: ln, offset: boff });
        }
        let sep = find_sep(chars, c + 1, e);
        proof {
            reveal_strlit(" // ");
            lemma_find_sub_shift(line, c - pos as int + 1, " // "@);
            assert(line.subrange(c - pos as int + 1, line.len() as int)
                =~= chars@.subrange(c + 1int, e as int));
        }
        match sep {
            None => {
                proof {
                    assert(!is_player_line(line));
                    assert(!is_group_line(line));
                }
                return Err(ParseError { line: ln, offset: boff });
            },
            Some(d) => {
                let id = parse_id(chars, pos + 6, c);
                let group = text.substring_char(c + 1, d).to_owned();
                let comment = text.substring_char(d + 4, e).to_owned();
                let p = Player {
                    steam_id: id,
                    group,
                    comment,
                    span: Span { start: boff, end: boff + lb },
                };
                proof {
                    assert(is_player_line(line));
                    let pd = player_of_line(
                        line,
                        boff as int,
                        boff as int + byte_len(line),
                    );
                    assert(find_sub(line, c - pos as int + 1, " // "@)
                        == Some(d - pos as int));
                    assert(line.subrange(6, c - pos as int)
                        =~= chars@.subrange(pos + 6int, c as int));
                    assert(p@.steam_id == pd.steam_id);
                    assert(p@.group =~= pd.group);
                    assert(p@.comment =~= pd.comment);
                    assert(p@ =~= pd);
                    assert(parse_line(line, boff as int, ln as int)
                        =~= (ParseOutcome::Good {
                        groups: Seq::empty(),
                        players: seq![p@],
                    }));
                }
                return Ok(LineItem::P(p));
            },
        }
    }
    proof {
        assert(!is_group_line(line));
        assert(!is_player_line(line));
    }
    Err(ParseError { line: ln, offset: boff })
}

/// Parse a whole configuration text into a document, or report the
/// first line that matches no grammar production. All-or-nothing: no
/// partial document is returned on failure. Unknown permission tokens
/// and malformed player ids are normalized, never fatal.
pub fn parse_whitelist(text: &str) -> (r: Result<Whitelist, ParseError>)
    requires
        4 * text@.len() <= usize::MAX,
    ensures
        (match r {
            Ok(w) => parse_doc(text@) == (ParseOutcome::Good {
                groups: w.groups_data(),
                players: w.players_data(),
            }),
            Err(e) => parse_doc(text@) == (ParseOutcome::Bad {
                line: e.line as int,
                offset: e.offset as int,
            }),
        }),
{
    let chars = chars_of(text);
    let n = chars.len();
    let mut groups: Vec<Group> = Vec::new();
    let mut players: Vec<Player> = Vec::new();
    let mut pos: usize = 0;
    let mut boff: usize = 0;
    let mut ln: usize = 1;
    let mut done = false;
    proof {
        assert(text@.take(0) =~= Seq::<char>::empty());
        assert(text@.skip(0) =~= text@);
        assert(groups@.map_values(|g: Group| g@) =~= Seq::<GroupData>::empty());
        assert(players@.map_values(|p: Player| p@) =~= Seq::<PlayerData>::empty());
        match parse_from(text@, 0, 1) {
            ParseOutcome::Good { groups: g2, players: p2 } => {
                assert(Seq::<GroupData>::empty() + g2 =~= g2);
                assert(Seq::<PlayerData>::empty() + p2 =~= p2);
                assert(parse_doc(text@) =~= (ParseOutcome::Good {
                    groups: groups@.map_values(|g: Group| g@) + g2,
                    players: players@.map_values(|p: Player| p@) + p2,
                }));
            },
            ParseOutcome::Bad { .. } => {},
        }
    }
    while !done
        invariant
            chars@ == text@,
            n == text@.len(),
            4 * n <= usize::MAX,
            pos <= n,
            ln <= pos + 1,
            boff as int == byte_len(text@.take(pos as int)),
            !done ==> (match parse_from(text@.skip(pos as int), boff as int, ln as int) {
                ParseOutcome::Good { groups: g2, players: p2 } => parse_doc(text@)
                    == (ParseOutcome::Good {
                    groups: groups@.map_values(|g: Group| g@) + g2,
                    players: players@.map_values(|p: Player| p@) + p2,
                }),
                ParseOutcome::Bad { line: l2, offset: o2 } => parse_doc(text@)
                    == (ParseOutcome::Bad { line: l2, offset: o2 }),
            }),
            done ==> parse_doc(text@) == (ParseOutcome::Good {
                groups: groups@.map_values(|g: Group| g@),
                players: players@.map_values(|p: Player| p@),
            }),
        decreases 2 * (n - pos) + (if done { 0int } else { 1int }),
    {
        let ghost suffix = text@.skip(pos as int);
        let e = find_in(&chars, pos, n, '\n');
        let ghost line = text@.subrange(pos as int, e as int);
        proof {
            assert(chars@.subrange(pos as int, n as int) =~= suffix);
            lemma_find_idx_props(suffix, 0, '\n');
            assert(suffix.subrange(0, e - pos as int) =~= line);
            assert(text@.take(e as int) =~= text@.take(pos as int) + line);
            lemma_byte_len_add(text@.take(pos as int), line);
            lemma_byte_len_bounds(text@.take(e as int));
            lemma_byte_len_bounds(text@.take(pos as int));
            lemma_byte_len_bounds(line);
        }
        let lb = byte_len_range(&chars, pos, e);
        let ghost head = parse_line(line, boff as int, ln as int);
        match parse_one_line(&chars, text, pos, e, boff, lb, ln) {
            Err(err) => {
                proof {
                    assert(parse_from(suffix, boff as int, ln as int)
                        == (ParseOutcome::Bad {
                        line: err.line as int,
                        offset: err.offset as int,
                    }));
                }
                return Err(err);
            },
            Ok(item) => {
                let ghost old_gm = groups@.map_values(|g: Group| g@);
                let ghost old_pm = players@.map_values(|p: Player| p@);
                let ghost hg: Seq<GroupData> = match &item {
                    LineItem::Nothing => Seq::empty(),
                    LineItem::G(g) => seq![g@],
                    LineItem::P(_) => Seq::empty(),
                };
                let ghost hp: Seq<PlayerData> = match &item {
                    LineItem::P(p) => seq![p@],
                    LineItem::Nothing => Seq::empty(),
                    LineItem::G(_) => Seq::empty(),
                };
                proof {
                    assert(head == (ParseOutcome::Good { groups: hg, players: hp }));
                }
                match item {
                    LineItem::Nothing => {},
                    LineItem::G(g) => {
                        groups.push(g);
                    },
                    LineItem::P(p) => {
                        players.push(p);
                    },
                }
                proof {
                    assert(groups@.map_values(|g: Group| g@) =~= old_gm + hg);
                    assert(players@.map_values(|p: Player| p@) =~= old_pm + hp);
                }
                if e == n {
                    done = true;
                    proof {
                        assert(e - pos as int == suffix.len());
                        assert(parse_from(suffix, boff as int, ln as int) == head);
                        assert((old_gm + hg) + Seq::<GroupData>::empty() =~= old_gm + hg);
                        assert((old_pm + hp) + Seq::<PlayerData>::empty() =~= old_pm + hp);
                        assert(parse_doc(text@) == (ParseOutcome::Good {
                            groups: old_gm + hg,
                            players: old_pm + hp,
                        }));
                    }
                } else {
                    proof {
                        assert(text@[e as int] == '\n');
                        assert(text@.take(e + 1int)
                            =~= text@.take(e as int) + seq![text@[e as int]]);
                        lemma_byte_len_add(text@.take(e as int), seq![text@[e as int]]);
                        assert(byte_len(seq!['\n']) == 1) by {
                            assert(byte_len(Seq::<char>::empty()) == 0);
                            assert(seq!['\n'].skip(1) =~= Seq::<char>::empty());
                        }
                        assert(byte_len(text@.take(e + 1int)) == boff + lb + 1);
                        lemma_byte_len_bounds(text@.take(e + 1int));
                        assert(suffix.subrange(e - pos as int + 1, suffix.len() as int)
                            =~= text@.skip(e + 1int));
                        match parse_from(text@.skip(e + 1int), boff + lb + 1int, ln + 1int) {
                            ParseOutcome::Good { groups: g2, players: p2 } => {
                                assert(parse_from(suffix, boff as int, ln as int)
                                    == (ParseOutcome::Good {
                                    groups: hg + g2,
                                    players: hp + p2,
                                }));
                                assert(old_gm + (hg + g2) =~= (old_gm + hg) + g2);
                                assert(old_pm + (hp + p2) =~= (old_pm + hp) + p2);
                                assert(parse_doc(text@) == (ParseOutcome::Good {
                                    groups: (old_gm + hg) + g2,
                                    players: (old_pm + hp) + p2,
                                }));
                            },
                            ParseOutcome::Bad { line: l2, offset: o2 } => {
                                assert(parse_from(suffix, boff as int, ln as int)
                                    == (ParseOutcome::Bad { line: l2, offset: o2 }));
                            },
                        }
                    }
                    pos = e + 1;
                    boff = boff + lb + 1;
                    ln = ln + 1;
                }
            },
        }
    }
    Ok(Whitelist::new(groups, players))
}

} // verus!
