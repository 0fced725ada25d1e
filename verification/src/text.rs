//! Character-level helpers shared by the parser, the serializer and the
//! linter: UTF-8 byte accounting, decimal rendering of identifiers, and
//! first-occurrence searches over character sequences.

use vstd::prelude::*;

verus! {

/// Number of bytes the UTF-8 encoding of `c` occupies.
pub open spec fn utf8_len(c: char) -> int {
    if (c as u32) < 0x80 {
        1
    } else if (c as u32) < 0x800 {
        2
    } else if (c as u32) < 0x10000 {
        3
    } else {
        4
    }
}

/// Number of bytes the UTF-8 encoding of the whole sequence occupies.
pub open spec fn byte_len(s: Seq<char>) -> int
    decreases s.len(),
{
    if s.len() == 0 {
        0
    } else {
        utf8_len(s[0]) + byte_len(s.skip(1))
    }
}

pub proof fn lemma_byte_len_bounds(s: Seq<char>)
    ensures
        s.len() <= byte_len(s) <= 4 * s.len(),
    decreases s.len(),
{
    if s.len() > 0 {
        lemma_byte_len_bounds(s.skip(1));
    }
}

pub proof fn lemma_byte_len_add(a: Seq<char>, b: Seq<char>)
    ensures
        byte_len(a + b) == byte_len(a) + byte_len(b),
    decreases a.len(),
{
    if a.len() == 0 {
        assert(a + b =~= b);
    } else {
        assert((a + b).skip(1) =~= a.skip(1) + b);
        lemma_byte_len_add(a.skip(1), b);
    }
}

pub fn char_utf8_len(c: char) -> (n: usize)
    ensures
        n == utf8_len(c),
{
    let v = c as u32;
    if v < 0x80 {
        1
    } else if v < 0x800 {
        2
    } else if v < 0x10000 {
        3
    } else {
        4
    }
}

/// Sum of UTF-8 byte lengths of `chars[lo..hi]`.
pub fn byte_len_range(chars: &Vec<char>, lo: usize, hi: usize) -> (n: usize)
    requires
        lo <= hi <= chars@.len(),
        4 * chars@.len() <= usize::MAX,
    ensures
        n == byte_len(chars@.subrange(lo as int, hi as int)),
{
    let mut n: usize = 0;
    let mut i: usize = lo;
    while i < hi
        invariant
            lo <= i <= hi <= chars@.len(),
            4 * chars@.len() <= usize::MAX,
            n == byte_len(chars@.subrange(lo as int, i as int)),
            n <= 4 * (i - lo),
        decreases hi - i,
    {
        let c = chars[i];
        proof {
            let pre = chars@.subrange(lo as int, i as int);
            let post = chars@.subrange(lo as int, i + 1int);
            assert(post =~= pre + seq![chars@[i as int]]);
            lemma_byte_len_add(pre, seq![chars@[i as int]]);
            assert(byte_len(seq![chars@[i as int]]) == utf8_len(chars@[i as int])) by {
                assert(byte_len(Seq::<char>::empty()) == 0);
                assert(seq![chars@[i as int]].skip(1) =~= Seq::<char>::empty());
            }
        }
        n = n + char_utf8_len(c);
        i = i + 1;
    }
    n
}

/// The digit character for a value below ten.
pub open spec fn digit_char(d: int) -> char {
    if d == 0 {
        '0'
    } else if d == 1 {
        '1'
    } else if d == 2 {
        '2'
    } else if d == 3 {
        '3'
    } else if d == 4 {
        '4'
    } else if d == 5 {
        '5'
    } else if d == 6 {
        '6'
    } else if d == 7 {
        '7'
    } else if d == 8 {
        '8'
    } else {
        '9'
    }
}

/// Decimal rendering of a natural number, most significant digit first.
pub open spec fn dec_str(n: nat) -> Seq<char>
    decreases n,
{
    if n < 10 {
        seq![digit_char(n as int)]
    } else {
        dec_str(n / 10) + seq![digit_char((n % 10) as int)]
    }
}

fn digit_str(d: u64) -> (r: &'static str)
    requires
        d < 10,
    ensures
        r@ =~= seq![digit_char(d as int)],
{
    proof {
        reveal_strlit("0");
        reveal_strlit("1");
        reveal_strlit("2");
        reveal_strlit("3");
        reveal_strlit("4");
        reveal_strlit("5");
        reveal_strlit("6");
        reveal_strlit("7");
        reveal_strlit("8");
        reveal_strlit("9");
    }
    match d {
        0 => "0",
        1 => "1",
        2 => "2",
        3 => "3",
        4 => "4",
        5 => "5",
        6 => "6",
        7 => "7",
        8 => "8",
        _ => "9",
    }
}

/// Render a 64-bit identifier in decimal.
pub fn u64_to_string(n: u64) -> (r: String)
    ensures
        r@ == dec_str(n as nat),
    decreases n,
{
    if n < 10 {
        digit_str(n).to_owned()
    } else {
        let mut s = u64_to_string(n / 10);
        s.append(digit_str(n % 10));
        s
    }
}

/// Character-by-character equality of two strings.
pub fn str_eq(a: &str, b: &str) -> (r: bool)
    ensures
        r == (a@ == b@),
{
    let n = a.unicode_len();
    let m = b.unicode_len();
    if n != m {
        return false;
    }
    let mut i: usize = 0;
    while i < n
        invariant
            i <= n,
            n == a@.len(),
            n == b@.len(),
            forall|j: int| 0 <= j < i ==> a@[j] == b@[j],
        decreases n - i,
    {
        if a.get_char(i) != b.get_char(i) {
            return false;
        }
        i = i + 1;
    }
    proof {
        assert(a@ =~= b@);
    }
    true
}

/// Index of the first occurrence of `ch` in `s` at or after `from`;
/// `s.len()` when there is none.
pub open spec fn find_idx(s: Seq<char>, from: int, ch: char) -> int
    decreases s.len() - from when 0 <= from
{
    if from >= s.len() {
        s.len() as int
    } else if s[from] == ch {
        from
    } else {
        find_idx(s, from + 1, ch)
    }
}

pub proof fn lemma_find_idx_props(s: Seq<char>, from: int, ch: char)
    requires
        0 <= from <= s.len(),
    ensures
        from <= find_idx(s, from, ch) <= s.len(),
        find_idx(s, from, ch) < s.len() ==> s[find_idx(s, from, ch)] == ch,
        forall|j: int| from <= j < find_idx(s, from, ch) ==> s[j] != ch,
    decreases s.len() - from,
{
    if from < s.len() && s[from] != ch {
        lemma_find_idx_props(s, from + 1, ch);
    }
}

/// Searching from `a` is searching the suffix that starts at `a`.
pub proof fn lemma_find_idx_shift(s: Seq<char>, a: int, ch: char)
    requires
        0 <= a <= s.len(),
    ensures
        find_idx(s, a, ch) == a + find_idx(s.subrange(a, s.len() as int), 0, ch),
{
    let sub = s.subrange(a, s.len() as int);
    lemma_find_idx_props(s, a, ch);
    lemma_find_idx_props(sub, 0, ch);
    let f = find_idx(s, a, ch);
    let g = find_idx(sub, 0, ch);
    if f < a + g {
        assert(sub[f - a] == s[f]);
        assert(false);
    }
    if a + g < f {
        assert(s[a + g] == sub[g]);
        assert(false);
    }
}

/// First occurrence of the pattern `pat` in `s` at or after `from`.
pub open spec fn find_sub(s: Seq<char>, from: int, pat: Seq<char>) -> Option<int>
    decreases s.len() - from when 0 <= from && pat.len() >= 1
{
    if from + pat.len() > s.len() {
        None
    } else if s.subrange(from, from + pat.len()) == pat {
        Some(from)
    } else {
        find_sub(s, from + 1, pat)
    }
}

pub proof fn lemma_find_sub_props(s: Seq<char>, from: int, pat: Seq<char>)
    requires
        0 <= from,
        pat.len() >= 1,
    ensures
        match find_sub(s, from, pat) {
            Some(k) => {
                &&& from <= k
                &&& k + pat.len() <= s.len()
                &&& s.subrange(k, k + pat.len()) == pat
                &&& forall|j: int|
                    from <= j < k ==> #[trigger] s.subrange(j, j + pat.len()) != pat
            },
            None => forall|j: int|
                from <= j && j + pat.len() <= s.len() ==> #[trigger] s.subrange(
                    j,
                    j + pat.len(),
                ) != pat,
        },
    decreases s.len() - from,
{
    if from + pat.len() <= s.len() && s.subrange(from, from + pat.len()) != pat {
        lemma_find_sub_props(s, from + 1, pat);
    }
}

/// The first occurrence of `ch` in `a + b` is at the seam when `a` is
/// free of it and `b` starts with it.
pub proof fn lemma_find_idx_concat(a: Seq<char>, b: Seq<char>, ch: char)
    requires
        forall|i: int| 0 <= i < a.len() ==> a[i] != ch,
        b.len() > 0,
        b[0] == ch,
    ensures
        find_idx(a + b, 0, ch) == a.len(),
{
    let s = a + b;
    lemma_find_idx_props(s, 0, ch);
    let f = find_idx(s, 0, ch);
    assert(s[a.len() as int] == ch);
    if f < a.len() {
        assert(s[f] == a[f]);
        assert(false);
    }
}

/// A sequence free of `ch` has no first occurrence of it.
pub proof fn lemma_find_idx_absent(s: Seq<char>, ch: char)
    requires
        forall|i: int| 0 <= i < s.len() ==> s[i] != ch,
    ensures
        find_idx(s, 0, ch) == s.len(),
{
    lemma_find_idx_props(s, 0, ch);
}

/// Pattern search from `a` is pattern search in the suffix at `a`.
pub proof fn lemma_find_sub_shift(s: Seq<char>, a: int, pat: Seq<char>)
    requires
        0 <= a <= s.len(),
        pat.len() >= 1,
    ensures
        ({
            let f = find_sub(s, a, pat);
            let g = find_sub(s.subrange(a, s.len() as int), 0, pat);
            match (f, g) {
                (Some(x), Some(y)) => x == a + y,
                (None, None) => true,
                _ => false,
            }
        }),
{
    let sub = s.subrange(a, s.len() as int);
    lemma_find_sub_props(s, a, pat);
    lemma_find_sub_props(sub, 0, pat);
    let m = pat.len() as int;
    match (find_sub(s, a, pat), find_sub(sub, 0, pat)) {
        (Some(x), Some(y)) => {
            if x < a + y {
                assert(sub.subrange(x - a, x - a + m) =~= s.subrange(x, x + m));
                assert(false);
            }
            if a + y < x {
                assert(s.subrange(a + y, a + y + m) =~= sub.subrange(y, y + m));
                assert(false);
            }
        },
        (Some(x), None) => {
            assert(sub.subrange(x - a, x - a + m) =~= s.subrange(x, x + m));
            assert(false);
        },
        (None, Some(y)) => {
            assert(s.subrange(a + y, a + y + m) =~= sub.subrange(y, y + m));
            assert(false);
        },
        (None, None) => {},
    }
}

/// First occurrence of `ch` in `chars[lo..hi]`, as an absolute index;
/// relates to `find_idx` on the extracted range.
pub fn find_in(chars: &Vec<char>, lo: usize, hi: usize, ch: char) -> (k: usize)
    requires
        lo <= hi <= chars@.len(),
    ensures
        lo <= k <= hi,
        k - lo == find_idx(chars@.subrange(lo as int, hi as int), 0, ch),
{
    let ghost sub = chars@.subrange(lo as int, hi as int);
    let mut i: usize = lo;
    while i < hi
        invariant
            lo <= i <= hi <= chars@.len(),
            sub == chars@.subrange(lo as int, hi as int),
            forall|j: int| 0 <= j < i - lo ==> sub[j] != ch,
        decreases hi - i,
    {
        if chars[i] == ch {
            proof {
                lemma_find_idx_props(sub, 0, ch);
                assert(sub[i - lo] == ch);
                let f = find_idx(sub, 0, ch);
                assert(f <= i - lo);
                assert(f >= i - lo);
            }
            return i;
        }
        proof {
            assert(sub[i - lo] == chars@[i as int]);
        }
        i = i + 1;
    }
    proof {
        lemma_find_idx_props(sub, 0, ch);
        let f = find_idx(sub, 0, ch);
        assert(f >= sub.len());
    }
    hi
}

} // verus!
