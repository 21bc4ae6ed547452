use vstd::prelude::*;

verus! {

/// `p` is a prefix of `s`.
pub open spec fn is_prefix(p: Seq<char>, s: Seq<char>) -> bool {
    p.len() <= s.len() && s.subrange(0, p.len() as int) == p
}

/// `t` occurs in `s` starting at position `i`.
pub open spec fn occurs_at(s: Seq<char>, t: Seq<char>, i: int) -> bool {
    0 <= i && i + t.len() <= s.len() && s.subrange(i, i + t.len()) == t
}

/// `t` occurs somewhere in `s`.
pub open spec fn has_substring(s: Seq<char>, t: Seq<char>) -> bool {
    exists|i: int| occurs_at(s, t, i)
}

/// `i` is the position of the first `c` in `s`.
pub open spec fn first_index_of(s: Seq<char>, c: char, i: int) -> bool {
    0 <= i < s.len() && s[i] == c && forall|j: int| 0 <= j < i ==> s[j] != c
}

/// `s` holds no `c`.
pub open spec fn lacks_char(s: Seq<char>, c: char) -> bool {
    forall|j: int| 0 <= j < s.len() ==> s[j] != c
}

pub open spec fn is_digit(c: char) -> bool {
    '0' <= c <= '9'
}

pub open spec fn digit_value(c: char) -> int {
    c as int - '0' as int
}

/// The number that a string of decimal digits spells.
pub open spec fn decimal_value(d: Seq<char>) -> int
    decreases d.len(),
{
    if d.len() == 0 {
        0
    } else {
        decimal_value(d.drop_last()) * 10 + digit_value(d.last())
    }
}

/// The digits of a port number: the text with one leading `+` removed.
pub open spec fn port_digits(t: Seq<char>) -> Seq<char> {
    if t.len() > 0 && t[0] == '+' {
        t.drop_first()
    } else {
        t
    }
}

/// The port that `t` denotes, read as an unsigned 16-bit decimal number with an
/// optional leading `+`; `None` where the text is empty, holds a non-digit, or
/// denotes a number above 65535.
pub open spec fn port_of(t: Seq<char>) -> Option<u16> {
    let d = port_digits(t);
    if d.len() == 0 || exists|j: int| 0 <= j < d.len() && !is_digit(d[j]) {
        None
    } else if decimal_value(d) > 65535 {
        None
    } else {
        Some(decimal_value(d) as u16)
    }
}

/// Whether `s` starts with `p`.
pub fn starts_with_text(s: &str, p: &str) -> (r: bool)
    ensures
        r == is_prefix(p@, s@),
{
    let n = p.unicode_len();
    let m = s.unicode_len();
    if n > m {
        return false;
    }
    let mut i: usize = 0;
    while i < n
        invariant
            i <= n,
            n == p@.len(),
            m == s@.len(),
            n <= m,
            forall|j: int| 0 <= j < i ==> s@[j] == p@[j],
        decreases n - i,
    {
        if s.get_char(i) != p.get_char(i) {
            assert(s@.subrange(0, n as int)[i as int] != p@[i as int]);
            return false;
        }
        i += 1;
    }
    assert(s@.subrange(0, n as int) =~= p@);
    true
}

/// Whether `a` and `b` hold the same characters.
pub fn same_text(a: &str, b: &str) -> (r: bool)
    ensures
        r == (a@ == b@),
{
    if a.unicode_len() != b.unicode_len() {
        return false;
    }
    let r = starts_with_text(a, b);
    proof {
        if a@ == b@ {
            assert(a@.subrange(0, a@.len() as int) =~= a@);
        }
        if r {
            assert(a@ =~= a@.subrange(0, b@.len() as int));
        }
    }
    r
}

/// The position of the first `c` in `s`, if any.
pub fn find_char(s: &str, c: char) -> (r: Option<usize>)
    ensures
        match r {
            Some(i) => first_index_of(s@, c, i as int),
            None => lacks_char(s@, c),
        },
{
    let n = s.unicode_len();
    let mut i: usize = 0;
    while i < n
        invariant
            i <= n,
            n == s@.len(),
            forall|j: int| 0 <= j < i ==> s@[j] != c,
        decreases n - i,
    {
        if s.get_char(i) == c {
            return Some(i);
        }
        i += 1;
    }
    None
}

/// Whether `t` occurs in `s`.
pub fn contains_text(s: &str, t: &str) -> (r: bool)
    ensures
        r == has_substring(s@, t@),
{
    let n = s.unicode_len();
    let k = t.unicode_len();
    if k > n {
        assert forall|i: int| !occurs_at(s@, t@, i) by {}
        return false;
    }
    if k == 0 {
        assert(s@.subrange(0, 0) =~= t@);
        assert(occurs_at(s@, t@, 0));
        return true;
    }
    let mut i: usize = 0;
    while i <= n - k
        invariant
            n == s@.len(),
            k == t@.len(),
            1 <= k <= n,
            i <= n - k + 1,
            forall|j: int| 0 <= j < i ==> !occurs_at(s@, t@, j),
        decreases n - k + 1 - i,
    {
        let rest = s.substring_char(i, n);
        if starts_with_text(rest, t) {
            assert(rest@.subrange(0, k as int) =~= s@.subrange(i as int, i + k));
            assert(occurs_at(s@, t@, i as int));
            return true;
        }
        assert(rest@.subrange(0, k as int) =~= s@.subrange(i as int, i + k));
        i += 1;
    }
    assert forall|j: int| !occurs_at(s@, t@, j) by {
        if 0 <= j && j < i {
        }
    }
    false
}

pub open spec fn has_colon(t: Seq<char>) -> bool {
    exists|i: int| first_index_of(t, ':', i)
}

pub open spec fn colon_index(t: Seq<char>) -> int
    recommends
        has_colon(t),
{
    choose|i: int| first_index_of(t, ':', i)
}

/// The position of the first colon in `target`, if any.
pub fn colon_position(target: &str) -> (r: Option<usize>)
    ensures
        r is Some <==> has_colon(target@),
        r matches Some(i) ==> i == colon_index(target@) && first_index_of(target@, ':', i as int),
{
    let r = find_char(target, ':');
    match r {
        Some(i) => {
            assert(first_index_of(target@, ':', i as int));
            let ghost j = colon_index(target@);
            assert(j == i) by {
                if j < i {
                    assert(target@[j] == ':');
                } else if i < j {
                    assert(target@[i as int] == ':');
                }
            }
        },
        None => {
            assert(!has_colon(target@));
        },
    }
    r
}

/// `i` is the position of the last `c` in `s`.
pub open spec fn last_index_of(s: Seq<char>, c: char, i: int) -> bool {
    0 <= i < s.len() && s[i] == c && forall|j: int| i < j < s.len() ==> s[j] != c
}

pub open spec fn last_colon_index(t: Seq<char>) -> int
    recommends
        has_colon(t),
{
    choose|i: int| last_index_of(t, ':', i)
}

/// The position of the last colon in `target`, if any.
pub fn last_colon_position(target: &str) -> (r: Option<usize>)
    ensures
        r is Some <==> has_colon(target@),
        r matches Some(i) ==> i == last_colon_index(target@) && last_index_of(
            target@,
            ':',
            i as int,
        ),
{
    let first = match colon_position(target) {
        None => return None,
        Some(f) => f,
    };
    let n = target.unicode_len();
    let mut k: usize = n;
    while k > first + 1 && target.get_char(k - 1) != ':'
        invariant
            first < k <= n,
            n == target@.len(),
            target@[first as int] == ':',
            forall|j: int| k <= j < n ==> target@[j] != ':',
        decreases k,
    {
        k -= 1;
    }
    let i: usize = k - 1;
    assert(last_index_of(target@, ':', i as int)) by {
        if i != first {
            assert(target@[i as int] == ':');
        }
    }
    let ghost j = last_colon_index(target@);
    assert(j == i) by {
        if j < i {
            assert(target@[i as int] == ':');
        } else if i < j {
            assert(target@[j] == ':');
        }
    }
    Some(i)
}

/// The port number that `t` spells (see `port_of`).
pub fn parse_port(t: &str) -> (r: Option<u16>)
    ensures
        r == port_of(t@),
{
    let n = t.unicode_len();
    let start: usize = if n > 0 && t.get_char(0) == '+' { 1 } else { 0 };
    let d = t.substring_char(start, n);
    proof {
        if start == 1 {
            assert(d@ =~= t@.drop_first());
        } else {
            assert(d@ =~= t@);
        }
    }
    let m = d.unicode_len();
    if m == 0 {
        return None;
    }
    let mut i: usize = 0;
    let mut value: u32 = 0;
    while i < m
        invariant
            i <= m,
            m == d@.len(),
            d@ == port_digits(t@),
            forall|j: int| 0 <= j < i ==> is_digit(d@[j]),
            value as int == if decimal_value(d@.take(i as int)) < 65536 {
                decimal_value(d@.take(i as int))
            } else {
                65536
            },
        decreases m - i,
    {
        let c = d.get_char(i);
        if !('0' <= c && c <= '9') {
            return None;
        }
        let digit = (c as u32) - ('0' as u32);
        let ghost before = decimal_value(d@.take(i as int));
        assert(d@.take(i + 1).drop_last() =~= d@.take(i as int));
        assert(decimal_value(d@.take(i + 1)) == before * 10 + digit);
        if value == 65536 {
            assert(before >= 65536);
            assert(before * 10 + digit >= 65536) by (nonlinear_arith)
                requires
                    before >= 65536,
                    digit >= 0,
            ;
        } else {
            let next = value * 10 + digit;
            value = if next < 65536 { next } else { 65536 };
        }
        i += 1;
    }
    assert(d@.take(m as int) =~= d@);
    if value == 65536 {
        None
    } else {
        Some(value as u16)
    }
}

} // verus!
