//! IP addresses in their textual form.

use vstd::prelude::*;

use crate::text::{
    chars_of, digits_value, is_digit, parse_u64, split, split_is_nonempty, split_on, texts,
    unsigned_digits,
};

verus! {

/// A decimal number up to 255, without leading zeros.
pub open spec fn is_octet(p: Seq<char>) -> bool {
    &&& 1 <= p.len() <= 3
    &&& forall|i: int| 0 <= i < p.len() ==> is_digit(#[trigger] p[i])
    &&& p.len() > 1 ==> p[0] != '0'
    &&& digits_value(p) <= 255
}

/// An IPv4 address: four octets with a dot between each two.
pub open spec fn is_ipv4(s: Seq<char>) -> bool {
    let parts = split_on(s, '.');
    &&& parts.len() == 4
    &&& forall|i: int| 0 <= i < 4 ==> is_octet(#[trigger] parts[i])
}

pub open spec fn is_hex_digit(c: char) -> bool {
    is_digit(c) || 'a' <= c <= 'f' || 'A' <= c <= 'F'
}

/// A group of an IPv6 address: one to four hexadecimal digits.
pub open spec fn is_group(p: Seq<char>) -> bool {
    &&& 1 <= p.len() <= 4
    &&& forall|i: int| 0 <= i < p.len() ==> is_hex_digit(#[trigger] p[i])
}

/// The number of groups that a list with colons between its parts stands for.
/// Where `embedded` is set, the last part may be an IPv4 address, which stands
/// for two groups.
pub open spec fn group_list(s: Seq<char>, embedded: bool) -> Option<nat> {
    let parts = split_on(s, ':');
    if forall|i: int| 0 <= i < parts.len() ==> is_group(#[trigger] parts[i]) {
        Some(parts.len())
    } else if embedded && is_ipv4(parts.last()) && forall|i: int|
        0 <= i < parts.len() - 1 ==> is_group(#[trigger] parts[i]) {
        Some(parts.len() + 1)
    } else {
        None
    }
}

/// The same for one side of a double colon, where nothing stands for no group.
pub open spec fn group_side(s: Seq<char>, embedded: bool) -> Option<nat> {
    if s.len() == 0 {
        Some(0)
    } else {
        group_list(s, embedded)
    }
}

/// A double colon at a position, with at most seven groups around it.
pub open spec fn elided_at(s: Seq<char>, i: int) -> bool {
    &&& 0 <= i < s.len() - 1
    &&& s[i] == ':'
    &&& s[i + 1] == ':'
    &&& group_side(s.take(i), false) is Some
    &&& group_side(s.skip(i + 2), true) is Some
    &&& group_side(s.take(i), false)->0 + group_side(s.skip(i + 2), true)->0 <= 7
}

/// An IPv6 address: eight groups, or fewer with a double colon in place of
/// those left out.
pub open spec fn is_ipv6(s: Seq<char>) -> bool {
    group_list(s, true) == Some(8nat) || exists|i: int| elided_at(s, i)
}

/// An IP address of either version.
pub open spec fn is_ip(s: Seq<char>) -> bool {
    is_ipv4(s) || is_ipv6(s)
}

proof fn small_digits_value(p: Seq<char>)
    requires
        p.len() <= 3,
        forall|i: int| 0 <= i < p.len() ==> is_digit(#[trigger] p[i]),
    ensures
        digits_value(p) <= 999,
{
    reveal_with_fuel(digits_value, 4);
    if p.len() == 3 {
        assert(p.drop_last().drop_last().drop_last().len() == 0);
        assert(is_digit(p[0]) && is_digit(p[1]) && is_digit(p[2]));
    } else if p.len() == 2 {
        assert(is_digit(p[0]) && is_digit(p[1]));
    } else if p.len() == 1 {
        assert(is_digit(p[0]));
    }
}

fn octet(p: &str) -> (r: bool)
    ensures
        r == is_octet(p@),
{
    let v = chars_of(p);
    if v.len() == 0 || v.len() > 3 {
        return false;
    }
    let mut i: usize = 0;
    while i < v.len()
        invariant
            i <= v@.len(),
            v@ == p@,
            forall|j: int| 0 <= j < i ==> is_digit(#[trigger] p@[j]),
        decreases v@.len() - i,
    {
        let c = v[i];
        if c < '0' || c > '9' {
            assert(!is_digit(p@[i as int]));
            return false;
        }
        i = i + 1;
    }
    if v.len() > 1 && v[0] == '0' {
        return false;
    }
    proof {
        assert(is_digit(p@[0]));
        assert(unsigned_digits(p@) == p@);
        small_digits_value(p@);
    }
    match parse_u64(p) {
        Some(n) => n <= 255,
        None => false,
    }
}

fn ipv4(s: &str) -> (r: bool)
    ensures
        r == is_ipv4(s@),
{
    let parts = split(s, '.');
    if parts.len() != 4 {
        return false;
    }
    let mut i: usize = 0;
    while i < 4
        invariant
            i <= 4,
            parts@.len() == 4,
            texts(parts@) == split_on(s@, '.'),
            forall|j: int| 0 <= j < i ==> is_octet(#[trigger] texts(parts@)[j]),
        decreases 4 - i,
    {
        assert(texts(parts@)[i as int] == parts@[i as int]@);
        if !octet(parts[i].as_str()) {
            return false;
        }
        i = i + 1;
    }
    true
}

fn group(p: &str) -> (r: bool)
    ensures
        r == is_group(p@),
{
    let v = chars_of(p);
    if v.len() == 0 || v.len() > 4 {
        return false;
    }
    let mut i: usize = 0;
    while i < v.len()
        invariant
            i <= v@.len(),
            v@ == p@,
            forall|j: int| 0 <= j < i ==> is_hex_digit(#[trigger] p@[j]),
        decreases v@.len() - i,
    {
        let c = v[i];
        if !(('0' <= c && c <= '9') || ('a' <= c && c <= 'f') || ('A' <= c && c <= 'F')) {
            assert(!is_hex_digit(p@[i as int]));
            return false;
        }
        i = i + 1;
    }
    true
}

/// Counts groups, up to the eight of a whole address.
fn groups(s: &str, embedded: bool) -> (r: Option<usize>)
    ensures
        match r {
            Some(n) => n <= 8 && group_list(s@, embedded) == Some(n as nat),
            None => group_list(s@, embedded) is None || group_list(s@, embedded)->0 > 8,
        },
{
    proof {
        split_is_nonempty(s@, ':');
    }
    let parts = split(s, ':');
    let ghost all = split_on(s@, ':');
    let n: usize = parts.len();
    assert(all.len() == n);
    if n > 8 {
        return None;
    }
    let mut i: usize = 0;
    while i < n - 1
        invariant
            i <= n - 1,
            1 <= n == parts@.len() <= 8,
            all == split_on(s@, ':'),
            texts(parts@) == all,
            forall|j: int| 0 <= j < i ==> is_group(#[trigger] all[j]),
        decreases n - i,
    {
        assert(all[i as int] == parts@[i as int]@);
        if !group(parts[i].as_str()) {
            assert(!is_group(all[i as int]));
            return None;
        }
        i = i + 1;
    }
    assert(all.last() == parts@[n - 1]@);
    if group(parts[n - 1].as_str()) {
        assert forall|j: int| 0 <= j < all.len() implies is_group(#[trigger] all[j]) by {
            if j == n - 1 {
                assert(all[j] == all.last());
            }
        }
        Some(n)
    } else {
        assert(!is_group(all[n - 1]));
        if embedded && n < 8 && ipv4(parts[n - 1].as_str()) {
            Some(n + 1)
        } else {
            None
        }
    }
}

fn side(s: &str, embedded: bool) -> (r: Option<usize>)
    ensures
        match r {
            Some(n) => n <= 8 && group_side(s@, embedded) == Some(n as nat),
            None => group_side(s@, embedded) is None || group_side(s@, embedded)->0 > 8,
        },
{
    if s.is_empty() {
        Some(0)
    } else {
        groups(s, embedded)
    }
}

fn ipv6(s: &str) -> (r: bool)
    ensures
        r == is_ipv6(s@),
{
    if let Some(n) = groups(s, true) {
        if n == 8 {
            return true;
        }
    }
    let v = chars_of(s);
    if v.len() < 2 {
        return false;
    }
    let mut i: usize = 0;
    while i < v.len() - 1
        invariant
            i <= v@.len() - 1,
            v@ == s@,
            forall|j: int| 0 <= j < i ==> !#[trigger] elided_at(s@, j),
        decreases v@.len() - i,
    {
        if v[i] == ':' && v[i + 1] == ':' {
            let before = s.substring_char(0, i);
            let after = s.substring_char(i + 2, v.len());
            assert(before@ =~= s@.take(i as int));
            assert(after@ =~= s@.skip(i + 2));
            match (side(before, false), side(after, true)) {
                (Some(a), Some(b)) => {
                    if a + b <= 7 {
                        assert(elided_at(s@, i as int));
                        return true;
                    }
                },
                _ => {},
            }
        }
        assert(!elided_at(s@, i as int));
        i = i + 1;
    }
    false
}

/// Whether a text is an IP address.
pub fn ip(s: &str) -> (r: bool)
    ensures
        r == is_ip(s@),
{
    ipv4(s) || ipv6(s)
}

} // verus!
