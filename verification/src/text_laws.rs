//! What holds of texts: how they are split, trimmed, cut, counted and read as
//! numbers.

use vstd::prelude::*;

use crate::ip::{
    elided_at, group_list, group_side, is_group, is_hex_digit, is_ip, is_ipv4, is_ipv6, is_octet,
};
use crate::patterns::{first_without, is_email, is_name_char, is_repo};
use crate::text::{
    decimal_of, digits_value, first_chars, is_digit, is_space, is_u64, opt_text, split_on, stripped,
    texts, trim_end, trim_start, trimmed, unsigned_digits, word_count,
};

verus! {

/// A list of strings has as many texts, and each is that of its string.
pub proof fn texts_are_those_of_the_strings(v: Seq<String>)
    ensures
        texts(v).len() == v.len(),
        forall|i: int| 0 <= i < v.len() ==> #[trigger] texts(v)[i] == v[i]@,
{
}

/// An optional string has the text of the string, where there is one.
pub proof fn optional_texts_are_those_of_the_strings(o: Option<String>)
    ensures
        opt_text(o) is Some <==> o is Some,
        o is Some ==> opt_text(o)->0 == o->0@,
{
}

/// The characters that count as white space.
pub proof fn white_space_is_listed(c: char)
    ensures
        is_space(c) <==> seq![
            0x09u32,
            0x0a,
            0x0b,
            0x0c,
            0x0d,
            0x20,
            0x85,
            0xa0,
            0x1680,
            0x2000,
            0x2001,
            0x2002,
            0x2003,
            0x2004,
            0x2005,
            0x2006,
            0x2007,
            0x2008,
            0x2009,
            0x200a,
            0x2028,
            0x2029,
            0x202f,
            0x205f,
            0x3000,
        ].contains(c as u32),
{
    let n = c as u32;
    let all = seq![
        0x09u32,
        0x0a,
        0x0b,
        0x0c,
        0x0d,
        0x20,
        0x85,
        0xa0,
        0x1680,
        0x2000,
        0x2001,
        0x2002,
        0x2003,
        0x2004,
        0x2005,
        0x2006,
        0x2007,
        0x2008,
        0x2009,
        0x200a,
        0x2028,
        0x2029,
        0x202f,
        0x205f,
        0x3000,
    ];
    if 0x09 <= n <= 0x0d {
        assert(all[n - 0x09] == n);
    } else if n == 0x20 {
        assert(all[5] == n);
    } else if n == 0x85 {
        assert(all[6] == n);
    } else if n == 0xa0 {
        assert(all[7] == n);
    } else if n == 0x1680 {
        assert(all[8] == n);
    } else if 0x2000 <= n <= 0x200a {
        assert(all[9 + n - 0x2000] == n);
    } else if n == 0x2028 {
        assert(all[20] == n);
    } else if n == 0x2029 {
        assert(all[21] == n);
    } else if n == 0x202f {
        assert(all[22] == n);
    } else if n == 0x205f {
        assert(all[23] == n);
    } else if n == 0x3000 {
        assert(all[24] == n);
    }
}

/// A text of white space alone.
pub open spec fn is_blank(s: Seq<char>) -> bool {
    forall|i: int| 0 <= i < s.len() ==> is_space(#[trigger] s[i])
}

proof fn trim_start_cuts(s: Seq<char>)
    ensures
        exists|n: int|
            0 <= n <= s.len() && is_blank(#[trigger] s.take(n)) && trim_start(s) == s.skip(n),
        trim_start(s).len() > 0 ==> !is_space(trim_start(s)[0]),
    decreases s.len(),
{
    if s.len() > 0 && is_space(s[0]) {
        let rest = s.drop_first();
        trim_start_cuts(rest);
        let n = choose|n: int|
            0 <= n <= rest.len() && is_blank(#[trigger] rest.take(n)) && trim_start(rest)
                == rest.skip(n);
        assert forall|i: int| 0 <= i < n + 1 implies is_space(#[trigger] s.take(n + 1)[i]) by {
            if i > 0 {
                assert(rest.take(n)[i - 1] == s[i]);
            }
        }
        assert(is_blank(s.take(n + 1)));
        assert(rest.skip(n) =~= s.skip(n + 1));
    } else {
        assert(is_blank(s.take(0)));
        assert(s.skip(0) =~= s);
    }
}

proof fn trim_end_cuts(s: Seq<char>)
    ensures
        exists|n: int|
            0 <= n <= s.len() && is_blank(#[trigger] s.skip(n)) && trim_end(s) == s.take(n),
        trim_end(s).len() > 0 ==> !is_space(trim_end(s).last()),
    decreases s.len(),
{
    if s.len() > 0 && is_space(s.last()) {
        let init = s.drop_last();
        trim_end_cuts(init);
        let n = choose|n: int|
            0 <= n <= init.len() && is_blank(#[trigger] init.skip(n)) && trim_end(init)
                == init.take(n);
        assert forall|i: int| 0 <= i < s.len() - n implies is_space(#[trigger] s.skip(n)[i]) by {
            if i < init.len() - n {
                assert(init.skip(n)[i] == s[n + i]);
            }
        }
        assert(is_blank(s.skip(n)));
        assert(init.take(n) =~= s.take(n));
    } else {
        assert(is_blank(s.skip(s.len() as int)));
        assert(s.take(s.len() as int) =~= s);
    }
}

/// Trimming takes white space away at both ends and nothing else, and leaves none
/// there.
pub proof fn trimming_takes_white_space_at_the_ends(s: Seq<char>)
    ensures
        exists|front: Seq<char>, back: Seq<char>|
            is_blank(front) && is_blank(back) && s == #[trigger] (front + trimmed(s) + back),
        trimmed(s).len() > 0 ==> !is_space(trimmed(s)[0]) && !is_space(trimmed(s).last()),
{
    trim_start_cuts(s);
    let n = choose|n: int|
        0 <= n <= s.len() && is_blank(#[trigger] s.take(n)) && trim_start(s) == s.skip(n);
    let rest = s.skip(n);
    trim_end_cuts(rest);
    let m = choose|m: int|
        0 <= m <= rest.len() && is_blank(#[trigger] rest.skip(m)) && trim_end(rest) == rest.take(m);
    assert(s =~= s.take(n) + trimmed(s) + rest.skip(m));
    if trimmed(s).len() > 0 {
        assert(trimmed(s)[0] == rest[0]);
    }
}

/// Words are counted over white space: a text without any is one word, unless it
/// is empty, and around a white space character the words add up.
pub proof fn words_are_counted(a: Seq<char>, space: char, b: Seq<char>)
    requires
        is_space(space),
    ensures
        word_count(Seq::empty()) == 0,
        a.len() > 0 && (forall|i: int| 0 <= i < a.len() ==> !is_space(#[trigger] a[i]))
            ==> word_count(a) == 1,
        word_count(a.push(space) + b) == word_count(a) + word_count(b),
    decreases a.len() + b.len(),
{
    if b.len() > 0 {
        let whole = a.push(space) + b;
        words_are_counted(a, space, b.drop_last());
        assert(whole.drop_last() =~= a.push(space) + b.drop_last());
        assert(whole.last() == b.last());
        if b.len() > 1 {
            assert(whole[whole.len() - 2] == b[b.len() - 2]);
        } else {
            assert(whole[whole.len() - 2] == space);
            assert(b.drop_last() =~= Seq::<char>::empty());
        }
    } else {
        assert(a.push(space) + b =~= a.push(space));
        assert(a.push(space).drop_last() =~= a);
        assert(b =~= Seq::<char>::empty());
    }
    if a.len() > 0 && (forall|i: int| 0 <= i < a.len() ==> !is_space(#[trigger] a[i])) {
        let init = a.drop_last();
        if init.len() > 0 {
            assert forall|i: int| 0 <= i < init.len() implies !is_space(#[trigger] init[i]) by {
                assert(init[i] == a[i]);
            }
            words_are_counted(init, space, Seq::empty());
            assert(!is_space(a[a.len() - 2]));
        } else {
            assert(init =~= Seq::<char>::empty());
        }
        assert(a.last() == a[a.len() - 1]);
    }
}

/// Pieces joined with a separator between each two.
pub open spec fn joined(pieces: Seq<Seq<char>>, sep: char) -> Seq<char>
    decreases pieces.len(),
{
    if pieces.len() == 0 {
        Seq::empty()
    } else if pieces.len() == 1 {
        pieces[0]
    } else {
        joined(pieces.drop_last(), sep).push(sep) + pieces.last()
    }
}

/// A text without a character.
pub open spec fn lacks(s: Seq<char>, c: char) -> bool {
    forall|i: int| 0 <= i < s.len() ==> #[trigger] s[i] != c
}

/// Splitting a text at a separator gives at least one piece and none with the
/// separator in it, and the pieces joined give the text back.
pub proof fn pieces_join_to_the_text(s: Seq<char>, sep: char)
    ensures
        split_on(s, sep).len() >= 1,
        joined(split_on(s, sep), sep) == s,
        forall|i: int| 0 <= i < split_on(s, sep).len() ==> lacks(#[trigger] split_on(s, sep)[i], sep),
    decreases s.len(),
{
    if s.len() == 0 {
        assert(split_on(s, sep)[0] =~= s);
    } else {
        let init = s.drop_last();
        let before = split_on(init, sep);
        let all = split_on(s, sep);
        pieces_join_to_the_text(init, sep);
        assert(init.push(s.last()) =~= s);
        if s.last() == sep {
            assert(all.drop_last() =~= before);
            assert(joined(all, sep) =~= s);
        } else {
            let last = before.last().push(s.last());
            assert(all.last() == last);
            if before.len() == 1 {
                assert(joined(before, sep) == before[0]);
                assert(all.len() == 1 && all[0] == last);
            } else {
                assert(all.drop_last() =~= before.drop_last());
                assert(joined(all, sep) =~= s);
            }
            assert(lacks(before[before.len() - 1], sep));
            assert forall|i: int| 0 <= i < all.len() implies lacks(#[trigger] all[i], sep) by {
                if i < before.len() - 1 {
                    assert(all[i] == before[i]);
                } else {
                    assert forall|j: int| 0 <= j < all[i].len() implies #[trigger] all[i][j]
                        != sep by {
                        if j < before.last().len() {
                            assert(before[before.len() - 1][j] == all[i][j]);
                        }
                    }
                }
            }
        }
    }
}

proof fn split_of_longer(s: Seq<char>, sep: char, t: Seq<char>)
    requires
        lacks(t, sep),
    ensures
        split_on(s.push(sep) + t, sep) == split_on(s, sep).push(t),
    decreases t.len(),
{
    if t.len() == 0 {
        assert(s.push(sep) + t =~= s.push(sep));
        assert(s.push(sep).drop_last() =~= s);
        assert(t =~= Seq::<char>::empty());
    } else {
        let init = t.drop_last();
        assert forall|i: int| 0 <= i < init.len() implies #[trigger] init[i] != sep by {
            assert(init[i] == t[i]);
        }
        split_of_longer(s, sep, init);
        let whole = s.push(sep) + t;
        assert(whole.drop_last() =~= s.push(sep) + init);
        assert(whole.last() == t[t.len() - 1]);
        let before = split_on(s, sep).push(init);
        assert(before.drop_last() =~= split_on(s, sep));
        assert(init.push(t.last()) =~= t);
    }
}

/// Pieces without the separator that are joined and split again are the same.
pub proof fn joined_pieces_split_again(pieces: Seq<Seq<char>>, sep: char)
    requires
        pieces.len() >= 1,
        forall|i: int| 0 <= i < pieces.len() ==> lacks(#[trigger] pieces[i], sep),
    ensures
        split_on(joined(pieces, sep), sep) == pieces,
    decreases pieces.len(),
{
    if pieces.len() == 1 {
        let t = pieces[0];
        one_piece_is_whole(t, sep);
        assert(seq![t] =~= pieces);
    } else {
        let init = pieces.drop_last();
        assert forall|i: int| 0 <= i < init.len() implies lacks(#[trigger] init[i], sep) by {
            assert(init[i] == pieces[i]);
        }
        joined_pieces_split_again(init, sep);
        assert(lacks(pieces[pieces.len() - 1], sep));
        split_of_longer(joined(init, sep), sep, pieces.last());
        assert(init.push(pieces.last()) =~= pieces);
    }
}

proof fn one_piece_is_whole(t: Seq<char>, sep: char)
    requires
        lacks(t, sep),
    ensures
        split_on(t, sep) == seq![t],
    decreases t.len(),
{
    if t.len() > 0 {
        let init = t.drop_last();
        assert forall|i: int| 0 <= i < init.len() implies #[trigger] init[i] != sep by {
            assert(init[i] == t[i]);
        }
        one_piece_is_whole(init, sep);
        assert(t.last() == t[t.len() - 1]);
        assert(init.push(t.last()) =~= t);
        assert(split_on(t, sep) =~= seq![t]);
    } else {
        assert(t =~= Seq::<char>::empty());
        assert(split_on(t, sep) =~= seq![t]);
    }
}

/// What is left behind a prefix makes the text again with it; where nothing is
/// left, the text does not start with it.
pub proof fn prefixes_are_taken_off(s: Seq<char>, prefix: Seq<char>, rest: Seq<char>)
    ensures
        stripped(s, prefix) == Some(rest) <==> s == prefix + rest,
        stripped(s, prefix) is None <==> !(exists|t: Seq<char>| s == #[trigger] (prefix + t)),
{
    if prefix.is_prefix_of(s) {
        assert(s =~= prefix + s.skip(prefix.len() as int));
    }
    assert forall|t: Seq<char>| s == #[trigger] (prefix + t) implies prefix.is_prefix_of(s) && t
        == s.skip(prefix.len() as int) by {
        assert(prefix =~= s.subrange(0, prefix.len() as int));
        assert(t =~= s.skip(prefix.len() as int));
    }
    if s == prefix + rest {
        assert(prefix.is_prefix_of(s));
    }
}

/// Cutting a text at a number of characters keeps its start: all of it where it
/// is no longer than that, and exactly that many otherwise.
pub proof fn cutting_keeps_the_start(s: Seq<char>, n: nat)
    ensures
        exists|rest: Seq<char>| s == #[trigger] (first_chars(s, n) + rest),
        first_chars(s, n).len() == if s.len() <= n {
            s.len()
        } else {
            n
        },
{
    if s.len() <= n {
        assert(s =~= first_chars(s, n) + Seq::<char>::empty());
    } else {
        assert(s =~= first_chars(s, n) + s.skip(n as int));
    }
}

/// A number in decimal is made of digits, has no leading zero unless it is zero,
/// and stands for the number.
pub proof fn decimals_stand_for_their_number(n: nat)
    ensures
        decimal_of(n).len() >= 1,
        forall|i: int| 0 <= i < decimal_of(n).len() ==> '0' <= #[trigger] decimal_of(n)[i] <= '9',
        decimal_of(n).len() > 1 ==> decimal_of(n)[0] != '0',
        decimal_of(n)[0] == '0' ==> n == 0,
        digits_value(decimal_of(n)) == n,
    decreases n,
{
    let s = decimal_of(n);
    if n < 10 {
        assert(s.drop_last() =~= Seq::<char>::empty());
        assert(digits_value(s.drop_last()) == 0);
        assert(s.last() as nat == 48 + n);
    } else {
        decimals_stand_for_their_number(n / 10);
        let d = n % 10;
        let init = decimal_of(n / 10);
        assert(s.drop_last() =~= init);
        assert(s.last() as nat == 48 + d);
        assert(s[0] == init[0]);
        assert forall|i: int| 0 <= i < s.len() implies '0' <= #[trigger] s[i] <= '9' by {
            if i < init.len() {
                assert(s[i] == init[i]);
            }
        }
    }
}

/// Digits count by their place: the number of a text with one more digit is ten
/// times as large, and the digit more.
pub proof fn digits_count_by_place(s: Seq<char>, d: nat)
    requires
        d < 10,
    ensures
        digits_value(Seq::empty()) == 0,
        digits_value(s.push((48 + d) as char)) == 10 * digits_value(s) + d,
{
    assert(s.push((48 + d) as char).drop_last() =~= s);
    assert(((48 + d) as char) as nat == 48 + d);
}

/// One or more decimal digits.
pub open spec fn are_digits(s: Seq<char>) -> bool {
    s.len() > 0 && forall|i: int| 0 <= i < s.len() ==> '0' <= #[trigger] s[i] <= '9'
}

/// What reads as a number are digits, leading zeros among them, with or without a
/// plus sign in front, that stand for a number of 64 bits; and nothing else does.
pub proof fn digits_are_read_as_numbers(s: Seq<char>)
    ensures
        are_digits(s) ==> (is_u64(s) <==> digits_value(s) < 0x1_0000_0000_0000_0000)
            && unsigned_digits(s) == s,
        are_digits(s) ==> (is_u64(seq!['+'] + s) <==> digits_value(s) < 0x1_0000_0000_0000_0000)
            && unsigned_digits(seq!['+'] + s) == s,
        is_u64(s) ==> are_digits(s) || exists|d: Seq<char>| #[trigger] are_digits(d) && s == seq!['+']
            + d,
{
    assert((seq!['+'] + s).skip(1) =~= s);
    if are_digits(s) {
        assert('0' <= s[0] <= '9');
        assert forall|i: int| 0 <= i < s.len() implies is_digit(#[trigger] s[i]) by {
            assert('0' <= s[i] <= '9');
        }
    }
    if is_u64(s) {
        let d = unsigned_digits(s);
        assert forall|i: int| 0 <= i < d.len() implies '0' <= #[trigger] d[i] <= '9' by {
            assert(is_digit(d[i]));
        }
        assert(are_digits(d));
        if s.len() > 0 && s[0] == '+' {
            assert(s =~= seq!['+'] + d);
        }
    }
}

/// A number that is written in decimal is read back.
pub proof fn numbers_are_read_as_written(n: nat)
    ensures
        is_u64(decimal_of(n)) <==> n < 0x1_0000_0000_0000_0000,
        digits_value(unsigned_digits(decimal_of(n))) == n,
{
    decimals_stand_for_their_number(n);
    assert forall|i: int| 0 <= i < decimal_of(n).len() implies '0' <= #[trigger] decimal_of(n)[i]
        <= '9' by {}
    assert(are_digits(decimal_of(n)));
    digits_are_read_as_numbers(decimal_of(n));
}

proof fn names_make_a_repository(s: Seq<char>, owner: Seq<char>, name: Seq<char>)
    requires
        s == owner + seq!['/'] + name,
        is_name(owner),
        is_name(name),
    ensures
        is_repo(s),
{
    let slash = owner.len() as int;
    assert(s[slash] == '/');
    assert forall|i: int| 0 <= i < s.len() && i != slash implies is_name_char(#[trigger] s[i]) by {
        let c = if i < slash {
            owner[i]
        } else {
            name[i - slash - 1]
        };
        assert(is_name_letter(c));
        assert(s[i] == c);
    }
}

/// A name of a repository is two names with a slash between them, each of one or
/// more letters, digits, dots, underscores and hyphens of ASCII.
pub proof fn repositories_have_an_owner_and_a_name(s: Seq<char>)
    ensures
        is_repo(s) <==> exists|owner: Seq<char>, name: Seq<char>|
            #![trigger is_name(owner), is_name(name)]
            is_name(owner) && is_name(name) && s == owner + seq!['/'] + name,
{
    if is_repo(s) {
        let slash = choose|slash: int|
            {
                &&& 0 < slash < s.len() - 1
                &&& #[trigger] s[slash] == '/'
                &&& forall|i: int| 0 <= i < s.len() && i != slash ==> is_name_char(#[trigger] s[i])
            };
        let owner = s.take(slash);
        let name = s.skip(slash + 1);
        assert(s =~= owner + seq!['/'] + name);
        assert forall|i: int| 0 <= i < owner.len() implies is_name_letter(#[trigger] owner[i]) by {
            assert(is_name_char(s[i]));
        }
        assert forall|i: int| 0 <= i < name.len() implies is_name_letter(#[trigger] name[i]) by {
            assert(is_name_char(s[slash + 1 + i]));
        }
        assert(is_name(owner) && is_name(name));
    }
    if exists|owner: Seq<char>, name: Seq<char>|
        #![trigger is_name(owner), is_name(name)]
        is_name(owner) && is_name(name) && s == owner + seq!['/'] + name {
        let (owner, name) = choose|owner: Seq<char>, name: Seq<char>|
            #![trigger is_name(owner), is_name(name)]
            is_name(owner) && is_name(name) && s == owner + seq!['/'] + name;
        names_make_a_repository(s, owner, name);
    }
}

/// A letter, a digit, a dot, an underscore or a hyphen of ASCII.
pub open spec fn is_name_letter(c: char) -> bool {
    'a' <= c <= 'z' || 'A' <= c <= 'Z' || '0' <= c <= '9' || c == '-' || c == '_' || c == '.'
}

/// One or more such characters.
pub open spec fn is_name(s: Seq<char>) -> bool {
    s.len() > 0 && forall|i: int| 0 <= i < s.len() ==> is_name_letter(#[trigger] s[i])
}

/// A part of an address: one or more characters, without at sign and white space.
pub open spec fn is_part(s: Seq<char>) -> bool {
    s.len() > 0 && forall|i: int| 0 <= i < s.len() ==> #[trigger] s[i] != '@' && !is_space(s[i])
}

/// An e-mail address is a part, an at sign, a part, a dot and a part.
pub proof fn addresses_have_three_parts(s: Seq<char>)
    ensures
        is_email(s) <==> exists|local: Seq<char>, host: Seq<char>, top: Seq<char>|
            {
                &&& s == #[trigger] (local + seq!['@'] + host + seq!['.'] + top)
                &&& is_part(local)
                &&& is_part(host)
                &&& is_part(top)
            },
{
    if is_email(s) {
        let (at, dot) = choose|at: int, dot: int|
            {
                &&& 0 < at
                &&& at + 1 < dot < s.len() - 1
                &&& #[trigger] s[at] == '@'
                &&& #[trigger] s[dot] == '.'
                &&& forall|i: int|
                    0 <= i < s.len() && i != at ==> #[trigger] s[i] != '@' && !is_space(s[i])
            };
        let local = s.take(at);
        let host = s.subrange(at + 1, dot);
        let top = s.skip(dot + 1);
        assert(s =~= local + seq!['@'] + host + seq!['.'] + top);
        assert forall|i: int| 0 <= i < local.len() implies #[trigger] local[i] != '@' && !is_space(
            local[i],
        ) by {
            assert(local[i] == s[i]);
        }
        assert forall|i: int| 0 <= i < host.len() implies #[trigger] host[i] != '@' && !is_space(
            host[i],
        ) by {
            assert(host[i] == s[at + 1 + i]);
        }
        assert forall|i: int| 0 <= i < top.len() implies #[trigger] top[i] != '@' && !is_space(
            top[i],
        ) by {
            assert(top[i] == s[dot + 1 + i]);
        }
    }
    if exists|local: Seq<char>, host: Seq<char>, top: Seq<char>|
        {
            &&& s == #[trigger] (local + seq!['@'] + host + seq!['.'] + top)
            &&& is_part(local)
            &&& is_part(host)
            &&& is_part(top)
        } {
        let (local, host, top) = choose|local: Seq<char>, host: Seq<char>, top: Seq<char>|
            {
                &&& s == #[trigger] (local + seq!['@'] + host + seq!['.'] + top)
                &&& is_part(local)
                &&& is_part(host)
                &&& is_part(top)
            };
        let at = local.len() as int;
        let dot = at + 1 + host.len();
        assert(s[at] == '@');
        assert(s[dot] == '.');
        assert(!is_space('.'));
        assert forall|i: int| 0 <= i < s.len() && i != at implies #[trigger] s[i] != '@'
            && !is_space(s[i]) by {
            if i < at {
                assert(s[i] == local[i]);
            } else if i < dot {
                assert(s[i] == host[i - at - 1]);
            } else if i > dot {
                assert(s[i] == top[i - dot - 1]);
            }
        }
    }
}

/// The first text of a list without a form: it is in the list and lacks the form,
/// and all in front of it have the form. There is none exactly if all have it.
pub proof fn the_first_without_a_form_is_found(v: Seq<Seq<char>>, form: spec_fn(Seq<char>) -> bool)
    ensures
        first_without(v, form) is None <==> forall|i: int|
            0 <= i < v.len() ==> form(#[trigger] v[i]),
        first_without(v, form) matches Some(t) ==> exists|i: int|
            0 <= i < v.len() && #[trigger] v[i] == t && !form(t) && forall|j: int|
                0 <= j < i ==> form(#[trigger] v[j]),
    decreases v.len(),
{
    if v.len() > 0 {
        let rest = v.drop_first();
        the_first_without_a_form_is_found(rest, form);
        if form(v[0]) {
            if first_without(rest, form) is None {
                assert forall|i: int| 0 <= i < v.len() implies form(#[trigger] v[i]) by {
                    if i > 0 {
                        assert(v[i] == rest[i - 1]);
                    }
                }
            } else {
                let t = first_without(rest, form)->0;
                let i = choose|i: int|
                    0 <= i < rest.len() && #[trigger] rest[i] == t && !form(t) && forall|j: int|
                        0 <= j < i ==> form(#[trigger] rest[j]);
                assert(v[i + 1] == t);
                assert forall|j: int| 0 <= j < i + 1 implies form(#[trigger] v[j]) by {
                    if j > 0 {
                        assert(v[j] == rest[j - 1]);
                    }
                }
            }
        }
    }
}

/// A number up to 255 in decimal is what stands between the dots of an address.
pub proof fn octets_are_small_numbers(p: Seq<char>)
    ensures
        is_octet(p) <==> exists|n: nat| n <= 255 && p == #[trigger] decimal_of(n),
{
    if is_octet(p) {
        decimal_of_value(p);
        assert(p == decimal_of(digits_value(p)));
    }
    if exists|n: nat| n <= 255 && p == #[trigger] decimal_of(n) {
        let n = choose|n: nat| n <= 255 && p == #[trigger] decimal_of(n);
        decimals_stand_for_their_number(n);
        assert forall|i: int| 0 <= i < p.len() implies is_digit(#[trigger] p[i]) by {
            assert('0' <= decimal_of(n)[i] <= '9');
        }
        reveal_with_fuel(decimal_of, 4);
        assert(p.len() <= 3);
    }
}

proof fn decimal_of_value(p: Seq<char>)
    requires
        p.len() >= 1,
        forall|i: int| 0 <= i < p.len() ==> is_digit(#[trigger] p[i]),
        p.len() > 1 ==> p[0] != '0',
    ensures
        decimal_of(digits_value(p)) == p,
        p[0] != '0' ==> digits_value(p) > 0,
    decreases p.len(),
{
    let init = p.drop_last();
    let last = p[p.len() - 1];
    assert(is_digit(last));
    let d = (last as nat - 48) as nat;
    assert(digits_value(p) == digits_value(init) * 10 + d);
    assert((48 + d) as char == last);
    if p.len() == 1 {
        assert(init =~= Seq::<char>::empty());
        assert(decimal_of(d) =~= p);
    } else {
        assert forall|i: int| 0 <= i < init.len() implies is_digit(#[trigger] init[i]) by {
            assert(init[i] == p[i]);
        }
        assert(init[0] == p[0]);
        decimal_of_value(init);
        let v = digits_value(init);
        assert((v * 10 + d) / 10 == v && (v * 10 + d) % 10 == d);
        assert(init.push(last) =~= p);
    }
}

/// An IPv4 address is four numbers up to 255 in decimal, with a dot between each
/// two.
pub proof fn ipv4_addresses_are_four_numbers(s: Seq<char>)
    ensures
        is_ipv4(s) <==> exists|a: nat, b: nat, c: nat, d: nat|
            a <= 255 && b <= 255 && c <= 255 && d <= 255 && s == #[trigger] dotted(a, b, c, d),
{
    if is_ipv4(s) {
        let parts = split_on(s, '.');
        assert(is_octet(parts[0]) && is_octet(parts[1]) && is_octet(parts[2]) && is_octet(parts[3]));
        octets_are_small_numbers(parts[0]);
        octets_are_small_numbers(parts[1]);
        octets_are_small_numbers(parts[2]);
        octets_are_small_numbers(parts[3]);
        let a = choose|n: nat| n <= 255 && parts[0] == #[trigger] decimal_of(n);
        let b = choose|n: nat| n <= 255 && parts[1] == #[trigger] decimal_of(n);
        let c = choose|n: nat| n <= 255 && parts[2] == #[trigger] decimal_of(n);
        let d = choose|n: nat| n <= 255 && parts[3] == #[trigger] decimal_of(n);
        pieces_join_to_the_text(s, '.');
        joined_four(parts, '.');
        assert(s =~= dotted(a, b, c, d));
    }
    if exists|a: nat, b: nat, c: nat, d: nat|
        a <= 255 && b <= 255 && c <= 255 && d <= 255 && s == #[trigger] dotted(a, b, c, d) {
        let (a, b, c, d) = choose|a: nat, b: nat, c: nat, d: nat|
            a <= 255 && b <= 255 && c <= 255 && d <= 255 && s == #[trigger] dotted(a, b, c, d);
        let parts = seq![decimal_of(a), decimal_of(b), decimal_of(c), decimal_of(d)];
        decimals_stand_for_their_number(a);
        decimals_stand_for_their_number(b);
        decimals_stand_for_their_number(c);
        decimals_stand_for_their_number(d);
        joined_four(parts, '.');
        assert(s =~= joined(parts, '.'));
        assert forall|i: int| 0 <= i < parts.len() implies lacks(#[trigger] parts[i], '.') by {}
        joined_pieces_split_again(parts, '.');
        octets_are_small_numbers(parts[0]);
        octets_are_small_numbers(parts[1]);
        octets_are_small_numbers(parts[2]);
        octets_are_small_numbers(parts[3]);
        assert forall|i: int| 0 <= i < 4 implies is_octet(#[trigger] parts[i]) by {
            assert(i == 0 || i == 1 || i == 2 || i == 3);
        }
    }
}

/// Four numbers in decimal with dots between them.
pub open spec fn dotted(a: nat, b: nat, c: nat, d: nat) -> Seq<char> {
    decimal_of(a) + seq!['.'] + decimal_of(b) + seq!['.'] + decimal_of(c) + seq!['.'] + decimal_of(d)
}

proof fn joined_four(parts: Seq<Seq<char>>, sep: char)
    requires
        parts.len() == 4,
    ensures
        joined(parts, sep) == parts[0] + seq![sep] + parts[1] + seq![sep] + parts[2] + seq![sep]
            + parts[3],
{
    reveal_with_fuel(joined, 5);
    let three = parts.drop_last();
    let two = three.drop_last();
    let one = two.drop_last();
    assert(one.len() == 1 && one[0] == parts[0]);
    assert(joined(two, sep) =~= parts[0] + seq![sep] + parts[1]);
    assert(joined(three, sep) =~= parts[0] + seq![sep] + parts[1] + seq![sep] + parts[2]);
    assert(joined(parts, sep) =~= parts[0] + seq![sep] + parts[1] + seq![sep] + parts[2] + seq![sep]
        + parts[3]);
}

/// One to four hexadecimal digits, of either case.
pub open spec fn is_hex_group(p: Seq<char>) -> bool {
    1 <= p.len() <= 4 && forall|i: int|
        0 <= i < p.len() ==> '0' <= #[trigger] p[i] <= '9' || 'a' <= p[i] <= 'f' || 'A' <= p[i]
            <= 'F'
}

/// Groups of an IPv6 address, each of one to four hexadecimal digits. Where
/// `embedded` is set, an IPv4 address may stand in place of the last two.
pub open spec fn are_groups(parts: Seq<Seq<char>>, embedded: bool) -> bool {
    forall|i: int|
        0 <= i < parts.len() ==> is_hex_group(#[trigger] parts[i]) || (embedded && i == parts.len()
            - 1 && is_ipv4(parts[i]))
}

/// How many groups such parts stand for.
pub open spec fn groups_in(parts: Seq<Seq<char>>) -> nat {
    if parts.len() > 0 && is_ipv4(parts.last()) {
        parts.len() + 1
    } else {
        parts.len()
    }
}

/// Groups with colons between them, and nothing where there are none.
pub open spec fn colons(parts: Seq<Seq<char>>) -> Seq<char> {
    joined(parts, ':')
}

proof fn no_group_is_an_address(p: Seq<char>)
    requires
        is_hex_group(p),
    ensures
        !is_ipv4(p),
        is_group(p),
        lacks(p, ':'),
{
    assert forall|i: int| 0 <= i < p.len() implies is_hex_digit(#[trigger] p[i]) by {
        assert('0' <= p[i] <= '9' || 'a' <= p[i] <= 'f' || 'A' <= p[i] <= 'F');
    }
    assert(lacks(p, '.'));
    one_piece_is_whole(p, '.');
}

proof fn no_address_has_a_colon(p: Seq<char>)
    requires
        is_ipv4(p),
    ensures
        lacks(p, ':'),
        p.len() > 0,
        !is_group(p),
{
    ipv4_addresses_are_four_numbers(p);
    let (a, b, c, d) = choose|a: nat, b: nat, c: nat, d: nat|
        a <= 255 && b <= 255 && c <= 255 && d <= 255 && p == #[trigger] dotted(a, b, c, d);
    decimals_stand_for_their_number(a);
    decimals_stand_for_their_number(b);
    decimals_stand_for_their_number(c);
    decimals_stand_for_their_number(d);
    let parts = seq![decimal_of(a), decimal_of(b), decimal_of(c), decimal_of(d)];
    assert(p[decimal_of(a).len() as int] == '.');
    assert(!is_hex_digit('.'));
    let (la, lb, lc) = (decimal_of(a).len() as int, decimal_of(b).len() as int, decimal_of(c).len() as int);
    assert forall|i: int| 0 <= i < p.len() implies #[trigger] p[i] != ':' by {
        if i < la {
            assert(p[i] == decimal_of(a)[i]);
        } else if la < i < la + 1 + lb {
            assert(p[i] == decimal_of(b)[i - la - 1]);
        } else if la + 1 + lb < i < la + lb + lc + 2 {
            assert(p[i] == decimal_of(c)[i - la - lb - 2]);
        } else if i > la + lb + lc + 2 {
            assert(p[i] == decimal_of(d)[i - la - lb - lc - 3]);
        }
    }
}

/// A text stands for a number of groups exactly if it is that many, with colons
/// between them.
proof fn lists_are_groups(s: Seq<char>, embedded: bool, n: nat)
    ensures
        group_list(s, embedded) == Some(n) <==> exists|parts: Seq<Seq<char>>|
            {
                &&& parts.len() > 0
                &&& #[trigger] are_groups(parts, embedded)
                &&& groups_in(parts) == n
                &&& s == colons(parts)
            },
{
    let all = split_on(s, ':');
    pieces_join_to_the_text(s, ':');
    if group_list(s, embedded) == Some(n) {
        assert forall|i: int| 0 <= i < all.len() implies is_hex_group(#[trigger] all[i]) || (embedded
            && i == all.len() - 1 && is_ipv4(all[i])) by {
            if is_group(all[i]) {
                assert forall|j: int| 0 <= j < all[i].len() implies '0' <= #[trigger] all[i][j]
                    <= '9' || 'a' <= all[i][j] <= 'f' || 'A' <= all[i][j] <= 'F' by {
                    assert(is_hex_digit(all[i][j]));
                }
            }
        }
        let last = all[all.len() - 1];
        if is_hex_group(last) {
            no_group_is_an_address(last);
            assert forall|i: int| 0 <= i < all.len() implies is_group(#[trigger] all[i]) by {
                if is_hex_group(all[i]) {
                    no_group_is_an_address(all[i]);
                }
            }
        } else {
            no_address_has_a_colon(last);
        }
        assert(are_groups(all, embedded));
    }
    if exists|parts: Seq<Seq<char>>|
        {
            &&& parts.len() > 0
            &&& #[trigger] are_groups(parts, embedded)
            &&& groups_in(parts) == n
            &&& s == colons(parts)
        } {
        let parts = choose|parts: Seq<Seq<char>>|
            {
                &&& parts.len() > 0
                &&& #[trigger] are_groups(parts, embedded)
                &&& groups_in(parts) == n
                &&& s == colons(parts)
            };
        assert forall|i: int| 0 <= i < parts.len() implies lacks(#[trigger] parts[i], ':') by {
            if is_hex_group(parts[i]) {
                no_group_is_an_address(parts[i]);
            } else {
                no_address_has_a_colon(parts[i]);
            }
        }
        joined_pieces_split_again(parts, ':');
        assert forall|i: int| 0 <= i < parts.len() - 1 implies is_group(#[trigger] parts[i]) by {
            no_group_is_an_address(parts[i]);
        }
        let last = parts[parts.len() - 1];
        if is_hex_group(last) {
            no_group_is_an_address(last);
            assert forall|i: int| 0 <= i < parts.len() implies is_group(#[trigger] parts[i]) by {
                if i == parts.len() - 1 {
                    assert(parts[i] == last);
                }
            }
        } else {
            no_address_has_a_colon(last);
            assert(!is_group(parts[parts.len() - 1]));
        }
    }
}

proof fn sides_are_groups(s: Seq<char>, embedded: bool, n: nat)
    ensures
        group_side(s, embedded) == Some(n) <==> exists|parts: Seq<Seq<char>>|
            {
                &&& #[trigger] are_groups(parts, embedded)
                &&& groups_in(parts) == n
                &&& s == colons(parts)
            },
{
    lists_are_groups(s, embedded, n);
    if s.len() == 0 {
        let none = Seq::<Seq<char>>::empty();
        assert(are_groups(none, embedded));
        assert(s =~= colons(none));
        assert(groups_in(none) == 0);
        assert forall|parts: Seq<Seq<char>>| #[trigger]
            are_groups(parts, embedded) && s == colons(parts) implies parts.len() == 0 by {
            if parts.len() > 0 {
                let last = parts[parts.len() - 1];
                if is_hex_group(last) {
                    no_group_is_an_address(last);
                } else {
                    no_address_has_a_colon(last);
                }
                assert(colons(parts).len() > 0);
            }
        }
    } else {
        assert forall|parts: Seq<Seq<char>>| #[trigger]
            are_groups(parts, embedded) && s == colons(parts) implies parts.len() > 0 by {}
    }
}

/// Eight groups with colons between them.
pub open spec fn is_whole(s: Seq<char>) -> bool {
    exists|parts: Seq<Seq<char>>|
        {
            &&& parts.len() > 0
            &&& #[trigger] are_groups(parts, true)
            &&& groups_in(parts) == 8
            &&& s == colons(parts)
        }
}

/// Groups on both sides of a double colon, at most seven in all.
pub open spec fn is_short_of(s: Seq<char>, left: Seq<Seq<char>>, right: Seq<Seq<char>>) -> bool {
    &&& are_groups(left, false)
    &&& are_groups(right, true)
    &&& left.len() + groups_in(right) <= 7
    &&& s == colons(left) + seq![':', ':'] + colons(right)
}

proof fn left_groups(left: Seq<Seq<char>>)
    requires
        are_groups(left, false),
    ensures
        groups_in(left) == left.len(),
{
    if left.len() > 0 {
        assert(is_hex_group(left[left.len() - 1]));
        no_group_is_an_address(left[left.len() - 1]);
    }
}

proof fn elided_is_short(s: Seq<char>, i: int)
    requires
        elided_at(s, i),
    ensures
        exists|left: Seq<Seq<char>>, right: Seq<Seq<char>>| #[trigger] is_short_of(s, left, right),
{
    let (front, back) = (s.take(i), s.skip(i + 2));
    let (m, n) = (group_side(front, false)->0, group_side(back, true)->0);
    sides_are_groups(front, false, m);
    sides_are_groups(back, true, n);
    let left = choose|parts: Seq<Seq<char>>|
        #[trigger] are_groups(parts, false) && groups_in(parts) == m && front == colons(parts);
    let right = choose|parts: Seq<Seq<char>>|
        #[trigger] are_groups(parts, true) && groups_in(parts) == n && back == colons(parts);
    left_groups(left);
    assert(s =~= front + seq![':', ':'] + back);
    assert(is_short_of(s, left, right));
}

proof fn short_is_elided(s: Seq<char>, left: Seq<Seq<char>>, right: Seq<Seq<char>>)
    requires
        is_short_of(s, left, right),
    ensures
        elided_at(s, colons(left).len() as int),
{
    let (front, back) = (colons(left), colons(right));
    let i = front.len() as int;
    left_groups(left);
    sides_are_groups(front, false, left.len());
    sides_are_groups(back, true, groups_in(right));
    assert(s.take(i) =~= front);
    assert(s.skip(i + 2) =~= back);
    assert(s[i] == ':' && s[i + 1] == ':');
}

/// An IPv6 address is eight groups with colons between them, or at most seven
/// with a double colon in place of those left out; an IPv4 address may stand in
/// place of the last two. An IP address is one of either version.
pub proof fn ipv6_addresses_are_groups(s: Seq<char>)
    ensures
        is_ipv6(s) <==> is_whole(s) || exists|left: Seq<Seq<char>>, right: Seq<Seq<char>>|
            #[trigger] is_short_of(s, left, right),
        is_ip(s) <==> is_ipv4(s) || is_ipv6(s),
{
    lists_are_groups(s, true, 8);
    if exists|i: int| elided_at(s, i) {
        elided_is_short(s, choose|i: int| elided_at(s, i));
    }
    if exists|left: Seq<Seq<char>>, right: Seq<Seq<char>>| #[trigger] is_short_of(s, left, right) {
        let (left, right) = choose|left: Seq<Seq<char>>, right: Seq<Seq<char>>| #[trigger]
            is_short_of(s, left, right);
        short_is_elided(s, left, right);
    }
}

} // verus!
